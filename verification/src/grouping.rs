use vstd::prelude::*;

use crate::model::{Task, TaskView};
use crate::registry::Registry;

verus! {

/// One group of the presentation: a label and the tasks listed under it.
pub struct TaskGroup {
    pub label: String,
    pub tasks: Vec<Task>,
}

/// The mathematical value of a `TaskGroup`.
#[verifier::ext_equal]
pub struct TaskGroupView {
    pub label: Seq<char>,
    pub tasks: Seq<TaskView>,
}

impl View for TaskGroup {
    type V = TaskGroupView;

    open spec fn view(&self) -> TaskGroupView {
        TaskGroupView { label: self.label@, tasks: self.tasks@.map_values(|t: Task| t@) }
    }
}

/// The label a task is grouped under: its category name snapshot, or the
/// mode's label for tasks without one.
pub open spec fn spec_label(t: TaskView, absent: Seq<char>) -> Seq<char> {
    match t.category {
        Some(n) => n,
        None => absent,
    }
}

/// The distinct labels of `ts`, in order of first appearance.
pub open spec fn spec_group_labels(ts: Seq<TaskView>, absent: Seq<char>) -> Seq<Seq<char>>
    decreases ts.len(),
{
    if ts.len() == 0 {
        Seq::empty()
    } else {
        let prev = spec_group_labels(ts.drop_last(), absent);
        if prev.contains(spec_label(ts.last(), absent)) {
            prev
        } else {
            prev.push(spec_label(ts.last(), absent))
        }
    }
}

/// Whether a task carries the label `l`.
pub open spec fn label_pred(absent: Seq<char>, l: Seq<char>) -> spec_fn(TaskView) -> bool {
    |t: TaskView| spec_label(t, absent) == l
}

/// The tasks of `ts` that carry the label `l`, in their original order.
pub open spec fn spec_tasks_with_label(
    ts: Seq<TaskView>,
    absent: Seq<char>,
    l: Seq<char>,
) -> Seq<TaskView> {
    ts.filter(label_pred(absent, l))
}

/// Whether `gs` is the grouping of `ts` by label: one group per distinct
/// label in order of first appearance, each holding exactly the tasks that
/// carry its label, in their original order.
pub open spec fn is_grouping(ts: Seq<TaskView>, absent: Seq<char>, gs: Seq<TaskGroupView>) -> bool {
    &&& gs.len() == spec_group_labels(ts, absent).len()
    &&& forall|g: int|
        0 <= g < gs.len() ==> #[trigger] gs[g].label == spec_group_labels(ts, absent)[g]
    &&& forall|g: int|
        0 <= g < gs.len() ==> #[trigger] gs[g].tasks == spec_tasks_with_label(
            ts,
            absent,
            gs[g].label,
        )
}

/// Every task's label occurs among the group labels: no task is dropped
/// by the grouping.
pub proof fn lemma_labels_cover(ts: Seq<TaskView>, absent: Seq<char>, i: int)
    requires
        0 <= i < ts.len(),
    ensures
        spec_group_labels(ts, absent).contains(spec_label(ts[i], absent)),
    decreases ts.len(),
{
    let prev = spec_group_labels(ts.drop_last(), absent);
    let l = spec_label(ts.last(), absent);
    let labels = spec_group_labels(ts, absent);
    if i == ts.len() - 1 {
        if !prev.contains(l) {
            assert(labels[prev.len() as int] == l);
        }
    } else {
        lemma_labels_cover(ts.drop_last(), absent, i);
        let li = spec_label(ts.drop_last()[i], absent);
        let j = choose|j: int| 0 <= j < prev.len() && prev[j] == li;
        assert(labels[j] == li);
        assert(ts.drop_last()[i] == ts[i]);
    }
}

/// The group labels are distinct: no label heads two groups.
pub proof fn lemma_labels_distinct(ts: Seq<TaskView>, absent: Seq<char>)
    ensures
        forall|a: int, b: int|
            0 <= a < b < spec_group_labels(ts, absent).len() ==> spec_group_labels(ts, absent)[a]
                != spec_group_labels(ts, absent)[b],
    decreases ts.len(),
{
    if ts.len() > 0 {
        lemma_labels_distinct(ts.drop_last(), absent);
        let prev = spec_group_labels(ts.drop_last(), absent);
        let l = spec_label(ts.last(), absent);
        if !prev.contains(l) {
            assert(forall|a: int| 0 <= a < prev.len() ==> prev[a] != l);
        }
    }
}

/// A filter over tasks none of which satisfies the predicate is empty.
proof fn lemma_filter_all_false(ts: Seq<TaskView>, pred: spec_fn(TaskView) -> bool)
    requires
        forall|i: int| 0 <= i < ts.len() ==> !pred(#[trigger] ts[i]),
    ensures
        ts.filter(pred) == Seq::<TaskView>::empty(),
    decreases ts.len(),
{
    reveal(Seq::filter);
    if ts.len() == 0 {
        assert(ts.filter(pred) =~= Seq::<TaskView>::empty());
    } else {
        assert(forall|i: int|
            0 <= i < ts.drop_last().len() ==> !pred(#[trigger] ts.drop_last()[i]));
        lemma_filter_all_false(ts.drop_last(), pred);
        assert(!pred(ts.last()));
    }
}

/// Filtering one more task keeps the previous picks and appends the task
/// exactly when it satisfies the predicate.
proof fn lemma_filter_push(ts: Seq<TaskView>, pred: spec_fn(TaskView) -> bool, x: TaskView)
    ensures
        ts.push(x).filter(pred) == if pred(x) {
            ts.filter(pred).push(x)
        } else {
            ts.filter(pred)
        },
{
    reveal(Seq::filter);
    assert(ts.push(x).drop_last() =~= ts);
    assert(ts.push(x).last() == x);
}

/// The index of the first group labelled `label`.
fn find_group(groups: &Vec<TaskGroup>, label: &String) -> (r: Option<usize>)
    ensures
        match r {
            Some(g) => g < groups@.len() && groups@[g as int]@.label == label@,
            None => forall|g: int| 0 <= g < groups@.len() ==> groups@[g]@.label != label@,
        },
{
    let n = groups.len();
    let mut g: usize = 0;
    while g < n
        invariant
            g <= n,
            n == groups@.len(),
            forall|j: int| 0 <= j < g ==> groups@[j]@.label != label@,
        decreases n - g,
    {
        if groups[g].label == *label {
            return Some(g);
        }
        g = g + 1;
    }
    None
}

/// Groups `tasks` by their category snapshot, labelling tasks without one
/// with `absent_label`. Groups appear in order of first appearance of their
/// label; each keeps its tasks in the source order.
pub fn group_tasks(tasks: &Vec<Task>, absent_label: &str) -> (groups: Vec<TaskGroup>)
    ensures
        is_grouping(
            tasks@.map_values(|t: Task| t@),
            absent_label@,
            groups@.map_values(|g: TaskGroup| g@),
        ),
{
    let ghost ts = tasks@.map_values(|t: Task| t@);
    let ghost absent = absent_label@;
    let mut groups: Vec<TaskGroup> = Vec::new();
    let n = tasks.len();
    proof {
        assert(ts.take(0) =~= Seq::<TaskView>::empty());
        assert(groups@.map_values(|g: TaskGroup| g@) =~= Seq::<TaskGroupView>::empty());
    }
    let mut idx: usize = 0;
    while idx < n
        invariant
            idx <= n,
            n == tasks@.len(),
            ts == tasks@.map_values(|t: Task| t@),
            absent == absent_label@,
            is_grouping(ts.take(idx as int), absent, groups@.map_values(|g: TaskGroup| g@)),
        decreases n - idx,
    {
        let label: String = match &tasks[idx].category {
            Some(name) => name.clone(),
            None => absent_label.to_owned(),
        };
        let cloned = tasks[idx].clone();
        let ghost ts0 = ts.take(idx as int);
        let ghost ts1 = ts.take(idx as int + 1);
        let ghost x = ts[idx as int];
        let ghost l = spec_label(x, absent);
        let ghost gs0 = groups@.map_values(|g: TaskGroup| g@);
        proof {
            assert(label@ == l);
            assert(cloned@ == x);
            assert(ts1 =~= ts0.push(x));
            assert(ts1.drop_last() =~= ts0);
            assert(ts1.last() == x);
            lemma_labels_distinct(ts0, absent);
        }
        match find_group(&groups, &label) {
            Some(g) => {
                let mut grp = groups.remove(g);
                grp.tasks.push(cloned);
                groups.insert(g, grp);
                proof {
                    let gs1 = groups@.map_values(|gr: TaskGroup| gr@);
                    assert(gs1 =~~= gs0.update(
                        g as int,
                        TaskGroupView {
                            label: gs0[g as int].label,
                            tasks: gs0[g as int].tasks.push(x),
                        },
                    ));
                    assert(spec_group_labels(ts0, absent)[g as int] == l);
                    assert(spec_group_labels(ts0, absent).contains(l));
                    assert(spec_group_labels(ts1, absent) == spec_group_labels(ts0, absent));
                    assert forall|gi: int| 0 <= gi < gs1.len() implies #[trigger] gs1[gi].tasks
                        == spec_tasks_with_label(ts1, absent, gs1[gi].label) by {
                        let m = gs1[gi].label;
                        lemma_filter_push(ts0, label_pred(absent, m), x);
                        if gi == g {
                            assert(label_pred(absent, m)(x));
                        } else {
                            assert(m != l);
                            assert(!label_pred(absent, m)(x));
                        }
                    }
                    assert(is_grouping(ts1, absent, gs1));
                }
            },
            None => {
                proof {
                    assert forall|gi: int|
                        0 <= gi < gs0.len() implies #[trigger] spec_group_labels(ts0, absent)[gi]
                        != l by {
                        assert(gs0[gi] == groups@[gi]@);
                        assert(groups@[gi]@.label != label@);
                    }
                }
                let mut fresh: Vec<Task> = Vec::new();
                fresh.push(cloned);
                groups.push(TaskGroup { label, tasks: fresh });
                proof {
                    let gs1 = groups@.map_values(|gr: TaskGroup| gr@);
                    assert(gs1 =~~= gs0.push(TaskGroupView { label: l, tasks: seq![x] }));
                    assert(!spec_group_labels(ts0, absent).contains(l));
                    assert(spec_group_labels(ts1, absent) == spec_group_labels(ts0, absent).push(
                        l,
                    ));
                    assert forall|i: int| 0 <= i < ts0.len() implies !label_pred(absent, l)(
                        #[trigger] ts0[i],
                    ) by {
                        lemma_labels_cover(ts0, absent, i);
                    }
                    lemma_filter_all_false(ts0, label_pred(absent, l));
                    assert forall|gi: int| 0 <= gi < gs1.len() implies #[trigger] gs1[gi].tasks
                        == spec_tasks_with_label(ts1, absent, gs1[gi].label) by {
                        let m = gs1[gi].label;
                        lemma_filter_push(ts0, label_pred(absent, m), x);
                        if gi == gs1.len() - 1 {
                            assert(label_pred(absent, m)(x));
                            assert(spec_tasks_with_label(ts1, absent, m) =~= seq![x]);
                        } else {
                            assert(m != l);
                            assert(!label_pred(absent, m)(x));
                        }
                    }
                    assert(is_grouping(ts1, absent, gs1));
                }
            },
        }
        idx = idx + 1;
    }
    proof {
        assert(ts.take(n as int) =~= ts);
    }
    groups
}

impl Registry {
    /// Groups the stored tasks for presentation, labelling tasks without a
    /// category snapshot `Uncategorized`, as the local mode renders them.
    pub fn list_tasks_grouped(&self) -> (groups: Vec<TaskGroup>)
        ensures
            is_grouping(self@.tasks, "Uncategorized"@, groups@.map_values(|g: TaskGroup| g@)),
    {
        group_tasks(&self.tasks, "Uncategorized")
    }
}

} // verus!
