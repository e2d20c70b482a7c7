use vstd::prelude::*;

use crate::errors::TrackerError;
use crate::model::{Category, CategoryView, Task, TaskView};
use crate::text::str_eq;

verus! {

/// The in-memory collection of tasks and categories plus the current theme
/// name. A persistence backend loads and saves it (local mode) or mirrors
/// each operation remotely.
#[derive(Debug)]
pub struct Registry {
    pub tasks: Vec<Task>,
    pub categories: Vec<Category>,
    pub theme: String,
}

/// The mathematical value of a `Registry`.
#[verifier::ext_equal]
pub struct RegistryView {
    pub tasks: Seq<TaskView>,
    pub categories: Seq<CategoryView>,
    pub theme: Seq<char>,
}

impl View for Registry {
    type V = RegistryView;

    open spec fn view(&self) -> RegistryView {
        RegistryView {
            tasks: self.tasks@.map_values(|t: Task| t@),
            categories: self.categories@.map_values(|c: Category| c@),
            theme: self.theme@,
        }
    }
}

// ---------------------------------------------------------------------------
// Lookup by id. Ids are not necessarily unique (see `spec_create_task`), so
// every operation that takes an id acts on the first record that carries it.
// ---------------------------------------------------------------------------

/// Whether some position of `ids` holds `id`.
pub open spec fn has_id(ids: Seq<u64>, id: u64) -> bool {
    exists|i: int| 0 <= i < ids.len() && ids[i] == id
}

/// Whether `i` is the first position of `ids` that holds `id`.
pub open spec fn is_first_hit(ids: Seq<u64>, id: u64, i: int) -> bool {
    &&& 0 <= i < ids.len()
    &&& ids[i] == id
    &&& forall|j: int| 0 <= j < i ==> ids[j] != id
}

/// The first position of `ids` that holds `id` (meaningful when `has_id`).
pub open spec fn id_hit(ids: Seq<u64>, id: u64) -> int
    decreases ids.len(),
{
    if ids.len() == 0 {
        0
    } else if ids[0] == id {
        0
    } else {
        1 + id_hit(ids.drop_first(), id)
    }
}

/// When `id` occurs in `ids`, `id_hit` is its first position.
pub proof fn lemma_id_hit(ids: Seq<u64>, id: u64)
    requires
        has_id(ids, id),
    ensures
        is_first_hit(ids, id, id_hit(ids, id)),
    decreases ids.len(),
{
    if ids.len() == 0 {
    } else if ids[0] == id {
    } else {
        let rest = ids.drop_first();
        let w = choose|i: int| 0 <= i < ids.len() && ids[i] == id;
        assert(rest[w - 1] == id);
        lemma_id_hit(rest, id);
        let h = id_hit(rest, id);
        assert(ids[h + 1] == rest[h]);
        assert(forall|j: int| 1 <= j < h + 1 ==> ids[j] == rest[j - 1]);
    }
}

/// The first position of `id` is unique.
pub proof fn lemma_first_hit_unique(ids: Seq<u64>, id: u64, i: int)
    requires
        is_first_hit(ids, id, i),
    ensures
        id_hit(ids, id) == i,
{
    assert(has_id(ids, id));
    lemma_id_hit(ids, id);
    let h = id_hit(ids, id);
    if h < i {
        assert(ids[h] != id);
    } else if i < h {
        assert(ids[i] != id);
    }
}

/// The ids of a sequence of tasks, in order.
pub open spec fn task_ids(ts: Seq<TaskView>) -> Seq<u64> {
    ts.map_values(|t: TaskView| t.id)
}

/// The ids of a sequence of categories, in order.
pub open spec fn category_ids(cs: Seq<CategoryView>) -> Seq<u64> {
    cs.map_values(|c: CategoryView| c.id)
}

/// Whether some task of `ts` has id `id`.
pub open spec fn has_task(ts: Seq<TaskView>, id: u64) -> bool {
    has_id(task_ids(ts), id)
}

/// Whether some category of `cs` has id `id`.
pub open spec fn has_category(cs: Seq<CategoryView>, id: u64) -> bool {
    has_id(category_ids(cs), id)
}

/// The first position of a task with id `id`.
pub open spec fn task_hit(ts: Seq<TaskView>, id: u64) -> int {
    id_hit(task_ids(ts), id)
}

/// The first position of a category with id `id`.
pub open spec fn category_hit(cs: Seq<CategoryView>, id: u64) -> int {
    id_hit(category_ids(cs), id)
}

// ---------------------------------------------------------------------------
// The effect of each operation, as a function on registry values. The
// executable operations promise exactly these effects, and the laws at the
// end of this file are stated over them.
// ---------------------------------------------------------------------------

/// The task that a create operation adds: its id is the current task count
/// plus one. After deletions this can duplicate the id of a surviving task;
/// that allocation policy is kept deliberately.
pub open spec fn spec_new_task(
    r: RegistryView,
    name: Seq<char>,
    description: Seq<char>,
    eta: Seq<char>,
) -> TaskView {
    TaskView {
        id: (r.tasks.len() + 1) as u64,
        name,
        description,
        eta,
        category: None,
    }
}

/// The registry after creating a task.
pub open spec fn spec_create_task(
    r: RegistryView,
    name: Seq<char>,
    description: Seq<char>,
    eta: Seq<char>,
) -> RegistryView {
    RegistryView { tasks: r.tasks.push(spec_new_task(r, name, description, eta)), ..r }
}

/// The category that a create operation adds; same id-by-count policy.
pub open spec fn spec_new_category(r: RegistryView, name: Seq<char>) -> CategoryView {
    CategoryView { id: (r.categories.len() + 1) as u64, name }
}

/// The registry after creating a category.
pub open spec fn spec_create_category(r: RegistryView, name: Seq<char>) -> RegistryView {
    RegistryView { categories: r.categories.push(spec_new_category(r, name)), ..r }
}

/// The editable fields of a task.
pub open spec fn valid_edit_field(field: Seq<char>) -> bool {
    field == "name"@ || field == "description"@ || field == "eta"@
}

/// `t` with the named field replaced by `value`.
pub open spec fn task_with_field(t: TaskView, field: Seq<char>, value: Seq<char>) -> TaskView {
    if field == "name"@ {
        TaskView { name: value, ..t }
    } else if field == "description"@ {
        TaskView { description: value, ..t }
    } else if field == "eta"@ {
        TaskView { eta: value, ..t }
    } else {
        t
    }
}

/// The registry after editing one field of the first task with id `id`.
pub open spec fn spec_edit_task(
    r: RegistryView,
    id: u64,
    field: Seq<char>,
    value: Seq<char>,
) -> RegistryView {
    let i = task_hit(r.tasks, id);
    RegistryView { tasks: r.tasks.update(i, task_with_field(r.tasks[i], field, value)), ..r }
}

/// The registry after renaming the first category with id `id`.
pub open spec fn spec_edit_category(r: RegistryView, id: u64, name: Seq<char>) -> RegistryView {
    let i = category_hit(r.categories, id);
    RegistryView {
        categories: r.categories.update(i, CategoryView { name, ..r.categories[i] }),
        ..r
    }
}

/// The registry after deleting the first task with id `id`. Other tasks'
/// category references are untouched.
pub open spec fn spec_delete_task(r: RegistryView, id: u64) -> RegistryView {
    RegistryView { tasks: r.tasks.remove(task_hit(r.tasks, id)), ..r }
}

/// The registry after deleting the first category with id `id`. Tasks that
/// reference the category's name keep it.
pub open spec fn spec_delete_category(r: RegistryView, id: u64) -> RegistryView {
    RegistryView { categories: r.categories.remove(category_hit(r.categories, id)), ..r }
}

/// The registry after stamping the first task with id `task_id` with a
/// snapshot of the name of the first category with id `category_id`.
pub open spec fn spec_assign_category(
    r: RegistryView,
    task_id: u64,
    category_id: u64,
) -> RegistryView {
    let ci = category_hit(r.categories, category_id);
    let ti = task_hit(r.tasks, task_id);
    RegistryView {
        tasks: r.tasks.update(
            ti,
            TaskView { category: Some(r.categories[ci].name), ..r.tasks[ti] },
        ),
        ..r
    }
}

/// The recognized theme names.
pub open spec fn is_theme_name(s: Seq<char>) -> bool {
    s == "Desert"@ || s == "Oasis"@ || s == "Forest"@ || s == "Snow"@
}

/// The registry after a successful theme change.
pub open spec fn spec_set_theme(r: RegistryView, name: Seq<char>) -> RegistryView {
    RegistryView { theme: name, ..r }
}

// ---------------------------------------------------------------------------
// Executable operations.
// ---------------------------------------------------------------------------

/// The index of the first task with id `id`, scanning from the front.
fn find_task(tasks: &Vec<Task>, id: u64) -> (r: Option<usize>)
    ensures
        match r {
            Some(i) => {
                let views = tasks@.map_values(|t: Task| t@);
                &&& i < tasks@.len()
                &&& is_first_hit(task_ids(views), id, i as int)
                &&& task_hit(views, id) == i as int
                &&& has_task(views, id)
            },
            None => !has_task(tasks@.map_values(|t: Task| t@), id),
        },
{
    let ghost views = tasks@.map_values(|t: Task| t@);
    let n = tasks.len();
    let mut i: usize = 0;
    while i < n
        invariant
            i <= n,
            n == tasks@.len(),
            views == tasks@.map_values(|t: Task| t@),
            forall|j: int| 0 <= j < i ==> task_ids(views)[j] != id,
        decreases n - i,
    {
        if tasks[i].id == id {
            proof {
                assert(task_ids(views)[i as int] == id);
                lemma_first_hit_unique(task_ids(views), id, i as int);
            }
            return Some(i);
        }
        i = i + 1;
    }
    None
}

/// The index of the first category with id `id`, scanning from the front.
fn find_category(categories: &Vec<Category>, id: u64) -> (r: Option<usize>)
    ensures
        match r {
            Some(i) => {
                let views = categories@.map_values(|c: Category| c@);
                &&& i < categories@.len()
                &&& is_first_hit(category_ids(views), id, i as int)
                &&& category_hit(views, id) == i as int
                &&& has_category(views, id)
            },
            None => !has_category(categories@.map_values(|c: Category| c@), id),
        },
{
    let ghost views = categories@.map_values(|c: Category| c@);
    let n = categories.len();
    let mut i: usize = 0;
    while i < n
        invariant
            i <= n,
            n == categories@.len(),
            views == categories@.map_values(|c: Category| c@),
            forall|j: int| 0 <= j < i ==> category_ids(views)[j] != id,
        decreases n - i,
    {
        if categories[i].id == id {
            proof {
                assert(category_ids(views)[i as int] == id);
                lemma_first_hit_unique(category_ids(views), id, i as int);
            }
            return Some(i);
        }
        i = i + 1;
    }
    None
}

impl Registry {
    /// An empty registry with the default theme.
    pub fn new() -> (r: Registry)
        ensures
            r@.tasks == Seq::<TaskView>::empty(),
            r@.categories == Seq::<CategoryView>::empty(),
            r@.theme == "Desert"@,
    {
        let r = Registry { tasks: Vec::new(), categories: Vec::new(), theme: "Desert".to_owned() };
        proof {
            assert(r@.tasks =~= Seq::<TaskView>::empty());
            assert(r@.categories =~= Seq::<CategoryView>::empty());
        }
        r
    }

    /// Creates a task; its id is the current task count plus one.
    pub fn create_task(&mut self, name: String, description: String, eta: String) -> (t: Task)
        requires
            old(self).tasks@.len() < usize::MAX,
        ensures
            final(self)@ == spec_create_task(old(self)@, name@, description@, eta@),
            t@ == spec_new_task(old(self)@, name@, description@, eta@),
    {
        let id: u64 = (self.tasks.len() as u64) + 1;
        let t = Task { id, name, description, eta, category: None };
        let out = t.clone();
        self.tasks.push(t);
        proof {
            assert(self@.tasks =~= old(self)@.tasks.push(out@));
            assert(self@ =~= spec_create_task(old(self)@, out@.name, out@.description, out@.eta));
        }
        out
    }

    /// Creates a category; its id is the current category count plus one.
    pub fn create_category(&mut self, name: String) -> (c: Category)
        requires
            old(self).categories@.len() < usize::MAX,
        ensures
            final(self)@ == spec_create_category(old(self)@, name@),
            c@ == spec_new_category(old(self)@, name@),
    {
        let id: u64 = (self.categories.len() as u64) + 1;
        let c = Category { id, name };
        let out = c.clone();
        self.categories.push(c);
        proof {
            assert(self@.categories =~= old(self)@.categories.push(out@));
            assert(self@ =~= spec_create_category(old(self)@, out@.name));
        }
        out
    }

    /// Replaces one field (`name`, `description` or `eta`) of the first task
    /// with id `id`. An unknown field or an absent id changes nothing.
    pub fn edit_task(&mut self, id: u64, field: &str, value: String) -> (r: Result<
        (),
        TrackerError,
    >)
        ensures
            !valid_edit_field(field@) ==> {
                &&& r == Err::<(), TrackerError>(TrackerError::InvalidInput)
                &&& final(self)@ == old(self)@
            },
            valid_edit_field(field@) && !has_task(old(self)@.tasks, id) ==> {
                &&& r == Err::<(), TrackerError>(TrackerError::NotFound)
                &&& final(self)@ == old(self)@
            },
            valid_edit_field(field@) && has_task(old(self)@.tasks, id) ==> {
                &&& r == Ok::<(), TrackerError>(())
                &&& final(self)@ == spec_edit_task(old(self)@, id, field@, value@)
            },
    {
        let is_name = str_eq(field, "name");
        let is_description = str_eq(field, "description");
        let is_eta = str_eq(field, "eta");
        if !is_name && !is_description && !is_eta {
            return Err(TrackerError::InvalidInput);
        }
        match find_task(&self.tasks, id) {
            None => Err(TrackerError::NotFound),
            Some(i) => {
                let ghost before = self@;
                let mut t = self.tasks.remove(i);
                if is_name {
                    t.name = value;
                } else if is_description {
                    t.description = value;
                } else {
                    t.eta = value;
                }
                self.tasks.insert(i, t);
                proof {
                    assert(self@.tasks =~= before.tasks.update(
                        i as int,
                        task_with_field(before.tasks[i as int], field@, value@),
                    ));
                    assert(self@ =~= spec_edit_task(before, id, field@, value@));
                }
                Ok(())
            },
        }
    }

    /// Renames the first category with id `id`.
    pub fn edit_category(&mut self, id: u64, name: String) -> (r: Result<(), TrackerError>)
        ensures
            !has_category(old(self)@.categories, id) ==> {
                &&& r == Err::<(), TrackerError>(TrackerError::NotFound)
                &&& final(self)@ == old(self)@
            },
            has_category(old(self)@.categories, id) ==> {
                &&& r == Ok::<(), TrackerError>(())
                &&& final(self)@ == spec_edit_category(old(self)@, id, name@)
            },
    {
        match find_category(&self.categories, id) {
            None => Err(TrackerError::NotFound),
            Some(i) => {
                let ghost before = self@;
                let mut c = self.categories.remove(i);
                c.name = name;
                self.categories.insert(i, c);
                proof {
                    assert(self@.categories =~= before.categories.update(
                        i as int,
                        CategoryView { name: name@, ..before.categories[i as int] },
                    ));
                    assert(self@ =~= spec_edit_category(before, id, name@));
                }
                Ok(())
            },
        }
    }

    /// Removes the first task with id `id`. Other tasks are untouched.
    pub fn delete_task(&mut self, id: u64) -> (r: Result<(), TrackerError>)
        ensures
            !has_task(old(self)@.tasks, id) ==> {
                &&& r == Err::<(), TrackerError>(TrackerError::NotFound)
                &&& final(self)@ == old(self)@
            },
            has_task(old(self)@.tasks, id) ==> {
                &&& r == Ok::<(), TrackerError>(())
                &&& final(self)@ == spec_delete_task(old(self)@, id)
            },
    {
        match find_task(&self.tasks, id) {
            None => Err(TrackerError::NotFound),
            Some(i) => {
                let ghost before = self@;
                self.tasks.remove(i);
                proof {
                    assert(self@.tasks =~= before.tasks.remove(i as int));
                    assert(self@ =~= spec_delete_task(before, id));
                }
                Ok(())
            },
        }
    }

    /// Removes the first category with id `id`. Tasks that reference its
    /// name keep the stale reference.
    pub fn delete_category(&mut self, id: u64) -> (r: Result<(), TrackerError>)
        ensures
            !has_category(old(self)@.categories, id) ==> {
                &&& r == Err::<(), TrackerError>(TrackerError::NotFound)
                &&& final(self)@ == old(self)@
            },
            has_category(old(self)@.categories, id) ==> {
                &&& r == Ok::<(), TrackerError>(())
                &&& final(self)@ == spec_delete_category(old(self)@, id)
            },
    {
        match find_category(&self.categories, id) {
            None => Err(TrackerError::NotFound),
            Some(i) => {
                let ghost before = self@;
                self.categories.remove(i);
                proof {
                    assert(self@.categories =~= before.categories.remove(i as int));
                    assert(self@ =~= spec_delete_category(before, id));
                }
                Ok(())
            },
        }
    }

    /// Stamps the first task with id `task_id` with a snapshot of the name
    /// of the first category with id `category_id`. The category is looked
    /// up first: an unknown category id reports `NotFound` without touching
    /// any task.
    pub fn assign_category(&mut self, task_id: u64, category_id: u64) -> (r: Result<
        (),
        TrackerError,
    >)
        ensures
            !has_category(old(self)@.categories, category_id) ==> {
                &&& r == Err::<(), TrackerError>(TrackerError::NotFound)
                &&& final(self)@ == old(self)@
            },
            has_category(old(self)@.categories, category_id) && !has_task(
                old(self)@.tasks,
                task_id,
            ) ==> {
                &&& r == Err::<(), TrackerError>(TrackerError::NotFound)
                &&& final(self)@ == old(self)@
            },
            has_category(old(self)@.categories, category_id) && has_task(
                old(self)@.tasks,
                task_id,
            ) ==> {
                &&& r == Ok::<(), TrackerError>(())
                &&& final(self)@ == spec_assign_category(old(self)@, task_id, category_id)
            },
    {
        let ci = match find_category(&self.categories, category_id) {
            None => {
                return Err(TrackerError::NotFound);
            },
            Some(ci) => ci,
        };
        let name = self.categories[ci].name.clone();
        match find_task(&self.tasks, task_id) {
            None => Err(TrackerError::NotFound),
            Some(i) => {
                let ghost before = self@;
                let mut t = self.tasks.remove(i);
                t.category = Some(name);
                self.tasks.insert(i, t);
                proof {
                    assert(self@.tasks =~= before.tasks.update(
                        i as int,
                        TaskView {
                            category: Some(before.categories[ci as int].name),
                            ..before.tasks[i as int]
                        },
                    ));
                    assert(self@ =~= spec_assign_category(before, task_id, category_id));
                }
                Ok(())
            },
        }
    }

    /// Stores a new theme name. An unrecognized name reports `InvalidInput`
    /// and leaves the stored theme unchanged.
    pub fn set_theme(&mut self, name: &str) -> (r: Result<(), TrackerError>)
        ensures
            !is_theme_name(name@) ==> {
                &&& r == Err::<(), TrackerError>(TrackerError::InvalidInput)
                &&& final(self)@ == old(self)@
            },
            is_theme_name(name@) ==> {
                &&& r == Ok::<(), TrackerError>(())
                &&& final(self)@ == spec_set_theme(old(self)@, name@)
            },
    {
        let recognized = str_eq(name, "Desert") || str_eq(name, "Oasis") || str_eq(name, "Forest")
            || str_eq(name, "Snow");
        if !recognized {
            return Err(TrackerError::InvalidInput);
        }
        self.theme = name.to_owned();
        proof {
            assert(self@ =~= spec_set_theme(old(self)@, name@));
        }
        Ok(())
    }
}

// ---------------------------------------------------------------------------
// Laws of the operations above.
// ---------------------------------------------------------------------------

/// The registry after creating one task per entry of `inputs`, in order.
/// Each entry is a name, a description and an eta.
pub open spec fn spec_create_tasks(
    r: RegistryView,
    inputs: Seq<(Seq<char>, Seq<char>, Seq<char>)>,
) -> RegistryView
    decreases inputs.len(),
{
    if inputs.len() == 0 {
        r
    } else {
        let prev = spec_create_tasks(r, inputs.drop_last());
        spec_create_task(prev, inputs.last().0, inputs.last().1, inputs.last().2)
    }
}

/// Creating tasks in sequence, starting from a registry with no tasks and
/// deleting none, yields ids 1, 2, ... in creation order.
pub proof fn lemma_create_ids_sequential(
    r: RegistryView,
    inputs: Seq<(Seq<char>, Seq<char>, Seq<char>)>,
)
    requires
        r.tasks.len() == 0,
        inputs.len() < u64::MAX,
    ensures
        spec_create_tasks(r, inputs).tasks.len() == inputs.len(),
        forall|i: int|
            0 <= i < inputs.len() ==> #[trigger] spec_create_tasks(r, inputs).tasks[i].id == i + 1,
    decreases inputs.len(),
{
    if inputs.len() > 0 {
        lemma_create_ids_sequential(r, inputs.drop_last());
    }
}

/// After deleting a present task and creating a new one, the new task's id
/// is the surviving count plus one. (It can therefore duplicate the id of a
/// surviving task; the scenario tests pin one such collision down.)
pub proof fn lemma_id_after_delete_is_count(
    r: RegistryView,
    id: u64,
    name: Seq<char>,
    description: Seq<char>,
    eta: Seq<char>,
)
    requires
        has_task(r.tasks, id),
        r.tasks.len() <= u64::MAX,
    ensures
        ({
            let after = spec_create_task(spec_delete_task(r, id), name, description, eta);
            &&& after.tasks.len() == r.tasks.len()
            &&& after.tasks.last().id == r.tasks.len()
        }),
{
    lemma_id_hit(task_ids(r.tasks), id);
}

/// Assigning a category stamps the task with a snapshot of the category's
/// current name; renaming that category afterwards leaves the stamp as it
/// was.
pub proof fn lemma_assign_snapshot_survives_rename(
    r: RegistryView,
    task_id: u64,
    category_id: u64,
    new_name: Seq<char>,
)
    requires
        has_task(r.tasks, task_id),
        has_category(r.categories, category_id),
    ensures
        ({
            let stamped = spec_assign_category(r, task_id, category_id);
            let renamed = spec_edit_category(stamped, category_id, new_name);
            let ti = task_hit(r.tasks, task_id);
            renamed.tasks[ti].category == Some(
                r.categories[category_hit(r.categories, category_id)].name,
            )
        }),
{
    lemma_id_hit(task_ids(r.tasks), task_id);
    lemma_id_hit(category_ids(r.categories), category_id);
}

} // verus!
