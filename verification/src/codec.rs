use vstd::prelude::*;

use crate::errors::TrackerError;
use crate::model::{Category, CategoryView, Task, TaskView};
use crate::registry::{Registry, RegistryView};
use crate::text::{
    chars_to_string, digit_check, digit_value, is_digit, lemma_digits, push_digits, spec_digits,
    str_chars, val_of_digits,
};

verus! {

// ---------------------------------------------------------------------------
// The local persistence backend's document format. Every field is
// length-prefixed, so any text can be carried without escaping:
//
//   num n      the decimal digits of n, then `:`
//   str s      num (character count of s), then the characters of s
//   opt o      `-` when absent, or `+` then str
//   task       num id, str name, str description, str eta, opt category
//   category   num id, str name
//   document   str theme, num task count, the tasks, num category count,
//              the categories
// ---------------------------------------------------------------------------

/// The encoding of a number.
pub open spec fn enc_num(n: int) -> Seq<char> {
    spec_digits(n).push(':')
}

/// The encoding of a text field.
pub open spec fn enc_str(s: Seq<char>) -> Seq<char> {
    enc_num(s.len() as int) + s
}

/// The encoding of an optional text field.
pub open spec fn enc_opt(o: Option<Seq<char>>) -> Seq<char> {
    match o {
        None => seq!['-'],
        Some(s) => seq!['+'] + enc_str(s),
    }
}

/// The encoding of a task.
pub open spec fn enc_task(t: TaskView) -> Seq<char> {
    enc_num(t.id as int) + enc_str(t.name) + enc_str(t.description) + enc_str(t.eta) + enc_opt(
        t.category,
    )
}

/// The encoding of a category.
pub open spec fn enc_cat(c: CategoryView) -> Seq<char> {
    enc_num(c.id as int) + enc_str(c.name)
}

/// The encodings of a sequence of tasks, in order.
pub open spec fn enc_tasks(ts: Seq<TaskView>) -> Seq<char>
    decreases ts.len(),
{
    if ts.len() == 0 {
        Seq::empty()
    } else {
        enc_tasks(ts.drop_last()) + enc_task(ts.last())
    }
}

/// The encodings of a sequence of categories, in order.
pub open spec fn enc_cats(cs: Seq<CategoryView>) -> Seq<char>
    decreases cs.len(),
{
    if cs.len() == 0 {
        Seq::empty()
    } else {
        enc_cats(cs.drop_last()) + enc_cat(cs.last())
    }
}

/// The encoding of a whole registry.
pub open spec fn enc_registry(r: RegistryView) -> Seq<char> {
    enc_str(r.theme) + enc_num(r.tasks.len() as int) + enc_tasks(r.tasks) + enc_num(
        r.categories.len() as int,
    ) + enc_cats(r.categories)
}

// ---------------------------------------------------------------------------
// Executable encoding.
// ---------------------------------------------------------------------------

/// Appends the encoding of a number.
fn push_num(v: &mut Vec<char>, n: u64)
    ensures
        final(v)@ == old(v)@ + enc_num(n as int),
{
    push_digits(v, n);
    v.push(':');
    proof {
        assert(v@ =~= old(v)@ + enc_num(n as int));
    }
}

/// Appends the encoding of a text field.
fn push_str(v: &mut Vec<char>, s: &str)
    ensures
        final(v)@ == old(v)@ + enc_str(s@),
{
    let n = s.unicode_len();
    push_num(v, n as u64);
    let mut cs = str_chars(s);
    v.append(&mut cs);
    proof {
        assert(v@ =~= old(v)@ + enc_str(s@));
    }
}

/// Appends the encoding of an optional text field.
fn push_opt(v: &mut Vec<char>, o: &Option<String>)
    ensures
        final(v)@ == old(v)@ + enc_opt(
            match o {
                Some(s) => Some(s@),
                None => None,
            },
        ),
{
    match o {
        None => {
            v.push('-');
            proof {
                assert(v@ =~= old(v)@ + enc_opt(None));
            }
        },
        Some(s) => {
            v.push('+');
            push_str(v, s.as_str());
            proof {
                assert(v@ =~= old(v)@ + enc_opt(Some(s@)));
            }
        },
    }
}

/// Appends the encoding of a task.
fn push_task(v: &mut Vec<char>, t: &Task)
    ensures
        final(v)@ == old(v)@ + enc_task(t@),
{
    push_num(v, t.id);
    push_str(v, t.name.as_str());
    push_str(v, t.description.as_str());
    push_str(v, t.eta.as_str());
    push_opt(v, &t.category);
    proof {
        assert(v@ =~= old(v)@ + enc_task(t@));
    }
}

/// Appends the encoding of a category.
fn push_cat(v: &mut Vec<char>, c: &Category)
    ensures
        final(v)@ == old(v)@ + enc_cat(c@),
{
    push_num(v, c.id);
    push_str(v, c.name.as_str());
    proof {
        assert(v@ =~= old(v)@ + enc_cat(c@));
    }
}

/// Renders a registry as the document the local backend persists.
pub fn encode_registry(r: &Registry) -> (s: String)
    ensures
        s@ == enc_registry(r@),
{
    let mut v: Vec<char> = Vec::new();
    push_str(&mut v, r.theme.as_str());
    push_num(&mut v, r.tasks.len() as u64);
    let ghost ts = r@.tasks;
    let ghost base = v@;
    let n = r.tasks.len();
    let mut i: usize = 0;
    proof {
        assert(enc_tasks(ts.take(0)) =~= Seq::<char>::empty());
        assert(v@ =~= base + enc_tasks(ts.take(0)));
    }
    while i < n
        invariant
            i <= n,
            n == r.tasks@.len(),
            ts == r@.tasks,
            v@ == base + enc_tasks(ts.take(i as int)),
        decreases n - i,
    {
        push_task(&mut v, &r.tasks[i]);
        proof {
            assert(ts.take(i as int + 1).drop_last() =~= ts.take(i as int));
            assert(ts.take(i as int + 1).last() == ts[i as int]);
            assert(v@ =~= base + enc_tasks(ts.take(i as int + 1)));
        }
        i = i + 1;
    }
    proof {
        assert(ts.take(n as int) =~= ts);
    }
    push_num(&mut v, r.categories.len() as u64);
    let ghost cs = r@.categories;
    let ghost base2 = v@;
    let m = r.categories.len();
    let mut j: usize = 0;
    proof {
        assert(enc_cats(cs.take(0)) =~= Seq::<char>::empty());
        assert(v@ =~= base2 + enc_cats(cs.take(0)));
    }
    while j < m
        invariant
            j <= m,
            m == r.categories@.len(),
            cs == r@.categories,
            v@ == base2 + enc_cats(cs.take(j as int)),
        decreases m - j,
    {
        push_cat(&mut v, &r.categories[j]);
        proof {
            assert(cs.take(j as int + 1).drop_last() =~= cs.take(j as int));
            assert(cs.take(j as int + 1).last() == cs[j as int]);
            assert(v@ =~= base2 + enc_cats(cs.take(j as int + 1)));
        }
        j = j + 1;
    }
    proof {
        assert(cs.take(m as int) =~= cs);
        assert(v@ =~= enc_registry(r@));
    }
    chars_to_string(&v)
}

// ---------------------------------------------------------------------------
// Decoding, as functions on character sequences. Each decoder yields the
// decoded value and the unread suffix, or nothing when the document is
// malformed.
// ---------------------------------------------------------------------------

/// The count of leading decimal digits of `s`.
pub open spec fn digit_prefix_len(s: Seq<char>) -> int
    decreases s.len(),
{
    if s.len() == 0 {
        0
    } else if !is_digit(s[0]) {
        0
    } else {
        1 + digit_prefix_len(s.drop_first())
    }
}

/// Decodes a number: at least one digit, a `:` terminator, and a value
/// that fits in a `u64`.
pub open spec fn dec_num(s: Seq<char>) -> Option<(u64, Seq<char>)> {
    let k = digit_prefix_len(s);
    if k == 0 {
        None
    } else if k >= s.len() {
        None
    } else if s[k] != ':' {
        None
    } else if val_of_digits(s.take(k)) > u64::MAX {
        None
    } else {
        Some((val_of_digits(s.take(k)) as u64, s.skip(k + 1)))
    }
}

/// Decodes a text field: its character count, then that many characters.
pub open spec fn dec_str(s: Seq<char>) -> Option<(Seq<char>, Seq<char>)> {
    match dec_num(s) {
        None => None,
        Some((n, r)) => if n > r.len() {
            None
        } else {
            Some((r.take(n as int), r.skip(n as int)))
        },
    }
}

/// Decodes an optional text field.
pub open spec fn dec_opt(s: Seq<char>) -> Option<(Option<Seq<char>>, Seq<char>)> {
    if s.len() == 0 {
        None
    } else if s[0] == '-' {
        Some((None, s.drop_first()))
    } else if s[0] == '+' {
        match dec_str(s.drop_first()) {
            None => None,
            Some((v, r)) => Some((Some(v), r)),
        }
    } else {
        None
    }
}

/// Decodes one task.
pub open spec fn dec_task(s: Seq<char>) -> Option<(TaskView, Seq<char>)> {
    match dec_num(s) {
        None => None,
        Some((id, r1)) => match dec_str(r1) {
            None => None,
            Some((name, r2)) => match dec_str(r2) {
                None => None,
                Some((description, r3)) => match dec_str(r3) {
                    None => None,
                    Some((eta, r4)) => match dec_opt(r4) {
                        None => None,
                        Some((category, r5)) => Some(
                            (TaskView { id, name, description, eta, category }, r5),
                        ),
                    },
                },
            },
        },
    }
}

/// Decodes one category.
pub open spec fn dec_cat(s: Seq<char>) -> Option<(CategoryView, Seq<char>)> {
    match dec_num(s) {
        None => None,
        Some((id, r1)) => match dec_str(r1) {
            None => None,
            Some((name, r2)) => Some((CategoryView { id, name }, r2)),
        },
    }
}

/// Decodes exactly `n` tasks.
pub open spec fn dec_tasks_n(s: Seq<char>, n: int) -> Option<(Seq<TaskView>, Seq<char>)>
    decreases n,
{
    if n <= 0 {
        Some((Seq::empty(), s))
    } else {
        match dec_task(s) {
            None => None,
            Some((t, r)) => match dec_tasks_n(r, n - 1) {
                None => None,
                Some((ts, r2)) => Some((seq![t] + ts, r2)),
            },
        }
    }
}

/// Decodes exactly `n` categories.
pub open spec fn dec_cats_n(s: Seq<char>, n: int) -> Option<(Seq<CategoryView>, Seq<char>)>
    decreases n,
{
    if n <= 0 {
        Some((Seq::empty(), s))
    } else {
        match dec_cat(s) {
            None => None,
            Some((c, r)) => match dec_cats_n(r, n - 1) {
                None => None,
                Some((cs, r2)) => Some((seq![c] + cs, r2)),
            },
        }
    }
}

/// Decodes a counted task list.
pub open spec fn dec_task_list(s: Seq<char>) -> Option<(Seq<TaskView>, Seq<char>)> {
    match dec_num(s) {
        None => None,
        Some((n, r)) => dec_tasks_n(r, n as int),
    }
}

/// Decodes a counted category list.
pub open spec fn dec_cat_list(s: Seq<char>) -> Option<(Seq<CategoryView>, Seq<char>)> {
    match dec_num(s) {
        None => None,
        Some((n, r)) => dec_cats_n(r, n as int),
    }
}

/// Decodes a whole registry document.
pub open spec fn dec_registry(s: Seq<char>) -> Option<(RegistryView, Seq<char>)> {
    match dec_str(s) {
        None => None,
        Some((theme, r1)) => match dec_task_list(r1) {
            None => None,
            Some((tasks, r2)) => match dec_cat_list(r2) {
                None => None,
                Some((categories, r3)) => Some((RegistryView { tasks, categories, theme }, r3)),
            },
        },
    }
}

/// The registry a document denotes: a full decode with nothing left over.
pub open spec fn spec_parse_registry(s: Seq<char>) -> Option<RegistryView> {
    match dec_registry(s) {
        None => None,
        Some((r, rest)) => if rest.len() == 0 {
            Some(r)
        } else {
            None
        },
    }
}

// ---------------------------------------------------------------------------
// Facts about digit prefixes and digit values.
// ---------------------------------------------------------------------------

/// `digit_prefix_len` is the position of the first non-digit.
proof fn lemma_dpl_exact(s: Seq<char>, k: int)
    requires
        0 <= k <= s.len(),
        forall|j: int| 0 <= j < k ==> is_digit(#[trigger] s[j]),
        k == s.len() || !is_digit(s[k]),
    ensures
        digit_prefix_len(s) == k,
    decreases s.len(),
{
    if k == 0 {
    } else {
        let rest = s.drop_first();
        assert(forall|j: int| 0 <= j < k - 1 ==> rest[j] == s[j + 1]);
        lemma_dpl_exact(rest, k - 1);
    }
}

/// The value of a digit sequence is not negative.
proof fn lemma_val_nonneg(s: Seq<char>)
    requires
        forall|j: int| 0 <= j < s.len() ==> is_digit(#[trigger] s[j]),
    ensures
        val_of_digits(s) >= 0,
    decreases s.len(),
{
    if s.len() > 0 {
        assert(forall|j: int| 0 <= j < s.drop_last().len() ==> is_digit(#[trigger] s.drop_last()[j]));
        lemma_val_nonneg(s.drop_last());
    }
}

/// A prefix of a digit sequence denotes no more than the whole.
proof fn lemma_val_prefix_le(s: Seq<char>, m: int)
    requires
        forall|j: int| 0 <= j < s.len() ==> is_digit(#[trigger] s[j]),
        0 <= m <= s.len(),
    ensures
        val_of_digits(s.take(m)) <= val_of_digits(s),
    decreases s.len(),
{
    if m == s.len() {
        assert(s.take(m) =~= s);
    } else {
        let prev = s.drop_last();
        assert(forall|j: int| 0 <= j < prev.len() ==> is_digit(#[trigger] prev[j]));
        lemma_val_prefix_le(prev, m);
        assert(s.take(m) =~= prev.take(m));
        lemma_val_nonneg(prev);
        assert(val_of_digits(s) == val_of_digits(prev) * 10 + crate::text::digit_val(s.last()));
        assert(crate::text::digit_val(s.last()) >= 0);
    }
}

// ---------------------------------------------------------------------------
// Executable decoding. Each parser works at a position in the document and
// agrees with the decoder on the suffix that starts there.
// ---------------------------------------------------------------------------

/// Parses a number at `pos`.
fn parse_num(doc: &Vec<char>, pos: usize) -> (r: Option<(u64, usize)>)
    requires
        pos <= doc@.len(),
    ensures
        match r {
            Some(p) => pos <= p.1 <= doc@.len() && dec_num(doc@.skip(pos as int)) == Some(
                (p.0, doc@.skip(p.1 as int)),
            ),
            None => dec_num(doc@.skip(pos as int)) is None,
        },
{
    let ghost h = doc@.skip(pos as int);
    let len = doc.len();
    let mut i: usize = pos;
    while i < len && digit_check(doc[i])
        invariant
            pos <= i <= len,
            len == doc@.len(),
            h == doc@.skip(pos as int),
            forall|j: int| 0 <= j < i - pos ==> is_digit(#[trigger] h[j]),
        decreases len - i,
    {
        proof {
            assert(h[i - pos] == doc@[i as int]);
        }
        i = i + 1;
    }
    let ghost k = i - pos;
    proof {
        if i < len {
            assert(h[k as int] == doc@[i as int]);
        }
        lemma_dpl_exact(h, k as int);
    }
    if i == pos {
        return None;
    }
    if i >= len {
        return None;
    }
    if doc[i] != ':' {
        proof {
            assert(h[k as int] == doc@[i as int]);
        }
        return None;
    }
    proof {
        assert(h[k as int] == doc@[i as int]);
        assert(forall|j: int| 0 <= j < h.take(k as int).len() ==> is_digit(
            #[trigger] h.take(k as int)[j],
        ));
    }
    let mut acc: u64 = 0;
    let mut j: usize = pos;
    proof {
        assert(h.take(0) =~= Seq::<char>::empty());
    }
    while j < i
        invariant
            pos <= j <= i <= len,
            len == doc@.len(),
            h == doc@.skip(pos as int),
            k == i - pos,
            digit_prefix_len(h) == k,
            i < len,
            h[k as int] == ':',
            forall|j2: int| 0 <= j2 < k ==> is_digit(#[trigger] h[j2]),
            acc as int == val_of_digits(h.take(j - pos)),
        decreases i - j,
    {
        proof {
            assert(h[j - pos] == doc@[j as int]);
        }
        let d = digit_value(doc[j]);
        if acc > (u64::MAX - d) / 10 {
            proof {
                let a = acc as int;
                let dd = d as int;
                let mv = u64::MAX as int;
                assert(a * 10 + dd > mv) by (nonlinear_arith)
                    requires
                        a > (mv - dd) / 10,
                        0 <= dd <= 9,
                        a >= 0,
                        mv >= 100,
                ;
                assert(h.take(j - pos + 1).drop_last() =~= h.take(j - pos));
                assert(h.take(j - pos + 1).last() == h[j - pos]);
                assert(val_of_digits(h.take(j - pos + 1)) == a * 10 + dd);
                lemma_val_prefix_le(h.take(k as int), j - pos + 1);
                assert(h.take(k as int).take(j - pos + 1) =~= h.take(j - pos + 1));
                assert(val_of_digits(h.take(k as int)) > u64::MAX);
            }
            return None;
        }
        proof {
            let a = acc as int;
            let dd = d as int;
            let mv = u64::MAX as int;
            assert(a * 10 + dd <= mv) by (nonlinear_arith)
                requires
                    a <= (mv - dd) / 10,
                    0 <= dd <= 9,
                    a >= 0,
                    mv >= 100,
            ;
            assert(h.take(j - pos + 1).drop_last() =~= h.take(j - pos));
            assert(h.take(j - pos + 1).last() == h[j - pos]);
        }
        acc = acc * 10 + d;
        j = j + 1;
    }
    proof {
        assert(h.skip(k + 1) =~= doc@.skip(i as int + 1));
    }
    Some((acc, i + 1))
}

/// Parses a text field at `pos`.
fn parse_str(doc: &Vec<char>, pos: usize) -> (r: Option<(String, usize)>)
    requires
        pos <= doc@.len(),
    ensures
        match r {
            Some(p) => pos <= p.1 <= doc@.len() && dec_str(doc@.skip(pos as int)) == Some(
                (p.0@, doc@.skip(p.1 as int)),
            ),
            None => dec_str(doc@.skip(pos as int)) is None,
        },
{
    let (n, q) = match parse_num(doc, pos) {
        None => {
            return None;
        },
        Some(p) => p,
    };
    let ghost rest = doc@.skip(q as int);
    if n > (doc.len() - q) as u64 {
        return None;
    }
    let cnt = n as usize;
    let mut out: Vec<char> = Vec::new();
    let mut j: usize = 0;
    while j < cnt
        invariant
            j <= cnt,
            q + cnt <= doc@.len(),
            doc@.len() <= usize::MAX,
            rest == doc@.skip(q as int),
            out@ == rest.take(j as int),
        decreases cnt - j,
    {
        out.push(doc[q + j]);
        proof {
            assert(rest[j as int] == doc@[q + j]);
            assert(out@ =~= rest.take(j as int + 1));
        }
        j = j + 1;
    }
    proof {
        assert(rest.skip(cnt as int) =~= doc@.skip(q as int + cnt as int));
    }
    Some((chars_to_string(&out), q + cnt))
}

/// Parses an optional text field at `pos`.
fn parse_opt(doc: &Vec<char>, pos: usize) -> (r: Option<(Option<String>, usize)>)
    requires
        pos <= doc@.len(),
    ensures
        match r {
            Some(p) => pos <= p.1 <= doc@.len() && dec_opt(doc@.skip(pos as int)) == Some(
                (
                    match p.0 {
                        Some(s) => Some(s@),
                        None => None,
                    },
                    doc@.skip(p.1 as int),
                ),
            ),
            None => dec_opt(doc@.skip(pos as int)) is None,
        },
{
    let ghost h = doc@.skip(pos as int);
    if pos >= doc.len() {
        return None;
    }
    proof {
        assert(h[0] == doc@[pos as int]);
        assert(h.drop_first() =~= doc@.skip(pos as int + 1));
    }
    let c = doc[pos];
    if c == '-' {
        Some((None, pos + 1))
    } else if c == '+' {
        match parse_str(doc, pos + 1) {
            None => None,
            Some((s, q)) => Some((Some(s), q)),
        }
    } else {
        None
    }
}

/// Parses one task at `pos`.
fn parse_task(doc: &Vec<char>, pos: usize) -> (r: Option<(Task, usize)>)
    requires
        pos <= doc@.len(),
    ensures
        match r {
            Some(p) => pos <= p.1 <= doc@.len() && dec_task(doc@.skip(pos as int)) == Some(
                (p.0@, doc@.skip(p.1 as int)),
            ),
            None => dec_task(doc@.skip(pos as int)) is None,
        },
{
    let (id, p1) = match parse_num(doc, pos) {
        None => {
            return None;
        },
        Some(p) => p,
    };
    let (name, p2) = match parse_str(doc, p1) {
        None => {
            return None;
        },
        Some(p) => p,
    };
    let (description, p3) = match parse_str(doc, p2) {
        None => {
            return None;
        },
        Some(p) => p,
    };
    let (eta, p4) = match parse_str(doc, p3) {
        None => {
            return None;
        },
        Some(p) => p,
    };
    let (category, p5) = match parse_opt(doc, p4) {
        None => {
            return None;
        },
        Some(p) => p,
    };
    Some((Task { id, name, description, eta, category }, p5))
}

/// Parses one category at `pos`.
fn parse_cat(doc: &Vec<char>, pos: usize) -> (r: Option<(Category, usize)>)
    requires
        pos <= doc@.len(),
    ensures
        match r {
            Some(p) => pos <= p.1 <= doc@.len() && dec_cat(doc@.skip(pos as int)) == Some(
                (p.0@, doc@.skip(p.1 as int)),
            ),
            None => dec_cat(doc@.skip(pos as int)) is None,
        },
{
    let (id, p1) = match parse_num(doc, pos) {
        None => {
            return None;
        },
        Some(p) => p,
    };
    let (name, p2) = match parse_str(doc, p1) {
        None => {
            return None;
        },
        Some(p) => p,
    };
    Some((Category { id, name }, p2))
}

/// Parses a counted task list at `pos`.
fn parse_tasks(doc: &Vec<char>, pos: usize) -> (r: Option<(Vec<Task>, usize)>)
    requires
        pos <= doc@.len(),
    ensures
        match r {
            Some(p) => pos <= p.1 <= doc@.len() && dec_task_list(doc@.skip(pos as int)) == Some(
                (p.0@.map_values(|t: Task| t@), doc@.skip(p.1 as int)),
            ),
            None => dec_task_list(doc@.skip(pos as int)) is None,
        },
{
    let (n, p0) = match parse_num(doc, pos) {
        None => {
            return None;
        },
        Some(p) => p,
    };
    let mut out: Vec<Task> = Vec::new();
    let mut p = p0;
    let mut done: u64 = 0;
    proof {
        assert(out@.map_values(|t: Task| t@) =~= Seq::<TaskView>::empty());
    }
    while done < n
        invariant
            done <= n,
            pos <= p0 <= p <= doc@.len(),
            dec_num(doc@.skip(pos as int)) == Some((n, doc@.skip(p0 as int))),
            match dec_tasks_n(doc@.skip(p as int), n - done) {
                None => dec_tasks_n(doc@.skip(p0 as int), n as int) is None,
                Some(pair) => dec_tasks_n(doc@.skip(p0 as int), n as int) == Some(
                    (out@.map_values(|t: Task| t@) + pair.0, pair.1),
                ),
            },
        decreases n - done,
    {
        let ghost acc0 = out@.map_values(|t: Task| t@);
        match parse_task(doc, p) {
            None => {
                return None;
            },
            Some((t, np)) => {
                out.push(t);
                proof {
                    let rnext = dec_tasks_n(doc@.skip(np as int), n - done - 1);
                    if rnext is Some {
                        assert(acc0 + (seq![t@] + rnext.unwrap().0) =~= (acc0.push(t@))
                            + rnext.unwrap().0);
                    }
                    assert(out@.map_values(|t2: Task| t2@) =~= acc0.push(t@));
                }
                p = np;
                done = done + 1;
            },
        }
    }
    proof {
        assert(dec_tasks_n(doc@.skip(p as int), 0) == Some(
            (Seq::<TaskView>::empty(), doc@.skip(p as int)),
        ));
        assert(out@.map_values(|t: Task| t@) + Seq::<TaskView>::empty() =~= out@.map_values(
            |t: Task| t@,
        ));
    }
    Some((out, p))
}

/// Parses a counted category list at `pos`.
fn parse_cats(doc: &Vec<char>, pos: usize) -> (r: Option<(Vec<Category>, usize)>)
    requires
        pos <= doc@.len(),
    ensures
        match r {
            Some(p) => pos <= p.1 <= doc@.len() && dec_cat_list(doc@.skip(pos as int)) == Some(
                (p.0@.map_values(|c: Category| c@), doc@.skip(p.1 as int)),
            ),
            None => dec_cat_list(doc@.skip(pos as int)) is None,
        },
{
    let (n, p0) = match parse_num(doc, pos) {
        None => {
            return None;
        },
        Some(p) => p,
    };
    let mut out: Vec<Category> = Vec::new();
    let mut p = p0;
    let mut done: u64 = 0;
    proof {
        assert(out@.map_values(|c: Category| c@) =~= Seq::<CategoryView>::empty());
    }
    while done < n
        invariant
            done <= n,
            pos <= p0 <= p <= doc@.len(),
            dec_num(doc@.skip(pos as int)) == Some((n, doc@.skip(p0 as int))),
            match dec_cats_n(doc@.skip(p as int), n - done) {
                None => dec_cats_n(doc@.skip(p0 as int), n as int) is None,
                Some(pair) => dec_cats_n(doc@.skip(p0 as int), n as int) == Some(
                    (out@.map_values(|c: Category| c@) + pair.0, pair.1),
                ),
            },
        decreases n - done,
    {
        let ghost acc0 = out@.map_values(|c: Category| c@);
        match parse_cat(doc, p) {
            None => {
                return None;
            },
            Some((c, np)) => {
                out.push(c);
                proof {
                    let rnext = dec_cats_n(doc@.skip(np as int), n - done - 1);
                    if rnext is Some {
                        assert(acc0 + (seq![c@] + rnext.unwrap().0) =~= (acc0.push(c@))
                            + rnext.unwrap().0);
                    }
                    assert(out@.map_values(|c2: Category| c2@) =~= acc0.push(c@));
                }
                p = np;
                done = done + 1;
            },
        }
    }
    proof {
        assert(dec_cats_n(doc@.skip(p as int), 0) == Some(
            (Seq::<CategoryView>::empty(), doc@.skip(p as int)),
        ));
        assert(out@.map_values(|c: Category| c@) + Seq::<CategoryView>::empty() =~= out@.map_values(
            |c: Category| c@,
        ));
    }
    Some((out, p))
}

/// Reads a registry back from the document the local backend persisted.
/// Yields nothing when the document is malformed or has trailing content;
/// callers treat that as a fatal persistence failure.
pub fn decode_registry(s: &str) -> (r: Option<Registry>)
    ensures
        match r {
            Some(reg) => spec_parse_registry(s@) == Some(reg@),
            None => spec_parse_registry(s@) is None,
        },
{
    let doc = str_chars(s);
    proof {
        assert(doc@.skip(0) =~= s@);
    }
    let (theme, p1) = match parse_str(&doc, 0) {
        None => {
            return None;
        },
        Some(p) => p,
    };
    let (tasks, p2) = match parse_tasks(&doc, p1) {
        None => {
            return None;
        },
        Some(p) => p,
    };
    let (categories, p3) = match parse_cats(&doc, p2) {
        None => {
            return None;
        },
        Some(p) => p,
    };
    if p3 < doc.len() {
        proof {
            assert(doc@.skip(p3 as int).len() > 0);
        }
        return None;
    }
    proof {
        assert(doc@.skip(p3 as int).len() == 0);
    }
    Some(Registry { tasks, categories, theme })
}

/// Opens the local backend's state: no document yet yields an empty
/// registry with the default theme, a readable document yields what it
/// holds, and a malformed one reports the fatal persistence failure.
pub fn load_registry(content: Option<&str>) -> (r: Result<Registry, TrackerError>)
    ensures
        match content {
            None => r is Ok && {
                let reg = r.unwrap()@;
                &&& reg.tasks == Seq::<TaskView>::empty()
                &&& reg.categories == Seq::<CategoryView>::empty()
                &&& reg.theme == "Desert"@
            },
            Some(s) => match spec_parse_registry(s@) {
                Some(v) => r is Ok && r.unwrap()@ == v,
                None => r == Err::<Registry, TrackerError>(TrackerError::PersistenceFailure),
            },
        },
{
    match content {
        None => Ok(Registry::new()),
        Some(s) => match decode_registry(s) {
            Some(reg) => Ok(reg),
            None => Err(TrackerError::PersistenceFailure),
        },
    }
}

// ---------------------------------------------------------------------------
// The round trip: decoding an encoded registry yields the registry back.
// ---------------------------------------------------------------------------

/// Decoding an encoded number yields the number and the rest.
proof fn lemma_dec_num_enc(n: int, rest: Seq<char>)
    requires
        0 <= n <= u64::MAX,
    ensures
        dec_num(enc_num(n) + rest) == Some((n as u64, rest)),
{
    lemma_digits(n);
    let ds = spec_digits(n);
    let s = enc_num(n) + rest;
    assert(forall|j: int| 0 <= j < ds.len() ==> s[j] == #[trigger] ds[j]);
    assert(s[ds.len() as int] == ':');
    assert(!is_digit(':'));
    lemma_dpl_exact(s, ds.len() as int);
    assert(s.take(ds.len() as int) =~= ds);
    assert(s.skip(ds.len() as int + 1) =~= rest);
}

/// Decoding an encoded text field yields the text and the rest.
proof fn lemma_dec_str_enc(t: Seq<char>, rest: Seq<char>)
    requires
        t.len() <= u64::MAX,
    ensures
        dec_str(enc_str(t) + rest) == Some((t, rest)),
{
    assert(enc_str(t) + rest =~= enc_num(t.len() as int) + (t + rest));
    lemma_dec_num_enc(t.len() as int, t + rest);
    assert((t + rest).take(t.len() as int) =~= t);
    assert((t + rest).skip(t.len() as int) =~= rest);
}

/// Decoding an encoded optional text field yields it back.
proof fn lemma_dec_opt_enc(o: Option<Seq<char>>, rest: Seq<char>)
    requires
        o matches Some(t) ==> t.len() <= u64::MAX,
    ensures
        dec_opt(enc_opt(o) + rest) == Some((o, rest)),
{
    let s = enc_opt(o) + rest;
    match o {
        None => {
            assert(s[0] == '-');
            assert(s.drop_first() =~= rest);
        },
        Some(t) => {
            assert(s[0] == '+');
            assert(s.drop_first() =~= enc_str(t) + rest);
            lemma_dec_str_enc(t, rest);
        },
    }
}

/// Whether a task's fields are short enough to length-prefix.
pub open spec fn encodable_task(t: TaskView) -> bool {
    &&& t.name.len() <= u64::MAX
    &&& t.description.len() <= u64::MAX
    &&& t.eta.len() <= u64::MAX
    &&& (t.category matches Some(c) ==> c.len() <= u64::MAX)
}

/// Whether a category's name is short enough to length-prefix.
pub open spec fn encodable_cat(c: CategoryView) -> bool {
    c.name.len() <= u64::MAX
}

/// Whether a registry value is small enough for the document format. Every
/// registry an executable program can hold satisfies this.
pub open spec fn encodable(r: RegistryView) -> bool {
    &&& r.theme.len() <= u64::MAX
    &&& r.tasks.len() <= u64::MAX
    &&& r.categories.len() <= u64::MAX
    &&& (forall|i: int| 0 <= i < r.tasks.len() ==> encodable_task(#[trigger] r.tasks[i]))
    &&& (forall|i: int| 0 <= i < r.categories.len() ==> encodable_cat(#[trigger] r.categories[i]))
}

/// Decoding an encoded task yields the task and the rest.
proof fn lemma_dec_task_enc(t: TaskView, rest: Seq<char>)
    requires
        encodable_task(t),
    ensures
        dec_task(enc_task(t) + rest) == Some((t, rest)),
{
    let s = enc_task(t) + rest;
    let r4 = enc_opt(t.category) + rest;
    let r3 = enc_str(t.eta) + r4;
    let r2 = enc_str(t.description) + r3;
    let r1 = enc_str(t.name) + r2;
    assert(s =~= enc_num(t.id as int) + r1);
    lemma_dec_num_enc(t.id as int, r1);
    lemma_dec_str_enc(t.name, r2);
    lemma_dec_str_enc(t.description, r3);
    lemma_dec_str_enc(t.eta, r4);
    lemma_dec_opt_enc(t.category, rest);
    assert(TaskView {
        id: t.id,
        name: t.name,
        description: t.description,
        eta: t.eta,
        category: t.category,
    } =~= t);
}

/// Decoding an encoded category yields the category and the rest.
proof fn lemma_dec_cat_enc(c: CategoryView, rest: Seq<char>)
    requires
        encodable_cat(c),
    ensures
        dec_cat(enc_cat(c) + rest) == Some((c, rest)),
{
    let s = enc_cat(c) + rest;
    let r1 = enc_str(c.name) + rest;
    assert(s =~= enc_num(c.id as int) + r1);
    lemma_dec_num_enc(c.id as int, r1);
    lemma_dec_str_enc(c.name, rest);
    assert(CategoryView { id: c.id, name: c.name } =~= c);
}

/// The task list encoding starts with its first task's encoding.
proof fn lemma_enc_tasks_first(ts: Seq<TaskView>)
    requires
        ts.len() > 0,
    ensures
        enc_tasks(ts) == enc_task(ts.first()) + enc_tasks(ts.drop_first()),
    decreases ts.len(),
{
    if ts.len() == 1 {
        assert(ts.drop_last() =~= Seq::<TaskView>::empty());
        assert(ts.drop_first() =~= Seq::<TaskView>::empty());
        assert(ts.last() == ts.first());
        assert(enc_tasks(ts) =~= enc_task(ts.first()) + enc_tasks(ts.drop_first()));
    } else {
        lemma_enc_tasks_first(ts.drop_last());
        assert(ts.drop_last().first() == ts.first());
        assert(ts.drop_last().drop_first() =~= ts.drop_first().drop_last());
        assert(ts.drop_first().last() == ts.last());
        assert(enc_tasks(ts) =~= enc_task(ts.first()) + enc_tasks(ts.drop_first()));
    }
}

/// The category list encoding starts with its first category's encoding.
proof fn lemma_enc_cats_first(cs: Seq<CategoryView>)
    requires
        cs.len() > 0,
    ensures
        enc_cats(cs) == enc_cat(cs.first()) + enc_cats(cs.drop_first()),
    decreases cs.len(),
{
    if cs.len() == 1 {
        assert(cs.drop_last() =~= Seq::<CategoryView>::empty());
        assert(cs.drop_first() =~= Seq::<CategoryView>::empty());
        assert(cs.last() == cs.first());
        assert(enc_cats(cs) =~= enc_cat(cs.first()) + enc_cats(cs.drop_first()));
    } else {
        lemma_enc_cats_first(cs.drop_last());
        assert(cs.drop_last().first() == cs.first());
        assert(cs.drop_last().drop_first() =~= cs.drop_first().drop_last());
        assert(cs.drop_first().last() == cs.last());
        assert(enc_cats(cs) =~= enc_cat(cs.first()) + enc_cats(cs.drop_first()));
    }
}

/// Decoding an encoded task list yields the tasks and the rest.
proof fn lemma_dec_tasks_enc(ts: Seq<TaskView>, rest: Seq<char>)
    requires
        forall|i: int| 0 <= i < ts.len() ==> encodable_task(#[trigger] ts[i]),
    ensures
        dec_tasks_n(enc_tasks(ts) + rest, ts.len() as int) == Some((ts, rest)),
    decreases ts.len(),
{
    if ts.len() == 0 {
        assert(enc_tasks(ts) + rest =~= rest);
        assert(ts =~= Seq::<TaskView>::empty());
    } else {
        lemma_enc_tasks_first(ts);
        assert(enc_tasks(ts) + rest =~= enc_task(ts.first()) + (enc_tasks(ts.drop_first())
            + rest));
        lemma_dec_task_enc(ts.first(), enc_tasks(ts.drop_first()) + rest);
        assert(forall|i: int|
            0 <= i < ts.drop_first().len() ==> encodable_task(#[trigger] ts.drop_first()[i]));
        lemma_dec_tasks_enc(ts.drop_first(), rest);
        assert(seq![ts.first()] + ts.drop_first() =~= ts);
    }
}

/// Decoding an encoded category list yields the categories and the rest.
proof fn lemma_dec_cats_enc(cs: Seq<CategoryView>, rest: Seq<char>)
    requires
        forall|i: int| 0 <= i < cs.len() ==> encodable_cat(#[trigger] cs[i]),
    ensures
        dec_cats_n(enc_cats(cs) + rest, cs.len() as int) == Some((cs, rest)),
    decreases cs.len(),
{
    if cs.len() == 0 {
        assert(enc_cats(cs) + rest =~= rest);
        assert(cs =~= Seq::<CategoryView>::empty());
    } else {
        lemma_enc_cats_first(cs);
        assert(enc_cats(cs) + rest =~= enc_cat(cs.first()) + (enc_cats(cs.drop_first()) + rest));
        lemma_dec_cat_enc(cs.first(), enc_cats(cs.drop_first()) + rest);
        assert(forall|i: int|
            0 <= i < cs.drop_first().len() ==> encodable_cat(#[trigger] cs.drop_first()[i]));
        lemma_dec_cats_enc(cs.drop_first(), rest);
        assert(seq![cs.first()] + cs.drop_first() =~= cs);
    }
}

/// Saving a registry and loading it back reproduces the identical set of
/// tasks, categories and theme: parsing the encoding of any registry value
/// small enough to encode yields exactly that value.
pub proof fn lemma_encode_decode(r: RegistryView)
    requires
        encodable(r),
    ensures
        spec_parse_registry(enc_registry(r)) == Some(r),
{
    let s = enc_registry(r);
    let empty = Seq::<char>::empty();
    let r2c = enc_cats(r.categories) + empty;
    let r2 = enc_num(r.categories.len() as int) + r2c;
    let r1t = enc_tasks(r.tasks) + r2;
    let r1 = enc_num(r.tasks.len() as int) + r1t;
    assert(s =~= enc_str(r.theme) + r1);
    lemma_dec_str_enc(r.theme, r1);
    lemma_dec_num_enc(r.tasks.len() as int, r1t);
    lemma_dec_tasks_enc(r.tasks, r2);
    lemma_dec_num_enc(r.categories.len() as int, r2c);
    lemma_dec_cats_enc(r.categories, empty);
    assert(RegistryView { tasks: r.tasks, categories: r.categories, theme: r.theme } =~= r);
}

} // verus!
