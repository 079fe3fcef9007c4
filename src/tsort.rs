//! Sorting a list of task IDs by several keys.
use vstd::prelude::*;
use crate::date::Date;
use crate::text::{lower_of, lowercase, pieces, split_text, views};
use crate::todo::{task_views, IDVec, TaskSlice};
use crate::todotxt::task::TaskView;

verus! {

/// Sorting rules: the keys named in `fields`, in order (separated by `,`
/// or `:`), then, when `rev` is set, the whole list reversed. Keys: `pri` or
/// `priority`; `due`; `thr`; `completed` or `finished`; `created` or
/// `create`; `subject`, `subj` or `text`; `done` (open, then recurring,
/// then finished); `project` or `proj`; `context` or `ctx`. A task without
/// the date or list sorts after those with it.
#[derive(Debug, Clone)]
pub struct Conf {
    pub fields: Option<String>,
    pub rev: bool,
}

impl Default for Conf {
    fn default() -> (r: Conf)
        ensures
            r.fields is None,
            !r.rev,
    {
        Conf { fields: None, rev: false }
    }
}

pub open spec fn int_cmp(a: int, b: int) -> int {
    if a < b {
        -1
    } else if a > b {
        1
    } else {
        0
    }
}

/// Dates in order; a missing date after any date.
pub open spec fn opt_dates_cmp(a: Option<Date>, b: Option<Date>) -> int {
    match (a, b) {
        (None, None) => 0,
        (Some(_), None) => -1,
        (None, Some(_)) => 1,
        (Some(x), Some(y)) => int_cmp(x.num(), y.num()),
    }
}

/// Texts in lexicographic order of their characters.
pub open spec fn text_cmp(a: Seq<char>, b: Seq<char>) -> int
    decreases a.len(),
{
    if a.len() == 0 {
        if b.len() == 0 {
            0
        } else {
            -1
        }
    } else if b.len() == 0 {
        1
    } else if a[0] < b[0] {
        -1
    } else if a[0] > b[0] {
        1
    } else {
        text_cmp(a.drop_first(), b.drop_first())
    }
}

/// Lists compared item by item from `i` on, in lowercase; on equal items
/// the shorter list first.
pub open spec fn items_cmp(a: Seq<Seq<char>>, b: Seq<Seq<char>>, i: int) -> int
    decreases a.len() - i,
{
    if i < 0 || i >= a.len() || i >= b.len() {
        int_cmp(a.len() as int, b.len() as int)
    } else {
        let c = text_cmp(lower_of(a[i]), lower_of(b[i]));
        if c != 0 {
            c
        } else {
            items_cmp(a, b, i + 1)
        }
    }
}

/// Lists in order (see [`items_cmp`]); an empty list after any other.
pub open spec fn lists_cmp(a: Seq<Seq<char>>, b: Seq<Seq<char>>) -> int {
    if a.len() == 0 && b.len() > 0 {
        1
    } else if a.len() > 0 && b.len() == 0 {
        -1
    } else if a.len() == 0 && b.len() == 0 {
        0
    } else {
        items_cmp(a, b, 0)
    }
}

/// 0 for an open task, 1 for a recurring one, 2 for a finished one.
pub open spec fn done_rank(t: TaskView) -> int {
    if t.recurrence is Some {
        1
    } else if t.finished {
        2
    } else {
        0
    }
}

/// Two tasks compared by one key; an unknown key makes them equal.
pub open spec fn key_cmp(a: TaskView, b: TaskView, f: Seq<char>) -> int {
    if f == seq!['p', 'r', 'i'] || f == seq!['p', 'r', 'i', 'o', 'r', 'i', 't', 'y'] {
        int_cmp(a.priority as int, b.priority as int)
    } else if f == seq!['d', 'u', 'e'] {
        opt_dates_cmp(a.due_date, b.due_date)
    } else if f == seq!['t', 'h', 'r'] {
        opt_dates_cmp(a.threshold_date, b.threshold_date)
    } else if f == seq!['c', 'o', 'm', 'p', 'l', 'e', 't', 'e', 'd'] || f == seq![
        'f',
        'i',
        'n',
        'i',
        's',
        'h',
        'e',
        'd',
    ] {
        opt_dates_cmp(a.finish_date, b.finish_date)
    } else if f == seq!['c', 'r', 'e', 'a', 't', 'e', 'd'] || f == seq!['c', 'r', 'e', 'a', 't', 'e'] {
        opt_dates_cmp(a.create_date, b.create_date)
    } else if f == seq!['s', 'u', 'b', 'j', 'e', 'c', 't'] || f == seq!['t', 'e', 'x', 't'] || f == seq![
        's',
        'u',
        'b',
        'j',
    ] {
        text_cmp(a.subject, b.subject)
    } else if f == seq!['d', 'o', 'n', 'e'] {
        int_cmp(done_rank(a), done_rank(b))
    } else if f == seq!['p', 'r', 'o', 'j'] || f == seq!['p', 'r', 'o', 'j', 'e', 'c', 't'] {
        lists_cmp(a.projects, b.projects)
    } else if f == seq!['c', 't', 'x'] || f == seq!['c', 'o', 'n', 't', 'e', 'x', 't'] {
        lists_cmp(a.contexts, b.contexts)
    } else {
        0
    }
}

/// Two tasks compared by the keys from `k` on: the first key that tells
/// them apart decides.
pub open spec fn keys_cmp(a: TaskView, b: TaskView, fields: Seq<Seq<char>>, k: int) -> int
    decreases fields.len() - k,
{
    if k < 0 || k >= fields.len() {
        0
    } else {
        let c = key_cmp(a, b, fields[k]);
        if c != 0 {
            c
        } else {
            keys_cmp(a, b, fields, k + 1)
        }
    }
}

/// Two IDs compared: IDs past the end of the list come last.
pub open spec fn id_cmp(ts: Seq<TaskView>, fields: Seq<Seq<char>>, a: usize, b: usize) -> int {
    if a as int >= ts.len() && b as int >= ts.len() {
        0
    } else if a as int >= ts.len() {
        1
    } else if b as int >= ts.len() {
        -1
    } else {
        keys_cmp(ts[a as int], ts[b as int], fields, 0)
    }
}

/// The key names in a field list: lowercase, split at `,` and at `:`.
pub open spec fn field_names(s: Seq<char>) -> Seq<Seq<char>> {
    lowered_field_names(lower_of(s))
}

/// The key names in a field list already in lowercase: split at `,` and at `:`.
pub open spec fn lowered_field_names(s: Seq<char>) -> Seq<Seq<char>> {
    split_colons(pieces(s, ','))
}

/// Each piece split again at `:`, all in order.
pub open spec fn split_colons(ps: Seq<Seq<char>>) -> Seq<Seq<char>>
    decreases ps.len(),
{
    if ps.len() == 0 {
        Seq::empty()
    } else {
        split_colons(ps.drop_last()) + pieces(ps.last(), ':')
    }
}

// ------------------------------------------------------------- symmetry

pub proof fn lemma_text_cmp_flip(a: Seq<char>, b: Seq<char>)
    ensures
        text_cmp(b, a) == -text_cmp(a, b),
    decreases a.len(),
{
    if a.len() > 0 && b.len() > 0 && a[0] == b[0] {
        lemma_text_cmp_flip(a.drop_first(), b.drop_first());
    }
}

pub proof fn lemma_items_cmp_flip(a: Seq<Seq<char>>, b: Seq<Seq<char>>, i: int)
    ensures
        items_cmp(b, a, i) == -items_cmp(a, b, i),
    decreases a.len() - i,
{
    if !(i < 0 || i >= a.len() || i >= b.len()) {
        lemma_text_cmp_flip(lower_of(a[i]), lower_of(b[i]));
        lemma_items_cmp_flip(a, b, i + 1);
    }
}

pub proof fn lemma_key_cmp_flip(a: TaskView, b: TaskView, f: Seq<char>)
    ensures
        key_cmp(b, a, f) == -key_cmp(a, b, f),
{
    lemma_text_cmp_flip(a.subject, b.subject);
    lemma_items_cmp_flip(a.projects, b.projects, 0);
    lemma_items_cmp_flip(a.contexts, b.contexts, 0);
}

pub proof fn lemma_keys_cmp_flip(a: TaskView, b: TaskView, fields: Seq<Seq<char>>, k: int)
    ensures
        keys_cmp(b, a, fields, k) == -keys_cmp(a, b, fields, k),
    decreases fields.len() - k,
{
    if !(k < 0 || k >= fields.len()) {
        lemma_key_cmp_flip(a, b, fields[k]);
        lemma_keys_cmp_flip(a, b, fields, k + 1);
    }
}

/// Comparing two IDs the other way round gives the opposite answer.
pub proof fn lemma_id_cmp_flip(ts: Seq<TaskView>, fields: Seq<Seq<char>>, a: usize, b: usize)
    ensures
        id_cmp(ts, fields, b, a) == -id_cmp(ts, fields, a, b),
{
    if (a as int) < ts.len() && (b as int) < ts.len() {
        lemma_keys_cmp_flip(ts[a as int], ts[b as int], fields, 0);
    }
}

// ------------------------------------------------------------ comparing

fn int_compare(a: u64, b: u64) -> (r: i8)
    ensures
        r == int_cmp(a as int, b as int),
{
    if a < b {
        -1
    } else if a > b {
        1
    } else {
        0
    }
}

fn opt_dates_compare(a: Option<Date>, b: Option<Date>) -> (r: i8)
    requires
        a matches Some(x) ==> x.wf(),
        b matches Some(x) ==> x.wf(),
    ensures
        r == opt_dates_cmp(a, b),
{
    match (a, b) {
        (None, None) => 0,
        (Some(_), None) => -1,
        (None, Some(_)) => 1,
        (Some(x), Some(y)) => {
            if x.is_before(&y) {
                -1
            } else if y.is_before(&x) {
                1
            } else {
                0
            }
        },
    }
}

/// Compares two texts character by character (see [`text_cmp`]).
pub fn text_compare(a: &str, b: &str) -> (r: i8)
    ensures
        r == text_cmp(a@, b@),
{
    let n = a.unicode_len();
    let m = b.unicode_len();
    let mut i: usize = 0;
    assert(a@.subrange(0, n as int) =~= a@ && b@.subrange(0, m as int) =~= b@);
    while i < n && i < m
        invariant
            n == a@.len(),
            m == b@.len(),
            i <= n && i <= m,
            text_cmp(a@, b@) == text_cmp(a@.subrange(i as int, n as int), b@.subrange(i as int, m as int)),
        decreases n - i,
    {
        let x = a.get_char(i);
        let y = b.get_char(i);
        assert(a@.subrange(i as int, n as int)[0] == x && b@.subrange(i as int, m as int)[0] == y);
        if x < y {
            return -1;
        }
        if x > y {
            return 1;
        }
        assert(a@.subrange(i as int, n as int).drop_first() =~= a@.subrange(i + 1, n as int));
        assert(b@.subrange(i as int, m as int).drop_first() =~= b@.subrange(i + 1, m as int));
        i = i + 1;
    }
    if i == n && i == m {
        0
    } else if i == n {
        -1
    } else {
        1
    }
}

/// Compares two lists (see [`lists_cmp`]).
fn lists_compare(a: &Vec<String>, b: &Vec<String>) -> (r: i8)
    ensures
        r == lists_cmp(views(a@), views(b@)),
{
    if a.len() == 0 && b.len() > 0 {
        return 1;
    } else if a.len() > 0 && b.len() == 0 {
        return -1;
    } else if a.len() == 0 && b.len() == 0 {
        return 0;
    }
    let ghost va = views(a@);
    let ghost vb = views(b@);
    let mut i: usize = 0;
    while i < a.len() && i < b.len()
        invariant
            va == views(a@) && vb == views(b@),
            i <= a@.len() && i <= b@.len(),
            items_cmp(va, vb, 0) == items_cmp(va, vb, i as int),
        decreases a@.len() - i,
    {
        let x = lowercase(a[i].as_str());
        let y = lowercase(b[i].as_str());
        assert(va[i as int] == a@[i as int]@ && vb[i as int] == b@[i as int]@);
        let c = text_compare(x.as_str(), y.as_str());
        if c != 0 {
            return c;
        }
        i = i + 1;
    }
    int_compare(a.len() as u64, b.len() as u64)
}

fn done_rank_of(t: &crate::todotxt::task::Task) -> (r: u64)
    ensures
        r == done_rank(t@),
{
    if t.recurrence.is_some() {
        1
    } else if t.finished {
        2
    } else {
        0
    }
}

/// Compares two tasks by one key (see [`key_cmp`]).
fn key_compare(a: &crate::todotxt::task::Task, b: &crate::todotxt::task::Task, f: &str) -> (r: i8)
    requires
        a.wf(),
        b.wf(),
    ensures
        r == key_cmp(a@, b@, f@),
{
    proof {
        reveal_strlit("pri");
        reveal_strlit("priority");
        reveal_strlit("due");
        reveal_strlit("thr");
        reveal_strlit("completed");
        reveal_strlit("finished");
        reveal_strlit("created");
        reveal_strlit("create");
        reveal_strlit("subject");
        reveal_strlit("text");
        reveal_strlit("subj");
        reveal_strlit("done");
        reveal_strlit("proj");
        reveal_strlit("project");
        reveal_strlit("ctx");
        reveal_strlit("context");
        assert("pri"@ =~= seq!['p', 'r', 'i']);
        assert("priority"@ =~= seq!['p', 'r', 'i', 'o', 'r', 'i', 't', 'y']);
        assert("due"@ =~= seq!['d', 'u', 'e']);
        assert("thr"@ =~= seq!['t', 'h', 'r']);
        assert("completed"@ =~= seq!['c', 'o', 'm', 'p', 'l', 'e', 't', 'e', 'd']);
        assert("finished"@ =~= seq!['f', 'i', 'n', 'i', 's', 'h', 'e', 'd']);
        assert("created"@ =~= seq!['c', 'r', 'e', 'a', 't', 'e', 'd']);
        assert("create"@ =~= seq!['c', 'r', 'e', 'a', 't', 'e']);
        assert("subject"@ =~= seq!['s', 'u', 'b', 'j', 'e', 'c', 't']);
        assert("text"@ =~= seq!['t', 'e', 'x', 't']);
        assert("subj"@ =~= seq!['s', 'u', 'b', 'j']);
        assert("done"@ =~= seq!['d', 'o', 'n', 'e']);
        assert("proj"@ =~= seq!['p', 'r', 'o', 'j']);
        assert("project"@ =~= seq!['p', 'r', 'o', 'j', 'e', 'c', 't']);
        assert("ctx"@ =~= seq!['c', 't', 'x']);
        assert("context"@ =~= seq!['c', 'o', 'n', 't', 'e', 'x', 't']);
    }
    let same = |x: &str| -> (r: bool)
        ensures
            r == (f@ == x@),
        { crate::text::same_text(f, x) };
    if same("pri") || same("priority") {
        int_compare(a.priority as u64, b.priority as u64)
    } else if same("due") {
        opt_dates_compare(a.due_date, b.due_date)
    } else if same("thr") {
        opt_dates_compare(a.threshold_date, b.threshold_date)
    } else if same("completed") || same("finished") {
        opt_dates_compare(a.finish_date, b.finish_date)
    } else if same("created") || same("create") {
        opt_dates_compare(a.create_date, b.create_date)
    } else if same("subject") || same("text") || same("subj") {
        text_compare(a.subject.as_str(), b.subject.as_str())
    } else if same("done") {
        int_compare(done_rank_of(a), done_rank_of(b))
    } else if same("proj") || same("project") {
        lists_compare(&a.projects, &b.projects)
    } else if same("ctx") || same("context") {
        lists_compare(&a.contexts, &b.contexts)
    } else {
        0
    }
}

/// Compares two IDs (see [`id_cmp`]).
fn id_compare(tasks: &TaskSlice, fields: &Vec<String>, a: usize, b: usize) -> (r: i8)
    requires
        crate::todo::tasks_wf(tasks@),
    ensures
        r == id_cmp(task_views(tasks@), views(fields@), a, b),
{
    let n = tasks.len();
    if a >= n && b >= n {
        return 0;
    } else if a >= n {
        return 1;
    } else if b >= n {
        return -1;
    }
    let ghost ta = tasks@[a as int]@;
    let ghost tb = tasks@[b as int]@;
    assert(tasks@[a as int].wf() && tasks@[b as int].wf());
    let mut k: usize = 0;
    while k < fields.len()
        invariant
            k <= fields@.len(),
            a < tasks@.len() && b < tasks@.len(),
            tasks@[a as int].wf() && tasks@[b as int].wf(),
            ta == tasks@[a as int]@ && tb == tasks@[b as int]@,
            keys_cmp(ta, tb, views(fields@), 0) == keys_cmp(ta, tb, views(fields@), k as int),
        decreases fields@.len() - k,
    {
        assert(views(fields@)[k as int] == fields@[k as int]@);
        let c = key_compare(&tasks[a], &tasks[b], fields[k].as_str());
        if c != 0 {
            return c;
        }
        k = k + 1;
    }
    0
}

/// The key names of a field list (see [`field_names`]).
fn parse_fields(s: &str) -> (r: Vec<String>)
    ensures
        views(r@) == field_names(s@),
{
    let low = lowercase(s);
    parse_lowered_fields(low.as_str())
}

/// The key names of a field list already in lowercase (see
/// [`lowered_field_names`]).
pub fn parse_lowered_fields(s: &str) -> (r: Vec<String>)
    ensures
        views(r@) == lowered_field_names(s@),
{
    let parts = split_text(s, ',');
    let mut out: Vec<String> = Vec::new();
    let mut i: usize = 0;
    assert(views(out@) =~= split_colons(views(parts@).subrange(0, 0)));
    while i < parts.len()
        invariant
            i <= parts@.len(),
            views(parts@) == pieces(s@, ','),
            views(out@) == split_colons(views(parts@).subrange(0, i as int)),
        decreases parts@.len() - i,
    {
        assert(views(parts@).subrange(0, i + 1).drop_last() =~= views(parts@).subrange(0, i as int));
        assert(views(parts@).subrange(0, i + 1).last() == parts@[i as int]@);
        let sub = split_text(parts[i].as_str(), ':');
        let mut j: usize = 0;
        let ghost base = views(out@);
        while j < sub.len()
            invariant
                j <= sub@.len(),
                views(out@) == base + views(sub@).subrange(0, j as int),
            decreases sub@.len() - j,
        {
            let ghost before = views(out@);
            out.push(sub[j].clone());
            assert(views(out@) =~= before.push(sub@[j as int]@));
            assert(views(sub@).subrange(0, j + 1) =~= views(sub@).subrange(0, j as int).push(sub@[j as int]@));
            j = j + 1;
        }
        assert(views(sub@).subrange(0, sub@.len() as int) =~= views(sub@));
        i = i + 1;
    }
    assert(views(parts@).subrange(0, parts@.len() as int) =~= views(parts@));
    out
}

// --------------------------------------------------------------- sorting

/// Each ID is not after the next one.
pub open spec fn ids_sorted(ts: Seq<TaskView>, fields: Seq<Seq<char>>, v: Seq<usize>) -> bool {
    forall|i: int| 0 <= i < v.len() - 1 ==> id_cmp(ts, fields, #[trigger] v[i], v[i + 1]) <= 0
}

/// `out` is `orig` rearranged by `pos` (`out[k]` is `orig[pos[k]]`, each
/// place used once), and IDs that compare equal keep their order.
#[verifier::opaque]
pub open spec fn stable_arrangement(
    ts: Seq<TaskView>,
    fields: Seq<Seq<char>>,
    orig: Seq<usize>,
    out: Seq<usize>,
    pos: Seq<int>,
) -> bool {
    &&& pos.len() == out.len()
    &&& forall|k: int| 0 <= k < out.len() ==> 0 <= #[trigger] pos[k] < orig.len() && out[k] == orig[pos[k]]
    &&& forall|a: int, b: int| 0 <= a < b < out.len() ==> #[trigger] pos[a] != #[trigger] pos[b]
    &&& forall|a: int, b: int|
        0 <= a < b < out.len() && id_cmp(ts, fields, #[trigger] out[a], #[trigger] out[b]) == 0 ==> pos[a]
            < pos[b]
}

/// The keys a sort configuration names.
pub open spec fn conf_fields(c: Conf) -> Seq<Seq<char>> {
    match c.fields {
        Some(f) => field_names(f@),
        None => Seq::empty(),
    }
}

/// Inserting ID `orig[i]` at place `j` of a sorted arrangement of
/// `orig[..i]`, after every ID not above it and before every ID above it,
/// keeps it sorted and keeps the multiset of IDs.
#[verifier::rlimit(60)]
proof fn lemma_insert_sorted(
    ts: Seq<TaskView>,
    fs: Seq<Seq<char>>,
    orig: Seq<usize>,
    before: Seq<usize>,
    pos_before: Seq<int>,
    j: int,
    i: int,
    sorting: bool,
)
    requires
        0 <= j <= before.len(),
        0 <= i < orig.len(),
        before.len() == i,
        before.to_multiset() == orig.subrange(0, i).to_multiset(),
        sorting ==> ids_sorted(ts, fs, before),
        sorting ==> (j > 0 ==> id_cmp(ts, fs, before[j - 1], orig[i]) <= 0),
        sorting ==> forall|k: int| j <= k < before.len() ==> id_cmp(ts, fs, #[trigger] before[k], orig[i]) > 0,
        !sorting ==> j == before.len(),
        stable_arrangement(ts, fs, orig, before, pos_before),
        forall|k: int| 0 <= k < pos_before.len() ==> #[trigger] pos_before[k] < i,
    ensures
        before.insert(j, orig[i]).to_multiset() == orig.subrange(0, i + 1).to_multiset(),
        sorting ==> ids_sorted(ts, fs, before.insert(j, orig[i])),
{
    let x = orig[i];
    let out = before.insert(j, x);
    assert(out =~= before.subrange(0, j) + seq![x] + before.subrange(j, before.len() as int));
    vstd::seq_lib::lemma_multiset_commutative(before.subrange(0, j), seq![x]);
    vstd::seq_lib::lemma_multiset_commutative(before.subrange(0, j) + seq![x], before.subrange(j, before.len() as int));
    vstd::seq_lib::lemma_multiset_commutative(before.subrange(0, j), before.subrange(j, before.len() as int));
    assert(before =~= before.subrange(0, j) + before.subrange(j, before.len() as int));
    assert(orig.subrange(0, i + 1) =~= orig.subrange(0, i) + seq![x]);
    vstd::seq_lib::lemma_multiset_commutative(orig.subrange(0, i), seq![x]);
    if j < before.len() && sorting {
        lemma_id_cmp_flip(ts, fs, before[j], x);
    }
    assert forall|k: int| sorting && 0 <= k < out.len() - 1 implies id_cmp(ts, fs, #[trigger] out[k], out[k + 1]) <= 0 by {
        if k + 1 < j {
            assert(out[k] == before[k] && out[k + 1] == before[k + 1]);
        } else if k + 1 == j {
            assert(out[k] == before[k] && out[k + 1] == x);
        } else if k == j {
            assert(out[k] == x && out[k + 1] == before[k]);
        } else {
            assert(out[k] == before[k - 1] && out[k + 1] == before[k]);
        }
    }
}

/// Inserting ID `orig[i]` at place `j` of a stable arrangement of
/// `orig[..i]`, after every ID not above it and before every ID above it,
/// keeps the arrangement stable.
#[verifier::rlimit(100)]
#[verifier::spinoff_prover]
proof fn lemma_insert_stable(
    ts: Seq<TaskView>,
    fs: Seq<Seq<char>>,
    orig: Seq<usize>,
    before: Seq<usize>,
    pos_before: Seq<int>,
    j: int,
    i: int,
    sorting: bool,
)
    requires
        0 <= j <= before.len(),
        0 <= i < orig.len(),
        before.len() == i,
        before.to_multiset() == orig.subrange(0, i).to_multiset(),
        sorting ==> ids_sorted(ts, fs, before),
        sorting ==> (j > 0 ==> id_cmp(ts, fs, before[j - 1], orig[i]) <= 0),
        sorting ==> forall|k: int| j <= k < before.len() ==> id_cmp(ts, fs, #[trigger] before[k], orig[i]) > 0,
        !sorting ==> j == before.len(),
        stable_arrangement(ts, fs, orig, before, pos_before),
        forall|k: int| 0 <= k < pos_before.len() ==> #[trigger] pos_before[k] < i,
    ensures
        ({
            let out = before.insert(j, orig[i]);
            let pos = pos_before.insert(j, i);
            &&& stable_arrangement(ts, fs, orig, out, pos)
            &&& forall|k: int| 0 <= k < pos.len() ==> #[trigger] pos[k] < i + 1
        }),
{
    reveal(stable_arrangement);
    let x = orig[i];
    let out = before.insert(j, x);
    let pos = pos_before.insert(j, i);
    assert forall|k: int| 0 <= k < out.len() implies 0 <= #[trigger] pos[k] < orig.len() && out[k] == orig[pos[k]] by {
        if k < j {
            assert(out[k] == before[k] && pos[k] == pos_before[k]);
        } else if k > j {
            assert(out[k] == before[k - 1] && pos[k] == pos_before[k - 1]);
        }
    }
    assert forall|a: int, b: int| 0 <= a < b < out.len() implies #[trigger] pos[a] != #[trigger] pos[b] by {
        if a != j && b != j {
            let a0 = if a < j { a } else { a - 1 };
            let b0 = if b < j { b } else { b - 1 };
            assert(pos[a] == pos_before[a0] && pos[b] == pos_before[b0]);
        } else if a == j {
            assert(pos[b] == pos_before[b - 1]);
        } else {
            assert(pos[a] == pos_before[a]);
        }
    }
    assert forall|a: int, b: int|
        0 <= a < b < out.len() && id_cmp(ts, fs, #[trigger] out[a], #[trigger] out[b]) == 0 implies pos[a]
            < pos[b] by {
        if a != j && b != j {
            let a0 = if a < j { a } else { a - 1 };
            let b0 = if b < j { b } else { b - 1 };
            assert(pos[a] == pos_before[a0] && pos[b] == pos_before[b0]);
            assert(out[a] == before[a0] && out[b] == before[b0]);
        } else if b == j {
            assert(pos[a] == pos_before[a]);
        } else {
            assert(out[b] == before[b - 1]);
            if sorting {
                lemma_id_cmp_flip(ts, fs, before[b - 1], x);
            }
        }
    }
    assert forall|k: int| 0 <= k < pos.len() implies #[trigger] pos[k] < i + 1 by {
        if k < j {
            assert(pos[k] == pos_before[k]);
        } else if k > j {
            assert(pos[k] == pos_before[k - 1]);
        }
    }
}

/// Sorts `ids` by the keys `fields` when `sorting` is set, then reverses
/// them when `rev` is set.
#[verifier::rlimit(100)]
#[verifier::spinoff_prover]
fn arrange(ids: &mut IDVec, todos: &TaskSlice, fields: &Vec<String>, sorting: bool, rev: bool)
    requires
        crate::todo::tasks_wf(todos@),
    ensures
        final(ids)@.to_multiset() == old(ids)@.to_multiset(),
        !sorting && !rev ==> final(ids)@ == old(ids)@,
        !sorting && rev ==> final(ids)@ == old(ids)@.reverse(),
        sorting && !rev ==> ids_sorted(task_views(todos@), views(fields@), final(ids)@),
        sorting && !rev ==> exists|pos: Seq<int>|
            stable_arrangement(task_views(todos@), views(fields@), old(ids)@, final(ids)@, pos),
        sorting && rev ==> exists|pos: Seq<int>|
            stable_arrangement(task_views(todos@), views(fields@), old(ids)@, final(ids)@.reverse(), pos),
        sorting && rev ==> ids_sorted(task_views(todos@), views(fields@), final(ids)@.reverse()),
{
    let ghost ts = task_views(todos@);
    let ghost fs = views(fields@);
    let mut out: IDVec = Vec::new();
    let mut i: usize = 0;
    let ghost mut pos: Seq<int> = Seq::empty();
    proof {
        reveal(stable_arrangement);
        assert(ids@.subrange(0, 0) =~= Seq::<usize>::empty());
        assert(out@ =~= Seq::<usize>::empty());
    }
    while i < ids.len()
        invariant
            i <= ids@.len(),
            ids@ == old(ids)@,
            crate::todo::tasks_wf(todos@),
            ts == task_views(todos@),
            fs == views(fields@),
            out@.to_multiset() == ids@.subrange(0, i as int).to_multiset(),
            sorting ==> ids_sorted(ts, fs, out@),
            !sorting ==> out@ == ids@.subrange(0, i as int),
            out@.len() == i,
            stable_arrangement(ts, fs, ids@, out@, pos),
            forall|k: int| 0 <= k < pos.len() ==> #[trigger] pos[k] < i,
        decreases ids@.len() - i,
    {
        let x = ids[i];
        let mut j: usize = out.len();
        while sorting && j > 0 && id_compare(todos, fields, out[j - 1], x) > 0
            invariant
                j <= out@.len(),
                crate::todo::tasks_wf(todos@),
                ts == task_views(todos@),
                fs == views(fields@),
                forall|k: int| j <= k < out@.len() ==> id_cmp(ts, fs, #[trigger] out@[k], x) > 0,
                !sorting ==> j == out@.len(),
            decreases j,
        {
            j = j - 1;
        }
        let ghost before = out@;
        let ghost pos_before = pos;
        out.insert(j, x);
        proof {
            assert(out@ =~= before.insert(j as int, x));
            pos = pos_before.insert(j as int, i as int);
            lemma_insert_sorted(ts, fs, ids@, before, pos_before, j as int, i as int, sorting);
            lemma_insert_stable(ts, fs, ids@, before, pos_before, j as int, i as int, sorting);
            assert(ids@.subrange(0, i + 1) =~= ids@.subrange(0, i as int).push(x));
            vstd::seq_lib::lemma_multiset_commutative(ids@.subrange(0, i as int), seq![x]);
            assert(ids@.subrange(0, i as int).push(x) =~= ids@.subrange(0, i as int) + seq![x]);
            assert(!sorting ==> out@ =~= ids@.subrange(0, i + 1));
        }
        i = i + 1;
    }
    assert(ids@.subrange(0, ids@.len() as int) =~= ids@);
    if rev {
        let mut rev: IDVec = Vec::new();
        let mut k: usize = out.len();
        while k > 0
            invariant
                k <= out@.len(),
                rev@ =~= out@.subrange(k as int, out@.len() as int).reverse(),
            decreases k,
        {
            k = k - 1;
            rev.push(out[k]);
            assert(out@.subrange(k as int, out@.len() as int) =~= seq![out@[k as int]] + out@.subrange(
                k + 1,
                out@.len() as int,
            ));
        }
        proof {
            assert(out@.subrange(0, out@.len() as int) =~= out@);
            assert(rev@.reverse() =~= out@);
            out@.lemma_reverse_to_multiset();
            assert(stable_arrangement(ts, fs, ids@, rev@.reverse(), pos));
        }
        *ids = rev;
    } else {
        *ids = out;
    }
}

/// Sorts `ids` by the keys `fields` (already in lowercase; IDs past the
/// end of `todos` last), then reverses the list when `rev` is set. The
/// result holds the same IDs; without `rev` each is not after the next,
/// with it each is not before the next; IDs that compare equal keep their
/// order (see [`stable_arrangement`]).
pub fn sort_by_fields(ids: &mut IDVec, todos: &TaskSlice, fields: &Vec<String>, rev: bool)
    requires
        crate::todo::tasks_wf(todos@),
    ensures
        final(ids)@.to_multiset() == old(ids)@.to_multiset(),
        !rev ==> ids_sorted(task_views(todos@), views(fields@), final(ids)@),
        !rev ==> exists|pos: Seq<int>|
            stable_arrangement(task_views(todos@), views(fields@), old(ids)@, final(ids)@, pos),
        rev ==> exists|pos: Seq<int>|
            stable_arrangement(task_views(todos@), views(fields@), old(ids)@, final(ids)@.reverse(), pos),
        rev ==> ids_sorted(task_views(todos@), views(fields@), final(ids)@.reverse()),
{
    arrange(ids, todos, fields, true, rev)
}

/// Sorts `ids` by the keys of `c` (IDs past the end of `todos` last), then
/// reverses the list when `c.rev` is set. The result holds the same IDs;
/// without `rev` each is not after the next, with it each is not before the
/// next; IDs that compare equal keep their order (see
/// [`stable_arrangement`]). Without keys the IDs are only reversed, or left
/// as they are.
pub fn sort(ids: &mut IDVec, todos: &TaskSlice, c: &Conf)
    requires
        crate::todo::tasks_wf(todos@),
    ensures
        final(ids)@.to_multiset() == old(ids)@.to_multiset(),
        c.fields is None && !c.rev ==> final(ids)@ == old(ids)@,
        c.fields is None && c.rev ==> final(ids)@ == old(ids)@.reverse(),
        c.fields is Some && !c.rev ==> ids_sorted(task_views(todos@), conf_fields(*c), final(ids)@),
        c.fields is Some && !c.rev ==> exists|pos: Seq<int>|
            stable_arrangement(task_views(todos@), conf_fields(*c), old(ids)@, final(ids)@, pos),
        c.fields is Some && c.rev ==> exists|pos: Seq<int>|
            stable_arrangement(task_views(todos@), conf_fields(*c), old(ids)@, final(ids)@.reverse(), pos),
        c.fields is Some && c.rev ==> ids_sorted(
            task_views(todos@),
            conf_fields(*c),
            final(ids)@.reverse(),
        ),
{
    match &c.fields {
        None => {
            if c.rev {
                let empty: Vec<String> = Vec::new();
                arrange(ids, todos, &empty, false, true);
            }
        },
        Some(v) => {
            let fields = parse_fields(v.as_str());
            assert(views(fields@) == conf_fields(*c));
            sort_by_fields(ids, todos, &fields, c.rev);
        },
    }
}

} // verus!
