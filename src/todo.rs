//! The edit engine: bulk operations over a list of tasks, each addressed by
//! its index in the list.
use vstd::prelude::*;
use crate::date::Date;
use crate::text::views;
use crate::timer::{start_timer, stop_spec, stop_timer, timer_name};
use crate::todotxt::task::{
    cleanup_spec, complete_spec, next_dates_spec, parse_spec, tag_date, uncomplete_spec,
    until_name, CompletionConfig, CompletionMode, Task, TaskView,
};
use crate::todotxt::utils::{
    date_text, recurrence_text, replaced_words, split_parts, Recurrence, NO_PRIORITY,
};
use crate::todotxt::task::{
    due_name, rec_name, replace_item_spec, tag_update_spec, thr_name, CompletionDateMode,
};
use crate::text::pieces;
use crate::tsort::opt_dates_cmp;
use crate::date_expr::{calculate_expr, expr_value};

verus! {

/// The ID returned instead of a new task's ID when adding fails.
pub const INVALID_ID: usize = 1_999_999_999;

pub type TaskVec = Vec<Task>;

pub type TaskSlice = [Task];

pub type IDVec = Vec<usize>;

pub type IDSlice = [usize];

pub type ChangedVec = Vec<bool>;

/// Every task is well formed and its tokens are those of its subject.
pub open spec fn tasks_wf(ts: Seq<Task>) -> bool {
    forall|i: int| 0 <= i < ts.len() ==> (#[trigger] ts[i]).wf() && ts[i]@.synced()
}

pub open spec fn task_views(ts: Seq<Task>) -> Seq<TaskView> {
    ts.map_values(|t: Task| t@)
}

/// The IDs an operation visits: those given, or every task.
pub open spec fn id_list(ids: Option<Seq<usize>>, n: int) -> Seq<usize> {
    match ids {
        Some(v) => v,
        None => Seq::new(n as nat, |i: int| i as usize),
    }
}

/// A copy of a list of strings.
fn copy_strings(v: &Vec<String>) -> (r: Vec<String>)
    ensures
        r@ == v@,
{
    let mut out: Vec<String> = Vec::new();
    let mut i: usize = 0;
    while i < v.len()
        invariant
            i <= v@.len(),
            out@ == v@.subrange(0, i as int),
        decreases v@.len() - i,
    {
        out.push(v[i].clone());
        assert(out@ =~= v@.subrange(0, i + 1));
        i = i + 1;
    }
    assert(v@.subrange(0, v@.len() as int) =~= v@);
    out
}

/// A copy of a list of tags.
fn copy_tags(v: &Vec<(String, String)>) -> (r: Vec<(String, String)>)
    ensures
        r@ == v@,
{
    let mut out: Vec<(String, String)> = Vec::new();
    let mut i: usize = 0;
    while i < v.len()
        invariant
            i <= v@.len(),
            out@ == v@.subrange(0, i as int),
        decreases v@.len() - i,
    {
        let pair = (v[i].0.clone(), v[i].1.clone());
        out.push(pair);
        assert(out@ =~= v@.subrange(0, i + 1));
        i = i + 1;
    }
    assert(v@.subrange(0, v@.len() as int) =~= v@);
    out
}

/// A copy of a task.
pub fn copy_task(t: &Task) -> (r: Task)
    ensures
        r@ == t@,
        r.wf() == t.wf(),
{
    let r = Task {
        subject: t.subject.clone(),
        priority: t.priority,
        finished: t.finished,
        contexts: copy_strings(&t.contexts),
        projects: copy_strings(&t.projects),
        tags: copy_tags(&t.tags),
        create_date: t.create_date,
        finish_date: t.finish_date,
        due_date: t.due_date,
        threshold_date: t.threshold_date,
        recurrence: t.recurrence,
        hashtags: copy_strings(&t.hashtags),
    };
    assert(r@ =~= t@);
    r
}

/// The IDs `0..sz`.
pub fn make_id_vec(sz: usize) -> (r: IDVec)
    ensures
        r@ == id_list(None, sz as int),
{
    let mut v: IDVec = Vec::new();
    let mut i: usize = 0;
    while i < sz
        invariant
            i <= sz,
            v@ == Seq::new(i as nat, |k: int| k as usize),
        decreases sz - i,
    {
        v.push(i);
        assert(v@ =~= Seq::new((i + 1) as nat, |k: int| k as usize));
        i = i + 1;
    }
    v
}

pub open spec fn special_tag_names() -> Seq<Seq<char>> {
    seq![
        seq!['d', 'u', 'e'],
        seq!['d', 'u', 'e', ':'],
        seq!['t'],
        seq!['t', ':'],
        seq!['r', 'e', 'c'],
        seq!['r', 'e', 'c', ':'],
    ]
}

/// The tags `due`, `t` and `rec` (with or without the colon) need their
/// own edits, which keep the fields they mirror up to date.
pub fn is_tag_special(tag: &str) -> (r: bool)
    ensures
        r == special_tag_names().contains(tag@),
{
    proof {
        reveal_strlit("due");
        reveal_strlit("due:");
        reveal_strlit("t");
        reveal_strlit("t:");
        reveal_strlit("rec");
        reveal_strlit("rec:");
    }
    let r = crate::text::same_text(tag, "due") || crate::text::same_text(tag, "due:")
        || crate::text::same_text(tag, "t") || crate::text::same_text(tag, "t:")
        || crate::text::same_text(tag, "rec") || crate::text::same_text(tag, "rec:");
    assert(special_tag_names()[0] == "due"@ && special_tag_names()[1] == "due:"@
        && special_tag_names()[2] == "t"@ && special_tag_names()[3] == "t:"@
        && special_tag_names()[4] == "rec"@ && special_tag_names()[5] == "rec:"@);
    r
}

/// The tasks that valid IDs point at, in the order of the IDs.
pub open spec fn picked(ts: Seq<TaskView>, ids: Seq<usize>) -> Seq<TaskView>
    decreases ids.len(),
{
    if ids.len() == 0 {
        Seq::empty()
    } else {
        let prev = picked(ts, ids.drop_last());
        if (ids.last() as int) < ts.len() {
            prev.push(ts[ids.last() as int])
        } else {
            prev
        }
    }
}

/// Copies of the tasks that `ids` point at; IDs past the end are skipped.
pub fn clone_tasks(tasks: &TaskSlice, ids: &IDSlice) -> (r: TaskVec)
    ensures
        task_views(r@) == picked(task_views(tasks@), ids@),
{
    let mut v: TaskVec = Vec::new();
    let mut i: usize = 0;
    assert(task_views(v@) =~= picked(task_views(tasks@), ids@.subrange(0, 0)));
    while i < ids.len()
        invariant
            i <= ids@.len(),
            task_views(v@) == picked(task_views(tasks@), ids@.subrange(0, i as int)),
        decreases ids@.len() - i,
    {
        assert(ids@.subrange(0, i + 1).drop_last() =~= ids@.subrange(0, i as int));
        let id = ids[i];
        if id < tasks.len() {
            let t = copy_task(&tasks[id]);
            let ghost before = v@;
            v.push(t);
            assert(task_views(v@) =~= task_views(before).push(tasks@[id as int]@));
        }
        i = i + 1;
    }
    assert(ids@.subrange(0, ids@.len() as int) =~= ids@);
    v
}

/// The tasks whose indices are not among `ids`, in their order.
pub open spec fn kept(ts: Seq<TaskView>, ids: Seq<usize>) -> Seq<TaskView>
    decreases ts.len(),
{
    if ts.len() == 0 {
        Seq::empty()
    } else {
        let prev = kept(ts.drop_last(), ids);
        if ids.contains((ts.len() - 1) as usize) {
            prev
        } else {
            prev.push(ts.last())
        }
    }
}

/// `ids` holds `id`.
fn has_id(ids: &IDSlice, id: usize) -> (r: bool)
    ensures
        r == ids@.contains(id),
{
    let mut k: usize = 0;
    while k < ids.len()
        invariant
            k <= ids@.len(),
            forall|j: int| 0 <= j < k ==> ids@[j] != id,
        decreases ids@.len() - k,
    {
        if ids[k] == id {
            return true;
        }
        k = k + 1;
    }
    false
}

/// Removes the tasks that `ids` point at (every task for `None`). The
/// result has one entry per ID, true for an ID inside the list; an empty
/// list gives an empty result.
pub fn remove(tasks: &mut TaskVec, ids: Option<&IDVec>) -> (r: ChangedVec)
    requires
        tasks_wf(old(tasks)@),
    ensures
        old(tasks)@.len() == 0 ==> r@.len() == 0 && final(tasks)@ == old(tasks)@,
        old(tasks)@.len() > 0 ==> {
            let idl = id_list(
                match ids {
                    Some(v) => Some(v@),
                    None => None,
                },
                old(tasks)@.len() as int,
            );
            &&& r@.len() == idl.len()
            &&& forall|i: int| 0 <= i < idl.len() ==> r@[i] == ((idl[i] as int) < old(tasks)@.len())
            &&& task_views(final(tasks)@) == kept(task_views(old(tasks)@), idl)
        },
        tasks_wf(final(tasks)@),
{
    if tasks.len() == 0 {
        return Vec::new();
    }
    let longvec = make_id_vec(tasks.len());
    let idlist: &IDVec = match ids {
        Some(v) => v,
        None => &longvec,
    };
    let mut bools: ChangedVec = Vec::new();
    let mut i: usize = 0;
    while i < idlist.len()
        invariant
            i <= idlist@.len(),
            bools@.len() == i,
            forall|j: int| 0 <= j < i ==> bools@[j] == ((idlist@[j] as int) < tasks@.len()),
        decreases idlist@.len() - i,
    {
        bools.push(idlist[i] < tasks.len());
        i = i + 1;
    }
    let mut remained: TaskVec = Vec::new();
    let mut k: usize = 0;
    assert(task_views(remained@) =~= kept(task_views(tasks@).subrange(0, 0), idlist@));
    while k < tasks.len()
        invariant
            k <= tasks@.len(),
            tasks_wf(tasks@),
            tasks_wf(remained@),
            task_views(remained@) == kept(task_views(tasks@).subrange(0, k as int), idlist@),
        decreases tasks@.len() - k,
    {
        assert(task_views(tasks@).subrange(0, k + 1).drop_last() =~= task_views(tasks@).subrange(0, k as int));
        if !has_id(idlist.as_slice(), k) {
            let t = copy_task(&tasks[k]);
            assert(tasks@[k as int].wf() && tasks@[k as int]@.synced());
            let ghost before = remained@;
            remained.push(t);
            assert(task_views(remained@) =~= task_views(before).push(tasks@[k as int]@));
            assert(tasks_wf(remained@)) by {
                assert forall|j: int| 0 <= j < remained@.len() implies #[trigger] remained@[j].wf()
                    && remained@[j]@.synced() by {
                    if j < before.len() {
                        assert(remained@[j] == before[j]);
                    } else {
                        assert(remained@[j] == t);
                        assert(tasks@[k as int].wf() && tasks@[k as int]@.synced());
                    }
                }
            }
        }
        k = k + 1;
    }
    assert(task_views(tasks@).subrange(0, tasks@.len() as int) =~= task_views(tasks@));
    *tasks = remained;
    bools
}


/// The list after task `id` is completed, and whether it changed: its timer
/// stops, it is completed, and a recurring one with a due or threshold
/// date gets a successor with its dates moved on, unless the new due date
/// is not before the `until` date.
pub open spec fn done_step(
    ts: Seq<TaskView>,
    id: usize,
    cfg: CompletionConfig,
    today: Date,
    now: int,
) -> (Seq<TaskView>, bool) {
    if id as int >= ts.len() {
        (ts, false)
    } else {
        let stopped = stop_spec(ts[id as int], now, today);
        let t1 = stopped.0;
        let completed = complete_spec(t1, today, cfg);
        let t2 = completed.0;
        let recurs = t1.recurrence is Some && (t1.due_date is Some || t1.threshold_date is Some);
        let next0 = TaskView {
            create_date: if t1.create_date is Some {
                Some(today)
            } else {
                None
            },
            ..t1
        };
        let next1 = next_dates_spec(next0, today).0;
        let add = match (tag_date(t2.tags, until_name(), today), next1.due_date) {
            (Some(u), Some(nd)) => u.num() > nd.num(),
            _ => true,
        };
        let ts2 = ts.update(id as int, t2);
        (
            if completed.1 && recurs && add {
                ts2.push(cleanup_spec(next1))
            } else {
                ts2
            },
            stopped.1 || completed.1,
        )
    }
}

/// [`done_step`] over each ID in turn.
pub open spec fn done_all(
    ts: Seq<TaskView>,
    ids: Seq<usize>,
    cfg: CompletionConfig,
    today: Date,
    now: int,
) -> (Seq<TaskView>, Seq<bool>)
    decreases ids.len(),
{
    if ids.len() == 0 {
        (ts, Seq::empty())
    } else {
        let prev = done_all(ts, ids.drop_last(), cfg, today, now);
        let step = done_step(prev.0, ids.last(), cfg, today, now);
        (step.0, prev.1.push(step.1))
    }
}

/// The list after task `id` has its completion undone, and whether it changed.
pub open spec fn undone_step(ts: Seq<TaskView>, id: usize, mode: CompletionMode) -> (Seq<TaskView>, bool) {
    if id as int >= ts.len() {
        (ts, false)
    } else {
        let u = uncomplete_spec(ts[id as int], mode);
        (ts.update(id as int, u.0), u.1)
    }
}

/// [`undone_step`] over each ID in turn.
pub open spec fn undone_all(ts: Seq<TaskView>, ids: Seq<usize>, mode: CompletionMode) -> (
    Seq<TaskView>,
    Seq<bool>,
)
    decreases ids.len(),
{
    if ids.len() == 0 {
        (ts, Seq::empty())
    } else {
        let prev = undone_all(ts, ids.drop_last(), mode);
        let step = undone_step(prev.0, ids.last(), mode);
        (step.0, prev.1.push(step.1))
    }
}

/// The list after the timer of task `id` starts (`start`) or stops at `now`.
pub open spec fn timer_step(ts: Seq<TaskView>, id: usize, start: bool, today: Date, now: int) -> (
    Seq<TaskView>,
    bool,
) {
    if id as int >= ts.len() {
        (ts, false)
    } else {
        let u = if start {
            crate::timer::start_spec(ts[id as int], now, today)
        } else {
            stop_spec(ts[id as int], now, today)
        };
        (ts.update(id as int, u.0), u.1)
    }
}

/// [`timer_step`] over each ID in turn.
pub open spec fn timer_all(ts: Seq<TaskView>, ids: Seq<usize>, start: bool, today: Date, now: int) -> (
    Seq<TaskView>,
    Seq<bool>,
)
    decreases ids.len(),
{
    if ids.len() == 0 {
        (ts, Seq::empty())
    } else {
        let prev = timer_all(ts, ids.drop_last(), start, today, now);
        let step = timer_step(prev.0, ids.last(), start, today, now);
        (step.0, prev.1.push(step.1))
    }
}

pub open spec fn opt_ids(ids: Option<&IDVec>) -> Option<Seq<usize>> {
    match ids {
        Some(v) => Some(v@),
        None => None,
    }
}

proof fn lemma_wf_at(ts: Seq<Task>, i: int)
    requires
        tasks_wf(ts),
        0 <= i < ts.len(),
    ensures
        ts[i].wf(),
        ts[i]@.synced(),
{
}

proof fn lemma_wf_set(ts: Seq<Task>, i: int, t: Task)
    requires
        tasks_wf(ts),
        0 <= i < ts.len(),
        t.wf(),
        t@.synced(),
    ensures
        tasks_wf(ts.update(i, t)),
        task_views(ts.update(i, t)) == task_views(ts).update(i, t@),
{
    assert(task_views(ts.update(i, t)) =~= task_views(ts).update(i, t@));
    assert forall|j: int| 0 <= j < ts.update(i, t).len() implies #[trigger] ts.update(i, t)[j].wf()
        && ts.update(i, t)[j]@.synced() by {
        if j != i {
            assert(ts[j].wf() && ts[j]@.synced());
        }
    }
}

proof fn lemma_wf_push(ts: Seq<Task>, t: Task)
    requires
        tasks_wf(ts),
        t.wf(),
        t@.synced(),
    ensures
        tasks_wf(ts.push(t)),
        task_views(ts.push(t)) == task_views(ts).push(t@),
{
    assert(task_views(ts.push(t)) =~= task_views(ts).push(t@));
    assert forall|j: int| 0 <= j < ts.push(t).len() implies #[trigger] ts.push(t)[j].wf()
        && ts.push(t)[j]@.synced() by {
        if j < ts.len() {
            assert(ts[j].wf() && ts[j]@.synced());
        }
    }
}

/// Completes task `idx` (see [`done_step`]).
#[verifier::rlimit(60)]
fn done_one(tasks: &mut TaskVec, idx: usize, cfg: CompletionConfig, today: Date, now: i64) -> (r: bool)
    requires
        tasks_wf(old(tasks)@),
        idx < old(tasks)@.len(),
        today.wf(),
    ensures
        (task_views(final(tasks)@), r) == done_step(task_views(old(tasks)@), idx, cfg, today, now as int),
        tasks_wf(final(tasks)@),
{
    assert(tasks@[idx as int].wf() && tasks@[idx as int]@.synced());
    let mut t = copy_task(&tasks[idx]);
    let stopped = stop_timer(&mut t, now, today);
    let mut next = copy_task(&t);
    let recurs = next.recurrence.is_some() && (next.due_date.is_some() || next.threshold_date.is_some());
    let completed = t.complete_with_config(today, cfg);
    proof {
        lemma_wf_set(tasks@, idx as int, t);
    }
    let ghost ts = tasks@;
    tasks.set(idx, t);
    if completed && recurs {
        if next.create_date.is_some() {
            next.create_date = Some(today);
        } else {
            next.create_date = None;
        }
        next.next_dates(today);
        let do_add = match (tasks[idx].rec_until(today), next.due_date) {
            (Some(u), Some(nd)) => nd.is_before(&u),
            _ => true,
        };
        if do_add {
            next.cleanup_cloned_task();
            proof {
                lemma_wf_push(tasks@, next);
            }
            tasks.push(next);
        }
    }
    stopped || completed
}

/// Marks the tasks that `ids` point at (every task for `None`) completed
/// on `today`, stopping their timers at `now` (seconds since the Unix
/// epoch). A recurring task with a due or threshold date gets a successor
/// appended, its dates moved on, unless its new due date is not before its
/// `until` date. The result has one entry per ID, true where a task
/// changed; an empty list gives an empty result.
pub fn done(
    tasks: &mut TaskVec,
    ids: Option<&IDVec>,
    completion_config: CompletionConfig,
    today: Date,
    now: i64,
) -> (r: ChangedVec)
    requires
        tasks_wf(old(tasks)@),
        today.wf(),
    ensures
        old(tasks)@.len() == 0 ==> r@.len() == 0 && final(tasks)@ == old(tasks)@,
        old(tasks)@.len() > 0 ==> (task_views(final(tasks)@), r@) == done_all(
            task_views(old(tasks)@),
            id_list(opt_ids(ids), old(tasks)@.len() as int),
            completion_config,
            today,
            now as int,
        ),
        tasks_wf(final(tasks)@),
{
    if tasks.len() == 0 {
        return Vec::new();
    }
    let longvec = make_id_vec(tasks.len());
    let idlist: &IDVec = match ids {
        Some(v) => v,
        None => &longvec,
    };
    let ghost idl = id_list(opt_ids(ids), old(tasks)@.len() as int);
    assert(idlist@ == idl);
    let mut bools: ChangedVec = Vec::new();
    let mut i: usize = 0;
    assert(idl.subrange(0, 0) =~= Seq::<usize>::empty());
    while i < idlist.len()
        invariant
            i <= idlist@.len(),
            idlist@ == idl,
            tasks_wf(tasks@),
            today.wf(),
                (task_views(tasks@), bools@) == done_all(
                task_views(old(tasks)@),
                idl.subrange(0, i as int),
                completion_config,
                today,
                now as int,
            ),
        decreases idlist@.len() - i,
    {
        assert(idl.subrange(0, i + 1).drop_last() =~= idl.subrange(0, i as int));
        let idx = idlist[i];
        if idx >= tasks.len() {
            bools.push(false);
        } else {
            let changed = done_one(tasks, idx, completion_config, today, now);
            bools.push(changed);
        }
        i = i + 1;
    }
    assert(idl.subrange(0, idl.len() as int) =~= idl);
    bools
}

/// Undoes the completion of the tasks that `ids` point at (every task for
/// `None`), restoring the priority as `mode` kept it. The result has one
/// entry per ID, true where a task changed; an empty list gives an empty
/// result.
pub fn undone(tasks: &mut TaskVec, ids: Option<&IDVec>, mode: CompletionMode) -> (r: ChangedVec)
    requires
        tasks_wf(old(tasks)@),
    ensures
        old(tasks)@.len() == 0 ==> r@.len() == 0 && final(tasks)@ == old(tasks)@,
        old(tasks)@.len() > 0 ==> (task_views(final(tasks)@), r@) == undone_all(
            task_views(old(tasks)@),
            id_list(opt_ids(ids), old(tasks)@.len() as int),
            mode,
        ),
        tasks_wf(final(tasks)@),
{
    if tasks.len() == 0 {
        return Vec::new();
    }
    let longvec = make_id_vec(tasks.len());
    let idlist: &IDVec = match ids {
        Some(v) => v,
        None => &longvec,
    };
    let ghost idl = id_list(opt_ids(ids), old(tasks)@.len() as int);
    assert(idlist@ == idl);
    let mut bools: ChangedVec = Vec::new();
    let mut i: usize = 0;
    assert(idl.subrange(0, 0) =~= Seq::<usize>::empty());
    while i < idlist.len()
        invariant
            i <= idlist@.len(),
            idlist@ == idl,
            tasks_wf(tasks@),
            (task_views(tasks@), bools@) == undone_all(task_views(old(tasks)@), idl.subrange(0, i as int), mode),
        decreases idlist@.len() - i,
    {
        assert(idl.subrange(0, i + 1).drop_last() =~= idl.subrange(0, i as int));
        let idx = idlist[i];
        if idx >= tasks.len() {
            bools.push(false);
        } else {
            proof {
                lemma_wf_at(tasks@, idx as int);
            }
            let mut t = copy_task(&tasks[idx]);
            let changed = t.uncomplete(mode);
            proof {
                lemma_wf_set(tasks@, idx as int, t);
            }
            tasks.set(idx, t);
            bools.push(changed);
        }
        i = i + 1;
    }
    assert(idl.subrange(0, idl.len() as int) =~= idl);
    bools
}

/// Starts (`start`) or stops the timers of the tasks that `ids` point at.
fn timer_all_exec(tasks: &mut TaskVec, ids: Option<&IDVec>, start: bool, today: Date, now: i64) -> (r: ChangedVec)
    requires
        tasks_wf(old(tasks)@),
        today.wf(),
    ensures
        old(tasks)@.len() == 0 ==> r@.len() == 0 && final(tasks)@ == old(tasks)@,
        old(tasks)@.len() > 0 ==> (task_views(final(tasks)@), r@) == timer_all(
            task_views(old(tasks)@),
            id_list(opt_ids(ids), old(tasks)@.len() as int),
            start,
            today,
            now as int,
        ),
        tasks_wf(final(tasks)@),
{
    if tasks.len() == 0 {
        return Vec::new();
    }
    let longvec = make_id_vec(tasks.len());
    let idlist: &IDVec = match ids {
        Some(v) => v,
        None => &longvec,
    };
    let ghost idl = id_list(opt_ids(ids), old(tasks)@.len() as int);
    assert(idlist@ == idl);
    let mut bools: ChangedVec = Vec::new();
    let mut i: usize = 0;
    assert(idl.subrange(0, 0) =~= Seq::<usize>::empty());
    while i < idlist.len()
        invariant
            i <= idlist@.len(),
            idlist@ == idl,
            tasks_wf(tasks@),
            today.wf(),
                (task_views(tasks@), bools@) == timer_all(
                task_views(old(tasks)@),
                idl.subrange(0, i as int),
                start,
                today,
                now as int,
            ),
        decreases idlist@.len() - i,
    {
        assert(idl.subrange(0, i + 1).drop_last() =~= idl.subrange(0, i as int));
        let idx = idlist[i];
        if idx >= tasks.len() {
            bools.push(false);
        } else {
            proof {
                lemma_wf_at(tasks@, idx as int);
            }
            let mut t = copy_task(&tasks[idx]);
            let changed = if start {
                start_timer(&mut t, now, today)
            } else {
                stop_timer(&mut t, now, today)
            };
            proof {
                lemma_wf_set(tasks@, idx as int, t);
            }
            tasks.set(idx, t);
            bools.push(changed);
        }
        i = i + 1;
    }
    assert(idl.subrange(0, idl.len() as int) =~= idl);
    bools
}

/// Starts the timers of the tasks that `ids` point at (every task for
/// `None`) that are open and not running, at `now` (seconds since the Unix
/// epoch). The result has one entry per ID, true where a timer started.
pub fn start(tasks: &mut TaskVec, ids: Option<&IDVec>, today: Date, now: i64) -> (r: ChangedVec)
    requires
        tasks_wf(old(tasks)@),
        today.wf(),
    ensures
        old(tasks)@.len() == 0 ==> r@.len() == 0 && final(tasks)@ == old(tasks)@,
        old(tasks)@.len() > 0 ==> (task_views(final(tasks)@), r@) == timer_all(
            task_views(old(tasks)@),
            id_list(opt_ids(ids), old(tasks)@.len() as int),
            true,
            today,
            now as int,
        ),
        tasks_wf(final(tasks)@),
{
    timer_all_exec(tasks, ids, true, today, now)
}

/// Stops the running timers of the tasks that `ids` point at (every task
/// for `None`) at `now`. The result has one entry per ID, true where a
/// timer stopped.
pub fn stop(tasks: &mut TaskVec, ids: Option<&IDVec>, today: Date, now: i64) -> (r: ChangedVec)
    requires
        tasks_wf(old(tasks)@),
        today.wf(),
    ensures
        old(tasks)@.len() == 0 ==> r@.len() == 0 && final(tasks)@ == old(tasks)@,
        old(tasks)@.len() > 0 ==> (task_views(final(tasks)@), r@) == timer_all(
            task_views(old(tasks)@),
            id_list(opt_ids(ids), old(tasks)@.len() as int),
            false,
            today,
            now as int,
        ),
        tasks_wf(final(tasks)@),
{
    timer_all_exec(tasks, ids, false, today, now)
}

// -------------------------------------------------------------- edit rules

/// The new value of a date tag: a fixed date, an expression worked out for
/// each task (such as `due+1w`), or no date.
#[derive(Debug, Clone)]
pub enum NewDateValue {
    Date(Date),
    Expr(String),
    NoDate,
}

/// An operation on a property:
/// priority: `SetValue`, `Delete`, `Increase`, `Decrease`;
/// due and threshold dates, recurrence, tags: `SetValue`, `Delete`;
/// projects, contexts, hashtags: `SetValue`, `Delete`, `Replace`.
#[derive(Debug, Clone, Copy, PartialEq, Eq, Structural)]
pub enum Action {
    /// Leave the property alone.
    Keep,
    /// Set the value; for lists, add the values.
    SetValue,
    /// Remove the value.
    Delete,
    /// Replace values given as pairs: `old+new` for projects, `old@new` for
    /// contexts, `old:new` for hashtags.
    Replace,
    /// Priority only: one level up, `A` staying `A`.
    Increase,
    /// Priority only: one level down; below `Z` it goes.
    Decrease,
}

/// A change of a date tag.
#[derive(Debug, Clone)]
pub struct DateTagChange {
    pub action: Action,
    pub value: NewDateValue,
}

impl Default for DateTagChange {
    fn default() -> (r: DateTagChange)
        ensures
            r.action == Action::Keep,
            r.value is NoDate,
    {
        DateTagChange { action: Action::Keep, value: NewDateValue::NoDate }
    }
}

/// A change of a list: projects, contexts or hashtags.
#[derive(Debug, Clone)]
pub struct ListTagChange {
    pub action: Action,
    pub value: Vec<String>,
}

impl Default for ListTagChange {
    fn default() -> (r: ListTagChange)
        ensures
            r.action == Action::Keep,
            r.value@.len() == 0,
    {
        ListTagChange { action: Action::Keep, value: Vec::new() }
    }
}

/// A change of the priority.
#[derive(Clone, Copy, Debug)]
pub struct PriorityTagChange {
    pub action: Action,
    pub value: u8,
}

impl Default for PriorityTagChange {
    fn default() -> (r: PriorityTagChange)
        ensures
            r.action == Action::Keep,
            r.value == NO_PRIORITY,
    {
        PriorityTagChange { action: Action::Keep, value: NO_PRIORITY }
    }
}

/// A change of the recurrence.
#[derive(Clone, Copy, Debug)]
pub struct RecurrencyTagChange {
    pub action: Action,
    pub value: Option<Recurrence>,
}

impl Default for RecurrencyTagChange {
    fn default() -> (r: RecurrencyTagChange)
        ensures
            r.action == Action::Keep,
            r.value is None,
    {
        RecurrencyTagChange { action: Action::Keep, value: None }
    }
}

/// A change of other tags, each given with its value.
#[derive(Clone, Debug)]
pub struct TagValuesChange {
    pub action: Action,
    pub value: Option<Vec<(String, String)>>,
}

impl Default for TagValuesChange {
    fn default() -> (r: TagValuesChange)
        ensures
            r.action == Action::Keep,
            r.value is None,
    {
        TagValuesChange { action: Action::Keep, value: None }
    }
}

/// What to change in the selected tasks.
#[derive(Debug, Clone)]
pub struct Conf {
    /// A new subject, in todo.txt form; it replaces only the first
    /// selected task, and the other changes are then not made.
    pub subject: Option<String>,
    pub priority: PriorityTagChange,
    pub due: DateTagChange,
    pub thr: DateTagChange,
    pub recurrence: RecurrencyTagChange,
    /// For `Replace`, pairs `old+new`.
    pub projects: ListTagChange,
    /// For `Replace`, pairs `old@new`.
    pub contexts: ListTagChange,
    /// Give a new task today's creation date when its text has none.
    pub auto_create_date: bool,
    /// Tags other than `due`, `t` and `rec` (which are left alone here).
    pub tags: TagValuesChange,
    /// For `Replace`, pairs `old:new`.
    pub hashtags: ListTagChange,
    pub completion_mode: CompletionMode,
    pub completion_date_mode: CompletionDateMode,
    /// The days that `soon` is after today.
    pub soon_days: u8,
}

impl Default for Conf {
    fn default() -> (r: Conf)
        ensures
            r.subject is None,
            r.priority.action == Action::Keep,
            r.due.action == Action::Keep,
            r.thr.action == Action::Keep,
            r.recurrence.action == Action::Keep,
            r.projects.action == Action::Keep,
            r.contexts.action == Action::Keep,
            !r.auto_create_date,
            r.tags.action == Action::Keep,
            r.hashtags.action == Action::Keep,
            r.completion_mode == CompletionMode::JustMark,
            r.completion_date_mode == CompletionDateMode::WhenCreationDateIsPresent,
            r.soon_days == 0,
    {
        Conf {
            subject: None,
            priority: PriorityTagChange::default(),
            due: DateTagChange::default(),
            thr: DateTagChange::default(),
            recurrence: RecurrencyTagChange::default(),
            projects: ListTagChange::default(),
            contexts: ListTagChange::default(),
            auto_create_date: false,
            tags: TagValuesChange::default(),
            hashtags: ListTagChange::default(),
            completion_mode: CompletionMode::JustMark,
            completion_date_mode: CompletionDateMode::WhenCreationDateIsPresent,
            soon_days: 0,
        }
    }
}

/// Fixed dates in the rules are valid dates.
pub open spec fn conf_wf(c: Conf) -> bool {
    &&& c.due.value matches NewDateValue::Date(d) ==> d.wf()
    &&& c.thr.value matches NewDateValue::Date(d) ==> d.wf()
    &&& c.recurrence.value matches Some(r) ==> r.count >= 1
}

// ------------------------------------------------------------- add

/// The task `add` appends, when the subject is set and not empty.
pub open spec fn added_task(c: Conf, today: Date) -> Option<TaskView> {
    match c.subject {
        Some(s) => if s@.len() == 0 {
            None
        } else {
            let t = parse_spec(s@, today);
            Some(
                if c.auto_create_date && t.create_date is None {
                    TaskView { create_date: Some(today), ..t }
                } else {
                    t
                },
            )
        },
        None => None,
    }
}

/// Appends the task written in `c.subject`, read with `today` as the base
/// of relative dates; with `c.auto_create_date` a task without a creation
/// date gets `today`. Returns its ID, or [`INVALID_ID`] when the subject is
/// missing or empty (the list is then left as it is).
pub fn add(tasks: &mut TaskVec, c: &Conf, today: Date) -> (r: usize)
    requires
        tasks_wf(old(tasks)@),
        today.wf(),
        old(tasks)@.len() < INVALID_ID,
    ensures
        match added_task(*c, today) {
            Some(t) => r == old(tasks)@.len() && task_views(final(tasks)@) == task_views(old(tasks)@).push(t),
            None => r == INVALID_ID && final(tasks)@ == old(tasks)@,
        },
        tasks_wf(final(tasks)@),
{
    let s = match &c.subject {
        None => return INVALID_ID,
        Some(subj) => subj,
    };
    if s.unicode_len() == 0 {
        return INVALID_ID;
    }
    let mut t = Task::parse(s.as_str(), today);
    if c.auto_create_date && t.create_date.is_none() {
        t.create_date = Some(today);
    }
    proof {
        lemma_wf_push(tasks@, t);
    }
    tasks.push(t);
    tasks.len() - 1
}

// --------------------------------------------------------- field updates

/// The priority after a change, and whether it changed.
pub open spec fn priority_update_spec(t: TaskView, ch: PriorityTagChange) -> (TaskView, bool) {
    match ch.action {
        Action::SetValue => if t.priority != ch.value {
            (TaskView { priority: ch.value, ..t }, true)
        } else {
            (t, false)
        },
        Action::Delete => if t.priority != NO_PRIORITY {
            (TaskView { priority: NO_PRIORITY, ..t }, true)
        } else {
            (t, false)
        },
        Action::Increase => if t.priority != 0 && t.priority != NO_PRIORITY {
            (TaskView { priority: (t.priority - 1) as u8, ..t }, true)
        } else {
            (t, false)
        },
        Action::Decrease => if t.priority < NO_PRIORITY {
            (TaskView { priority: (t.priority + 1) as u8, ..t }, true)
        } else {
            (t, false)
        },
        _ => (t, false),
    }
}

fn update_priority(task: &mut Task, c: &Conf) -> (r: bool)
    ensures
        (final(task)@, r) == priority_update_spec(old(task)@, c.priority),
        final(task).wf() == old(task).wf(),
{
    match c.priority.action {
        Action::SetValue => {
            if task.priority != c.priority.value {
                task.priority = c.priority.value;
                return true;
            }
        },
        Action::Delete => {
            if task.priority != NO_PRIORITY {
                task.priority = NO_PRIORITY;
                return true;
            }
        },
        Action::Increase => {
            if task.priority != 0 && task.priority != NO_PRIORITY {
                task.priority = task.priority - 1;
                return true;
            }
        },
        Action::Decrease => {
            if task.priority < NO_PRIORITY {
                task.priority = task.priority + 1;
                return true;
            }
        },
        _ => {},
    }
    false
}

/// The date a date change names for task `t`: `None` when its expression
/// cannot be worked out.
pub open spec fn new_date_value(t: TaskView, v: NewDateValue, today: Date, soon: int) -> Option<Option<Date>> {
    match v {
        NewDateValue::NoDate => Some(None),
        NewDateValue::Date(d) => Some(Some(d)),
        NewDateValue::Expr(e) => match expr_value(e@, t, today, soon) {
            Some(d) => Some(Some(d)),
            None => None,
        },
    }
}

pub open spec fn opt_date_word(d: Option<Date>) -> Seq<char> {
    match d {
        Some(x) => date_text(x),
        None => Seq::empty(),
    }
}

/// The task after a change of date tag `name` (whose date is `cur`), and
/// whether it changed. A failed expression changes nothing.
pub open spec fn date_update_spec(
    t: TaskView,
    ch: DateTagChange,
    name: Seq<char>,
    cur: Option<Date>,
    today: Date,
    soon: int,
) -> (TaskView, bool) {
    match ch.action {
        Action::SetValue => match new_date_value(t, ch.value, today, soon) {
            None => (t, false),
            Some(nd) => if opt_dates_cmp(cur, nd) != 0 {
                (tag_update_spec(t, name, opt_date_word(nd), today).0, true)
            } else {
                (t, false)
            },
        },
        Action::Delete => if cur is Some {
            (tag_update_spec(t, name, Seq::empty(), today).0, true)
        } else {
            (t, false)
        },
        _ => (t, false),
    }
}

fn update_date_tag(task: &mut Task, ch: &DateTagChange, name: &str, due: bool, today: Date, soon_days: u8) -> (r: bool)
    requires
        old(task).wf(),
        old(task)@.synced(),
        today.wf(),
        ch.value matches NewDateValue::Date(d) ==> d.wf(),
    ensures
        (final(task)@, r) == date_update_spec(
            old(task)@,
            *ch,
            name@,
            if due {
                old(task).due_date
            } else {
                old(task).threshold_date
            },
            today,
            soon_days as int,
        ),
        final(task).wf(),
        final(task)@.synced(),
{
    let cur = if due {
        task.due_date
    } else {
        task.threshold_date
    };
    proof {
        reveal_strlit("");
    }
    match ch.action {
        Action::SetValue => {
            let nd = match &ch.value {
                NewDateValue::NoDate => None,
                NewDateValue::Date(d) => Some(*d),
                NewDateValue::Expr(e) => match calculate_expr(today, e.as_str(), task, soon_days) {
                    Err(_) => return false,
                    Ok(d) => Some(d),
                },
            };
            let differ = match (cur, nd) {
                (None, None) => false,
                (Some(a), Some(b)) => a.is_before(&b) || b.is_before(&a),
                _ => true,
            };
            if differ {
                match nd {
                    None => {
                        task.update_tag_with_value(name, "", today);
                        assert(""@ =~= Seq::<char>::empty());
                    },
                    Some(d) => {
                        let text = crate::todotxt::utils::format_date(d);
                        task.update_tag_with_value(name, text.as_str(), today);
                    },
                }
                return true;
            }
        },
        Action::Delete => {
            if cur.is_some() {
                task.update_tag_with_value(name, "", today);
                assert(""@ =~= Seq::<char>::empty());
                return true;
            }
        },
        _ => {},
    }
    false
}

/// The task after a change of the recurrence, and whether it changed:
/// setting one on a finished task also undoes its completion.
pub open spec fn rec_update_spec(t: TaskView, ch: RecurrencyTagChange, mode: CompletionMode, today: Date) -> (
    TaskView,
    bool,
) {
    match ch.action {
        Action::SetValue => match ch.value {
            Some(nr) => if t.recurrence != Some(nr) {
                let text = recurrence_text(nr);
                let u = tag_update_spec(t, rec_name(), text.subrange(4, text.len() as int), today);
                if u.1 && u.0.finished {
                    (uncomplete_spec(u.0, mode).0, true)
                } else {
                    u
                }
            } else {
                (t, false)
            },
            None => (t, false),
        },
        Action::Delete => if t.recurrence is Some {
            (tag_update_spec(t, rec_name(), Seq::empty(), today).0, true)
        } else {
            (t, false)
        },
        _ => (t, false),
    }
}

fn update_recurrence(task: &mut Task, c: &Conf, today: Date) -> (r: bool)
    requires
        old(task).wf(),
        old(task)@.synced(),
        today.wf(),
    ensures
        (final(task)@, r) == rec_update_spec(old(task)@, c.recurrence, c.completion_mode, today),
        final(task).wf(),
        final(task)@.synced(),
{
    proof {
        reveal_strlit("rec");
        reveal_strlit("");
        assert("rec"@ =~= rec_name());
        assert(""@ =~= Seq::<char>::empty());
    }
    match c.recurrence.action {
        Action::SetValue => {
            if let Some(nr) = c.recurrence.value {
                if task.recurrence != Some(nr) {
                    let text = nr.to_string();
                    let body = text.as_str().substring_char(4, text.unicode_len());
                    let updated = task.update_tag_with_value("rec", body, today);
                    if updated && task.finished {
                        task.uncomplete(c.completion_mode);
                    }
                    return updated;
                }
            }
        },
        Action::Delete => {
            if task.recurrence.is_some() {
                task.update_tag_with_value("rec", "", today);
                return true;
            }
        },
        _ => {},
    }
    false
}

/// The pieces of `s` between separators, a trailing empty piece dropped,
/// as `str::split_terminator` gives them.
pub open spec fn split_terminated(s: Seq<char>, sep: char) -> Seq<Seq<char>> {
    let ps = pieces(s, sep);
    if ps.len() > 0 && ps.last().len() == 0 {
        ps.drop_last()
    } else {
        ps
    }
}

/// One list item applied to a task (projects for `+`, contexts for `@`).
pub open spec fn list_step(t: TaskView, action: Action, item: Seq<char>, sigil: char) -> TaskView {
    match action {
        Action::SetValue => replace_item_spec(t, Seq::empty(), item, sigil),
        Action::Delete => replace_item_spec(t, item, Seq::empty(), sigil),
        Action::Replace => {
            let pr = split_terminated(item, sigil);
            if pr.len() == 2 && pr[0] != pr[1] && pr[0].len() > 0 && pr[1].len() > 0 {
                replace_item_spec(t, pr[0], pr[1], sigil)
            } else {
                t
            }
        },
        _ => t,
    }
}

/// The items applied in turn, and whether any changed the subject.
pub open spec fn list_update_spec(t: TaskView, action: Action, items: Seq<Seq<char>>, sigil: char) -> (
    TaskView,
    bool,
)
    decreases items.len(),
{
    if items.len() == 0 {
        (t, false)
    } else {
        let prev = list_update_spec(t, action, items.drop_last(), sigil);
        let next = list_step(prev.0, action, items.last(), sigil);
        (next, prev.1 || next.subject != prev.0.subject)
    }
}

fn update_list(task: &mut Task, ch: &ListTagChange, sigil: char) -> (r: bool)
    requires
        old(task).wf(),
        old(task)@.synced(),
    ensures
        (final(task)@, r) == list_update_spec(old(task)@, ch.action, views(ch.value@), sigil),
        final(task).wf(),
        final(task)@.synced(),
{
    let mut changed = false;
    let mut i: usize = 0;
    assert(views(ch.value@).subrange(0, 0) =~= Seq::<Seq<char>>::empty());
    while i < ch.value.len()
        invariant
            i <= ch.value@.len(),
            task.wf(),
            task@.synced(),
            (task@, changed) == list_update_spec(old(task)@, ch.action, views(ch.value@).subrange(0, i as int), sigil),
        decreases ch.value@.len() - i,
    {
        assert(views(ch.value@).subrange(0, i + 1).drop_last() =~= views(ch.value@).subrange(0, i as int));
        assert(views(ch.value@).subrange(0, i + 1).last() == ch.value@[i as int]@);
        let item = ch.value[i].as_str();
        let old_subj = task.subject.clone();
        proof {
            reveal_strlit("");
            assert(""@ =~= Seq::<char>::empty());
        }
        match ch.action {
            Action::SetValue => {
                task.replace_item("", item, sigil);
            },
            Action::Delete => {
                task.replace_item(item, "", sigil);
            },
            Action::Replace => {
                let ps = crate::text::split_text(item, sigil);
                let mut pair = ps;
                if pair.len() > 0 && pair[pair.len() - 1].unicode_len() == 0 {
                    let ghost before = pair@;
                    pair.pop();
                    assert(views(pair@) =~= views(before).drop_last());
                }
                if pair.len() == 2 {
                    assert(views(pair@)[0] == pair@[0]@ && views(pair@)[1] == pair@[1]@);
                    let a = pair[0].as_str();
                    let b = pair[1].as_str();
                    if !crate::text::same_text(a, b) && a.unicode_len() > 0 && b.unicode_len() > 0 {
                        task.replace_item(a, b, sigil);
                    }
                }
            },
            _ => {},
        }
        let differs = !crate::text::same_text(old_subj.as_str(), task.subject.as_str());
        changed = changed || differs;
        i = i + 1;
    }
    assert(views(ch.value@).subrange(0, ch.value@.len() as int) =~= views(ch.value@));
    changed
}

/// `s` without its trailing colons.
pub open spec fn trim_colons(s: Seq<char>) -> Seq<char>
    decreases s.len(),
{
    if s.len() > 0 && s.last() == ':' {
        trim_colons(s.drop_last())
    } else {
        s
    }
}

/// `s` without its leading `#` signs.
pub open spec fn trim_hashes(s: Seq<char>) -> Seq<char>
    decreases s.len(),
{
    if s.len() > 0 && s[0] == '#' {
        trim_hashes(s.drop_first())
    } else {
        s
    }
}

fn strip_colons(s: &str) -> (r: &str)
    ensures
        r@ == trim_colons(s@),
{
    let mut b = s.unicode_len();
    assert(s@.subrange(0, b as int) =~= s@);
    while b > 0 && s.get_char(b - 1) == ':'
        invariant
            b <= s@.len(),
            trim_colons(s@) == trim_colons(s@.subrange(0, b as int)),
        decreases b,
    {
        assert(s@.subrange(0, b as int).drop_last() =~= s@.subrange(0, b - 1));
        b = b - 1;
    }
    s.substring_char(0, b)
}

fn strip_hashes(s: &str) -> (r: &str)
    ensures
        r@ == trim_hashes(s@),
{
    let n = s.unicode_len();
    let mut a: usize = 0;
    assert(s@.subrange(0, n as int) =~= s@);
    while a < n && s.get_char(a) == '#'
        invariant
            n == s@.len(),
            a <= n,
            trim_hashes(s@) == trim_hashes(s@.subrange(a as int, n as int)),
        decreases n - a,
    {
        assert(s@.subrange(a as int, n as int).drop_first() =~= s@.subrange(a + 1, n as int));
        a = a + 1;
    }
    s.substring_char(a, n)
}

/// One tag change applied; the tags `due`, `t` and `rec` are left alone.
pub open spec fn tag_step(t: TaskView, action: Action, name: Seq<char>, value: Seq<char>, today: Date) -> (
    TaskView,
    bool,
) {
    let n = trim_colons(name);
    if special_tag_names().contains(n) {
        (t, false)
    } else {
        match action {
            Action::Delete => {
                let u = tag_update_spec(t, n, Seq::empty(), today);
                (u.0, u.1 && u.0.subject != t.subject)
            },
            Action::SetValue => {
                let u = tag_update_spec(t, n, value, today);
                (u.0, u.1 && u.0.subject != t.subject)
            },
            _ => (t, false),
        }
    }
}

/// The tag changes applied in turn, and whether any changed the subject.
pub open spec fn tags_update_spec(t: TaskView, action: Action, tags: Seq<(Seq<char>, Seq<char>)>, today: Date) -> (
    TaskView,
    bool,
)
    decreases tags.len(),
{
    if tags.len() == 0 {
        (t, false)
    } else {
        let prev = tags_update_spec(t, action, tags.drop_last(), today);
        let next = tag_step(prev.0, action, tags.last().0, tags.last().1, today);
        (next.0, prev.1 || next.1)
    }
}

fn update_tags(task: &mut Task, c: &Conf, today: Date) -> (r: bool)
    requires
        old(task).wf(),
        old(task)@.synced(),
        today.wf(),
    ensures
        (final(task)@, r) == match c.tags.value {
            Some(v) => tags_update_spec(old(task)@, c.tags.action, crate::todotxt::utils::tag_views(v@), today),
            None => (old(task)@, false),
        },
        final(task).wf(),
        final(task)@.synced(),
{
    let list = match &c.tags.value {
        None => return false,
        Some(v) => v,
    };
    let ghost tv = crate::todotxt::utils::tag_views(list@);
    let mut changed = false;
    let mut i: usize = 0;
    assert(tv.subrange(0, 0) =~= Seq::<(Seq<char>, Seq<char>)>::empty());
    while i < list.len()
        invariant
            i <= list@.len(),
            tv == crate::todotxt::utils::tag_views(list@),
            today.wf(),
            task.wf(),
            task@.synced(),
            (task@, changed) == tags_update_spec(old(task)@, c.tags.action, tv.subrange(0, i as int), today),
        decreases list@.len() - i,
    {
        assert(tv.subrange(0, i + 1).drop_last() =~= tv.subrange(0, i as int));
        assert(tv.subrange(0, i + 1).last() == (list@[i as int].0@, list@[i as int].1@));
        let name = strip_colons(list[i].0.as_str());
        let step = if is_tag_special(name) {
            false
        } else {
            match c.tags.action {
                Action::Delete => {
                    let old_subj = task.subject.clone();
                    proof {
                        reveal_strlit("");
                        assert(""@ =~= Seq::<char>::empty());
                    }
                    let updated = task.update_tag_with_value(name, "", today);
                    updated && !crate::text::same_text(old_subj.as_str(), task.subject.as_str())
                },
                Action::SetValue => {
                    let old_subj = task.subject.clone();
                    let updated = task.update_tag_with_value(name, list[i].1.as_str(), today);
                    updated && !crate::text::same_text(old_subj.as_str(), task.subject.as_str())
                },
                _ => false,
            }
        };
        changed = changed || step;
        i = i + 1;
    }
    assert(tv.subrange(0, list@.len() as int) =~= tv);
    changed
}

/// One hashtag change applied to a task, and whether it changed.
pub open spec fn hashtag_step(t: TaskView, action: Action, h0: Seq<char>) -> (TaskView, bool) {
    let h = trim_hashes(h0);
    match action {
        Action::Delete => {
            let ns = replaced_words(t.subject, seq!['#'] + h, Seq::empty());
            if ns != t.subject {
                (t.with_subject(ns), true)
            } else {
                (t, false)
            }
        },
        Action::SetValue => if !t.hashtags.contains(h) {
            (t.with_subject(t.subject + seq![' ', '#'] + h), true)
        } else {
            (t, false)
        },
        Action::Replace => match split_parts(h) {
            Some(p) => {
                let o = trim_hashes(p.0);
                let n = trim_hashes(p.1);
                if o != n && t.hashtags.contains(o) {
                    (t.with_subject(replaced_words(t.subject, seq!['#'] + o, seq!['#'] + n)), true)
                } else {
                    (t, false)
                }
            },
            None => (t, false),
        },
        _ => (t, false),
    }
}

/// The hashtag changes applied in turn, and whether any changed the task.
pub open spec fn hashtags_update_spec(t: TaskView, action: Action, items: Seq<Seq<char>>) -> (TaskView, bool)
    decreases items.len(),
{
    if items.len() == 0 {
        (t, false)
    } else {
        let prev = hashtags_update_spec(t, action, items.drop_last());
        let next = hashtag_step(prev.0, action, items.last());
        (next.0, prev.1 || next.1)
    }
}

/// Applies one hashtag change (see [`hashtag_step`]).
fn hashtag_update_check(task: &mut Task, hashtag: &str, act: Action) -> (r: bool)
    requires
        old(task).wf(),
        old(task)@.synced(),
    ensures
        (final(task)@, r) == hashtag_step(old(task)@, act, hashtag@),
        final(task).wf(),
        final(task)@.synced(),
{
    let h = strip_hashes(hashtag);
    let sharp = crate::text::char_string('#');
    proof {
        reveal_strlit("");
        reveal_strlit(" ");
        assert(""@ =~= Seq::<char>::empty());
    }
    match act {
        Action::Delete => {
            let word = String::from_str(sharp.as_str()).concat(h);
            let mut new_subj = task.subject.clone();
            crate::todotxt::utils::replace_word(&mut new_subj, word.as_str(), "");
            if !crate::text::same_text(new_subj.as_str(), task.subject.as_str()) {
                task.subject = new_subj;
                task.sync_tokens();
                return true;
            }
        },
        Action::SetValue => {
            if !crate::todotxt::utils::contains_string(&task.hashtags, h) {
                task.subject.append(" ");
                task.subject.append(sharp.as_str());
                task.subject.append(h);
                assert(task.subject@ =~= old(task)@.subject + seq![' ', '#'] + h@);
                task.sync_tokens();
                return true;
            }
        },
        Action::Replace => {
            match crate::todotxt::utils::split_tag(h) {
                Some((o, n)) => {
                    let o = strip_hashes(o.as_str());
                    let n = strip_hashes(n.as_str());
                    if !crate::text::same_text(o, n) && crate::todotxt::utils::contains_string(&task.hashtags, o) {
                        let from = String::from_str(sharp.as_str()).concat(o);
                        let to = String::from_str(sharp.as_str()).concat(n);
                        crate::todotxt::utils::replace_word(&mut task.subject, from.as_str(), to.as_str());
                        task.sync_tokens();
                        return true;
                    }
                },
                None => {},
            }
        },
        _ => {},
    }
    false
}

fn update_hashtags(task: &mut Task, c: &Conf) -> (r: bool)
    requires
        old(task).wf(),
        old(task)@.synced(),
    ensures
        (final(task)@, r) == hashtags_update_spec(old(task)@, c.hashtags.action, views(c.hashtags.value@)),
        final(task).wf(),
        final(task)@.synced(),
{
    let mut changed = false;
    let mut i: usize = 0;
    assert(views(c.hashtags.value@).subrange(0, 0) =~= Seq::<Seq<char>>::empty());
    while i < c.hashtags.value.len()
        invariant
            i <= c.hashtags.value@.len(),
            task.wf(),
            task@.synced(),
            (task@, changed) == hashtags_update_spec(
                old(task)@,
                c.hashtags.action,
                views(c.hashtags.value@).subrange(0, i as int),
            ),
        decreases c.hashtags.value@.len() - i,
    {
        assert(views(c.hashtags.value@).subrange(0, i + 1).drop_last() =~= views(c.hashtags.value@).subrange(
            0,
            i as int,
        ));
        assert(views(c.hashtags.value@).subrange(0, i + 1).last() == c.hashtags.value@[i as int]@);
        let step = hashtag_update_check(task, c.hashtags.value[i].as_str(), c.hashtags.action);
        changed = changed || step;
        i = i + 1;
    }
    assert(views(c.hashtags.value@).subrange(0, c.hashtags.value@.len() as int) =~= views(c.hashtags.value@));
    changed
}

// ------------------------------------------------------------------ edit

/// A task after every field change of `c` (the subject aside), and whether
/// any changed it.
#[verifier::opaque]
pub open spec fn edit_fields(t: TaskView, c: Conf, today: Date) -> (TaskView, bool) {
    let a = priority_update_spec(t, c.priority);
    let b = date_update_spec(a.0, c.due, due_name(), a.0.due_date, today, c.soon_days as int);
    let d = date_update_spec(b.0, c.thr, thr_name(), b.0.threshold_date, today, c.soon_days as int);
    let e = rec_update_spec(d.0, c.recurrence, c.completion_mode, today);
    let f = list_update_spec(e.0, c.projects.action, views(c.projects.value@), '+');
    let g = list_update_spec(f.0, c.contexts.action, views(c.contexts.value@), '@');
    let h = match c.tags.value {
        Some(v) => tags_update_spec(g.0, c.tags.action, crate::todotxt::utils::tag_views(v@), today),
        None => (g.0, false),
    };
    let k = hashtags_update_spec(h.0, c.hashtags.action, views(c.hashtags.value@));
    (k.0, a.1 || b.1 || d.1 || e.1 || f.1 || g.1 || h.1 || k.1)
}

/// [`edit_fields`] on each task that the IDs point at, in turn.
pub open spec fn edit_all(ts: Seq<TaskView>, ids: Seq<usize>, c: Conf, today: Date) -> (Seq<TaskView>, Seq<bool>)
    decreases ids.len(),
{
    if ids.len() == 0 {
        (ts, Seq::empty())
    } else {
        let prev = edit_all(ts, ids.drop_last(), c, today);
        let id = ids.last();
        if (id as int) < prev.0.len() {
            let u = edit_fields(prev.0[id as int], c, today);
            (prev.0.update(id as int, u.0), prev.1.push(u.1))
        } else {
            (prev.0, prev.1.push(false))
        }
    }
}

/// The index of the first ID inside a list of `n` tasks.
pub open spec fn first_valid(ids: Seq<usize>, n: int) -> Option<int> {
    if exists|i: int| 0 <= i < ids.len() && (ids[i] as int) < n {
        Some(choose|i: int| 0 <= i < ids.len() && (ids[i] as int) < n && forall|j: int| 0 <= j < i ==> (ids[j] as int) >= n)
    } else {
        None
    }
}

/// The task that a new subject makes of task `old`: the subject read with
/// `today` as the base, keeping the old creation date when it has none.
pub open spec fn replaced_task(old: TaskView, subj: Seq<char>, today: Date) -> TaskView {
    let t = parse_spec(subj, today);
    if t.create_date is None && old.create_date is Some {
        TaskView { create_date: old.create_date, ..t }
    } else {
        t
    }
}

/// Applies `c` to one task (see [`edit_fields`]).
fn edit_one(task: &mut Task, c: &Conf, today: Date) -> (r: bool)
    requires
        old(task).wf(),
        old(task)@.synced(),
        today.wf(),
        conf_wf(*c),
    ensures
        (final(task)@, r) == edit_fields(old(task)@, *c, today),
        final(task).wf(),
        final(task)@.synced(),
{
    reveal(edit_fields);
    proof {
        reveal_strlit("due");
        reveal_strlit("t");
        assert("due"@ =~= due_name());
        assert("t"@ =~= thr_name());
    }
    let a = update_priority(task, c);
    let b = update_date_tag(task, &c.due, "due", true, today, c.soon_days);
    let d = update_date_tag(task, &c.thr, "t", false, today, c.soon_days);
    let e = update_recurrence(task, c, today);
    let f = update_list(task, &c.projects, '+');
    let g = update_list(task, &c.contexts, '@');
    let h = update_tags(task, c, today);
    let k = update_hashtags(task, c);
    a || b || d || e || f || g || h || k
}

/// Replaces the first task inside the list that `idlist` points at (see
/// [`replaced_task`]); the result is true at that position only.
#[verifier::rlimit(60)]
fn replace_first(tasks: &mut TaskVec, idlist: &IDVec, subj: &str, today: Date) -> (r: ChangedVec)
    requires
        tasks_wf(old(tasks)@),
        today.wf(),
    ensures
        r@.len() == idlist@.len(),
        match first_valid(idlist@, old(tasks)@.len() as int) {
            Some(i) => {
                &&& task_views(final(tasks)@) == task_views(old(tasks)@).update(
                    idlist@[i] as int,
                    replaced_task(old(tasks)@[idlist@[i] as int]@, subj@, today),
                )
                &&& forall|j: int| 0 <= j < r@.len() ==> r@[j] == (j == i)
            },
            None => final(tasks)@ == old(tasks)@ && forall|j: int| 0 <= j < r@.len() ==> !r@[j],
        },
        tasks_wf(final(tasks)@),
{
    let n = tasks.len();
    let mut i: usize = 0;
    while i < idlist.len() && idlist[i] >= n
        invariant
            i <= idlist@.len(),
            n == tasks@.len(),
            forall|j: int| 0 <= j < i ==> (idlist@[j] as int) >= n,
        decreases idlist@.len() - i,
    {
        i = i + 1;
    }
    let ghost fv = first_valid(idlist@, n as int);
    if i < idlist.len() {
        proof {
            let k = choose|k: int|
                0 <= k < idlist@.len() && (idlist@[k] as int) < n && forall|j: int| 0 <= j < k ==> (idlist@[j] as int) >= n;
            if k < i {
            } else if k > i {
            }
            assert(fv == Some(i as int));
        }
        let id = idlist[i];
        proof {
            lemma_wf_at(tasks@, id as int);
        }
        let mut t = Task::parse(subj, today);
        if t.create_date.is_none() && tasks[id].create_date.is_some() {
            t.create_date = tasks[id].create_date;
        }
        proof {
            lemma_wf_set(tasks@, id as int, t);
        }
        tasks.set(id, t);
    } else {
        assert(fv is None);
    }
    let mut bools: ChangedVec = Vec::new();
    let mut j: usize = 0;
    while j < idlist.len()
        invariant
            j <= idlist@.len(),
            bools@.len() == j,
            forall|q: int| 0 <= q < j ==> bools@[q] == (q == i),
        decreases idlist@.len() - j,
    {
        bools.push(j == i);
        j = j + 1;
    }
    bools
}

/// Edits the tasks that `ids` point at (every task for `None`). With a new
/// subject in `c`, only the first task inside the list is replaced by the
/// task that subject describes (keeping its creation date when the new
/// text has none) and nothing else changes; otherwise each field change of
/// `c` is applied to each task in turn (see [`edit_fields`]); a date
/// expression is worked out with `today` as today. The result has one
/// entry per ID, true where a task changed; an empty list gives an empty
/// result.
#[verifier::rlimit(60)]
pub fn edit(tasks: &mut TaskVec, ids: Option<&IDVec>, c: &Conf, today: Date) -> (r: ChangedVec)
    requires
        tasks_wf(old(tasks)@),
        today.wf(),
        conf_wf(*c),
    ensures
        old(tasks)@.len() == 0 ==> r@.len() == 0 && final(tasks)@ == old(tasks)@,
        old(tasks)@.len() > 0 && c.subject is None ==> (task_views(final(tasks)@), r@) == edit_all(
            task_views(old(tasks)@),
            id_list(opt_ids(ids), old(tasks)@.len() as int),
            *c,
            today,
        ),
        old(tasks)@.len() > 0 && c.subject is Some ==> {
            let idl = id_list(opt_ids(ids), old(tasks)@.len() as int);
            &&& r@.len() == idl.len()
            &&& match first_valid(idl, old(tasks)@.len() as int) {
                Some(i) => {
                    &&& task_views(final(tasks)@) == task_views(old(tasks)@).update(
                        idl[i] as int,
                        replaced_task(old(tasks)@[idl[i] as int]@, c.subject->0@, today),
                    )
                    &&& forall|j: int| 0 <= j < r@.len() ==> r@[j] == (j == i)
                },
                None => final(tasks)@ == old(tasks)@ && forall|j: int| 0 <= j < r@.len() ==> !r@[j],
            }
        },
        tasks_wf(final(tasks)@),
{
    if tasks.len() == 0 {
        return Vec::new();
    }
    let longvec = make_id_vec(tasks.len());
    let idlist: &IDVec = match ids {
        Some(v) => v,
        None => &longvec,
    };
    let ghost idl = id_list(opt_ids(ids), old(tasks)@.len() as int);
    assert(idlist@ == idl);
    let mut bools: ChangedVec = Vec::new();
    let mut i: usize = 0;
    assert(idl.subrange(0, 0) =~= Seq::<usize>::empty());
    if let Some(subj) = &c.subject {
        return replace_first(tasks, idlist, subj.as_str(), today);
    }
    while i < idlist.len()
        invariant
            i <= idlist@.len(),
            idlist@ == idl,
            tasks_wf(tasks@),
            today.wf(),
            conf_wf(*c),
            c.subject is None,
            (task_views(tasks@), bools@) == edit_all(task_views(old(tasks)@), idl.subrange(0, i as int), *c, today),
        decreases idlist@.len() - i,
    {
        assert(idl.subrange(0, i + 1).drop_last() =~= idl.subrange(0, i as int));
        let id = idlist[i];
        if id >= tasks.len() {
            bools.push(false);
        } else {
            proof {
                lemma_wf_at(tasks@, id as int);
            }
            let mut t = copy_task(&tasks[id]);
            let changed = edit_one(&mut t, c, today);
            proof {
                lemma_wf_set(tasks@, id as int, t);
            }
            tasks.set(id, t);
            bools.push(changed);
        }
        i = i + 1;
    }
    assert(idl.subrange(0, idl.len() as int) =~= idl);
    bools
}

// ---------------------------------------------------- well-formedness check

fn same_strings(a: &Vec<String>, b: &Vec<String>) -> (r: bool)
    ensures
        r == (views(a@) == views(b@)),
{
    if a.len() != b.len() {
        assert(views(a@).len() != views(b@).len());
        return false;
    }
    let mut i: usize = 0;
    while i < a.len()
        invariant
            a@.len() == b@.len(),
            i <= a@.len(),
            forall|k: int| 0 <= k < i ==> a@[k]@ == b@[k]@,
        decreases a@.len() - i,
    {
        if !crate::text::same_text(a[i].as_str(), b[i].as_str()) {
            assert(views(a@)[i as int] != views(b@)[i as int]);
            return false;
        }
        i = i + 1;
    }
    assert(views(a@) =~= views(b@));
    true
}

fn same_tags(a: &Vec<(String, String)>, b: &Vec<(String, String)>) -> (r: bool)
    ensures
        r == (crate::todotxt::utils::tag_views(a@) == crate::todotxt::utils::tag_views(b@)),
{
    if a.len() != b.len() {
        assert(crate::todotxt::utils::tag_views(a@).len() != crate::todotxt::utils::tag_views(b@).len());
        return false;
    }
    let mut i: usize = 0;
    while i < a.len()
        invariant
            a@.len() == b@.len(),
            i <= a@.len(),
            forall|k: int| 0 <= k < i ==> a@[k].0@ == b@[k].0@ && a@[k].1@ == b@[k].1@,
        decreases a@.len() - i,
    {
        if !crate::text::same_text(a[i].0.as_str(), b[i].0.as_str()) || !crate::text::same_text(
            a[i].1.as_str(),
            b[i].1.as_str(),
        ) {
            assert(crate::todotxt::utils::tag_views(a@)[i as int] != crate::todotxt::utils::tag_views(b@)[i as int]);
            return false;
        }
        i = i + 1;
    }
    assert(crate::todotxt::utils::tag_views(a@) =~= crate::todotxt::utils::tag_views(b@));
    true
}

fn date_ok(d: Option<Date>) -> (r: bool)
    ensures
        r == (d matches Some(x) ==> x.wf()),
{
    match d {
        None => true,
        Some(x) => Date::from_ymd_opt(x.year, x.month, x.day).is_some(),
    }
}

/// True when the task is well formed and its tokens are those of its subject.
pub fn task_ok(t: &Task) -> (r: bool)
    ensures
        r == (t.wf() && t@.synced()),
{
    let dates = date_ok(t.create_date) && date_ok(t.finish_date) && date_ok(t.due_date) && date_ok(
        t.threshold_date,
    );
    let rec = match t.recurrence {
        Some(x) => x.count >= 1,
        None => true,
    };
    let s = t.subject.as_str();
    let projects = crate::todotxt::utils::extract_projects(s);
    let contexts = crate::todotxt::utils::extract_contexts(s);
    let hashtags = crate::todotxt::utils::extract_hashtags(s);
    let tags = crate::todotxt::utils::extract_tags(s);
    let synced = same_strings(&t.projects, &projects) && same_strings(&t.contexts, &contexts) && same_strings(
        &t.hashtags,
        &hashtags,
    ) && same_tags(&t.tags, &tags);
    dates && rec && synced
}

/// True when every task of the list is well formed and its tokens are
/// those of its subject (see [`tasks_wf`]).
pub fn tasks_ok(tasks: &TaskSlice) -> (r: bool)
    ensures
        r == tasks_wf(tasks@),
{
    let mut i: usize = 0;
    while i < tasks.len()
        invariant
            i <= tasks@.len(),
            forall|k: int| 0 <= k < i ==> (#[trigger] tasks@[k]).wf() && tasks@[k]@.synced(),
        decreases tasks@.len() - i,
    {
        if !task_ok(&tasks[i]) {
            return false;
        }
        i = i + 1;
    }
    true
}

// ------------------------------------------------------------ list text

/// The text of a list: each task's line followed by a newline.
pub open spec fn list_text(ts: Seq<TaskView>) -> Seq<char>
    decreases ts.len(),
{
    if ts.len() == 0 {
        Seq::empty()
    } else {
        list_text(ts.drop_last()) + crate::todotxt::task::format_spec(ts.last()) + seq!['\n']
    }
}

/// The lines of a text: the pieces between newlines, without a final empty
/// piece, each without a trailing carriage return.
pub open spec fn text_lines(text: Seq<char>) -> Seq<Seq<char>> {
    split_terminated(text, '\n').map_values(|l: Seq<char>| strip_cr(l))
}

pub open spec fn strip_cr(l: Seq<char>) -> Seq<char> {
    if l.len() > 0 && l.last() == '\r' {
        l.drop_last()
    } else {
        l
    }
}

/// The text to store for a list (see [`list_text`]).
pub fn format_tasks(tasks: &TaskSlice) -> (r: String)
    requires
        tasks_wf(tasks@),
    ensures
        r@ == list_text(task_views(tasks@)),
{
    let mut out = String::new();
    let mut i: usize = 0;
    assert(task_views(tasks@).subrange(0, 0) =~= Seq::<TaskView>::empty());
    while i < tasks.len()
        invariant
            i <= tasks@.len(),
            tasks_wf(tasks@),
            out@ == list_text(task_views(tasks@).subrange(0, i as int)),
        decreases tasks@.len() - i,
    {
        proof {
            lemma_wf_at(tasks@, i as int);
            reveal_strlit("\n");
        }
        assert(task_views(tasks@).subrange(0, i + 1).drop_last() =~= task_views(tasks@).subrange(0, i as int));
        let line = tasks[i].to_string();
        out.append(line.as_str());
        out.append("\n");
        i = i + 1;
    }
    assert(task_views(tasks@).subrange(0, tasks@.len() as int) =~= task_views(tasks@));
    out
}

/// The tasks of a stored text, one per line (see [`text_lines`]); relative
/// dates count from `today`.
pub fn parse_tasks(text: &str, today: Date) -> (r: TaskVec)
    requires
        today.wf(),
    ensures
        task_views(r@) == text_lines(text@).map_values(|l: Seq<char>| parse_spec(l, today)),
        tasks_wf(r@),
{
    let mut ps = crate::text::split_text(text, '\n');
    if ps.len() > 0 && ps[ps.len() - 1].unicode_len() == 0 {
        let ghost before = ps@;
        ps.pop();
        assert(views(ps@) =~= views(before).drop_last());
    }
    let ghost lines = text_lines(text@);
    assert(views(ps@) == split_terminated(text@, '\n'));
    let mut out: TaskVec = Vec::new();
    let mut i: usize = 0;
    while i < ps.len()
        invariant
            i <= ps@.len(),
            today.wf(),
            views(ps@) == split_terminated(text@, '\n'),
            lines == text_lines(text@),
            tasks_wf(out@),
            task_views(out@) == lines.subrange(0, i as int).map_values(|l: Seq<char>| parse_spec(l, today)),
        decreases ps@.len() - i,
    {
        let raw = ps[i].as_str();
        let n = raw.unicode_len();
        let line = if n > 0 && raw.get_char(n - 1) == '\r' {
            raw.substring_char(0, n - 1)
        } else {
            raw
        };
        assert(views(ps@)[i as int] == ps@[i as int]@);
        assert(line@ =~= lines[i as int]);
        let t = Task::parse(line, today);
        proof {
            lemma_wf_push(out@, t);
        }
        let ghost before = out@;
        out.push(t);
        assert(lines.subrange(0, i + 1).map_values(|l: Seq<char>| parse_spec(l, today)) =~= lines.subrange(
            0,
            i as int,
        ).map_values(|l: Seq<char>| parse_spec(l, today)).push(parse_spec(lines[i as int], today)));
        i = i + 1;
    }
    assert(lines.subrange(0, lines.len() as int) =~= lines);
    out
}

// ------------------------------------------------------------------ laws

/// Completing an open recurring task that has a due or threshold date adds
/// exactly one task to the list, unless its `until` date is not after the
/// successor's due date; then it adds none. Any other ID adds nothing.
#[verifier::rlimit(100)]
pub proof fn law_recurrence_spawn(ts: Seq<TaskView>, id: usize, cfg: CompletionConfig, today: Date, now: int)
    requires
        (id as int) < ts.len(),
        !ts[id as int].finished,
        ts[id as int].recurrence is Some,
        ts[id as int].due_date is Some || ts[id as int].threshold_date is Some,
    ensures
        ({
            let t1 = stop_spec(ts[id as int], now, today).0;
            let t2 = complete_spec(t1, today, cfg).0;
            let next0 = TaskView {
                create_date: if t1.create_date is Some {
                    Some(today)
                } else {
                    None
                },
                ..t1
            };
            let new_due = next_dates_spec(next0, today).0.due_date;
            let until = tag_date(t2.tags, until_name(), today);
            let added = match (until, new_due) {
                (Some(u), Some(nd)) => u.num() > nd.num(),
                _ => true,
            };
            done_all(ts, seq![id], cfg, today, now).0.len() == ts.len() + if added {
                1int
            } else {
                0int
            }
        }),
{
    let t = ts[id as int];
    let s1 = stop_spec(t, now, today);
    assert(s1.0.finished == t.finished && s1.0.recurrence == t.recurrence && s1.0.due_date == t.due_date
        && s1.0.threshold_date == t.threshold_date) by {
        if crate::timer::timer_on(t) && crate::timer::time_spent_spec(t, now) is Some {
            assert(crate::timer::spent_name() != due_name() && crate::timer::spent_name() != thr_name()
                && crate::timer::spent_name() != rec_name()) by {
                assert(crate::timer::spent_name().len() != due_name().len());
                assert(crate::timer::spent_name().len() != thr_name().len());
                assert(crate::timer::spent_name().len() != rec_name().len());
            }
            assert(timer_name() != due_name() && timer_name() != thr_name() && timer_name() != rec_name())
                by {
                assert(timer_name()[0] != due_name()[0]);
                assert(timer_name().len() != thr_name().len());
                assert(timer_name()[0] != rec_name()[0]);
            }
        }
    }
    assert(seq![id].drop_last() =~= Seq::<usize>::empty());
    assert(seq![id].last() == id);
    let c = complete_spec(s1.0, today, cfg);
    assert(c.1);
    let step = done_step(ts, id, cfg, today, now);
    assert(done_all(ts, Seq::<usize>::empty(), cfg, today, now).0 == ts);
    assert(done_all(ts, seq![id], cfg, today, now).0 == step.0);
    assert(ts.update(id as int, c.0).len() == ts.len());
}

/// Completing a task that is already finished returns false and changes
/// nothing; undoing the completion of an open task does the same.
pub proof fn law_completion_idempotent(t: TaskView, date: Date, cfg: CompletionConfig, mode: CompletionMode)
    ensures
        t.finished ==> complete_spec(t, date, cfg) == (t, false),
        !t.finished ==> uncomplete_spec(t, mode) == (t, false),
        complete_spec(t, date, cfg).0.finished,
        !uncomplete_spec(t, mode).0.finished,
{
}

} // verus!
