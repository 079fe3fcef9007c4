//! Time tracking through tags: `tmr:<seconds>` while a timer runs, `tmr:off`
//! when it is stopped, `spent:<seconds>` for the time gathered so far.
use vstd::prelude::*;
use crate::text::{parse_signed, signed_string, signed_text, signed_value};
use crate::todotxt::task::{tag_update_spec, Task, TaskView};
use crate::todotxt::utils::{lemma_lookup_absent, lemma_lookup_at, tag_index, tag_lookup};
use crate::date::Date;

verus! {

pub const TIMER_TAG: &'static str = "tmr";

pub const SPENT_TAG: &'static str = "spent";

pub const TIMER_OFF: &'static str = "off";

pub open spec fn timer_name() -> Seq<char> {
    seq!['t', 'm', 'r']
}

pub open spec fn spent_name() -> Seq<char> {
    seq!['s', 'p', 'e', 'n', 't']
}

pub open spec fn off_text() -> Seq<char> {
    seq!['o', 'f', 'f']
}

/// The timer of the task runs: it has a `tmr` tag whose value is not `off`.
pub open spec fn timer_on(t: TaskView) -> bool {
    match tag_lookup(t.tags, timer_name()) {
        Some(v) => v != off_text(),
        None => false,
    }
}

/// A tag value read as a signed count of seconds.
pub open spec fn seconds_value(t: TaskView, name: Seq<char>) -> Option<int> {
    match tag_lookup(t.tags, name) {
        Some(v) => signed_value(v),
        None => None,
    }
}

/// The seconds spent on the task by `now`, when its timer started at a
/// readable time: the seconds since the start (none if the clock is
/// behind) plus the `spent` seconds before it (0 when unreadable); `None`
/// also when the sum leaves the range of `i64`.
pub open spec fn time_spent_spec(t: TaskView, now: int) -> Option<int> {
    match seconds_value(t, timer_name()) {
        Some(start) => {
            let before = match seconds_value(t, spent_name()) {
                Some(n) => n,
                None => 0,
            };
            let total = before + (if now > start {
                now - start
            } else {
                0
            });
            if i64::MIN <= total <= i64::MAX {
                Some(total)
            } else {
                None
            }
        },
        None => None,
    }
}

/// The seconds in tag `name`, when its value is a number.
fn tag_seconds(task: &Task, name: &str) -> (r: Option<i64>)
    requires
        task.wf(),
    ensures
        r matches Some(n) ==> seconds_value(task@, name@) == Some(n as int),
        r is None ==> seconds_value(task@, name@) is None,
{
    match tag_index(&task.tags, name) {
        None => {
            proof {
                lemma_lookup_absent(task@.tags, name@);
            }
            None
        },
        Some(i) => {
            proof {
                lemma_lookup_at(task@.tags, name@, i as int);
            }
            parse_signed(task.tags[i].1.as_str())
        },
    }
}

/// True when the task's timer is running.
pub fn is_timer_on(task: &Task) -> (r: bool)
    requires
        task.wf(),
    ensures
        r == timer_on(task@),
{
    proof {
        reveal_strlit("tmr");
        reveal_strlit("off");
        assert(TIMER_TAG@ =~= timer_name());
        assert(TIMER_OFF@ =~= off_text());
    }
    match tag_index(&task.tags, TIMER_TAG) {
        None => {
            proof {
                lemma_lookup_absent(task@.tags, timer_name());
            }
            false
        },
        Some(i) => {
            proof {
                lemma_lookup_at(task@.tags, timer_name(), i as int);
            }
            !crate::text::same_text(task.tags[i].1.as_str(), TIMER_OFF)
        },
    }
}

/// The seconds spent on a task by `now` (seconds since the Unix epoch):
/// with the timer running, what [`time_spent_spec`] gives (0 when the start
/// cannot be read); else the `spent` seconds, or 0.
pub fn spent_time(task: &Task, now: i64) -> (r: i64)
    requires
        task.wf(),
    ensures
        timer_on(task@) ==> r == (match time_spent_spec(task@, now as int) {
            Some(n) => n,
            None => 0,
        }),
        !timer_on(task@) ==> r == (match seconds_value(task@, spent_name()) {
            Some(n) => n,
            None => 0,
        }),
{
    if is_timer_on(task) {
        return match calc_time_spent(task, now) {
            Some(n) => n,
            None => 0,
        };
    }
    proof {
        reveal_strlit("spent");
        assert(SPENT_TAG@ =~= spent_name());
    }
    match tag_seconds(task, SPENT_TAG) {
        Some(n) => n,
        None => 0,
    }
}

/// The task after its timer is started at `now`, and whether it changed.
pub open spec fn start_spec(t: TaskView, now: int, today: Date) -> (TaskView, bool) {
    if t.finished || timer_on(t) {
        (t, false)
    } else {
        (tag_update_spec(t, timer_name(), signed_text(now), today).0, true)
    }
}

/// Starts the timer of an open task whose timer is not running: tag `tmr`
/// gets `now`, the seconds since the Unix epoch. True when it started.
pub fn start_timer(task: &mut Task, now: i64, today: Date) -> (r: bool)
    requires
        old(task).wf(),
        old(task)@.synced(),
        today.wf(),
    ensures
        (final(task)@, r) == start_spec(old(task)@, now as int, today),
        final(task).wf(),
        final(task)@.synced(),
{
    if task.finished || is_timer_on(task) {
        return false;
    }
    proof {
        reveal_strlit("tmr");
        assert(TIMER_TAG@ =~= timer_name());
    }
    let seconds = signed_string(now);
    task.update_tag_with_value(TIMER_TAG, seconds.as_str(), today);
    true
}

/// The seconds spent on the task by `now` (see [`time_spent_spec`]).
fn calc_time_spent(task: &Task, now: i64) -> (r: Option<i64>)
    requires
        task.wf(),
    ensures
        r matches Some(n) ==> time_spent_spec(task@, now as int) == Some(n as int),
        r is None ==> time_spent_spec(task@, now as int) is None,
{
    proof {
        reveal_strlit("tmr");
        reveal_strlit("spent");
        assert(TIMER_TAG@ =~= timer_name());
        assert(SPENT_TAG@ =~= spent_name());
    }
    match tag_seconds(task, TIMER_TAG) {
        None => None,
        Some(start) => {
            let before = match tag_seconds(task, SPENT_TAG) {
                Some(n) => n,
                None => 0,
            };
            let diff: i128 = if now > start {
                now as i128 - start as i128
            } else {
                0
            };
            let total: i128 = before as i128 + diff;
            if total < i64::MIN as i128 || total > i64::MAX as i128 {
                None
            } else {
                Some(total as i64)
            }
        },
    }
}

/// The task after its timer is stopped at `now`, and whether it changed.
pub open spec fn stop_spec(t: TaskView, now: int, today: Date) -> (TaskView, bool) {
    if timer_on(t) && time_spent_spec(t, now) is Some {
        (
            tag_update_spec(
                tag_update_spec(t, spent_name(), signed_text(time_spent_spec(t, now)->0), today).0,
                timer_name(),
                off_text(),
                today,
            ).0,
            true,
        )
    } else {
        (t, false)
    }
}

/// Stops a running timer at `now`: tag `spent` gets the seconds spent so
/// far (see [`time_spent_spec`]) and tag `tmr` becomes `off`. True when it
/// stopped; false, with no change, when the timer was not running or its
/// start cannot be read.
pub fn stop_timer(task: &mut Task, now: i64, today: Date) -> (r: bool)
    requires
        old(task).wf(),
        old(task)@.synced(),
        today.wf(),
    ensures
        (final(task)@, r) == stop_spec(old(task)@, now as int, today),
        final(task).wf(),
        final(task)@.synced(),
{
    if !is_timer_on(task) {
        return false;
    }
    proof {
        reveal_strlit("tmr");
        reveal_strlit("spent");
        reveal_strlit("off");
        assert(TIMER_TAG@ =~= timer_name());
        assert(SPENT_TAG@ =~= spent_name());
        assert(TIMER_OFF@ =~= off_text());
    }
    match calc_time_spent(task, now) {
        Some(spent) => {
            let text = signed_string(spent);
            task.update_tag_with_value(SPENT_TAG, text.as_str(), today);
            task.update_tag_with_value(TIMER_TAG, TIMER_OFF, today);
            true
        },
        None => false,
    }
}

} // verus!
