//! Filtering a task list by a declarative query: which IDs match.
use vstd::prelude::*;
use crate::date::Date;
use crate::text::{contains_text, has_prefix, has_suffix, lower_of, lowercase, occurs_in, views};
use crate::timer::{is_timer_on, timer_on};
use crate::todo::{task_views, tasks_wf, IDVec, TaskSlice};
use crate::todotxt::task::{Task, TaskView};
use crate::todotxt::utils::NO_PRIORITY;

verus! {

/// A date-range bound meaning "also match tasks without the date".
pub const INCLUDE_NONE: i64 = -9_999_998;

/// The IDs to look at.
#[derive(Debug, Clone)]
pub enum ItemRange {
    /// Every task.
    All,
    /// One task.
    One(usize),
    /// IDs `from` through `to`, both ends in; IDs past the end are skipped.
    Range(usize, usize),
    /// The given IDs.
    List(Vec<usize>),
}

/// Which tasks by completion state.
#[derive(Debug, Clone, PartialEq, Eq, Copy, Structural)]
pub enum TodoStatus {
    /// Open tasks.
    Active,
    /// All tasks.
    All,
    /// Finished tasks.
    Done,
    /// Tasks with an empty subject.
    Empty,
}

/// An inclusive range of values.
#[derive(Debug, Clone, Copy, PartialEq, Eq, Default, Structural)]
pub struct ValueRange {
    pub low: i64,
    pub high: i64,
}

/// A kind of comparison.
#[derive(Debug, Clone, Copy, PartialEq, Eq, Structural)]
pub enum ValueSpan {
    /// The property is not set (for a timer: it does not run).
    Absent,
    /// The property equals the value.
    Equal,
    /// Below the value (for a priority: the value or less important).
    Lower,
    /// Above the value (for a priority: the value or more important).
    Higher,
    /// The property is set.
    Any,
    /// Within the range.
    Range,
    /// The timer runs.
    Active,
}

/// A date filter: `days` counts from today and matters for `Lower`,
/// `Higher` and `Range` only.
#[derive(Debug, Clone, Copy, PartialEq, Eq, Structural)]
pub struct DateRange {
    pub days: ValueRange,
    pub span: ValueSpan,
}

impl Default for DateRange {
    fn default() -> (r: DateRange)
        ensures
            r.span == ValueSpan::Absent,
            r.days == (ValueRange { low: 0, high: 0 }),
    {
        DateRange { span: ValueSpan::Absent, days: ValueRange { low: 0, high: 0 } }
    }
}

/// A recurrence filter: `Absent` or `Any`.
#[derive(Debug, Clone, Copy, PartialEq, Eq, Structural)]
pub struct Recurrence {
    pub span: ValueSpan,
}

impl Default for Recurrence {
    fn default() -> (r: Recurrence)
        ensures
            r.span == ValueSpan::Absent,
    {
        Recurrence { span: ValueSpan::Absent }
    }
}

/// A priority filter.
#[derive(Debug, Clone, Copy, PartialEq, Eq, Structural)]
pub struct Priority {
    pub value: u8,
    pub span: ValueSpan,
}

impl Default for Priority {
    fn default() -> (r: Priority)
        ensures
            r.value == NO_PRIORITY,
            r.span == ValueSpan::Absent,
    {
        Priority { value: NO_PRIORITY, span: ValueSpan::Absent }
    }
}

/// A timer filter: `Absent` (not running) or `Active`.
#[derive(Debug, Clone, Copy, PartialEq, Eq, Structural)]
pub struct Timer {
    pub span: ValueSpan,
    pub value: usize,
}

impl Default for Timer {
    fn default() -> (r: Timer)
        ensures
            r.span == ValueSpan::Absent,
            r.value == 0,
    {
        Timer { value: 0, span: ValueSpan::Absent }
    }
}

/// Patterns for projects, contexts, tag names and hashtags: `foo`, `foo*`,
/// `*foo`, `*foo*`, in any case; `none` matches an empty list, `any` a
/// list that is not empty.
#[derive(Debug, Clone)]
pub struct TagFilter {
    pub projects: Vec<String>,
    pub contexts: Vec<String>,
    pub tags: Vec<String>,
    pub hashtags: Vec<String>,
}

/// A query. Unset parts do not filter.
#[derive(Debug, Clone)]
pub struct Conf {
    /// The IDs to look at.
    pub range: ItemRange,
    /// Text that the subject must hold, in any case; a regular expression
    /// when `use_regex` is set.
    pub regex: Option<String>,
    pub use_regex: bool,
    /// A task must match these to be kept.
    pub wanted: TagFilter,
    /// A task that matches these is dropped.
    pub unwanted: TagFilter,
    /// Open, finished, all or empty tasks.
    pub all: TodoStatus,
    pub due: Option<DateRange>,
    pub thr: Option<DateRange>,
    pub rec: Option<Recurrence>,
    pub pri: Option<Priority>,
    pub tmr: Option<Timer>,
    pub created: Option<DateRange>,
    pub finished: Option<DateRange>,
}

impl Default for Conf {
    fn default() -> (r: Conf)
        ensures
            r.range is All,
            r.regex is None,
            !r.use_regex,
            r.wanted.projects@.len() == 0 && r.wanted.contexts@.len() == 0,
            r.wanted.tags@.len() == 0 && r.wanted.hashtags@.len() == 0,
            r.unwanted.projects@.len() == 0 && r.unwanted.contexts@.len() == 0,
            r.unwanted.tags@.len() == 0 && r.unwanted.hashtags@.len() == 0,
            r.all == TodoStatus::Active,
            r.due is None && r.thr is None && r.rec is None && r.pri is None,
            r.tmr is None && r.created is None && r.finished is None,
    {
        Conf {
            range: ItemRange::All,
            wanted: TagFilter { projects: Vec::new(), contexts: Vec::new(), tags: Vec::new(), hashtags: Vec::new() },
            unwanted: TagFilter { projects: Vec::new(), contexts: Vec::new(), tags: Vec::new(), hashtags: Vec::new() },
            regex: None,
            use_regex: false,
            all: TodoStatus::Active,
            due: None,
            thr: None,
            rec: None,
            pri: None,
            tmr: None,
            created: None,
            finished: None,
        }
    }
}

// ------------------------------------------------------------- patterns

pub open spec fn trim_front_stars(p: Seq<char>) -> Seq<char>
    decreases p.len(),
{
    if p.len() > 0 && p[0] == '*' {
        trim_front_stars(p.drop_first())
    } else {
        p
    }
}

pub open spec fn trim_back_stars(p: Seq<char>) -> Seq<char>
    decreases p.len(),
{
    if p.len() > 0 && p.last() == '*' {
        trim_back_stars(p.drop_last())
    } else {
        p
    }
}

pub open spec fn starts_with(s: Seq<char>, p: Seq<char>) -> bool {
    p.len() <= s.len() && s.subrange(0, p.len() as int) == p
}

pub open spec fn ends_with(s: Seq<char>, p: Seq<char>) -> bool {
    p.len() <= s.len() && s.subrange(s.len() - p.len(), s.len() as int) == p
}

/// `orig` matches `patt`: `*x*` holds `x`, `*x` ends with `x`, `x*` starts
/// with `x`, anything else is compared whole (stars are trimmed from the
/// marked sides).
pub open spec fn pattern_matches(orig: Seq<char>, patt: Seq<char>) -> bool {
    let front = patt.len() > 0 && patt[0] == '*';
    let back = patt.len() > 0 && patt.last() == '*';
    if front && back {
        occurs_in(orig, trim_back_stars(trim_front_stars(patt)))
    } else if front {
        ends_with(orig, trim_front_stars(patt))
    } else if back {
        starts_with(orig, trim_back_stars(patt))
    } else {
        orig == patt
    }
}

fn trim_stars(s: &str, front: bool, back: bool) -> (r: &str)
    ensures
        r@ == (if front && back {
            trim_back_stars(trim_front_stars(s@))
        } else if front {
            trim_front_stars(s@)
        } else if back {
            trim_back_stars(s@)
        } else {
            s@
        }),
{
    let n = s.unicode_len();
    let mut a: usize = 0;
    assert(s@.subrange(0, n as int) =~= s@);
    if front {
        while a < n && s.get_char(a) == '*'
            invariant
                n == s@.len(),
                a <= n,
                trim_front_stars(s@) == trim_front_stars(s@.subrange(a as int, n as int)),
            decreases n - a,
        {
            assert(s@.subrange(a as int, n as int).drop_first() =~= s@.subrange(a + 1, n as int));
            a = a + 1;
        }
    }
    let ghost mid = s@.subrange(a as int, n as int);
    assert(front ==> mid == trim_front_stars(s@)) by {
        if front && a < n {
            assert(mid[0] == s@[a as int]);
        }
        if front && a == n {
            assert(mid =~= Seq::<char>::empty());
        }
    }
    assert(!front ==> mid =~= s@);
    let mut b: usize = n;
    if back {
        while b > a && s.get_char(b - 1) == '*'
            invariant
                n == s@.len(),
                a <= b <= n,
                trim_back_stars(mid) == trim_back_stars(s@.subrange(a as int, b as int)),
            decreases b,
        {
            assert(s@.subrange(a as int, b as int).drop_last() =~= s@.subrange(a as int, b - 1));
            b = b - 1;
        }
    }
    let r = s.substring_char(a, b);
    assert(back ==> r@ == trim_back_stars(mid)) by {
        if back && b > a {
            assert(r@.last() == s@[b - 1]);
        }
        if back && b == a {
            assert(r@ =~= Seq::<char>::empty());
        }
    }
    assert(!back ==> r@ =~= mid);
    r
}

/// True when `orig` matches `patt` (see [`pattern_matches`]).
pub fn str_matches(orig: &str, patt: &str) -> (r: bool)
    ensures
        r == pattern_matches(orig@, patt@),
{
    let n = patt.unicode_len();
    let front = n > 0 && patt.get_char(0) == '*';
    let back = n > 0 && patt.get_char(n - 1) == '*';
    if front && back {
        let p = trim_stars(patt, true, true);
        contains_text(orig, p)
    } else if front {
        let p = trim_stars(patt, true, false);
        has_suffix(orig, p)
    } else if back {
        let p = trim_stars(patt, false, true);
        has_prefix(orig, p)
    } else {
        crate::text::same_text(orig, patt)
    }
}

pub open spec fn none_word() -> Seq<char> {
    seq!['n', 'o', 'n', 'e']
}

pub open spec fn any_word() -> Seq<char> {
    seq!['a', 'n', 'y']
}

/// A list of names matches a list of patterns: no patterns; `none` and an
/// empty list; `any` and a list that is not empty; or a name that matches a
/// pattern, both in lowercase.
pub open spec fn list_matches(list: Seq<Seq<char>>, filter: Seq<Seq<char>>) -> bool {
    ||| filter.len() == 0
    ||| exists|j: int|
        0 <= j < filter.len() && ((filter[j] == none_word() && list.len() == 0) || (filter[j]
            == any_word() && list.len() > 0))
    ||| exists|i: int, j: int|
        0 <= i < list.len() && 0 <= j < filter.len() && #[trigger] pattern_matches(
            lower_of(list[i]),
            lower_of(filter[j]),
        )
}

/// True when the names match the patterns (see [`list_matches`]).
pub fn vec_match(task_list: &Vec<String>, filter: &Vec<String>) -> (r: bool)
    ensures
        r == list_matches(views(task_list@), views(filter@)),
{
    if filter.len() == 0 {
        return true;
    }
    proof {
        reveal_strlit("none");
        reveal_strlit("any");
    }
    let mut j: usize = 0;
    while j < filter.len()
        invariant
            j <= filter@.len(),
            forall|k: int|
                0 <= k < j ==> !((filter@[k]@ == none_word() && task_list@.len() == 0) || (
                filter@[k]@ == any_word() && task_list@.len() > 0)),
        decreases filter@.len() - j,
    {
        proof {
            reveal_strlit("none");
            reveal_strlit("any");
        }
        let f = filter[j].as_str();
        if (crate::text::same_text(f, "none") && task_list.len() == 0) || (crate::text::same_text(f, "any")
            && task_list.len() > 0) {
            assert(views(filter@)[j as int] == filter@[j as int]@);
            assert("none"@ =~= none_word());
            assert("any"@ =~= any_word());
            return true;
        }
        assert("none"@ =~= none_word());
        assert("any"@ =~= any_word());
        j = j + 1;
    }
    assert(!exists|k: int|
        0 <= k < views(filter@).len() && ((views(filter@)[k] == none_word() && views(task_list@).len()
            == 0) || (views(filter@)[k] == any_word() && views(task_list@).len() > 0))) by {
        if exists|k: int|
            0 <= k < views(filter@).len() && ((views(filter@)[k] == none_word() && views(
                task_list@,
            ).len() == 0) || (views(filter@)[k] == any_word() && views(task_list@).len() > 0)) {
            let k = choose|k: int|
                0 <= k < views(filter@).len() && ((views(filter@)[k] == none_word() && views(
                    task_list@,
                ).len() == 0) || (views(filter@)[k] == any_word() && views(task_list@).len() > 0));
            assert(views(filter@)[k] == filter@[k]@);
        }
    }
    let mut i: usize = 0;
    while i < task_list.len()
        invariant
            i <= task_list@.len(),
            forall|a: int, b: int|
                0 <= a < i && 0 <= b < filter@.len() ==> !pattern_matches(
                    lower_of(task_list@[a]@),
                    lower_of(filter@[b]@),
                ),
        decreases task_list@.len() - i,
    {
        let low = lowercase(task_list[i].as_str());
        let mut k: usize = 0;
        while k < filter.len()
            invariant
                i < task_list@.len(),
                k <= filter@.len(),
                low@ == lower_of(task_list@[i as int]@),
                forall|a: int, b: int|
                    0 <= a < i && 0 <= b < filter@.len() ==> !pattern_matches(
                        lower_of(task_list@[a]@),
                        lower_of(filter@[b]@),
                    ),
                forall|b: int| 0 <= b < k ==> !pattern_matches(low@, lower_of(filter@[b]@)),
            decreases filter@.len() - k,
        {
            let ltag = lowercase(filter[k].as_str());
            if str_matches(low.as_str(), ltag.as_str()) {
                assert(views(task_list@)[i as int] == task_list@[i as int]@);
                assert(views(filter@)[k as int] == filter@[k as int]@);
                assert(pattern_matches(
                    lower_of(views(task_list@)[i as int]),
                    lower_of(views(filter@)[k as int]),
                ));
                return true;
            }
            k = k + 1;
        }
        i = i + 1;
    }
    assert forall|a: int, b: int|
        0 <= a < views(task_list@).len() && 0 <= b < views(filter@).len() implies !#[trigger] pattern_matches(
        lower_of(views(task_list@)[a]),
        lower_of(views(filter@)[b]),
    ) by {
        assert(views(task_list@)[a] == task_list@[a]@);
        assert(views(filter@)[b] == filter@[b]@);
    }
    false
}

// ---------------------------------------------------------------- stages

/// The task's completion state fits `status`.
pub open spec fn status_ok(t: TaskView, status: TodoStatus) -> bool {
    !((status == TodoStatus::Active && t.finished) || (status == TodoStatus::Done && !t.finished))
}

/// True when the task's completion state fits `status`.
pub fn is_status_ok(task: &Task, status: &TodoStatus) -> (r: bool)
    ensures
        r == status_ok(task@, *status),
{
    !((*status == TodoStatus::Active && task.finished) || (*status == TodoStatus::Done && !task.finished))
}

/// The date fits the range, days counted from `today`.
pub open spec fn date_in_range_spec(date: Option<Date>, range: DateRange, today: Date) -> bool {
    let low = range.days.low as int;
    let high = range.days.high as int;
    match range.span {
        ValueSpan::Absent => date is None,
        ValueSpan::Any => date is Some,
        ValueSpan::Higher => match date {
            Some(d) => d.num() - today.num() > high,
            None => low == INCLUDE_NONE,
        },
        ValueSpan::Lower => match date {
            Some(d) => d.num() - today.num() < low,
            None => high == INCLUDE_NONE,
        },
        ValueSpan::Range => match date {
            Some(d) => {
                let diff = d.num() - today.num();
                if low == INCLUDE_NONE && high == INCLUDE_NONE {
                    true
                } else if low == INCLUDE_NONE {
                    diff <= high
                } else if high == INCLUDE_NONE {
                    diff >= low
                } else {
                    low <= diff && diff <= high
                }
            },
            None => low == INCLUDE_NONE || high == INCLUDE_NONE,
        },
        _ => false,
    }
}

/// True when the date fits the range (see [`date_in_range_spec`]).
pub fn date_in_range(date: &Option<Date>, range: &DateRange, today: Date) -> (r: bool)
    requires
        today.wf(),
        date matches Some(d) ==> d.wf(),
    ensures
        r == date_in_range_spec(*date, *range, today),
{
    let low = range.days.low;
    let high = range.days.high;
    let diff: i64 = match date {
        Some(d) => d.day_number() as i64 - today.day_number() as i64,
        None => 0,
    };
    match range.span {
        ValueSpan::Absent => date.is_none(),
        ValueSpan::Any => date.is_some(),
        ValueSpan::Higher => {
            if date.is_some() {
                diff > high
            } else {
                low == INCLUDE_NONE
            }
        },
        ValueSpan::Lower => {
            if date.is_some() {
                diff < low
            } else {
                high == INCLUDE_NONE
            }
        },
        ValueSpan::Range => {
            if date.is_some() {
                if low == INCLUDE_NONE && high == INCLUDE_NONE {
                    true
                } else if low == INCLUDE_NONE {
                    diff <= high
                } else if high == INCLUDE_NONE {
                    diff >= low
                } else {
                    low <= diff && diff <= high
                }
            } else {
                low == INCLUDE_NONE || high == INCLUDE_NONE
            }
        },
        _ => false,
    }
}

/// The steps of the pipeline after the ID range and the text search.
#[derive(Clone, Copy, PartialEq, Eq, Structural)]
pub enum Stage {
    Empty,
    Tags,
    Hashtags,
    Projects,
    Contexts,
    Priority,
    Recurrence,
    Due,
    Created,
    Finished,
    Threshold,
    Timer,
}

/// A task passes an include/exclude pair of pattern lists.
pub open spec fn lists_ok(list: Seq<Seq<char>>, wanted: Seq<String>, unwanted: Seq<String>) -> bool {
    !(unwanted.len() > 0 && list_matches(list, views(unwanted))) && (wanted.len() == 0 || list_matches(
        list,
        views(wanted),
    ))
}

pub open spec fn tag_names(t: TaskView) -> Seq<Seq<char>> {
    t.tags.map_values(|p: (Seq<char>, Seq<char>)| p.0)
}

pub open spec fn priority_ok(t: TaskView, p: Priority) -> bool {
    match p.span {
        ValueSpan::Absent => t.priority == NO_PRIORITY,
        ValueSpan::Equal => p.value == t.priority,
        ValueSpan::Lower => p.value <= t.priority,
        ValueSpan::Higher => p.value >= t.priority,
        ValueSpan::Any => t.priority < NO_PRIORITY,
        _ => false,
    }
}

/// The threshold filter: the one given, else a threshold that is not
/// after today, unless all tasks are asked for.
pub open spec fn threshold_ok(t: TaskView, c: Conf, today: Date) -> bool {
    match c.thr {
        Some(r) => date_in_range_spec(t.threshold_date, r, today),
        None => c.all == TodoStatus::All || date_in_range_spec(
            t.threshold_date,
            DateRange { days: ValueRange { low: INCLUDE_NONE, high: 0 }, span: ValueSpan::Range },
            today,
        ),
    }
}

/// The task passes a stage of the query.
pub open spec fn stage_ok(t: TaskView, stage: Stage, c: Conf, today: Date) -> bool {
    match stage {
        Stage::Empty => c.all == TodoStatus::All || (t.subject.len() == 0) == (c.all == TodoStatus::Empty),
        Stage::Tags => lists_ok(tag_names(t), c.wanted.tags@, c.unwanted.tags@),
        Stage::Hashtags => lists_ok(t.hashtags, c.wanted.hashtags@, c.unwanted.hashtags@),
        Stage::Projects => lists_ok(t.projects, c.wanted.projects@, c.unwanted.projects@),
        Stage::Contexts => lists_ok(t.contexts, c.wanted.contexts@, c.unwanted.contexts@),
        Stage::Priority => match c.pri {
            Some(p) => priority_ok(t, p),
            None => true,
        },
        Stage::Recurrence => match c.rec {
            Some(r) => match r.span {
                ValueSpan::Absent => t.recurrence is None,
                ValueSpan::Any => t.recurrence is Some,
                _ => false,
            },
            None => true,
        },
        Stage::Due => match c.due {
            Some(r) => date_in_range_spec(t.due_date, r, today),
            None => true,
        },
        Stage::Created => match c.created {
            Some(r) => date_in_range_spec(t.create_date, r, today),
            None => true,
        },
        Stage::Finished => match c.finished {
            Some(r) => date_in_range_spec(t.finish_date, r, today),
            None => true,
        },
        Stage::Threshold => threshold_ok(t, c, today),
        Stage::Timer => match c.tmr {
            Some(r) => match r.span {
                ValueSpan::Absent => !timer_on(t),
                ValueSpan::Active => timer_on(t),
                _ => false,
            },
            None => true,
        },
    }
}

/// The names of the task's tags.
fn tag_name_list(task: &Task) -> (r: Vec<String>)
    ensures
        views(r@) == tag_names(task@),
{
    let mut out: Vec<String> = Vec::new();
    let mut i: usize = 0;
    while i < task.tags.len()
        invariant
            i <= task.tags@.len(),
            views(out@) == tag_names(task@).subrange(0, i as int),
        decreases task.tags@.len() - i,
    {
        let ghost before = out@;
        out.push(task.tags[i].0.clone());
        assert(views(out@) =~= views(before).push(task.tags@[i as int].0@));
        assert(tag_names(task@).subrange(0, i + 1) =~= tag_names(task@).subrange(0, i as int).push(
            task.tags@[i as int].0@,
        ));
        i = i + 1;
    }
    assert(tag_names(task@).subrange(0, task.tags@.len() as int) =~= tag_names(task@));
    out
}

fn lists_pass(list: &Vec<String>, wanted: &Vec<String>, unwanted: &Vec<String>) -> (r: bool)
    ensures
        r == lists_ok(views(list@), wanted@, unwanted@),
{
    if unwanted.len() > 0 && vec_match(list, unwanted) {
        return false;
    }
    wanted.len() == 0 || vec_match(list, wanted)
}

/// True when the task passes the stage (see [`stage_ok`]).
fn stage_keeps(task: &Task, stage: Stage, c: &Conf, today: Date) -> (r: bool)
    requires
        task.wf(),
        today.wf(),
    ensures
        r == stage_ok(task@, stage, *c, today),
{
    match stage {
        Stage::Empty => {
            let empty = task.subject.unicode_len() == 0;
            c.all == TodoStatus::All || (empty && c.all == TodoStatus::Empty) || (!empty && c.all
                != TodoStatus::Empty)
        },
        Stage::Tags => {
            let names = tag_name_list(task);
            lists_pass(&names, &c.wanted.tags, &c.unwanted.tags)
        },
        Stage::Hashtags => lists_pass(&task.hashtags, &c.wanted.hashtags, &c.unwanted.hashtags),
        Stage::Projects => lists_pass(&task.projects, &c.wanted.projects, &c.unwanted.projects),
        Stage::Contexts => lists_pass(&task.contexts, &c.wanted.contexts, &c.unwanted.contexts),
        Stage::Priority => match c.pri {
            Some(p) => match p.span {
                ValueSpan::Absent => task.priority == NO_PRIORITY,
                ValueSpan::Equal => p.value == task.priority,
                ValueSpan::Lower => p.value <= task.priority,
                ValueSpan::Higher => p.value >= task.priority,
                ValueSpan::Any => task.priority < NO_PRIORITY,
                _ => false,
            },
            None => true,
        },
        Stage::Recurrence => match c.rec {
            Some(r) => match r.span {
                ValueSpan::Absent => task.recurrence.is_none(),
                ValueSpan::Any => task.recurrence.is_some(),
                _ => false,
            },
            None => true,
        },
        Stage::Due => match c.due {
            Some(r) => date_in_range(&task.due_date, &r, today),
            None => true,
        },
        Stage::Created => match c.created {
            Some(r) => date_in_range(&task.create_date, &r, today),
            None => true,
        },
        Stage::Finished => match c.finished {
            Some(r) => date_in_range(&task.finish_date, &r, today),
            None => true,
        },
        Stage::Threshold => match c.thr {
            Some(r) => date_in_range(&task.threshold_date, &r, today),
            None => c.all == TodoStatus::All || date_in_range(
                &task.threshold_date,
                &DateRange { days: ValueRange { low: INCLUDE_NONE, high: 0 }, span: ValueSpan::Range },
                today,
            ),
        },
        Stage::Timer => match c.tmr {
            Some(r) => match r.span {
                ValueSpan::Absent => !is_timer_on(task),
                ValueSpan::Active => is_timer_on(task),
                _ => false,
            },
            None => true,
        },
    }
}

/// The IDs of `v` whose tasks pass the stage, in order.
pub open spec fn stage_retained(ts: Seq<TaskView>, v: Seq<usize>, stage: Stage, c: Conf, today: Date) -> Seq<
    usize,
>
    decreases v.len(),
{
    if v.len() == 0 {
        Seq::empty()
    } else {
        let prev = stage_retained(ts, v.drop_last(), stage, c, today);
        if stage_ok(ts[v.last() as int], stage, c, today) {
            prev.push(v.last())
        } else {
            prev
        }
    }
}

pub open spec fn ids_in(v: Seq<usize>, n: int) -> bool {
    forall|i: int| 0 <= i < v.len() ==> (#[trigger] v[i] as int) < n
}

proof fn lemma_retained_in(ts: Seq<TaskView>, v: Seq<usize>, stage: Stage, c: Conf, today: Date, n: int)
    requires
        ids_in(v, n),
    ensures
        ids_in(stage_retained(ts, v, stage, c, today), n),
    decreases v.len(),
{
    if v.len() > 0 {
        assert(ids_in(v.drop_last(), n)) by {
            assert forall|i: int| 0 <= i < v.drop_last().len() implies (#[trigger] v.drop_last()[i] as int)
                < n by {
                assert(v.drop_last()[i] == v[i]);
            }
        }
        assert(v[v.len() - 1] < n);
        lemma_retained_in(ts, v.drop_last(), stage, c, today, n);
    }
}

/// Keeps the IDs whose tasks pass the stage.
fn apply_stage(tasks: &TaskSlice, v: IDVec, stage: Stage, c: &Conf, today: Date) -> (r: IDVec)
    requires
        tasks_wf(tasks@),
        ids_in(v@, tasks@.len() as int),
        today.wf(),
    ensures
        r@ == stage_retained(task_views(tasks@), v@, stage, *c, today),
        ids_in(r@, tasks@.len() as int),
{
    let mut out: IDVec = Vec::new();
    let mut i: usize = 0;
    assert(out@ =~= stage_retained(task_views(tasks@), v@.subrange(0, 0), stage, *c, today));
    while i < v.len()
        invariant
            i <= v@.len(),
            tasks_wf(tasks@),
            ids_in(v@, tasks@.len() as int),
            today.wf(),
            out@ == stage_retained(task_views(tasks@), v@.subrange(0, i as int), stage, *c, today),
        decreases v@.len() - i,
    {
        assert(v@.subrange(0, i + 1).drop_last() =~= v@.subrange(0, i as int));
        let idx = v[i];
        assert(v@[i as int] < tasks@.len());
        assert(tasks@[idx as int].wf());
        if stage_keeps(&tasks[idx], stage, c, today) {
            out.push(idx);
        }
        i = i + 1;
    }
    assert(v@.subrange(0, v@.len() as int) =~= v@);
    proof {
        lemma_retained_in(task_views(tasks@), v@, stage, *c, today, tasks@.len() as int);
    }
    out
}

// ------------------------------------------------------------ ID range

/// The IDs `lo..hi` whose tasks fit `status`.
pub open spec fn span_ids(ts: Seq<TaskView>, lo: int, hi: int, status: TodoStatus) -> Seq<usize>
    decreases hi - lo,
{
    if hi <= lo {
        Seq::empty()
    } else {
        let prev = span_ids(ts, lo, hi - 1, status);
        if status_ok(ts[hi - 1], status) {
            prev.push((hi - 1) as usize)
        } else {
            prev
        }
    }
}

/// The IDs of `l` inside the list whose tasks fit `status`, in order.
pub open spec fn list_ids(ts: Seq<TaskView>, l: Seq<usize>, status: TodoStatus) -> Seq<usize>
    decreases l.len(),
{
    if l.len() == 0 {
        Seq::empty()
    } else {
        let prev = list_ids(ts, l.drop_last(), status);
        if (l.last() as int) < ts.len() && status_ok(ts[l.last() as int], status) {
            prev.push(l.last())
        } else {
            prev
        }
    }
}

/// The IDs that the range of the query names, whose tasks fit its status.
pub open spec fn range_ids(ts: Seq<TaskView>, c: Conf) -> Seq<usize> {
    match c.range {
        ItemRange::One(i) => if (i as int) < ts.len() && status_ok(ts[i as int], c.all) {
            seq![i]
        } else {
            Seq::empty()
        },
        ItemRange::Range(lo, hi) => span_ids(
            ts,
            lo as int,
            if (hi as int) < ts.len() {
                hi + 1
            } else {
                ts.len() as int
            },
            c.all,
        ),
        ItemRange::List(l) => list_ids(ts, l@, c.all),
        ItemRange::All => span_ids(ts, 0, ts.len() as int, c.all),
    }
}

fn collect_span(tasks: &TaskSlice, lo: usize, hi: usize, status: TodoStatus) -> (r: IDVec)
    requires
        hi <= tasks@.len(),
    ensures
        r@ == span_ids(task_views(tasks@), lo as int, hi as int, status),
        ids_in(r@, tasks@.len() as int),
{
    let mut v: IDVec = Vec::new();
    if hi <= lo {
        return v;
    }
    let mut k: usize = lo;
    assert(v@ =~= span_ids(task_views(tasks@), lo as int, lo as int, status));
    while k < hi
        invariant
            lo <= k <= hi <= tasks@.len(),
            v@ == span_ids(task_views(tasks@), lo as int, k as int, status),
            ids_in(v@, k as int),
        decreases hi - k,
    {
        if is_status_ok(&tasks[k], &status) {
            v.push(k);
        }
        k = k + 1;
    }
    v
}

fn collect_list(tasks: &TaskSlice, l: &Vec<usize>, status: TodoStatus) -> (r: IDVec)
    ensures
        r@ == list_ids(task_views(tasks@), l@, status),
        ids_in(r@, tasks@.len() as int),
{
    let mut v: IDVec = Vec::new();
    let mut i: usize = 0;
    assert(v@ =~= list_ids(task_views(tasks@), l@.subrange(0, 0), status));
    while i < l.len()
        invariant
            i <= l@.len(),
            v@ == list_ids(task_views(tasks@), l@.subrange(0, i as int), status),
            ids_in(v@, tasks@.len() as int),
        decreases l@.len() - i,
    {
        assert(l@.subrange(0, i + 1).drop_last() =~= l@.subrange(0, i as int));
        let idx = l[i];
        if idx < tasks.len() && is_status_ok(&tasks[idx], &status) {
            v.push(idx);
        }
        i = i + 1;
    }
    assert(l@.subrange(0, l@.len() as int) =~= l@);
    v
}

// ----------------------------------------------------------- text search

/// Whether a regular expression compiles, as `regex::Regex::new` decides.
pub uninterp spec fn regex_compiles(pattern: Seq<char>) -> bool;

/// Whether a compiled regular expression matches somewhere in a text, as
/// `regex::Regex::is_match` decides.
pub uninterp spec fn regex_finds(pattern: Seq<char>, text: Seq<char>) -> bool;

/// Relies on `regex::Regex::new`, which compiles `pattern` or fails, and on
/// `Regex::is_match`, which tells whether it matches somewhere in `text`.
#[verifier::external_body]
fn regex_search(pattern: &str, text: &str) -> (r: Option<bool>)
    ensures
        r is Some <==> regex_compiles(pattern@),
        r matches Some(b) ==> b == regex_finds(pattern@, text@),
{
    regex::Regex::new(pattern).ok().map(|re| re.is_match(text))
}

pub open spec fn case_flag() -> Seq<char> {
    seq!['(', '?', 'i', ')']
}

/// The IDs of `v` whose subjects the search keeps: with a regular
/// expression, those it matches in any case (all of them when it does not
/// compile); else those that hold the text in any case.
pub open spec fn text_retained(ts: Seq<TaskView>, v: Seq<usize>, c: Conf) -> Seq<usize>
    decreases v.len(),
{
    match c.regex {
        None => v,
        Some(rx) => if c.use_regex && !regex_compiles(case_flag() + rx@) {
            v
        } else if v.len() == 0 {
            Seq::empty()
        } else {
            let prev = text_retained(ts, v.drop_last(), c);
            let subj = ts[v.last() as int].subject;
            let hit = if c.use_regex {
                regex_finds(case_flag() + rx@, subj)
            } else {
                occurs_in(lower_of(subj), lower_of(rx@))
            };
            if hit {
                prev.push(v.last())
            } else {
                prev
            }
        },
    }
}

proof fn lemma_text_retained_in(ts: Seq<TaskView>, v: Seq<usize>, c: Conf, n: int)
    requires
        ids_in(v, n),
    ensures
        ids_in(text_retained(ts, v, c), n),
    decreases v.len(),
{
    if v.len() > 0 {
        assert(ids_in(v.drop_last(), n)) by {
            assert forall|i: int| 0 <= i < v.drop_last().len() implies (#[trigger] v.drop_last()[i] as int)
                < n by {
                assert(v.drop_last()[i] == v[i]);
            }
        }
        assert(v[v.len() - 1] < n);
        lemma_text_retained_in(ts, v.drop_last(), c, n);
    }
}

fn filter_regex(tasks: &TaskSlice, v: IDVec, c: &Conf) -> (r: IDVec)
    requires
        ids_in(v@, tasks@.len() as int),
    ensures
        r@ == text_retained(task_views(tasks@), v@, *c),
        ids_in(r@, tasks@.len() as int),
{
    let rx = match &c.regex {
        None => return v,
        Some(s) => s,
    };
    proof {
        reveal_strlit("(?i)");
        assert("(?i)"@ =~= case_flag());
    }
    let pattern = String::from_str("(?i)").concat(rx.as_str());
    let rstr = lowercase(rx.as_str());
    if c.use_regex {
        let probe = regex_search(pattern.as_str(), "");
        if probe.is_none() {
            return v;
        }
    }
    let mut out: IDVec = Vec::new();
    let mut i: usize = 0;
    assert(out@ =~= text_retained(task_views(tasks@), v@.subrange(0, 0), *c));
    while i < v.len()
        invariant
            i <= v@.len(),
            ids_in(v@, tasks@.len() as int),
            c.regex == Some(*rx),
            pattern@ == case_flag() + rx@,
            rstr@ == lower_of(rx@),
            c.use_regex ==> regex_compiles(pattern@),
            out@ == text_retained(task_views(tasks@), v@.subrange(0, i as int), *c),
        decreases v@.len() - i,
    {
        assert(v@.subrange(0, i + 1).drop_last() =~= v@.subrange(0, i as int));
        let idx = v[i];
        assert(v@[i as int] < tasks@.len());
        let hit = if c.use_regex {
            match regex_search(pattern.as_str(), tasks[idx].subject.as_str()) {
                Some(b) => b,
                None => false,
            }
        } else {
            let low = lowercase(tasks[idx].subject.as_str());
            contains_text(low.as_str(), rstr.as_str())
        };
        if hit {
            out.push(idx);
        }
        i = i + 1;
    }
    assert(v@.subrange(0, v@.len() as int) =~= v@);
    proof {
        lemma_text_retained_in(task_views(tasks@), v@, *c, tasks@.len() as int);
    }
    out
}

// --------------------------------------------------------------- filter

/// The IDs a query selects, in order: the range, then each stage in turn.
pub open spec fn filter_spec(ts: Seq<TaskView>, c: Conf, today: Date) -> Seq<usize> {
    let v0 = range_ids(ts, c);
    let v1 = stage_retained(ts, v0, Stage::Empty, c, today);
    let v2 = text_retained(ts, v1, c);
    let v3 = stage_retained(ts, v2, Stage::Tags, c, today);
    let v4 = stage_retained(ts, v3, Stage::Hashtags, c, today);
    let v5 = stage_retained(ts, v4, Stage::Projects, c, today);
    let v6 = stage_retained(ts, v5, Stage::Contexts, c, today);
    let v7 = stage_retained(ts, v6, Stage::Priority, c, today);
    let v8 = stage_retained(ts, v7, Stage::Recurrence, c, today);
    let v9 = stage_retained(ts, v8, Stage::Due, c, today);
    let v10 = stage_retained(ts, v9, Stage::Created, c, today);
    let v11 = stage_retained(ts, v10, Stage::Finished, c, today);
    let v12 = stage_retained(ts, v11, Stage::Threshold, c, today);
    stage_retained(ts, v12, Stage::Timer, c, today)
}

/// The IDs of the tasks that the query selects (see [`filter_spec`]);
/// dates are compared with `today`. The list is left as it is.
pub fn filter(tasks: &TaskSlice, c: &Conf, today: Date) -> (r: IDVec)
    requires
        tasks_wf(tasks@),
        today.wf(),
    ensures
        r@ == filter_spec(task_views(tasks@), *c, today),
{
    let n = tasks.len();
    let v: IDVec = match &c.range {
        ItemRange::One(i) => {
            let mut v: IDVec = Vec::new();
            if *i < n && is_status_ok(&tasks[*i], &c.all) {
                v.push(*i);
            }
            assert(v@ =~= range_ids(task_views(tasks@), *c));
            v
        },
        ItemRange::Range(lo, hi) => {
            let top = if *hi < n {
                *hi + 1
            } else {
                n
            };
            collect_span(tasks, *lo, top, c.all)
        },
        ItemRange::List(l) => collect_list(tasks, l, c.all),
        ItemRange::All => collect_span(tasks, 0, n, c.all),
    };
    let v = apply_stage(tasks, v, Stage::Empty, c, today);
    let v = filter_regex(tasks, v, c);
    let v = apply_stage(tasks, v, Stage::Tags, c, today);
    let v = apply_stage(tasks, v, Stage::Hashtags, c, today);
    let v = apply_stage(tasks, v, Stage::Projects, c, today);
    let v = apply_stage(tasks, v, Stage::Contexts, c, today);
    let v = apply_stage(tasks, v, Stage::Priority, c, today);
    let v = apply_stage(tasks, v, Stage::Recurrence, c, today);
    let v = apply_stage(tasks, v, Stage::Due, c, today);
    let v = apply_stage(tasks, v, Stage::Created, c, today);
    let v = apply_stage(tasks, v, Stage::Finished, c, today);
    let v = apply_stage(tasks, v, Stage::Threshold, c, today);
    apply_stage(tasks, v, Stage::Timer, c, today)
}

} // verus!
