//! One todo.txt record: parsing, formatting, and the edits that keep its
//! subject and its fields in step.
use vstd::prelude::*;
use crate::date::Date;
use crate::text::{find_char, first_index, has_prefix, is_digit, join, views, words};
use crate::todotxt::utils::{
    lemma_lookup_absent, lemma_lookup_at,
    date_text, date_value, extract_contexts, extract_hashtags, extract_projects, extract_tags,
    format_date, format_priority, parse_date, parse_priority, priority_letter, priority_text,
    priority_value, recurrence_value, replaced_words, replace_word, sigil_items, tag_index,
    tag_lookup, tag_views, tags_of_words, unique_names, Recurrence, NO_PRIORITY,
};

verus! {

/// What to do with the priority when a task is completed.
/// With `RemovePriority` the priority cannot be restored on undo.
#[derive(PartialEq, Eq, Debug, Clone, Copy, Structural)]
pub enum CompletionMode {
    /// Mark done and keep the priority.
    JustMark,
    /// Move the priority into the subject, after the completion date; only
    /// when the task gets a completion date.
    MovePriority,
    /// Drop the priority.
    RemovePriority,
    /// Drop the priority and keep it as a tag `pri:X`.
    PriorityToTag,
}

/// When to set the completion date.
#[derive(PartialEq, Eq, Debug, Clone, Copy, Structural)]
pub enum CompletionDateMode {
    /// Only when the task has a creation date.
    WhenCreationDateIsPresent,
    /// Always.
    AlwaysSet,
}

/// How a task is completed.
#[derive(PartialEq, Eq, Debug, Clone, Copy, Structural)]
pub struct CompletionConfig {
    pub completion_mode: CompletionMode,
    pub completion_date_mode: CompletionDateMode,
}

impl Default for CompletionConfig {
    fn default() -> (r: Self)
        ensures
            r.completion_mode == CompletionMode::JustMark,
            r.completion_date_mode == CompletionDateMode::WhenCreationDateIsPresent,
    {
        CompletionConfig {
            completion_mode: CompletionMode::JustMark,
            completion_date_mode: CompletionDateMode::WhenCreationDateIsPresent,
        }
    }
}

/// One todo record.
#[derive(PartialEq, Eq, Debug, Clone)]
pub struct Task {
    pub subject: String,
    pub priority: u8,
    pub finished: bool,
    pub contexts: Vec<String>,
    pub projects: Vec<String>,
    /// Tags in order of first appearance, each name once.
    pub tags: Vec<(String, String)>,
    pub create_date: Option<Date>,
    pub finish_date: Option<Date>,
    pub due_date: Option<Date>,
    pub threshold_date: Option<Date>,
    pub recurrence: Option<Recurrence>,
    pub hashtags: Vec<String>,
}

/// The mathematical form of a [`Task`].
pub struct TaskView {
    pub subject: Seq<char>,
    pub priority: u8,
    pub finished: bool,
    pub contexts: Seq<Seq<char>>,
    pub projects: Seq<Seq<char>>,
    pub tags: Seq<(Seq<char>, Seq<char>)>,
    pub create_date: Option<Date>,
    pub finish_date: Option<Date>,
    pub due_date: Option<Date>,
    pub threshold_date: Option<Date>,
    pub recurrence: Option<Recurrence>,
    pub hashtags: Seq<Seq<char>>,
}

impl View for Task {
    type V = TaskView;

    open spec fn view(&self) -> TaskView {
        TaskView {
            subject: self.subject@,
            priority: self.priority,
            finished: self.finished,
            contexts: views(self.contexts@),
            projects: views(self.projects@),
            tags: tag_views(self.tags@),
            create_date: self.create_date,
            finish_date: self.finish_date,
            due_date: self.due_date,
            threshold_date: self.threshold_date,
            recurrence: self.recurrence,
            hashtags: views(self.hashtags@),
        }
    }
}

pub open spec fn opt_date_wf(d: Option<Date>) -> bool {
    d matches Some(x) ==> x.wf()
}

pub open spec fn due_name() -> Seq<char> {
    seq!['d', 'u', 'e']
}

pub open spec fn thr_name() -> Seq<char> {
    seq!['t']
}

pub open spec fn rec_name() -> Seq<char> {
    seq!['r', 'e', 'c']
}

pub open spec fn until_name() -> Seq<char> {
    seq!['u', 'n', 't', 'i', 'l']
}

pub open spec fn pri_name() -> Seq<char> {
    seq!['p', 'r', 'i']
}

/// The word of a tag: `name:value`.
pub open spec fn tag_text(name: Seq<char>, value: Seq<char>) -> Seq<char> {
    name + seq![':'] + value
}

impl TaskView {
    /// The projects, contexts, hashtags and tags are those written in the subject.
    pub open spec fn synced(self) -> bool {
        &&& self.projects == sigil_items(words(self.subject), '+')
        &&& self.contexts == sigil_items(words(self.subject), '@')
        &&& self.hashtags == sigil_items(words(self.subject), '#')
        &&& self.tags == tags_of_words(words(self.subject))
    }

    /// `self` with the given subject, and the tokens of that subject.
    pub open spec fn with_subject(self, s: Seq<char>) -> TaskView {
        TaskView {
            subject: s,
            projects: sigil_items(words(s), '+'),
            contexts: sigil_items(words(s), '@'),
            hashtags: sigil_items(words(s), '#'),
            tags: tags_of_words(words(s)),
            ..self
        }
    }
}

impl Task {
    /// Dates are valid, tag names unique, a recurrence has a count of one or more.
    pub open spec fn wf(&self) -> bool {
        &&& opt_date_wf(self.create_date)
        &&& opt_date_wf(self.finish_date)
        &&& opt_date_wf(self.due_date)
        &&& opt_date_wf(self.threshold_date)
        &&& unique_names(tag_views(self.tags@))
        &&& self.recurrence matches Some(r) ==> r.count >= 1
    }
}

impl Default for Task {
    fn default() -> (r: Task)
        ensures
            r@.subject.len() == 0,
            r.priority == NO_PRIORITY,
            !r.finished,
            r@.projects.len() == 0,
            r@.contexts.len() == 0,
            r@.hashtags.len() == 0,
            r@.tags.len() == 0,
            r.create_date is None,
            r.finish_date is None,
            r.due_date is None,
            r.threshold_date is None,
            r.recurrence is None,
    {
        let r = Task {
            subject: String::new(),
            priority: NO_PRIORITY,
            finished: false,
            contexts: Vec::new(),
            projects: Vec::new(),
            tags: Vec::new(),
            create_date: None,
            finish_date: None,
            due_date: None,
            threshold_date: None,
            recurrence: None,
            hashtags: Vec::new(),
        };
        assert(r@.tags =~= Seq::empty());
        assert(r@.projects =~= Seq::empty());
        assert(r@.contexts =~= Seq::empty());
        assert(r@.hashtags =~= Seq::empty());
        r
    }
}

// --------------------------------------------------------------- formatting

pub open spec fn opt_date_text(d: Option<Date>) -> Seq<char> {
    match d {
        Some(x) => date_text(x) + seq![' '],
        None => Seq::empty(),
    }
}

/// The line of a task: `x `, the priority, the completion date, the
/// creation date (each followed by a space when present), then the subject.
pub open spec fn format_spec(t: TaskView) -> Seq<char> {
    (if t.finished {
        seq!['x', ' ']
    } else {
        Seq::empty()
    }) + (if t.priority < NO_PRIORITY {
        priority_text(t.priority as int) + seq![' ']
    } else {
        Seq::empty()
    }) + opt_date_text(t.finish_date) + opt_date_text(t.create_date) + t.subject
}

// ---------------------------------------------------------------- tag edits

/// The mirrored field of tag `tag` set from `value`: `due` and `t` read it
/// as a date against `today`, `rec` as a recurrence; an empty value clears.
pub open spec fn field_update(t: TaskView, tag: Seq<char>, value: Seq<char>, today: Date) -> TaskView {
    if tag == due_name() {
        TaskView {
            due_date: if value.len() == 0 {
                None
            } else {
                date_value(value, today)
            },
            ..t
        }
    } else if tag == thr_name() {
        TaskView {
            threshold_date: if value.len() == 0 {
                None
            } else {
                date_value(value, today)
            },
            ..t
        }
    } else if tag == rec_name() {
        TaskView { recurrence: recurrence_value(value), ..t }
    } else {
        t
    }
}

/// The task after tag `tag` is set to `value`, and whether it changed: an
/// empty value removes the tag word; a new tag is appended to the subject;
/// another value replaces the tag word.
pub open spec fn tag_update_spec(t: TaskView, tag: Seq<char>, value: Seq<char>, today: Date) -> (
    TaskView,
    bool,
) {
    if value.len() == 0 {
        tag_removed(t, tag)
    } else {
    match tag_lookup(t.tags, tag) {
        None => {
            (
                field_update(
                    t.with_subject(t.subject + seq![' '] + tag_text(tag, value)),
                    tag,
                    value,
                    today,
                ),
                true,
            )
        },
        Some(v) => if v == value {
            (t, false)
        } else {
            (
                field_update(
                    t.with_subject(replaced_words(t.subject, tag_text(tag, v), tag_text(tag, value))),
                    tag,
                    value,
                    today,
                ),
                true,
            )
        },
    }
    }
}

/// The task after tag `tag` is removed, and whether it changed: the tag
/// word leaves the subject and a mirrored field is cleared.
pub open spec fn tag_removed(t: TaskView, tag: Seq<char>) -> (TaskView, bool) {
    match tag_lookup(t.tags, tag) {
        None => (t, false),
        Some(v) => (
            cleared_field(t.with_subject(replaced_words(t.subject, tag_text(tag, v), Seq::empty())), tag),
            true,
        ),
    }
}

/// The mirrored field of tag `tag` cleared.
pub open spec fn cleared_field(t: TaskView, tag: Seq<char>) -> TaskView {
    if tag == due_name() {
        TaskView { due_date: None, ..t }
    } else if tag == thr_name() {
        TaskView { threshold_date: None, ..t }
    } else if tag == rec_name() {
        TaskView { recurrence: None, ..t }
    } else {
        t
    }
}

/// A word that is a timer tag: `tmr:…` or `spent:…`.
pub open spec fn is_timer_word(w: Seq<char>) -> bool {
    match crate::todotxt::utils::tag_parts(w) {
        Some(p) => p.0 == seq!['t', 'm', 'r'] || p.0 == seq!['s', 'p', 'e', 'n', 't'],
        None => false,
    }
}

/// The words that are not timer tags, in order.
pub open spec fn timer_free(ws: Seq<Seq<char>>) -> Seq<Seq<char>>
    decreases ws.len(),
{
    if ws.len() == 0 {
        Seq::empty()
    } else if is_timer_word(ws.last()) {
        timer_free(ws.drop_last())
    } else {
        timer_free(ws.drop_last()).push(ws.last())
    }
}

pub proof fn lemma_timer_free_clean(ws: Seq<Seq<char>>)
    ensures
        forall|i: int| 0 <= i < timer_free(ws).len() ==> !is_timer_word(#[trigger] timer_free(ws)[i]),
    decreases ws.len(),
{
    if ws.len() > 0 {
        lemma_timer_free_clean(ws.drop_last());
        let prev = timer_free(ws.drop_last());
        if !is_timer_word(ws.last()) {
            assert forall|i: int| 0 <= i < prev.push(ws.last()).len() implies !is_timer_word(
                #[trigger] prev.push(ws.last())[i],
            ) by {
                if i < prev.len() {
                    assert(prev.push(ws.last())[i] == prev[i]);
                }
            }
        }
    }
}

/// A copy of a task without its timer tag words.
pub open spec fn cleanup_spec(t: TaskView) -> TaskView {
    t.with_subject(join(timer_free(words(t.subject))))
}

// --------------------------------------------------------------- completion

/// The task after completion on `date`, and whether it changed.
pub open spec fn complete_spec(t: TaskView, date: Date, cfg: CompletionConfig) -> (TaskView, bool) {
    if t.finished {
        (t, false)
    } else {
        let fd = if t.create_date is Some || cfg.completion_date_mode == CompletionDateMode::AlwaysSet {
            Some(date)
        } else {
            t.finish_date
        };
        let t1 = TaskView { finished: true, finish_date: fd, ..t };
        let p = t.priority;
        let t2 = match cfg.completion_mode {
            CompletionMode::RemovePriority => TaskView { priority: NO_PRIORITY, ..t1 },
            CompletionMode::PriorityToTag => if p < NO_PRIORITY {
                TaskView {
                    priority: NO_PRIORITY,
                    ..t1.with_subject(
                        t.subject + seq![' '] + tag_text(pri_name(), seq![priority_letter(p as int)]),
                    )
                }
            } else {
                t1
            },
            CompletionMode::MovePriority => if p < NO_PRIORITY && fd is Some {
                TaskView {
                    priority: NO_PRIORITY,
                    ..t1.with_subject(priority_text(p as int) + seq![' '] + t.subject)
                }
            } else {
                t1
            },
            CompletionMode::JustMark => t1,
        };
        (t2, true)
    }
}

/// The priority a `pri` tag value names.
pub open spec fn pri_tag_priority(t: TaskView) -> int {
    match tag_lookup(t.tags, pri_name()) {
        Some(v) => if v.len() == 1 && crate::todotxt::utils::is_upper(v[0]) {
            v[0] as int - 'A' as int
        } else {
            NO_PRIORITY as int
        },
        None => NO_PRIORITY as int,
    }
}

/// The task after its completion is undone, and whether it changed: the
/// priority comes back from a `pri` tag or from the start of the subject,
/// as the mode put it there.
pub open spec fn uncomplete_spec(t: TaskView, mode: CompletionMode) -> (TaskView, bool) {
    if !t.finished {
        (t, false)
    } else {
        let t1 = match mode {
            CompletionMode::PriorityToTag => {
                let p = pri_tag_priority(t);
                if p != NO_PRIORITY {
                    TaskView {
                        priority: p as u8,
                        ..t.with_subject(
                            replaced_words(
                                t.subject,
                                tag_text(pri_name(), seq![priority_letter(p)]),
                                Seq::empty(),
                            ),
                        )
                    }
                } else {
                    t
                }
            },
            CompletionMode::MovePriority => match priority_value(first_word(t.subject)) {
                Some(p) => TaskView { priority: p as u8, ..t.with_subject(after_first_word(t.subject)) },
                None => t,
            },
            _ => t,
        };
        (TaskView { finished: false, finish_date: None, ..t1 }, true)
    }
}

// ---------------------------------------------------------------- recurring

/// The date `k` recurrence steps after `d`.
pub open spec fn steps(r: Recurrence, d: Date, k: nat) -> Option<Date>
    decreases k,
{
    if k == 0 {
        Some(d)
    } else {
        match steps(r, d, (k - 1) as nat) {
            Some(x) => crate::todotxt::utils::next_date_spec(r, x),
            None => None,
        }
    }
}

/// All of steps `1..k` after `start` fall before `today`.
pub open spec fn steps_before(r: Recurrence, start: Date, today: Date, k: nat) -> bool {
    forall|j: nat| 1 <= j < k ==> (#[trigger] steps(r, start, j) matches Some(x) && x.num() < today.num())
}

/// `x` is the first step after `start` that is not before `today`.
pub open spec fn first_step_from(r: Recurrence, start: Date, today: Date, x: Date) -> bool {
    exists|k: nat|
        k >= 1 && steps(r, start, k) == Some(x) && x.num() >= today.num() && steps_before(
            r,
            start,
            today,
            k,
        )
}

/// The first step after `start` that is not before `today`, when there is one.
pub open spec fn advance_spec(r: Recurrence, start: Date, today: Date) -> Option<Date> {
    if exists|x: Date| first_step_from(r, start, today, x) {
        Some(choose|x: Date| first_step_from(r, start, today, x))
    } else {
        None
    }
}

pub proof fn lemma_first_step_unique(r: Recurrence, start: Date, today: Date, x: Date, y: Date)
    requires
        first_step_from(r, start, today, x),
        first_step_from(r, start, today, y),
    ensures
        x == y,
{
    let kx = choose|k: nat|
        k >= 1 && steps(r, start, k) == Some(x) && x.num() >= today.num() && steps_before(r, start, today, k);
    let ky = choose|k: nat|
        k >= 1 && steps(r, start, k) == Some(y) && y.num() >= today.num() && steps_before(r, start, today, k);
    if kx < ky {
        assert(steps(r, start, kx) matches Some(z) && z.num() < today.num());
    } else if ky < kx {
        assert(steps(r, start, ky) matches Some(z) && z.num() < today.num());
    }
}

/// The due and threshold dates of a recurring task moved forward, and
/// the subject tags rewritten to match.
pub open spec fn moved_date(r: Recurrence, d: Option<Date>, today: Date) -> Option<Date> {
    match d {
        Some(x) => match advance_spec(r, if r.strict { x } else { today }, today) {
            Some(y) => Some(y),
            None => Some(x),
        },
        None => None,
    }
}

pub open spec fn moved_tag(s: Seq<char>, name: Seq<char>, old: Option<Date>, new: Option<Date>) -> Seq<char> {
    match (old, new) {
        (Some(a), Some(b)) => replaced_words(s, tag_text(name, date_text(a)), tag_text(name, date_text(b))),
        _ => s,
    }
}

/// The task after its recurrence moves its due and threshold dates on, and
/// whether it changed.
#[verifier::opaque]
pub open spec fn next_dates_spec(t: TaskView, today: Date) -> (TaskView, bool) {
    if t.finished || (t.due_date is None && t.threshold_date is None) || t.recurrence is None {
        (t, false)
    } else {
        let r = t.recurrence->0;
        let due = moved_date(r, t.due_date, today);
        let thr = moved_date(r, t.threshold_date, today);
        let s1 = moved_tag(t.subject, due_name(), t.due_date, due);
        let s2 = moved_tag(s1, thr_name(), t.threshold_date, thr);
        (TaskView { due_date: due, threshold_date: thr, ..t.with_subject(s2) }, true)
    }
}

// ------------------------------------------------------- projects, contexts

pub open spec fn strip_sigil(s: Seq<char>, sigil: char) -> Seq<char> {
    if s.len() > 0 && s[0] == sigil {
        s.drop_first()
    } else {
        s
    }
}

/// The task after item `old` (a project for `+`, a context for `@`) is
/// replaced with `new`: an empty `old` appends `new` when it is not there
/// yet; an empty `new` removes `old`; words match `old` in any case.
pub open spec fn replace_item_spec(t: TaskView, old: Seq<char>, new: Seq<char>, sigil: char) -> TaskView {
    let o = strip_sigil(old, sigil);
    let n = strip_sigil(new, sigil);
    if o.len() == 0 {
        if n.len() > 0 && !sigil_items(words(t.subject), sigil).contains(n) {
            t.with_subject(t.subject + seq![' ', sigil] + n)
        } else {
            t
        }
    } else {
        t.with_subject(
            crate::todotxt::utils::replaced_words_folded(
                t.subject,
                seq![sigil] + o,
                if n.len() == 0 {
                    Seq::empty()
                } else {
                    seq![sigil] + n
                },
            ),
        )
    }
}

// ------------------------------------------------------------------ parsing

/// The first word of `s`: up to the first space.
pub open spec fn first_word(s: Seq<char>) -> Seq<char> {
    match first_index(s, ' ') {
        Some(i) => s.subrange(0, i),
        None => s,
    }
}

/// What follows the first word of `s` and the space after it.
pub open spec fn after_first_word(s: Seq<char>) -> Seq<char> {
    match first_index(s, ' ') {
        Some(i) => s.subrange(i + 1, s.len() as int),
        None => Seq::empty(),
    }
}

/// A leading `YYYY-MM-DD` word of `s`.
pub open spec fn leading_date(s: Seq<char>, base: Date) -> Option<Date> {
    if s.len() > 0 && is_digit(s[0]) && first_word(s).contains('-') {
        date_value(first_word(s), base)
    } else {
        None
    }
}

/// The start of a line: completion mark, priority, dates; and the subject
/// that follows them.
pub struct Header {
    pub finished: bool,
    pub priority: u8,
    pub finish_date: Option<Date>,
    pub create_date: Option<Date>,
    pub subject: Seq<char>,
}

/// The dates at the start of `s`, and the subject after them: one date is
/// the creation date of an open task and the completion date of a finished
/// one; a finished task may have a creation date second.
#[verifier::opaque]
pub open spec fn header_dates(finished: bool, priority: u8, s: Seq<char>, base: Date) -> Header {
    match leading_date(s, base) {
        None => Header { finished, priority, finish_date: None, create_date: None, subject: s },
        Some(d1) => {
            let rest = after_first_word(s);
            if !finished {
                Header { finished, priority, finish_date: None, create_date: Some(d1), subject: rest }
            } else {
                match leading_date(rest, base) {
                    None => Header {
                        finished,
                        priority,
                        finish_date: Some(d1),
                        create_date: None,
                        subject: rest,
                    },
                    Some(d2) => Header {
                        finished,
                        priority,
                        finish_date: Some(d1),
                        create_date: Some(d2),
                        subject: after_first_word(rest),
                    },
                }
            }
        },
    }
}

/// The header of a line: `x ` marks it finished; a first word `(A)`..`(Z)`
/// is the priority (any other first word opening with `(` ends the header);
/// then the dates.
#[verifier::opaque]
pub open spec fn header_of(line: Seq<char>, base: Date) -> Header {
    let finished = line.len() >= 2 && line[0] == 'x' && line[1] == ' ';
    let s = if finished {
        line.subrange(2, line.len() as int)
    } else {
        line
    };
    header_after_mark(finished, s, base)
}

/// The header after the completion mark: a first word `(A)`..`(Z)` is the
/// priority (any other first word opening with `(` ends the header); then
/// the dates.
#[verifier::opaque]
pub open spec fn header_after_mark(finished: bool, s: Seq<char>, base: Date) -> Header {
    if s.len() > 0 && s[0] == '(' {
        match priority_value(first_word(s)) {
            None => Header {
                finished,
                priority: NO_PRIORITY,
                finish_date: None,
                create_date: None,
                subject: s,
            },
            Some(p) => header_dates(finished, p as u8, after_first_word(s), base),
        }
    } else {
        header_dates(finished, NO_PRIORITY, s, base)
    }
}

/// The value of date tag `name` as a date.
pub open spec fn tag_date(tags: Seq<(Seq<char>, Seq<char>)>, name: Seq<char>, base: Date) -> Option<Date> {
    match tag_lookup(tags, name) {
        Some(v) => date_value(v, base),
        None => None,
    }
}

/// The recurrence of the `rec` tag.
pub open spec fn tag_recurrence(tags: Seq<(Seq<char>, Seq<char>)>) -> Option<Recurrence> {
    match tag_lookup(tags, rec_name()) {
        Some(v) => recurrence_value(v),
        None => None,
    }
}

/// The subject with date tag `name` written as `YYYY-MM-DD` when its value
/// reads as a date in another form.
#[verifier::opaque]
pub open spec fn canonical_date_tag(s: Seq<char>, name: Seq<char>, base: Date) -> Seq<char> {
    match tag_lookup(tags_of_words(words(s)), name) {
        Some(v) => match date_value(v, base) {
            Some(d) => if v != date_text(d) {
                replaced_words(s, tag_text(name, v), tag_text(name, date_text(d)))
            } else {
                s
            },
            None => s,
        },
        None => s,
    }
}

/// The task a line describes, relative dates counted from `base`.
#[verifier::opaque]
pub open spec fn parse_spec(line: Seq<char>, base: Date) -> TaskView {
    let h = header_of(line, base);
    let tags0 = tags_of_words(words(h.subject));
    let s1 = canonical_date_tag(h.subject, thr_name(), base);
    let s2 = canonical_date_tag(s1, due_name(), base);
    let s3 = canonical_date_tag(s2, until_name(), base);
    TaskView {
        subject: s3,
        priority: h.priority,
        finished: h.finished,
        contexts: sigil_items(words(s3), '@'),
        projects: sigil_items(words(s3), '+'),
        tags: tags_of_words(words(s3)),
        create_date: h.create_date,
        finish_date: h.finish_date,
        due_date: tag_date(tags0, due_name(), base),
        threshold_date: tag_date(tags0, thr_name(), base),
        recurrence: tag_recurrence(tags0),
        hashtags: sigil_items(words(s3), '#'),
    }
}

/// The first word of `s` and what follows it after one space.
fn split_first_word(s: &str) -> (r: (&str, &str))
    ensures
        r.0@ == first_word(s@),
        r.1@ == after_first_word(s@),
{
    let n = s.unicode_len();
    match find_char(s, ' ') {
        Some(i) => (s.substring_char(0, i), s.substring_char(i + 1, n)),
        None => {
            assert(s@.subrange(0, n as int) =~= s@);
            (s.substring_char(0, n), s.substring_char(0, 0))
        },
    }
}

/// A leading `YYYY-MM-DD` word of `s` (see [`leading_date`]).
fn read_leading_date(s: &str, base: Date) -> (r: Option<Date>)
    requires
        base.wf(),
    ensures
        r == leading_date(s@, base),
        r matches Some(d) ==> d.wf(),
{
    if s.unicode_len() == 0 {
        return None;
    }
    let c = s.get_char(0);
    if c < '0' || c > '9' {
        return None;
    }
    let (w, _rest) = split_first_word(s);
    match find_char(w, '-') {
        None => {
            assert(!w@.contains('-'));
            None
        },
        Some(i) => {
            assert(w@[i as int] == '-');
            match parse_date(w, base) {
                Ok(d) => Some(d),
                Err(_) => None,
            }
        },
    }
}

fn read_header_dates(finished: bool, priority: u8, s: &str, base: Date) -> (r: (
    Option<Date>,
    Option<Date>,
    String,
))
    requires
        base.wf(),
    ensures
        r.0 == header_dates(finished, priority, s@, base).finish_date,
        r.1 == header_dates(finished, priority, s@, base).create_date,
        r.2@ == header_dates(finished, priority, s@, base).subject,
        header_dates(finished, priority, s@, base).finished == finished,
        header_dates(finished, priority, s@, base).priority == priority,
        opt_date_wf(r.0),
        opt_date_wf(r.1),
{
    reveal(header_dates);
    match read_leading_date(s, base) {
        None => (None, None, String::from_str(s)),
        Some(d1) => {
            let (_w, rest) = split_first_word(s);
            if !finished {
                return (None, Some(d1), String::from_str(rest));
            }
            match read_leading_date(rest, base) {
                None => (Some(d1), None, String::from_str(rest)),
                Some(d2) => {
                    let (_w2, rest2) = split_first_word(rest);
                    (Some(d1), Some(d2), String::from_str(rest2))
                },
            }
        },
    }
}

/// The header of a line (see [`header_of`]).
fn read_header(s: &str, base: Date) -> (r: (bool, u8, Option<Date>, Option<Date>, String))
    requires
        base.wf(),
    ensures
        r.0 == header_of(s@, base).finished,
        r.1 == header_of(s@, base).priority,
        r.2 == header_of(s@, base).finish_date,
        r.3 == header_of(s@, base).create_date,
        r.4@ == header_of(s@, base).subject,
        opt_date_wf(r.2),
        opt_date_wf(r.3),
{
    reveal(header_of);
    reveal(header_after_mark);
    let mut finished = false;
    let mut rest = s;
    proof {
        reveal_strlit("x ");
    }
    if has_prefix(s, "x ") {
        assert(s@[0] == s@.subrange(0, 2)[0] && s@[1] == s@.subrange(0, 2)[1]);
        finished = true;
        rest = s.substring_char(2, s.unicode_len());
    } else {
        assert(!(s@.len() >= 2 && s@[0] == 'x' && s@[1] == ' ')) by {
            if s@.len() >= 2 && s@[0] == 'x' && s@[1] == ' ' {
                assert(s@.subrange(0, 2) =~= "x "@);
            }
        }
    }
    if rest.unicode_len() > 0 && rest.get_char(0) == '(' {
        let (w, after) = split_first_word(rest);
        match parse_priority(w) {
            Err(_) => (finished, NO_PRIORITY, None, None, String::from_str(rest)),
            Ok(p) => {
                let (f, c, subj) = read_header_dates(finished, p, after, base);
                (finished, p, f, c, subj)
            },
        }
    } else {
        let (f, c, subj) = read_header_dates(finished, NO_PRIORITY, rest, base);
        (finished, NO_PRIORITY, f, c, subj)
    }
}

impl Task {
    /// Recomputes the projects, contexts, hashtags and tags from the subject.
    pub(crate) fn sync_tokens(&mut self)
        ensures
            final(self)@ == old(self)@.with_subject(old(self)@.subject),
            final(self)@.synced(),
            unique_names(final(self)@.tags),
    {
        self.projects = extract_projects(self.subject.as_str());
        self.contexts = extract_contexts(self.subject.as_str());
        self.hashtags = extract_hashtags(self.subject.as_str());
        self.tags = extract_tags(self.subject.as_str());
    }

    /// Writes date tag `name` as `YYYY-MM-DD` when its value reads as a date
    /// in another form (see [`canonical_date_tag`]).
    fn canonicalize_date_tag(&mut self, name: &str, base: Date)
        requires
            base.wf(),
            old(self)@.synced(),
            unique_names(old(self)@.tags),
        ensures
            final(self)@ == old(self)@.with_subject(
                canonical_date_tag(old(self)@.subject, name@, base),
            ),
            final(self)@.synced(),
            unique_names(final(self)@.tags),
    {
        reveal(canonical_date_tag);
        match tag_index(&self.tags, name) {
            None => {
                proof {
                    lemma_lookup_absent(self@.tags, name@);
                }
                self.sync_tokens();
            },
            Some(i) => {
                proof {
                    lemma_lookup_at(self@.tags, name@, i as int);
                }
                let value = self.tags[i].1.clone();
                match parse_date(value.as_str(), base) {
                    Err(_) => {
                        self.sync_tokens();
                    },
                    Ok(d) => {
                        let text = format_date(d);
                        if !crate::text::same_text(value.as_str(), text.as_str()) {
                            let old_tag = make_tag_text(name, value.as_str());
                            let new_tag = make_tag_text(name, text.as_str());
                            replace_word(&mut self.subject, old_tag.as_str(), new_tag.as_str());
                        }
                        self.sync_tokens();
                    },
                }
            },
        }
    }

    /// Reads a task from a line of a todo.txt file; relative dates in the
    /// `due`, `t` and `until` tags count from `base` and are rewritten as
    /// `YYYY-MM-DD` in the subject.
    #[verifier::rlimit(40)]
    pub fn parse(s: &str, base: Date) -> (r: Task)
        requires
            base.wf(),
        ensures
            r@ == parse_spec(s@, base),
            r.wf(),
            r@.synced(),
    {
        reveal(parse_spec);
        let (finished, priority, finish_date, create_date, subject) = read_header(s, base);
        let mut task = Task {
            subject,
            priority,
            finished,
            contexts: Vec::new(),
            projects: Vec::new(),
            tags: Vec::new(),
            create_date,
            finish_date,
            due_date: None,
            threshold_date: None,
            recurrence: None,
            hashtags: Vec::new(),
        };
        task.sync_tokens();
        task.recurrence = task.tag_recurrence_now();
        task.due_date = task.tag_date_now(DUE_NAME, base);
        task.threshold_date = task.tag_date_now(THR_NAME, base);
        proof {
            reveal_strlit("due");
            reveal_strlit("t");
            reveal_strlit("until");
            assert(DUE_NAME@ =~= due_name());
            assert(THR_NAME@ =~= thr_name());
            assert(UNTIL_NAME@ =~= until_name());
        }
        task.canonicalize_date_tag(THR_NAME, base);
        task.canonicalize_date_tag(DUE_NAME, base);
        task.canonicalize_date_tag(UNTIL_NAME, base);
        task
    }

    /// The date in tag `name`, read against `base`.
    pub(crate) fn tag_date_now(&self, name: &str, base: Date) -> (r: Option<Date>)
        requires
            base.wf(),
            unique_names(self@.tags),
        ensures
            r == tag_date(self@.tags, name@, base),
            opt_date_wf(r),
    {
        match tag_index(&self.tags, name) {
            None => {
                proof {
                    lemma_lookup_absent(self@.tags, name@);
                }
                None
            },
            Some(i) => {
                proof {
                    lemma_lookup_at(self@.tags, name@, i as int);
                }
                match parse_date(self.tags[i].1.as_str(), base) {
                    Ok(d) => Some(d),
                    Err(_) => None,
                }
            },
        }
    }
    /// The recurrence in the `rec` tag.
    fn tag_recurrence_now(&self) -> (r: Option<Recurrence>)
        requires
            unique_names(self@.tags),
        ensures
            r == tag_recurrence(self@.tags),
            r matches Some(x) ==> x.count >= 1,
    {
        proof {
            reveal_strlit("rec");
            assert(REC_NAME@ =~= rec_name());
        }
        match tag_index(&self.tags, REC_NAME) {
            None => {
                proof {
                    lemma_lookup_absent(self@.tags, rec_name());
                }
                None
            },
            Some(i) => {
                proof {
                    lemma_lookup_at(self@.tags, rec_name(), i as int);
                }
                match Recurrence::parse(self.tags[i].1.as_str()) {
                    Ok(r) => Some(r),
                    Err(_) => None,
                }
            },
        }
    }
}

impl Task {
    /// The todo.txt line of the task (see [`format_spec`]).
    pub fn to_string(&self) -> (r: String)
        requires
            opt_date_wf(self.finish_date),
            opt_date_wf(self.create_date),
        ensures
            r@ == format_spec(self@),
    {
        proof {
            reveal_strlit("x ");
            reveal_strlit(" ");
        }
        let mut out = String::new();
        let ghost a = if self.finished {
            seq!['x', ' ']
        } else {
            Seq::<char>::empty()
        };
        if self.finished {
            out.append("x ");
        }
        assert(out@ =~= a);
        let ghost b = if self.priority < NO_PRIORITY {
            priority_text(self.priority as int) + seq![' ']
        } else {
            Seq::<char>::empty()
        };
        if self.priority < NO_PRIORITY {
            let p = format_priority(self.priority);
            out.append(p.as_str());
            out.append(" ");
        }
        assert(out@ =~= a + b);
        if let Some(d) = self.finish_date {
            let t = format_date(d);
            out.append(t.as_str());
            out.append(" ");
        }
        assert(out@ =~= a + b + opt_date_text(self.finish_date));
        if let Some(d) = self.create_date {
            let t = format_date(d);
            out.append(t.as_str());
            out.append(" ");
        }
        assert(out@ =~= a + b + opt_date_text(self.finish_date) + opt_date_text(self.create_date));
        out.append(self.subject.as_str());
        assert(out@ =~= format_spec(self@));
        out
    }

    /// Sets the field that tag `tag` mirrors from `value` (see [`field_update`]).
    fn update_field(&mut self, tag: &str, value: &str, today: Date)
        requires
            old(self).wf(),
            today.wf(),
        ensures
            final(self)@ == field_update(old(self)@, tag@, value@, today),
            final(self).wf(),
    {
        proof {
            reveal_strlit("due");
            reveal_strlit("t");
            reveal_strlit("rec");
            assert(DUE_NAME@ =~= due_name());
            assert(THR_NAME@ =~= thr_name());
            assert(REC_NAME@ =~= rec_name());
        }
        if crate::text::same_text(tag, DUE_NAME) {
            self.due_date = if value.unicode_len() == 0 {
                None
            } else {
                match parse_date(value, today) {
                    Ok(d) => Some(d),
                    Err(_) => None,
                }
            };
        } else if crate::text::same_text(tag, THR_NAME) {
            self.threshold_date = if value.unicode_len() == 0 {
                None
            } else {
                match parse_date(value, today) {
                    Ok(d) => Some(d),
                    Err(_) => None,
                }
            };
        } else if crate::text::same_text(tag, REC_NAME) {
            self.recurrence = match Recurrence::parse(value) {
                Ok(r) => Some(r),
                Err(_) => None,
            };
        }
    }

    /// Removes tag `tag` (see [`tag_removed`]); true when the task changed.
    pub fn remove_tag(&mut self, tag: &str) -> (r: bool)
        requires
            old(self).wf(),
            old(self)@.synced(),
        ensures
            (final(self)@, r) == tag_removed(old(self)@, tag@),
            final(self).wf(),
            final(self)@.synced(),
    {
        proof {
            reveal_strlit("due");
            reveal_strlit("t");
            reveal_strlit("rec");
            assert(DUE_NAME@ =~= due_name());
            assert(THR_NAME@ =~= thr_name());
            assert(REC_NAME@ =~= rec_name());
        }
        match tag_index(&self.tags, tag) {
            None => {
                proof {
                    lemma_lookup_absent(self@.tags, tag@);
                }
                false
            },
            Some(i) => {
                proof {
                    lemma_lookup_at(self@.tags, tag@, i as int);
                }
                let v = self.tags[i].1.clone();
                let word = make_tag_text(tag, v.as_str());
                replace_word(&mut self.subject, word.as_str(), "");
                proof {
                    reveal_strlit("");
                }
                self.sync_tokens();
                if crate::text::same_text(tag, DUE_NAME) {
                    self.due_date = None;
                } else if crate::text::same_text(tag, THR_NAME) {
                    self.threshold_date = None;
                } else if crate::text::same_text(tag, REC_NAME) {
                    self.recurrence = None;
                }
                assert(self@ == tag_removed(old(self)@, tag@).0) by {
                    assert(""@ =~= Seq::<char>::empty());
                }
                true
            },
        }
    }

    /// Sets tag `tag` to `value` in the subject and in the fields it mirrors
    /// (see [`tag_update_spec`]); an empty value removes the tag. Dates in
    /// relative form count from `today`. True when the task changed.
    pub fn update_tag_with_value(&mut self, tag: &str, value: &str, today: Date) -> (r: bool)
        requires
            old(self).wf(),
            old(self)@.synced(),
            today.wf(),
        ensures
            (final(self)@, r) == tag_update_spec(old(self)@, tag@, value@, today),
            final(self).wf(),
            final(self)@.synced(),
    {
        if value.unicode_len() == 0 {
            return self.remove_tag(tag);
        }
        match tag_index(&self.tags, tag) {
            None => {
                proof {
                    lemma_lookup_absent(self@.tags, tag@);
                    reveal_strlit(" ");
                }
                let word = make_tag_text(tag, value);
                self.subject.append(" ");
                self.subject.append(word.as_str());
                assert(self.subject@ =~= old(self)@.subject + seq![' '] + tag_text(tag@, value@));
                self.sync_tokens();
                self.update_field(tag, value, today);
                true
            },
            Some(i) => {
                proof {
                    lemma_lookup_at(self@.tags, tag@, i as int);
                }
                let v = self.tags[i].1.clone();
                if crate::text::same_text(v.as_str(), value) {
                    return false;
                }
                let old_word = make_tag_text(tag, v.as_str());
                let new_word = make_tag_text(tag, value);
                replace_word(&mut self.subject, old_word.as_str(), new_word.as_str());
                self.sync_tokens();
                self.update_field(tag, value, today);
                true
            },
        }
    }

    /// Sets a tag written `name:value` (see [`Task::update_tag_with_value`]);
    /// `name:` removes it. False for a text without a name before a colon.
    pub fn update_tag(&mut self, new_tag: &str, today: Date) -> (r: bool)
        requires
            old(self).wf(),
            old(self)@.synced(),
            today.wf(),
        ensures
            match first_index(new_tag@, ':') {
                Some(p) => if p > 0 {
                    (final(self)@, r) == tag_update_spec(
                        old(self)@,
                        new_tag@.subrange(0, p),
                        new_tag@.subrange(p + 1, new_tag@.len() as int),
                        today,
                    )
                } else {
                    !r && final(self)@ == old(self)@
                },
                None => !r && final(self)@ == old(self)@,
            },
            final(self).wf(),
            final(self)@.synced(),
    {
        match find_char(new_tag, ':') {
            None => false,
            Some(pos) => {
                if pos == 0 {
                    return false;
                }
                let n = new_tag.unicode_len();
                let name = new_tag.substring_char(0, pos);
                let value = new_tag.substring_char(pos + 1, n);
                self.update_tag_with_value(name, value, today)
            },
        }
    }

    /// Drops every timer tag word (`tmr:…` and `spent:…`) from a copy of a
    /// task, so that a new task does not inherit them (see [`cleanup_spec`]).
    pub fn cleanup_cloned_task(&mut self)
        requires
            old(self).wf(),
            old(self)@.synced(),
        ensures
            final(self)@ == cleanup_spec(old(self)@),
            forall|i: int|
                0 <= i < timer_free(words(old(self)@.subject)).len() ==> !is_timer_word(
                    #[trigger] timer_free(words(old(self)@.subject))[i],
                ),
            final(self).wf(),
            final(self)@.synced(),
    {
        proof {
            reveal_strlit("tmr");
            reveal_strlit("spent");
            assert("tmr"@ =~= seq!['t', 'm', 'r']);
            assert("spent"@ =~= seq!['s', 'p', 'e', 'n', 't']);
        }
        let ws = crate::text::split_words(self.subject.as_str());
        let mut out: Vec<String> = Vec::new();
        let mut i: usize = 0;
        assert(views(out@) =~= timer_free(views(ws@).subrange(0, 0)));
        while i < ws.len()
            invariant
                i <= ws@.len(),
                views(ws@) == words(old(self)@.subject),
                views(out@) == timer_free(views(ws@).subrange(0, i as int)),
                "tmr"@ =~= seq!['t', 'm', 'r'],
                "spent"@ =~= seq!['s', 'p', 'e', 'n', 't'],
            decreases ws@.len() - i,
        {
            assert(views(ws@).subrange(0, i + 1).drop_last() =~= views(ws@).subrange(0, i as int));
            assert(views(ws@).subrange(0, i + 1).last() == ws@[i as int]@);
            let timer_word = match crate::todotxt::utils::word_tag(ws[i].as_str()) {
                Some((n, _)) => crate::text::same_text(n.as_str(), "tmr") || crate::text::same_text(n.as_str(), "spent"),
                None => false,
            };
            if !timer_word {
                let ghost before = out@;
                out.push(ws[i].clone());
                assert(views(out@) =~= views(before).push(ws@[i as int]@));
            }
            i = i + 1;
        }
        assert(views(ws@).subrange(0, ws@.len() as int) =~= views(ws@));
        proof {
            lemma_timer_free_clean(words(old(self)@.subject));
        }
        self.subject = crate::text::join_words(&out);
        self.sync_tokens();
    }

    /// Marks the task completed on `date` (see [`complete_spec`]). A task
    /// that is already finished is left as it is and false is returned.
    pub fn complete_with_config(&mut self, date: Date, cmpl_conf: CompletionConfig) -> (r: bool)
        requires
            old(self).wf(),
            old(self)@.synced(),
            date.wf(),
        ensures
            (final(self)@, r) == complete_spec(old(self)@, date, cmpl_conf),
            old(self).finished ==> !r && final(self)@ == old(self)@,
            final(self).wf(),
            final(self)@.synced(),
    {
        if self.finished {
            return false;
        }
        let p = self.priority;
        self.finished = true;
        if self.create_date.is_some() || cmpl_conf.completion_date_mode == CompletionDateMode::AlwaysSet {
            self.finish_date = Some(date);
        }
        proof {
            reveal_strlit(" ");
            reveal_strlit("pri");
            assert(PRI_NAME@ =~= pri_name());
        }
        match cmpl_conf.completion_mode {
            CompletionMode::RemovePriority => {
                self.priority = NO_PRIORITY;
            },
            CompletionMode::PriorityToTag => {
                if p < NO_PRIORITY {
                    let letter = crate::text::char_string(crate::todotxt::utils::priority_to_char(p));
                    let word = make_tag_text(PRI_NAME, letter.as_str());
                    self.subject.append(" ");
                    self.subject.append(word.as_str());
                    assert(self.subject@ =~= old(self)@.subject + seq![' '] + tag_text(
                        pri_name(),
                        seq![priority_letter(p as int)],
                    ));
                    self.sync_tokens();
                    self.priority = NO_PRIORITY;
                }
            },
            CompletionMode::MovePriority => {
                if p < NO_PRIORITY && self.finish_date.is_some() {
                    let mut text = format_priority(p);
                    text.append(" ");
                    text.append(self.subject.as_str());
                    assert(text@ =~= priority_text(p as int) + seq![' '] + old(self)@.subject);
                    self.subject = text;
                    self.sync_tokens();
                    self.priority = NO_PRIORITY;
                }
            },
            CompletionMode::JustMark => {},
        }
        true
    }

    /// Marks the task completed on `date`, setting the completion date only
    /// when the task has a creation date.
    pub fn complete(&mut self, date: Date, cmpl: CompletionMode) -> (r: bool)
        requires
            old(self).wf(),
            old(self)@.synced(),
            date.wf(),
        ensures
            (final(self)@, r) == complete_spec(
                old(self)@,
                date,
                CompletionConfig {
                    completion_mode: cmpl,
                    completion_date_mode: CompletionDateMode::WhenCreationDateIsPresent,
                },
            ),
            final(self).wf(),
            final(self)@.synced(),
    {
        self.complete_with_config(
            date,
            CompletionConfig {
                completion_mode: cmpl,
                completion_date_mode: CompletionDateMode::WhenCreationDateIsPresent,
            },
        )
    }

    /// Undoes the completion (see [`uncomplete_spec`]). A task that is not
    /// finished is left as it is and false is returned.
    pub fn uncomplete(&mut self, cmpl: CompletionMode) -> (r: bool)
        requires
            old(self).wf(),
            old(self)@.synced(),
        ensures
            (final(self)@, r) == uncomplete_spec(old(self)@, cmpl),
            !old(self).finished ==> !r && final(self)@ == old(self)@,
            final(self).wf(),
            final(self)@.synced(),
    {
        if !self.finished {
            return false;
        }
        proof {
            reveal_strlit("pri");
            reveal_strlit("");
            assert(PRI_NAME@ =~= pri_name());
            assert(""@ =~= Seq::<char>::empty());
        }
        match cmpl {
            CompletionMode::PriorityToTag => {
                let pri = match tag_index(&self.tags, PRI_NAME) {
                    None => {
                        proof {
                            lemma_lookup_absent(self@.tags, pri_name());
                        }
                        NO_PRIORITY
                    },
                    Some(i) => {
                        proof {
                            lemma_lookup_at(self@.tags, pri_name(), i as int);
                        }
                        crate::todotxt::utils::str_to_priority(self.tags[i].1.as_str())
                    },
                };
                if pri != NO_PRIORITY {
                    self.priority = pri;
                    let letter = crate::text::char_string(crate::todotxt::utils::priority_to_char(pri));
                    let word = make_tag_text(PRI_NAME, letter.as_str());
                    replace_word(&mut self.subject, word.as_str(), "");
                    self.sync_tokens();
                }
            },
            CompletionMode::MovePriority => {
                let (w, rest) = split_first_word(self.subject.as_str());
                match parse_priority(w) {
                    Ok(p) => {
                        let rest = String::from_str(rest);
                        self.priority = p;
                        self.subject = rest;
                        self.sync_tokens();
                    },
                    Err(_) => {},
                }
            },
            _ => {},
        }
        self.finished = false;
        self.finish_date = None;
        true
    }

    /// The `until` date of a recurring task, read against `today`.
    pub fn rec_until(&self, today: Date) -> (r: Option<Date>)
        requires
            self.wf(),
            today.wf(),
        ensures
            r == tag_date(self@.tags, until_name(), today),
            opt_date_wf(r),
    {
        proof {
            reveal_strlit("until");
            assert(UNTIL_NAME@ =~= until_name());
        }
        self.tag_date_now(UNTIL_NAME, today)
    }

    /// Replaces item `from` with `to` (see [`replace_item_spec`]).
    pub(crate) fn replace_item(&mut self, from: &str, to: &str, sigil: char)
        requires
            old(self).wf(),
            old(self)@.synced(),
        ensures
            final(self)@ == replace_item_spec(old(self)@, from@, to@, sigil),
            final(self).wf(),
            final(self)@.synced(),
    {
        let o = strip_leading(from, sigil);
        let n = strip_leading(to, sigil);
        let sig = crate::text::char_string(sigil);
        if o.unicode_len() == 0 {
            if n.unicode_len() > 0 {
                let present = crate::todotxt::utils::contains_string(
                    &crate::todotxt::utils::extract_sigil_items(self.subject.as_str(), sigil),
                    n,
                );
                if !present {
                    proof {
                        reveal_strlit(" ");
                    }
                    self.subject.append(" ");
                    self.subject.append(sig.as_str());
                    self.subject.append(n);
                    assert(self.subject@ =~= old(self)@.subject + seq![' ', sigil] + n@);
                    self.sync_tokens();
                }
            }
            return;
        }
        let word = String::from_str(sig.as_str()).concat(o);
        let target = if n.unicode_len() == 0 {
            String::new()
        } else {
            String::from_str(sig.as_str()).concat(n)
        };
        assert(word@ =~= seq![sigil] + o@);
        assert(n@.len() > 0 ==> target@ =~= seq![sigil] + n@);
        crate::todotxt::utils::replace_word_folded(&mut self.subject, word.as_str(), target.as_str());
        self.sync_tokens();
    }

    /// Replaces project `from` with `to`: an empty `from` adds `to`, an
    /// empty `to` removes `from`; a leading `+` is optional.
    pub fn replace_project(&mut self, from: &str, to: &str)
        requires
            old(self).wf(),
            old(self)@.synced(),
        ensures
            final(self)@ == replace_item_spec(old(self)@, from@, to@, '+'),
            final(self).wf(),
            final(self)@.synced(),
    {
        self.replace_item(from, to, '+')
    }

    /// Replaces context `from` with `to`: an empty `from` adds `to`, an
    /// empty `to` removes `from`; a leading `@` is optional.
    pub fn replace_context(&mut self, from: &str, to: &str)
        requires
            old(self).wf(),
            old(self)@.synced(),
        ensures
            final(self)@ == replace_item_spec(old(self)@, from@, to@, '@'),
            final(self).wf(),
            final(self)@.synced(),
    {
        self.replace_item(from, to, '@')
    }
}

/// `s` without one leading `c`.
fn strip_leading(s: &str, c: char) -> (r: &str)
    ensures
        r@ == strip_sigil(s@, c),
{
    let n = s.unicode_len();
    if n > 0 && s.get_char(0) == c {
        s.substring_char(1, n)
    } else {
        s
    }
}

/// The first recurrence step after `start` that is not before `today`
/// (see [`advance_spec`]).
fn advance(r: Recurrence, start: Date, today: Date) -> (res: Option<Date>)
    requires
        r.count >= 1,
        start.wf(),
        today.wf(),
    ensures
        res == advance_spec(r, start, today),
        res matches Some(x) ==> x.wf() && first_step_from(r, start, today, x),
{
    let mut nd = match r.next_date(start) {
        Some(x) => x,
        None => {
            proof {
                lemma_no_step(r, start, today, 1);
            }
            return None;
        },
    };
    let ghost mut k: nat = 1;
    assert(steps(r, start, 1) == Some(nd)) by {
        reveal_with_fuel(steps, 2);
    }
    while nd.is_before(&today)
        invariant
            r.count >= 1,
            start.wf(),
            today.wf(),
            nd.wf(),
            k >= 1,
            steps(r, start, k) == Some(nd),
            steps_before(r, start, today, k),
        decreases if nd.num() < today.num() {
            today.num() - nd.num()
        } else {
            0
        },
    {
        proof {
            crate::todotxt::utils::lemma_next_date_later(r, nd);
        }
        match r.next_date(nd) {
            Some(x) => {
                proof {
                    assert(steps_before(r, start, today, k + 1)) by {
                        assert forall|j: nat| 1 <= j < k + 1 implies (#[trigger] steps(r, start, j) matches Some(y)
                            && y.num() < today.num()) by {
                            if j == k {
                            } else {
                                assert(steps_before(r, start, today, k));
                            }
                        }
                    }
                    k = k + 1;
                }
                nd = x;
            },
            None => {
                proof {
                    assert(steps(r, start, k + 1) is None);
                    assert(steps_before(r, start, today, k + 1)) by {
                        assert forall|j: nat| 1 <= j < k + 1 implies (#[trigger] steps(r, start, j) matches Some(y)
                            && y.num() < today.num()) by {
                            if j == k {
                            } else {
                                assert(steps_before(r, start, today, k));
                            }
                        }
                    }
                    lemma_no_step(r, start, today, k + 1);
                }
                return None;
            },
        }
    }
    proof {
        assert(first_step_from(r, start, today, nd));
        let c = choose|x: Date| first_step_from(r, start, today, x);
        lemma_first_step_unique(r, start, today, c, nd);
    }
    Some(nd)
}

/// When step `k` does not exist and all steps before it are before
/// `today`, no step reaches `today`.
proof fn lemma_no_step(r: Recurrence, start: Date, today: Date, k: nat)
    requires
        k >= 1,
        steps(r, start, k) is None,
        steps_before(r, start, today, k),
    ensures
        advance_spec(r, start, today) is None,
{
    if exists|x: Date| first_step_from(r, start, today, x) {
        let x = choose|x: Date| first_step_from(r, start, today, x);
        let kx = choose|j: nat|
            j >= 1 && steps(r, start, j) == Some(x) && x.num() >= today.num() && steps_before(r, start, today, j);
        if kx < k {
            assert(steps(r, start, kx) matches Some(z) && z.num() < today.num());
        } else if kx > k {
            assert(steps(r, start, k) matches Some(z) && z.num() < today.num());
        }
    }
}

impl Task {
    /// Moves the due and threshold dates of a recurring task forward (see
    /// [`next_dates_spec`]): a strict recurrence counts from the old date, a
    /// lax one from `today`, and either keeps stepping while the date is
    /// before `today`. False, with no change, for a finished task and for
    /// one without a recurrence or without both dates.
    pub fn next_dates(&mut self, today: Date) -> (r: bool)
        requires
            old(self).wf(),
            old(self)@.synced(),
            today.wf(),
        ensures
            (final(self)@, r) == next_dates_spec(old(self)@, today),
            final(self).wf(),
            final(self)@.synced(),
    {
        reveal(next_dates_spec);
        if self.finished {
            return false;
        }
        if self.due_date.is_none() && self.threshold_date.is_none() {
            return false;
        }
        let rec = match self.recurrence {
            None => return false,
            Some(r) => r,
        };
        proof {
            reveal_strlit("due");
            reveal_strlit("t");
            assert(DUE_NAME@ =~= due_name());
            assert(THR_NAME@ =~= thr_name());
        }
        if let Some(due) = self.due_date {
            let start = if rec.strict {
                due
            } else {
                today
            };
            let new_due = match advance(rec, start, today) {
                Some(x) => x,
                None => due,
            };
            let old_text = format_date(due);
            let new_text = format_date(new_due);
            let old_word = make_tag_text(DUE_NAME, old_text.as_str());
            let new_word = make_tag_text(DUE_NAME, new_text.as_str());
            replace_word(&mut self.subject, old_word.as_str(), new_word.as_str());
            self.due_date = Some(new_due);
        }
        let ghost s1 = self.subject@;
        if let Some(thr) = self.threshold_date {
            let start = if rec.strict {
                thr
            } else {
                today
            };
            let new_thr = match advance(rec, start, today) {
                Some(x) => x,
                None => thr,
            };
            let old_text = format_date(thr);
            let new_text = format_date(new_thr);
            let old_word = make_tag_text(THR_NAME, old_text.as_str());
            let new_word = make_tag_text(THR_NAME, new_text.as_str());
            replace_word(&mut self.subject, old_word.as_str(), new_word.as_str());
            self.threshold_date = Some(new_thr);
        }
        self.sync_tokens();
        true
    }
}

/// A strict recurrence moves the due date one step on from the old due
/// date when that step is not before `today`; a lax one moves it one step on
/// from `today`. The `due:` word of the subject is rewritten to the new
/// date (for a task without a threshold date, that is the only change to
/// the subject), and the tags follow the subject.
pub proof fn law_strict_vs_drifting(t: TaskView, today: Date)
    requires
        today.wf(),
        !t.finished,
        t.recurrence matches Some(r) && r.count >= 1,
        t.due_date matches Some(d) && d.wf(),
    ensures
        ({
            let r = t.recurrence->0;
            let d = t.due_date->0;
            let moved = next_dates_spec(t, today).0.due_date;
            &&& r.strict ==> (crate::todotxt::utils::next_date_spec(r, d) matches Some(x) ==> (x.num()
                >= today.num() ==> moved == Some(x)))
            &&& !r.strict ==> (crate::todotxt::utils::next_date_spec(r, today) matches Some(x) ==> moved
                == Some(x) && x.num() > today.num())
            &&& moved is Some
            &&& t.threshold_date is None ==> next_dates_spec(t, today).0.subject == replaced_words(
                t.subject,
                tag_text(due_name(), date_text(d)),
                tag_text(due_name(), date_text(moved->0)),
            )
            &&& next_dates_spec(t, today).0.synced()
        }),
{
    reveal(next_dates_spec);
    let r = t.recurrence->0;
    let d = t.due_date->0;
    let start = if r.strict {
        d
    } else {
        today
    };
    crate::todotxt::utils::lemma_next_date_later(r, start);
    assert(steps(r, start, 1) == crate::todotxt::utils::next_date_spec(r, start)) by {
        reveal_with_fuel(steps, 2);
    }
    if let Some(x) = crate::todotxt::utils::next_date_spec(r, start) {
        if x.num() >= today.num() {
            assert(steps_before(r, start, today, 1));
            assert(first_step_from(r, start, today, x));
            let c = choose|y: Date| first_step_from(r, start, today, y);
            lemma_first_step_unique(r, start, today, c, x);
        }
    }
}

// --------------------------------------------------------------- round trip

/// The word `w` then a space: the first word of `w + " " + rest` is `w`.
proof fn lemma_first_word_of(w: Seq<char>, rest: Seq<char>)
    requires
        !w.contains(' '),
    ensures
        first_word(w + seq![' '] + rest) == w,
        after_first_word(w + seq![' '] + rest) == rest,
{
    let s = w + seq![' '] + rest;
    assert(s[w.len() as int] == ' ');
    assert(forall|j: int| 0 <= j < w.len() ==> s[j] == w[j]);
    let i = choose|i: int| 0 <= i < s.len() && s[i] == ' ' && forall|j: int| 0 <= j < i ==> s[j] != ' ';
    assert(i == w.len()) by {
        if i < w.len() {
            assert(w[i] == ' ');
            assert(w.contains(' '));
        } else if i > w.len() {
            assert(s[w.len() as int] == ' ');
        }
    }
    assert(s.subrange(0, w.len() as int) =~= w);
    assert(s.subrange(w.len() as int + 1, s.len() as int) =~= rest);
}

proof fn lemma_date_text_shape(d: Date)
    requires
        d.wf(),
    ensures
        !date_text(d).contains(' '),
        date_text(d).contains('-'),
        date_text(d).len() == 10,
        is_digit(date_text(d)[0]),
{
    let y = d.year as int;
    let m = d.month as int;
    let dd = d.day as int;
    assert(0 <= y / 1000 < 10 && 0 <= (y / 100) % 10 < 10 && 0 <= (y / 10) % 10 < 10 && 0 <= y % 10 < 10)
        by (nonlinear_arith)
        requires
            1 <= y <= 9999,
    ;
    assert(0 <= m / 10 < 10 && 0 <= m % 10 < 10) by (nonlinear_arith)
        requires
            1 <= m <= 12,
    ;
    assert(0 <= dd / 10 < 10 && 0 <= dd % 10 < 10) by (nonlinear_arith)
        requires
            1 <= dd <= 31,
    ;
    crate::todotxt::utils::lemma_digit_char(y / 1000);
    crate::todotxt::utils::lemma_digit_char((y / 100) % 10);
    crate::todotxt::utils::lemma_digit_char((y / 10) % 10);
    crate::todotxt::utils::lemma_digit_char(y % 10);
    crate::todotxt::utils::lemma_digit_char(m / 10);
    crate::todotxt::utils::lemma_digit_char(m % 10);
    crate::todotxt::utils::lemma_digit_char(dd / 10);
    crate::todotxt::utils::lemma_digit_char(dd % 10);
    let t = date_text(d);
    assert(t[4] == '-');
    assert forall|i: int| 0 <= i < t.len() implies t[i] != ' ' by {
        if i == 4 || i == 7 {
        } else if i < 4 {
        } else {
        }
    }
}

/// A written date then a space opens with that date.
proof fn lemma_leading_date_of(d: Date, rest: Seq<char>, base: Date)
    requires
        d.wf(),
    ensures
        leading_date(date_text(d) + seq![' '] + rest, base) == Some(d),
        after_first_word(date_text(d) + seq![' '] + rest) == rest,
{
    lemma_date_text_shape(d);
    lemma_first_word_of(date_text(d), rest);
    crate::todotxt::utils::law_date_text_round_trip(d, base);
    let s = date_text(d) + seq![' '] + rest;
    assert(s[0] == date_text(d)[0]);
}

/// The subject of a task is not read as part of the header that its line
/// puts before it: it does not open with `x ` when nothing comes before
/// it, with a priority when no priority or date does, or with a date
/// where the line could still hold one.
pub open spec fn header_unambiguous(t: TaskView, base: Date) -> bool {
    let s = t.subject;
    &&& t.priority <= NO_PRIORITY
    &&& !t.finished ==> t.finish_date is None
    &&& t.finished && t.finish_date is None ==> t.create_date is None
    &&& (!t.finished && t.priority == NO_PRIORITY && t.create_date is None) ==> !(s.len() >= 2 && s[0] == 'x'
        && s[1] == ' ')
    &&& (t.priority == NO_PRIORITY && t.finish_date is None && t.create_date is None) ==> !(s.len() > 0 && s[0]
        == '(' && priority_value(first_word(s)) is Some)
    &&& (t.create_date is None) ==> leading_date(s, base) is None
}

/// The dates of a written task, and its subject, read back.
proof fn lemma_dates_round_trip(t: TaskView, base: Date)
    requires
        opt_date_wf(t.finish_date),
        opt_date_wf(t.create_date),
        header_unambiguous(t, base),
    ensures
        header_dates(
            t.finished,
            t.priority,
            opt_date_text(t.finish_date) + (opt_date_text(t.create_date) + t.subject),
            base,
        ) == (Header {
            finished: t.finished,
            priority: t.priority,
            finish_date: t.finish_date,
            create_date: t.create_date,
            subject: t.subject,
        }),
{
    reveal(header_dates);
    let f = opt_date_text(t.finish_date);
    let c = opt_date_text(t.create_date);
    let s = t.subject;
    let dates = f + (c + s);
    let cs = c + s;
    if let Some(cd) = t.create_date {
        assert(cs =~= date_text(cd) + seq![' '] + s);
        lemma_leading_date_of(cd, s, base);
    } else {
        assert(cs =~= s);
    }
    if let Some(fd) = t.finish_date {
        assert(dates =~= date_text(fd) + seq![' '] + cs);
        lemma_leading_date_of(fd, cs, base);
    } else {
        assert(dates =~= cs);
    }
}

/// What follows the completion mark of a written task with a priority
/// reads back.
proof fn lemma_after_mark_priority(t: TaskView, base: Date)
    requires
        opt_date_wf(t.finish_date),
        opt_date_wf(t.create_date),
        header_unambiguous(t, base),
        t.priority < NO_PRIORITY,
    ensures
        header_after_mark(
            t.finished,
            priority_text(t.priority as int) + seq![' '] + (opt_date_text(t.finish_date) + (opt_date_text(
                t.create_date,
            ) + t.subject)),
            base,
        ) == (Header {
            finished: t.finished,
            priority: t.priority,
            finish_date: t.finish_date,
            create_date: t.create_date,
            subject: t.subject,
        }),
{
    reveal(header_after_mark);
    lemma_dates_round_trip(t, base);
    let dates = opt_date_text(t.finish_date) + (opt_date_text(t.create_date) + t.subject);
    let pt = priority_text(t.priority as int);
    assert(pt[1] == priority_letter(t.priority as int));
    assert(!pt.contains(' ')) by {
        assert(pt[0] != ' ' && pt[1] != ' ' && pt[2] != ' ');
    }
    lemma_first_word_of(pt, dates);
    assert(priority_value(pt) == Some(t.priority as int));
    let after_x = pt + seq![' '] + dates;
    assert(after_x[0] == '(');
}

/// What follows the completion mark of a written task without a priority
/// reads back.
proof fn lemma_after_mark_plain(t: TaskView, base: Date)
    requires
        opt_date_wf(t.finish_date),
        opt_date_wf(t.create_date),
        header_unambiguous(t, base),
        t.priority == NO_PRIORITY,
    ensures
        header_after_mark(
            t.finished,
            opt_date_text(t.finish_date) + (opt_date_text(t.create_date) + t.subject),
            base,
        ) == (Header {
            finished: t.finished,
            priority: t.priority,
            finish_date: t.finish_date,
            create_date: t.create_date,
            subject: t.subject,
        }),
        t.create_date is Some ==> (opt_date_text(t.finish_date) + (opt_date_text(t.create_date)
            + t.subject))[0] != 'x',
{
    reveal(header_after_mark);
    lemma_dates_round_trip(t, base);
    let f = opt_date_text(t.finish_date);
    let c = opt_date_text(t.create_date);
    let dates = f + (c + t.subject);
    if let Some(fd) = t.finish_date {
        lemma_date_text_shape(fd);
        assert(dates[0] == date_text(fd)[0]);
    } else if let Some(cd) = t.create_date {
        lemma_date_text_shape(cd);
        assert(f =~= Seq::<char>::empty());
        assert(dates[0] == date_text(cd)[0]);
    } else {
        assert(dates =~= t.subject);
    }
}

/// The header of a written task reads back as the task's own header.
#[verifier::rlimit(100)]
pub proof fn lemma_header_round_trip(t: TaskView, base: Date)
    requires
        opt_date_wf(t.finish_date),
        opt_date_wf(t.create_date),
        header_unambiguous(t, base),
    ensures
        header_of(format_spec(t), base) == (Header {
            finished: t.finished,
            priority: t.priority,
            finish_date: t.finish_date,
            create_date: t.create_date,
            subject: t.subject,
        }),
{
    reveal(header_of);
    let x = if t.finished {
        seq!['x', ' ']
    } else {
        Seq::<char>::empty()
    };
    let after_x = (if t.priority < NO_PRIORITY {
        priority_text(t.priority as int) + seq![' ']
    } else {
        Seq::<char>::empty()
    }) + (opt_date_text(t.finish_date) + (opt_date_text(t.create_date) + t.subject));
    let line = format_spec(t);
    assert(line =~= x + after_x);
    let dates = opt_date_text(t.finish_date) + (opt_date_text(t.create_date) + t.subject);
    if t.priority < NO_PRIORITY {
        lemma_after_mark_priority(t, base);
        assert(after_x =~= priority_text(t.priority as int) + seq![' '] + dates);
        assert(after_x[0] == '(');
    } else {
        lemma_after_mark_plain(t, base);
        assert(after_x =~= dates);
    }
    if t.finished {
        assert(line[0] == 'x' && line[1] == ' ');
        assert(line.subrange(2, line.len() as int) =~= after_x);
    } else {
        assert(line =~= after_x);
    }
}

/// A task whose header is unambiguous (see [`header_unambiguous`]), whose
/// tokens are those of its subject, whose date tags `t`, `due` and `until`
/// are already written as `YYYY-MM-DD`, and whose due date, threshold date
/// and recurrence are those its tags give, reads back from its own line as
/// the same task.
pub proof fn law_round_trip(t: TaskView, base: Date)
    requires
        opt_date_wf(t.finish_date),
        opt_date_wf(t.create_date),
        header_unambiguous(t, base),
        t.synced(),
        canonical_date_tag(t.subject, thr_name(), base) == t.subject,
        canonical_date_tag(t.subject, due_name(), base) == t.subject,
        canonical_date_tag(t.subject, until_name(), base) == t.subject,
        t.due_date == tag_date(t.tags, due_name(), base),
        t.threshold_date == tag_date(t.tags, thr_name(), base),
        t.recurrence == tag_recurrence(t.tags),
    ensures
        parse_spec(format_spec(t), base) == t,
{
    reveal(parse_spec);
    lemma_header_round_trip(t, base);
}

pub const DUE_NAME: &'static str = "due";

pub const THR_NAME: &'static str = "t";

pub const REC_NAME: &'static str = "rec";

pub const UNTIL_NAME: &'static str = "until";

pub const PRI_NAME: &'static str = "pri";

/// The word `name:value`.
pub fn make_tag_text(name: &str, value: &str) -> (r: String)
    ensures
        r@ == tag_text(name@, value@),
{
    proof {
        reveal_strlit(":");
    }
    let r = String::from_str(name).concat(":").concat(value);
    assert(r@ =~= tag_text(name@, value@));
    r
}

} // verus!
