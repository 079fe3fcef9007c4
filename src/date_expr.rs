//! Date expressions such as `due+1w-1d`, `soon` or `thr+1m`: an anchor
//! date, then durations added or taken away.
use vstd::prelude::*;
use crate::date::{date_of_num, days_in_month, weekday_of_num, Date, MAX_YEAR};
use crate::text::{is_digit, lower_of, lowercase, unsigned_within};
use crate::todotxt::task::{tag_date, Task, TaskView};
use crate::todotxt::utils::{date_value, month_shift, parse_date, workdays_after};

verus! {

/// The largest count a duration may have.
pub const MAX_COUNT: u64 = 99999;

pub open spec fn is_sign(c: char) -> bool {
    c == '+' || c == '-'
}

/// The number of leading characters of `s` before a sign.
pub open spec fn sign_free(s: Seq<char>) -> int
    decreases s.len(),
{
    if s.len() == 0 || is_sign(s[0]) {
        0
    } else {
        1 + sign_free(s.drop_first())
    }
}

/// `s` opens with the shape of a `YYYY-MM-DD` date.
pub open spec fn iso_shape(s: Seq<char>) -> bool {
    &&& s.len() >= 10
    &&& is_digit(s[0]) && is_digit(s[1]) && is_digit(s[2]) && is_digit(s[3])
    &&& s[4] == '-'
    &&& is_digit(s[5]) && is_digit(s[6])
    &&& s[7] == '-'
    &&& is_digit(s[8]) && is_digit(s[9])
}

/// True when `s` opens with the shape of a `YYYY-MM-DD` date.
fn iso_prefix(s: &str) -> (r: bool)
    ensures
        r == iso_shape(s@),
{
    let n = s.unicode_len();
    if n < 10 {
        return false;
    }
    let mut iso = s.get_char(4) == '-' && s.get_char(7) == '-';
    let mut k: usize = 0;
    while k < 10
        invariant
            n == s@.len() >= 10,
            k <= 10,
            iso == (s@[4] == '-' && s@[7] == '-' && forall|j: int|
                0 <= j < k && j != 4 && j != 7 ==> is_digit(#[trigger] s@[j])),
        decreases 10 - k,
    {
        if k != 4 && k != 7 {
            let c = s.get_char(k);
            if c < '0' || c > '9' {
                iso = false;
            }
        }
        k = k + 1;
    }
    if iso {
        assert(is_digit(s@[0]) && is_digit(s@[1]) && is_digit(s@[2]) && is_digit(s@[3]));
        assert(is_digit(s@[5]) && is_digit(s@[6]) && is_digit(s@[8]) && is_digit(s@[9]));
    } else {
        assert(!iso_shape(s@)) by {
            if iso_shape(s@) {
                assert forall|j: int| 0 <= j < 10 && j != 4 && j != 7 implies is_digit(#[trigger] s@[j]) by {
                    if j == 0 || j == 1 || j == 2 || j == 3 || j == 5 || j == 6 || j == 8 || j == 9 {
                    }
                }
            }
        }
    }
    iso
}

/// The length of the term that opens `s`: a date, or the text up to the next sign.
pub open spec fn term_len(s: Seq<char>) -> int {
    if iso_shape(s) {
        10
    } else {
        sign_free(s)
    }
}

/// The date a term names, when the term is an anchor: `Some(None)` for an
/// anchor without a value (a task date that is not set, a bad date).
/// `thr` is the threshold date, or, for a task without one, the date in
/// its `thr` tag.
pub open spec fn anchor_value(term: Seq<char>, t: TaskView, today: Date, soon: int) -> Option<Option<Date>> {
    if term == seq!['d', 'u', 'e'] {
        Some(t.due_date)
    } else if term == seq!['t', 'h', 'r'] {
        Some(
            match t.threshold_date {
                Some(d) => Some(d),
                None => tag_date(t.tags, seq!['t', 'h', 'r'], today),
            },
        )
    } else if term == seq!['c', 'r', 'e', 'a', 't', 'e', 'd'] {
        Some(t.create_date)
    } else if term == seq!['f', 'i', 'n', 'i', 's', 'h', 'e', 'd'] {
        Some(t.finish_date)
    } else if term == seq!['t', 'o', 'd', 'a', 'y'] {
        Some(Some(today))
    } else if term == seq!['t', 'o', 'm', 'o', 'r', 'r', 'o', 'w'] {
        Some(date_of_num(today.num() + 1))
    } else if term == seq!['y', 'e', 's', 't', 'e', 'r', 'd', 'a', 'y'] {
        Some(date_of_num(today.num() - 1))
    } else if term == seq!['s', 'o', 'o', 'n'] {
        Some(date_of_num(today.num() + soon))
    } else if iso_shape(term) {
        Some(date_value(term, today))
    } else {
        None
    }
}

/// A duration `N<unit>`: a count up to [`MAX_COUNT`] and one of `d`, `w`,
/// `m`, `y`, `b`.
pub open spec fn duration_of(term: Seq<char>) -> Option<(int, char)> {
    if term.len() >= 2 && (term.last() == 'd' || term.last() == 'w' || term.last() == 'm' || term.last()
        == 'y' || term.last() == 'b') {
        match unsigned_within(term.drop_last(), MAX_COUNT as int) {
            Some(n) => Some((n, term.last())),
            None => None,
        }
    } else {
        None
    }
}

/// The workday before day number `x`: Saturday and Sunday are skipped.
pub open spec fn prev_workday(x: int) -> int {
    if weekday_of_num(x - 1) == 6 {
        x - 3
    } else if weekday_of_num(x - 1) == 5 {
        x - 2
    } else {
        x - 1
    }
}

/// The day number `k` workdays before day number `x`.
pub open spec fn workdays_before(x: int, k: nat) -> int
    decreases k,
{
    if k == 0 {
        x
    } else {
        prev_workday(workdays_before(x, (k - 1) as nat))
    }
}

/// `d` moved by `n` units (back for a negative `n`).
pub open spec fn shift(d: Date, n: int, unit: char) -> Option<Date> {
    if unit == 'd' {
        date_of_num(d.num() + n)
    } else if unit == 'w' {
        date_of_num(d.num() + 7 * n)
    } else if unit == 'm' {
        month_shift(d, n)
    } else if unit == 'y' {
        month_shift(d, 12 * n)
    } else if n >= 0 {
        date_of_num(workdays_after(d.num(), n as nat))
    } else {
        date_of_num(workdays_before(d.num(), (-n) as nat))
    }
}

/// The value of `acc` after the signed durations of `s`.
pub open spec fn eval_rest(s: Seq<char>, acc: Date) -> Option<Date>
    decreases s.len(),
{
    if s.len() == 0 {
        Some(acc)
    } else if !is_sign(s[0]) {
        None
    } else {
        let rest = s.drop_first();
        let n = term_len(rest);
        if n < 0 || n > rest.len() {
            None
        } else {
        match duration_of(rest.subrange(0, n)) {
            None => None,
            Some(du) => match shift(acc, if s[0] == '+' { du.0 } else { -du.0 }, du.1) {
                None => None,
                Some(d) => eval_rest(rest.subrange(n, rest.len() as int), d),
            },
        }
        }
    }
}

/// The date an expression names for task `t`: the first term is an anchor
/// (or a duration from `today`, or nothing before a sign, meaning `today`);
/// durations follow, each after `+` or `-`. Letters in any case.
pub open spec fn expr_value(e: Seq<char>, t: TaskView, today: Date, soon: int) -> Option<Date> {
    lowered_expr_value(lower_of(e), t, today, soon)
}

/// The date an expression already in lowercase names for task `t` (see
/// [`expr_value`]).
pub open spec fn lowered_expr_value(s: Seq<char>, t: TaskView, today: Date, soon: int) -> Option<Date> {
    if s.len() == 0 {
        None
    } else if is_sign(s[0]) {
        eval_rest(s, today)
    } else {
        let n = term_len(s);
        let term = s.subrange(0, n);
        let rest = s.subrange(n, s.len() as int);
        match anchor_value(term, t, today, soon) {
            Some(Some(d)) => eval_rest(rest, d),
            Some(None) => None,
            None => match duration_of(term) {
                Some(du) => match shift(today, du.0, du.1) {
                    Some(d) => eval_rest(rest, d),
                    None => None,
                },
                None => None,
            },
        }
    }
}

proof fn lemma_sign_free_bounds(s: Seq<char>)
    ensures
        0 <= sign_free(s) <= s.len(),
        sign_free(s) < s.len() ==> is_sign(s[sign_free(s)]),
        forall|i: int| 0 <= i < sign_free(s) ==> !is_sign(#[trigger] s[i]),
    decreases s.len(),
{
    if s.len() > 0 && !is_sign(s[0]) {
        lemma_sign_free_bounds(s.drop_first());
        assert forall|i: int| 0 <= i < sign_free(s) implies !is_sign(#[trigger] s[i]) by {
            if i > 0 {
                assert(s[i] == s.drop_first()[i - 1]);
            }
        }
    }
}

/// The length of the term that opens `s` (see [`term_len`]).
fn term_length(s: &str) -> (r: usize)
    ensures
        r == term_len(s@),
        r <= s@.len(),
{
    let n = s.unicode_len();
    proof {
        lemma_sign_free_bounds(s@);
    }
    if iso_prefix(s) {
        return 10;
    }
    let mut i: usize = 0;
    while i < n && s.get_char(i) != '+' && s.get_char(i) != '-'
        invariant
            n == s@.len(),
            i <= sign_free(s@),
            0 <= sign_free(s@) <= s@.len(),
            sign_free(s@) < s@.len() ==> is_sign(s@[sign_free(s@)]),
            forall|j: int| 0 <= j < sign_free(s@) ==> !is_sign(#[trigger] s@[j]),
        decreases n - i,
    {
        i = i + 1;
    }
    i
}

/// A duration term (see [`duration_of`]).
fn read_duration(term: &str) -> (r: Option<(u64, char)>)
    ensures
        r matches Some(p) ==> duration_of(term@) == Some((p.0 as int, p.1)),
        r is None ==> duration_of(term@) is None,
        r matches Some(p) ==> p.0 <= MAX_COUNT,
{
    let n = term.unicode_len();
    if n < 2 {
        return None;
    }
    let u = term.get_char(n - 1);
    if !(u == 'd' || u == 'w' || u == 'm' || u == 'y' || u == 'b') {
        return None;
    }
    let head = term.substring_char(0, n - 1);
    assert(head@ =~= term@.drop_last());
    match crate::text::parse_unsigned(head, MAX_COUNT) {
        Some(k) => Some((k, u)),
        None => None,
    }
}

/// `base` moved by `months` months (see [`month_shift`]).
fn shift_months_signed(base: Date, months: i64) -> (r: Option<Date>)
    requires
        base.wf(),
        -(MAX_COUNT as i64) * 12 <= months <= MAX_COUNT as i64 * 12,
    ensures
        r == month_shift(base, months as int),
        r matches Some(d) ==> d.wf(),
{
    let m0: i64 = base.month as i64 - 1 + months;
    let q: i64 = if m0 >= 0 {
        m0 / 12
    } else {
        -((-m0 + 11) / 12)
    };
    let rm: i64 = m0 - 12 * q;
    assert(0 <= rm < 12 && m0 == 12 * q + rm) by (nonlinear_arith)
        requires
            q == (if m0 >= 0 {
                m0 / 12
            } else {
                -((-m0 + 11) / 12)
            }),
            rm == m0 - 12 * q,
    ;
    assert(q == m0 / 12 && rm == m0 % 12) by (nonlinear_arith)
        requires
            0 <= rm < 12,
            m0 == 12 * q + rm,
    ;
    let y: i64 = base.year as i64 + q;
    let m: u32 = (rm + 1) as u32;
    if y < 1 || y > MAX_YEAR as i64 {
        return None;
    }
    let last = base.day == days_in_month(base.year, base.month);
    let mx = days_in_month(y as i32, m);
    let d = if (last && mx != base.day) || mx < base.day {
        mx
    } else {
        base.day
    };
    Some(Date { year: y as i32, month: m, day: d })
}

/// Day number `x` moved by `k` workdays, forward or back.
fn shift_workdays(base: Date, k: u64, forward: bool) -> (r: Option<Date>)
    requires
        base.wf(),
        k <= MAX_COUNT,
    ensures
        forward ==> r == date_of_num(workdays_after(base.num(), k as nat)),
        !forward ==> r == date_of_num(workdays_before(base.num(), k as nat)),
{
    let start = base.day_number() as i64;
    proof {
        crate::date::lemma_num_in_range(base);
    }
    let mut x: i64 = start;
    let mut i: u64 = 0;
    while i < k
        invariant
            base.wf(),
            start == base.num(),
            1 <= start <= i32::MAX,
            i <= k <= MAX_COUNT,
            forward ==> x == workdays_after(base.num(), i as nat),
            !forward ==> x == workdays_before(base.num(), i as nat),
            start - 3 * i <= x <= start + 3 * i,
            forward ==> x >= start,
        decreases k - i,
    {
        if forward {
            let wd = x % 7;
            assert(wd == weekday_of_num(x + 1));
            if wd == 5 {
                x = x + 3;
            } else if wd == 6 {
                x = x + 2;
            } else {
                x = x + 1;
            }
        } else {
            let wd = if x >= 2 {
                (x - 2) % 7
            } else {
                (x - 2 + 7 * 100000) % 7
            };
            assert(wd == weekday_of_num(x - 1)) by {
                assert((x - 2 + 7 * 100000) % 7 == (x - 2) % 7) by (nonlinear_arith);
            }
            if wd == 6 {
                x = x - 3;
            } else if wd == 5 {
                x = x - 2;
            } else {
                x = x - 1;
            }
        }
        i = i + 1;
    }
    base.add_days(x - start)
}

/// `d` moved by `k` units, back when `back` is set (see [`shift`]).
fn shift_date(d: Date, k: u64, unit: char, back: bool) -> (r: Option<Date>)
    requires
        d.wf(),
        k <= MAX_COUNT,
    ensures
        r == shift(d, if back { -k } else { k as int }, unit),
        r matches Some(x) ==> x.wf(),
{
    let n: i64 = if back {
        -(k as i64)
    } else {
        k as i64
    };
    let r = if unit == 'd' {
        d.add_days(n)
    } else if unit == 'w' {
        d.add_days(7 * n)
    } else if unit == 'm' {
        shift_months_signed(d, n)
    } else if unit == 'y' {
        shift_months_signed(d, 12 * n)
    } else {
        shift_workdays(d, k, !back)
    };
    r
}

/// The date a task anchor names (see [`anchor_value`]).
fn read_anchor(term: &str, task: &Task, today: Date, soon_days: u8) -> (r: Option<Option<Date>>)
    requires
        task.wf(),
        today.wf(),
    ensures
        r == anchor_value(term@, task@, today, soon_days as int),
        r matches Some(Some(d)) ==> d.wf(),
{
    proof {
        reveal_strlit("due");
        reveal_strlit("thr");
        reveal_strlit("created");
        reveal_strlit("finished");
        reveal_strlit("today");
        reveal_strlit("tomorrow");
        reveal_strlit("yesterday");
        reveal_strlit("soon");
        assert("due"@ =~= seq!['d', 'u', 'e']);
        assert("thr"@ =~= seq!['t', 'h', 'r']);
        assert("created"@ =~= seq!['c', 'r', 'e', 'a', 't', 'e', 'd']);
        assert("finished"@ =~= seq!['f', 'i', 'n', 'i', 's', 'h', 'e', 'd']);
        assert("today"@ =~= seq!['t', 'o', 'd', 'a', 'y']);
        assert("tomorrow"@ =~= seq!['t', 'o', 'm', 'o', 'r', 'r', 'o', 'w']);
        assert("yesterday"@ =~= seq!['y', 'e', 's', 't', 'e', 'r', 'd', 'a', 'y']);
        assert("soon"@ =~= seq!['s', 'o', 'o', 'n']);
    }
    let same = |x: &str| -> (r: bool)
        ensures
            r == (term@ == x@),
        { crate::text::same_text(term, x) };
    if same("due") {
        Some(task.due_date)
    } else if same("thr") {
        match task.threshold_date {
            Some(d) => Some(Some(d)),
            None => Some(task.tag_date_now("thr", today)),
        }
    } else if same("created") {
        Some(task.create_date)
    } else if same("finished") {
        Some(task.finish_date)
    } else if same("today") {
        proof {
            crate::date::lemma_date_of_num(today);
        }
        Some(Some(today))
    } else if same("tomorrow") {
        Some(today.add_days(1))
    } else if same("yesterday") {
        Some(today.add_days(-1))
    } else if same("soon") {
        Some(today.add_days(soon_days as i64))
    } else if iso_prefix(term) {
        match parse_date(term, today) {
            Ok(d) => Some(Some(d)),
            Err(_) => Some(None),
        }
    } else {
        None
    }
}

/// Applies the signed durations of `s` to `start` (see [`eval_rest`]).
fn apply_durations(s: &str, start: Date) -> (r: Result<Date, String>)
    requires
        start.wf(),
    ensures
        r matches Ok(d) ==> eval_rest(s@, start) == Some(d) && d.wf(),
        r is Err ==> eval_rest(s@, start) is None,
{
    let ghost goal = eval_rest(s@, start);
    let mut rest: &str = s;
    let mut acc = start;
    while rest.unicode_len() > 0
        invariant
            acc.wf(),
            eval_rest(rest@, acc) == goal,
            goal == eval_rest(s@, start),
        decreases rest@.len(),
    {
        let n = rest.unicode_len();
        let c = rest.get_char(0);
        if c != '+' && c != '-' {
            return Err(String::from_str("a duration must follow + or -"));
        }
        let tail = rest.substring_char(1, n);
        assert(tail@ =~= rest@.drop_first());
        let k = term_length(tail);
        let term = tail.substring_char(0, k);
        match read_duration(term) {
            None => {
                return Err(String::from_str("invalid duration in a date expression"));
            },
            Some((cnt, unit)) => match shift_date(acc, cnt, unit, c == '-') {
                None => {
                    return Err(String::from_str("the date falls outside years 1 to 9999"));
                },
                Some(d) => {
                    acc = d;
                    rest = tail.substring_char(k, tail.unicode_len());
                },
            },
        }
    }
    assert(rest@.len() == 0);
    Ok(acc)
}

/// Evaluates a date expression for `task` (see [`expr_value`]): `due`,
/// `thr`, `created`, `finished`, `today`, `tomorrow`, `yesterday`, `soon`
/// (`soon_days` after `base`) or a `YYYY-MM-DD` date, then durations such
/// as `+1w` or `-2d`; `base` is today.
pub fn calculate_expr(base: Date, expr: &str, task: &Task, soon_days: u8) -> (r: Result<Date, String>)
    requires
        task.wf(),
        base.wf(),
    ensures
        r matches Ok(d) ==> expr_value(expr@, task@, base, soon_days as int) == Some(d) && d.wf(),
        r is Err <==> expr_value(expr@, task@, base, soon_days as int) is None,
{
    let low = lowercase(expr);
    calculate_lowered_expr(base, low.as_str(), task, soon_days)
}

/// Evaluates a date expression already in lowercase for `task` (see
/// [`lowered_expr_value`]); `base` is today.
pub fn calculate_lowered_expr(base: Date, s: &str, task: &Task, soon_days: u8) -> (r: Result<Date, String>)
    requires
        task.wf(),
        base.wf(),
    ensures
        r matches Ok(d) ==> lowered_expr_value(s@, task@, base, soon_days as int) == Some(d) && d.wf(),
        r is Err <==> lowered_expr_value(s@, task@, base, soon_days as int) is None,
{
    let n = s.unicode_len();
    if n == 0 {
        return Err(String::from_str("empty date expression"));
    }
    let c = s.get_char(0);
    if c == '+' || c == '-' {
        return apply_durations(s, base);
    }
    let k = term_length(s);
    let term = s.substring_char(0, k);
    let rest = s.substring_char(k, n);
    match read_anchor(term, task, base, soon_days) {
        Some(Some(d)) => apply_durations(rest, d),
        Some(None) => Err(String::from_str("the date of the expression is not set")),
        None => match read_duration(term) {
            Some((cnt, unit)) => match shift_date(base, cnt, unit, false) {
                Some(d) => apply_durations(rest, d),
                None => Err(String::from_str("the date falls outside years 1 to 9999")),
            },
            None => Err(String::from_str("unknown term in a date expression")),
        },
    }
}

} // verus!
