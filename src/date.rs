//! Calendar dates of the proleptic Gregorian calendar.
//!
//! A [`Date`] keeps its year, month and day as plain integers; the day
//! number of a date (January 1 of year 1 is day 1) is what chrono computes,
//! and all day arithmetic goes through it.
use vstd::prelude::*;

verus! {

/// The last year a [`Date`] can hold.
pub const MAX_YEAR: i32 = 9999;

/// A bound on day offsets, far beyond the span of years a [`Date`] holds.
const DAY_SPAN: i64 = 1099511627776;

/// A calendar day: year 1 through 9999, month 1 through 12, and a day that
/// exists in that month.
#[derive(Clone, Copy, Debug, PartialEq, Eq, Structural)]
pub struct Date {
    pub year: i32,
    pub month: u32,
    pub day: u32,
}

pub open spec fn is_leap(y: int) -> bool {
    y % 4 == 0 && (y % 100 != 0 || y % 400 == 0)
}

/// The number of days in month `m` of year `y` (30 for a month number out of 1..=12).
pub open spec fn month_len(y: int, m: int) -> int {
    if m == 2 {
        if is_leap(y) {
            29
        } else {
            28
        }
    } else if m == 1 || m == 3 || m == 5 || m == 7 || m == 8 || m == 10 || m == 12 {
        31
    } else {
        30
    }
}

pub open spec fn year_len(y: int) -> int {
    if is_leap(y) {
        366
    } else {
        365
    }
}

/// The number of days in the years before year `y`, counting from year 1.
pub open spec fn days_before_year(y: int) -> int
    decreases y,
{
    if y <= 1 {
        0
    } else {
        days_before_year(y - 1) + year_len(y - 1)
    }
}

/// The number of days in year `y` before month `m`.
pub open spec fn days_before_month(y: int, m: int) -> int
    decreases m,
{
    if m <= 1 {
        0
    } else {
        days_before_month(y, m - 1) + month_len(y, m - 1)
    }
}

pub open spec fn max_date() -> Date {
    Date { year: MAX_YEAR, month: 12, day: 31 }
}

/// The day number of the last day a [`Date`] can hold.
pub open spec fn max_day_number() -> int {
    max_date().num()
}

impl Date {
    pub open spec fn wf(self) -> bool {
        &&& 1 <= self.year <= MAX_YEAR
        &&& 1 <= self.month <= 12
        &&& 1 <= self.day <= month_len(self.year as int, self.month as int)
    }

    /// The day number: January 1 of year 1 is day 1.
    pub open spec fn num(self) -> int {
        days_before_year(self.year as int) + days_before_month(self.year as int, self.month as int)
            + self.day
    }

    /// `self` comes before `other` in the calendar, field by field.
    pub open spec fn lex_before(self, other: Date) -> bool {
        ||| self.year < other.year
        ||| (self.year == other.year && self.month < other.month)
        ||| (self.year == other.year && self.month == other.month && self.day < other.day)
    }
}

pub proof fn lemma_days_before_year_grows(y1: int, y2: int)
    requires
        1 <= y1 < y2,
    ensures
        days_before_year(y2) >= days_before_year(y1) + year_len(y1),
    decreases y2,
{
    if y2 > y1 + 1 {
        lemma_days_before_year_grows(y1, y2 - 1);
    }
}

pub proof fn lemma_days_before_month_grows(y: int, m1: int, m2: int)
    requires
        1 <= m1 < m2,
    ensures
        days_before_month(y, m2) >= days_before_month(y, m1) + month_len(y, m1),
    decreases m2,
{
    if m2 > m1 + 1 {
        lemma_days_before_month_grows(y, m1, m2 - 1);
    }
}

pub proof fn lemma_year_is_its_months(y: int)
    ensures
        days_before_month(y, 13) == year_len(y),
{
    reveal_with_fuel(days_before_month, 13);
}

pub proof fn lemma_days_nonneg(y: int, m: int)
    ensures
        days_before_year(y) >= 0,
        days_before_month(y, m) >= 0,
    decreases y,
{
    if y > 1 {
        lemma_days_nonneg(y - 1, m);
    }
    if m > 1 {
        lemma_days_before_month_grows(y, 1, m);
    }
}

/// Calendar order and day-number order agree.
pub proof fn lemma_order(a: Date, b: Date)
    requires
        a.wf(),
        b.wf(),
    ensures
        a.lex_before(b) ==> a.num() < b.num(),
        a.num() >= 1,
        a == b <==> a.num() == b.num(),
{
    let ay = a.year as int;
    let by = b.year as int;
    let am = a.month as int;
    let bm = b.month as int;
    lemma_days_nonneg(ay, am);
    if a.lex_before(b) {
        if ay < by {
            lemma_days_before_year_grows(ay, by);
            lemma_year_is_its_months(ay);
            lemma_days_before_month_grows(ay, am, 13);
            lemma_days_nonneg(by, bm);
        } else if am < bm {
            lemma_days_before_month_grows(ay, am, bm);
        }
    }
    if b.lex_before(a) {
        if by < ay {
            lemma_days_before_year_grows(by, ay);
            lemma_year_is_its_months(by);
            lemma_days_before_month_grows(by, bm, 13);
            lemma_days_nonneg(ay, am);
        } else if bm < am {
            lemma_days_before_month_grows(by, bm, am);
        }
    }
}

/// Two dates with the same day number are the same date.
pub proof fn lemma_num_injective(a: Date, b: Date)
    requires
        a.wf(),
        b.wf(),
        a.num() == b.num(),
    ensures
        a == b,
{
    lemma_order(a, b);
}

/// Every date lies within day numbers `1..=max_day_number()`.
pub proof fn lemma_num_in_range(a: Date)
    requires
        a.wf(),
    ensures
        1 <= a.num() <= max_day_number(),
{
    lemma_order(a, max_date());
    lemma_order(max_date(), a);
}

/// The date with day number `n`, when there is one.
pub open spec fn date_of_num(n: int) -> Option<Date> {
    if exists|d: Date| d.wf() && d.num() == n {
        Some(choose|d: Date| d.wf() && d.num() == n)
    } else {
        None
    }
}

pub proof fn lemma_date_of_num(d: Date)
    requires
        d.wf(),
    ensures
        date_of_num(d.num()) == Some(d),
{
    let c = choose|x: Date| x.wf() && x.num() == d.num();
    lemma_num_injective(c, d);
}

/// Relies on chrono: `NaiveDate::from_ymd_opt` accepts every valid date of
/// years 1..=9999, and `Datelike::num_days_from_ce` numbers days with
/// January 1 of year 1 as day 1.
#[verifier::external_body]
fn chrono_day_number(d: &Date) -> (r: Option<i32>)
    requires
        d.wf(),
    ensures
        r is Some,
        r->0 == d.num(),
{
    chrono::NaiveDate::from_ymd_opt(d.year, d.month, d.day).map(|x| chrono::Datelike::num_days_from_ce(&x))
}

/// Relies on chrono: `NaiveDate::from_num_days_from_ce_opt` gives the date
/// with day number `n` (January 1 of year 1 being day 1); its year, month
/// and day come from `Datelike`.
#[verifier::external_body]
fn chrono_date_of_number(n: i32) -> (r: Option<Date>)
    requires
        1 <= n <= max_day_number(),
    ensures
        r is Some,
        r->0.wf(),
        r->0.num() == n,
{
    chrono::NaiveDate::from_num_days_from_ce_opt(n).map(
        |x| Date { year: chrono::Datelike::year(&x), month: chrono::Datelike::month(&x), day: chrono::Datelike::day(&x) },
    )
}

/// The number of days in month `m` of year `y`; 30 for a month number out of 1..=12.
pub fn days_in_month(y: i32, m: u32) -> (r: u32)
    ensures
        r == month_len(y as int, m as int),
{
    match m {
        1 | 3 | 5 | 7 | 8 | 10 | 12 => 31,
        2 => {
            if y % 4 == 0 {
                if y % 100 == 0 && y % 400 != 0 {
                    28
                } else {
                    29
                }
            } else {
                28
            }
        },
        _ => 30,
    }
}

impl Date {
    /// The date `year-month-day`, if it is a valid date of years 1..=9999.
    pub fn from_ymd_opt(year: i32, month: u32, day: u32) -> (r: Option<Date>)
        ensures
            r matches Some(d) ==> d == (Date { year, month, day }),
            r is Some <==> (Date { year, month, day }).wf(),
    {
        if year < 1 || year > MAX_YEAR || month < 1 || month > 12 || day < 1 {
            return None;
        }
        if day > days_in_month(year, month) {
            return None;
        }
        Some(Date { year, month, day })
    }

    /// `self` is strictly earlier than `other`.
    pub fn is_before(&self, other: &Date) -> (r: bool)
        requires
            self.wf(),
            other.wf(),
        ensures
            r == (self.num() < other.num()),
    {
        proof {
            lemma_order(*self, *other);
            lemma_order(*other, *self);
        }
        self.year < other.year || (self.year == other.year && (self.month < other.month || (
        self.month == other.month && self.day < other.day)))
    }

    /// The day number of this date (January 1 of year 1 is day 1).
    pub fn day_number(&self) -> (r: i32)
        requires
            self.wf(),
        ensures
            r == self.num(),
    {
        chrono_day_number(self).unwrap()
    }

    /// The date `k` days after this one (before it, for a negative `k`);
    /// `None` when that day falls outside years 1..=9999.
    pub fn add_days(&self, k: i64) -> (r: Option<Date>)
        requires
            self.wf(),
        ensures
            r == date_of_num(self.num() + k),
            r matches Some(d) ==> d.wf() && d.num() == self.num() + k,
            r is None <==> !(1 <= self.num() + k <= max_day_number()),
    {
        let n = self.day_number();
        let top = Date { year: MAX_YEAR, month: 12, day: 31 }.day_number();
        proof {
            lemma_num_in_range(*self);
        }
        if k < -DAY_SPAN || k > DAY_SPAN {
            proof {
                if exists|d: Date| d.wf() && d.num() == self.num() + k {
                    let d = choose|d: Date| d.wf() && d.num() == self.num() + k;
                    lemma_num_in_range(d);
                }
            }
            return None;
        }
        let t: i64 = n as i64 + k;
        if t < 1 || t > top as i64 {
            proof {
                if exists|d: Date| d.wf() && d.num() == self.num() + k {
                    let d = choose|d: Date| d.wf() && d.num() == self.num() + k;
                    lemma_num_in_range(d);
                }
            }
            return None;
        }
        let r = chrono_date_of_number(t as i32);
        proof {
            lemma_date_of_num(r->0);
        }
        r
    }

    /// The day of the week: 0 for Monday through 6 for Sunday.
    pub fn weekday(&self) -> (r: u32)
        requires
            self.wf(),
        ensures
            r == weekday_of_num(self.num()),
    {
        let n = self.day_number();
        proof {
            lemma_num_in_range(*self);
        }
        ((n - 1) % 7) as u32
    }
}

/// The day of the week of day number `n`: 0 for Monday through 6 for
/// Sunday (January 1 of year 1 was a Monday).
pub open spec fn weekday_of_num(n: int) -> int {
    (n - 1) % 7
}

} // verus!
