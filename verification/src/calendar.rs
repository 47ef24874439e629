//! Calendar dates of the proleptic Gregorian calendar, as `chrono` represents
//! them, with the date arithmetic that due dates and week boundaries use.

use chrono::Datelike;
use chrono::Days;
use chrono::NaiveDate;
use vstd::prelude::*;

use crate::text::{decimal, digit_char};
use vstd::arithmetic::div_mod::{lemma_fundamental_div_mod, lemma_fundamental_div_mod_converse, lemma_mod_bound};

verus! {

/// The first year that a date may have (`chrono`'s `NaiveDate::MIN` lies in it).
pub open spec fn min_year() -> int {
    -262143
}

/// The last year that a date may have (`chrono`'s `NaiveDate::MAX` lies in it).
pub open spec fn max_year() -> int {
    262142
}

pub open spec fn is_leap_year(y: int) -> bool {
    (y % 4 == 0 && y % 100 != 0) || y % 400 == 0
}

pub open spec fn days_in_month(y: int, m: int) -> int {
    if m == 2 {
        if is_leap_year(y) {
            29
        } else {
            28
        }
    } else if m == 4 || m == 6 || m == 9 || m == 11 {
        30
    } else {
        31
    }
}

/// A year, month and day that together name a date that exists.
pub open spec fn is_valid_ymd(t: (int, int, int)) -> bool {
    &&& min_year() <= t.0 <= max_year()
    &&& 1 <= t.1 <= 12
    &&& 1 <= t.2 <= days_in_month(t.0, t.1)
}

/// The calendar day after `t`, ignoring the range of years.
pub open spec fn next_day(t: (int, int, int)) -> (int, int, int) {
    if t.2 < days_in_month(t.0, t.1) {
        (t.0, t.1, t.2 + 1)
    } else if t.1 < 12 {
        (t.0, t.1 + 1, 1)
    } else {
        (t.0 + 1, 1, 1)
    }
}

/// The calendar day before `t`, ignoring the range of years.
pub open spec fn prev_day(t: (int, int, int)) -> (int, int, int) {
    if t.2 > 1 {
        (t.0, t.1, t.2 - 1)
    } else if t.1 > 1 {
        (t.0, t.1 - 1, days_in_month(t.0, t.1 - 1))
    } else {
        (t.0 - 1, 12, 31)
    }
}

/// The date `n` days before `t`, or `None` where that date lies before the first
/// representable year.
pub open spec fn days_back(t: (int, int, int), n: nat) -> Option<(int, int, int)>
    decreases n,
{
    if n == 0 {
        Some(t)
    } else {
        match days_back(t, (n - 1) as nat) {
            Some(p) => {
                let q = prev_day(p);
                if q.0 >= min_year() {
                    Some(q)
                } else {
                    None
                }
            },
            None => None,
        }
    }
}

/// Days in the years before year `y`, counted from 1 January of year 1.
pub open spec fn days_before_year(y: int) -> int {
    let p = y - 1;
    365 * p + p / 4 - p / 100 + p / 400
}

/// Days in the months of year `y` before month `m`.
pub open spec fn days_before_month(y: int, m: int) -> int {
    let common: int = if m == 1 {
        0
    } else if m == 2 {
        31
    } else if m == 3 {
        59
    } else if m == 4 {
        90
    } else if m == 5 {
        120
    } else if m == 6 {
        151
    } else if m == 7 {
        181
    } else if m == 8 {
        212
    } else if m == 9 {
        243
    } else if m == 10 {
        273
    } else if m == 11 {
        304
    } else {
        334
    };
    if m > 2 && is_leap_year(y) {
        common + 1
    } else {
        common
    }
}

/// The day's number counted from 1 January of year 1, which is day 1 (a Monday).
pub open spec fn day_number(t: (int, int, int)) -> int {
    days_before_year(t.0) + days_before_month(t.0, t.1) + t.2
}

/// Days since the last Monday: 0 for a Monday, 6 for a Sunday.
pub open spec fn days_from_monday(t: (int, int, int)) -> int {
    (day_number(t) - 1) % 7
}

/// `s` with `'0'`s in front until it is at least `width` characters long.
pub open spec fn zero_pad(s: Seq<char>, width: nat) -> Seq<char> {
    if s.len() >= width {
        s
    } else {
        Seq::new((width - s.len()) as nat, |i: int| '0') + s
    }
}

pub open spec fn two_digits(v: int) -> Seq<char> {
    seq![digit_char(v / 10), digit_char(v % 10)]
}

/// The year as ISO 8601 writes it: four digits for years 0 to 9999, and
/// a sign with at least four digits otherwise.
pub open spec fn year_text(y: int) -> Seq<char> {
    if 0 <= y <= 9999 {
        zero_pad(decimal(y as nat), 4)
    } else if y > 0 {
        seq!['+'] + zero_pad(decimal(y as nat), 4)
    } else {
        seq!['-'] + zero_pad(decimal((-y) as nat), 4)
    }
}

/// The date written as `YYYY-MM-DD`.
pub open spec fn date_text(t: (int, int, int)) -> Seq<char> {
    year_text(t.0) + seq!['-'] + two_digits(t.1) + seq!['-'] + two_digits(t.2)
}

proof fn lemma_div_step(q: int, k: int)
    requires
        k > 0,
    ensures
        (q + 1) / k == q / k + (if (q + 1) % k == 0 {
            1int
        } else {
            0int
        }),
{
    lemma_fundamental_div_mod(q, k);
    lemma_mod_bound(q, k);
    let a = q / k;
    let r = q % k;
    assert(k * a == a * k) by (nonlinear_arith);
    assert((a + 1) * k == a * k + k) by (nonlinear_arith);
    if r + 1 < k {
        lemma_fundamental_div_mod_converse(q + 1, k, a, r + 1);
    } else {
        lemma_fundamental_div_mod_converse(q + 1, k, a + 1, 0);
    }
}

proof fn lemma_multiple_of(p: int, k: int, j: int)
    requires
        k > 0,
        j > 0,
        p % (k * j) == 0,
    ensures
        p % k == 0,
{
    assert(k * j > 0) by (nonlinear_arith)
        requires
            k > 0,
            j > 0,
    ;
    lemma_fundamental_div_mod(p, k * j);
    let c = p / (k * j);
    assert(p == (c * j) * k + 0) by (nonlinear_arith)
        requires
            p == (k * j) * c + 0,
    ;
    lemma_fundamental_div_mod_converse(p, k, c * j, 0);
}

/// A year has 365 days, and one more in a leap year.
proof fn lemma_year_length(y: int)
    ensures
        days_before_year(y + 1) == days_before_year(y) + 365 + (if is_leap_year(y) {
            1int
        } else {
            0int
        }),
{
    lemma_div_step(y - 1, 4);
    lemma_div_step(y - 1, 100);
    lemma_div_step(y - 1, 400);
    if y % 400 == 0 {
        lemma_multiple_of(y, 100, 4);
    }
    if y % 100 == 0 {
        lemma_multiple_of(y, 4, 25);
    }
}

/// The day after a date is numbered one higher.
pub proof fn law_next_day_number(t: (int, int, int))
    requires
        is_valid_ymd(t),
    ensures
        day_number(next_day(t)) == day_number(t) + 1,
        next_day(t).0 <= max_year() ==> is_valid_ymd(next_day(t)),
{
    if t.2 == days_in_month(t.0, t.1) && t.1 == 12 {
        lemma_year_length(t.0);
    }
}

/// The day before a date is numbered one lower, and is a date itself unless it
/// lies before the first representable year.
pub proof fn law_prev_day_number(t: (int, int, int))
    requires
        is_valid_ymd(t),
    ensures
        prev_day(t).0 >= min_year() ==> is_valid_ymd(prev_day(t)),
        day_number(prev_day(t)) == day_number(t) - 1,
        next_day(prev_day(t)) == t,
{
    let p = prev_day(t);
    if t.2 == 1 && t.1 == 1 {
        lemma_year_length(t.0 - 1);
    }
}

/// Counting `n` days back lands on a date numbered `n` lower.
pub proof fn law_days_back(t: (int, int, int), n: nat)
    requires
        is_valid_ymd(t),
    ensures
        days_back(t, n) matches Some(p) ==> is_valid_ymd(p) && day_number(p) == day_number(t) - n,
    decreases n,
{
    if n > 0 {
        law_days_back(t, (n - 1) as nat);
        if let Some(q) = days_back(t, (n - 1) as nat) {
            law_prev_day_number(q);
        }
    }
}

/// The week of a date starts on a Monday, at most six days earlier.
pub proof fn law_week_starts_on_monday(t: (int, int, int))
    requires
        is_valid_ymd(t),
        days_back(t, days_from_monday(t) as nat) is Some,
    ensures
        is_valid_ymd(week_start_of(t)),
        days_from_monday(week_start_of(t)) == 0,
        0 <= day_number(t) - day_number(week_start_of(t)) <= 6,
        day_number(t) - day_number(week_start_of(t)) == days_from_monday(t),
{
    let w = days_from_monday(t);
    lemma_mod_bound(day_number(t) - 1, 7);
    law_days_back(t, w as nat);
    let m = week_start_of(t);
    lemma_fundamental_div_mod(day_number(t) - 1, 7);
    let q = (day_number(t) - 1) / 7;
    assert(7 * q == q * 7) by (nonlinear_arith);
    lemma_fundamental_div_mod_converse(day_number(m) - 1, 7, q, 0);
}

/// A date that exists in the calendar and that `chrono` can represent.
#[derive(Clone, Copy, Debug, PartialEq, Eq, Structural)]
pub struct CalendarDate {
    year: i32,
    month: u32,
    day: u32,
}

impl View for CalendarDate {
    type V = (int, int, int);

    open spec fn view(&self) -> (int, int, int) {
        (self.spec_year() as int, self.spec_month() as int, self.spec_day() as int)
    }
}

impl CalendarDate {
    #[verifier::type_invariant]
    spec fn wf(self) -> bool {
        is_valid_ymd((self.year as int, self.month as int, self.day as int))
    }

    pub closed spec fn spec_year(self) -> i32 {
        self.year
    }

    pub closed spec fn spec_month(self) -> u32 {
        self.month
    }

    pub closed spec fn spec_day(self) -> u32 {
        self.day
    }

    /// The date with the given year, month and day, where it exists.
    pub fn new(year: i32, month: u32, day: u32) -> (r: Option<CalendarDate>)
        ensures
            r is Some <==> is_valid_ymd((year as int, month as int, day as int)),
            r matches Some(d) ==> d@ == (year as int, month as int, day as int),
    {
        chrono_from_ymd(year, month, day)
    }

    pub fn year(&self) -> (y: i32)
        ensures
            y as int == self@.0,
            is_valid_ymd(self@),
    {
        proof {
            use_type_invariant(self);
        }
        self.year
    }

    pub fn month(&self) -> (m: u32)
        ensures
            m as int == self@.1,
            1 <= m <= 12,
    {
        proof {
            use_type_invariant(self);
        }
        self.month
    }

    pub fn day(&self) -> (d: u32)
        ensures
            d as int == self@.2,
            1 <= d <= 31,
    {
        proof {
            use_type_invariant(self);
        }
        self.day
    }

    /// The next calendar day; `None` for the last representable date.
    pub fn succ(&self) -> (r: Option<CalendarDate>)
        ensures
            r is Some <==> next_day(self@).0 <= max_year(),
            r matches Some(n) ==> n@ == next_day(self@),
    {
        chrono_succ(self)
    }

    /// The date `n` days earlier; `None` where it would lie before the first
    /// representable date.
    pub fn sub_days(&self, n: u64) -> (r: Option<CalendarDate>)
        ensures
            n > i32::MAX ==> r is None,
            n <= i32::MAX ==> (r is Some <==> days_back(self@, n as nat) is Some),
            r matches Some(p) ==> days_back(self@, n as nat) == Some(p@),
    {
        chrono_sub_days(self, n)
    }

    /// Days since the last Monday: 0 for a Monday, 6 for a Sunday.
    pub fn days_from_monday(&self) -> (w: u32)
        ensures
            w as int == days_from_monday(self@),
            w < 7,
    {
        chrono_days_from_monday(self)
    }

    /// The date written as `YYYY-MM-DD` (years outside 0 to 9999 with a sign).
    pub fn to_text(&self) -> (s: String)
        ensures
            s@ == date_text(self@),
    {
        chrono_date_text(self)
    }

    /// The Monday that starts the week of this date; the date itself where
    /// that Monday lies before the first representable date.
    pub fn week_start(&self) -> (r: CalendarDate)
        ensures
            r@ == week_start_of(self@),
    {
        proof {
            use_type_invariant(self);
        }
        let back = self.days_from_monday();
        match self.sub_days(back as u64) {
            Some(d) => d,
            None => CalendarDate { year: self.year, month: self.month, day: self.day },
        }
    }
}

/// The Monday of the week of `t`, or `t` where that Monday is not representable.
pub open spec fn week_start_of(t: (int, int, int)) -> (int, int, int) {
    match days_back(t, days_from_monday(t) as nat) {
        Some(m) => m,
        None => t,
    }
}

/// `chrono::NaiveDate::from_ymd_opt`: the date exists exactly when the month
/// is 1 to 12, the day lies within that month of that (proleptic Gregorian)
/// year, and the year is within `chrono`'s range; the date it returns carries
/// the same year, month and day.
#[verifier::external_body]
fn chrono_from_ymd(year: i32, month: u32, day: u32) -> (r: Option<CalendarDate>)
    ensures
        r is Some <==> is_valid_ymd((year as int, month as int, day as int)),
        r matches Some(d) ==> d@ == (year as int, month as int, day as int),
{
    match NaiveDate::from_ymd_opt(year, month, day) {
        Some(nd) => Some(CalendarDate { year: nd.year(), month: nd.month(), day: nd.day() }),
        None => None,
    }
}

/// `chrono::NaiveDate::succ_opt`: the next calendar day, or `None` when that day
/// lies after the last representable year.
#[verifier::external_body]
fn chrono_succ(d: &CalendarDate) -> (r: Option<CalendarDate>)
    ensures
        r is Some <==> next_day(d@).0 <= max_year(),
        r matches Some(n) ==> n@ == next_day(d@),
{
    let nd = NaiveDate::from_ymd_opt(d.year, d.month, d.day).unwrap();
    match nd.succ_opt() {
        Some(n) => Some(CalendarDate { year: n.year(), month: n.month(), day: n.day() }),
        None => None,
    }
}

/// `chrono::NaiveDate::checked_sub_days`: the date `n` days earlier; `None` for
/// `n` above `i32::MAX` and where that date lies before the first representable date.
#[verifier::external_body]
fn chrono_sub_days(d: &CalendarDate, n: u64) -> (r: Option<CalendarDate>)
    ensures
        n > i32::MAX ==> r is None,
        n <= i32::MAX ==> (r is Some <==> days_back(d@, n as nat) is Some),
        r matches Some(p) ==> days_back(d@, n as nat) == Some(p@),
{
    let nd = NaiveDate::from_ymd_opt(d.year, d.month, d.day).unwrap();
    match nd.checked_sub_days(Days::new(n)) {
        Some(p) => Some(CalendarDate { year: p.year(), month: p.month(), day: p.day() }),
        None => None,
    }
}

/// `chrono::Weekday::num_days_from_monday` of `chrono::NaiveDate::weekday`: the
/// day of the week in the proleptic Gregorian calendar, counted from Monday = 0.
#[verifier::external_body]
fn chrono_days_from_monday(d: &CalendarDate) -> (w: u32)
    ensures
        w as int == days_from_monday(d@),
        w < 7,
{
    let nd = NaiveDate::from_ymd_opt(d.year, d.month, d.day).unwrap();
    nd.weekday().num_days_from_monday()
}

/// `Display` of `chrono::NaiveDate`: `YYYY-MM-DD` with a four-digit year for
/// years 0 to 9999, and the year written as `{:+05}` otherwise.
#[verifier::external_body]
fn chrono_date_text(d: &CalendarDate) -> (s: String)
    ensures
        s@ == date_text(d@),
{
    let nd = NaiveDate::from_ymd_opt(d.year, d.month, d.day).unwrap();
    format!("{}", nd)
}

} // verus!
