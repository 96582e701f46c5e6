//! Proleptic Gregorian calendar dates with four-digit years, and day-offset
//! arithmetic on them.

use vstd::prelude::*;
use vstd::arithmetic::div_mod::{
    lemma_div_nonincreasing, lemma_fundamental_div_mod, lemma_fundamental_div_mod_converse,
    lemma_mod_division_less_than_divisor, lemma_mod_multiples_basic,
};

verus! {

/// A calendar date. Well-formed values (see [`Date::wf`]) have a year in
/// `1..=9999`, a month in `1..=12` and a day that exists in that month.
#[derive(Clone, Copy, PartialEq, Eq, Structural, Debug)]
pub struct Date {
    pub year: u16,
    pub month: u8,
    pub day: u8,
}

/// Gregorian leap-year rule.
pub open spec fn is_leap_year(y: int) -> bool {
    (y % 4 == 0 && y % 100 != 0) || y % 400 == 0
}

/// Number of days in month `m` of year `y`.
pub open spec fn days_in_month(y: int, m: int) -> int {
    if m == 2 {
        if is_leap_year(y) {
            29
        } else {
            28
        }
    } else if m == 4 || m == 6 || m == 9 || m == 11 {
        30
    } else {
        31
    }
}

/// Number of days of year `y` that pass before month `m` begins.
pub open spec fn days_before_month(y: int, m: int) -> int {
    let plain: int = if m == 1 {
        0
    } else if m == 2 {
        31
    } else if m == 3 {
        59
    } else if m == 4 {
        90
    } else if m == 5 {
        120
    } else if m == 6 {
        151
    } else if m == 7 {
        181
    } else if m == 8 {
        212
    } else if m == 9 {
        243
    } else if m == 10 {
        273
    } else if m == 11 {
        304
    } else {
        334
    };
    plain + if m >= 3 && is_leap_year(y) {
        1int
    } else {
        0int
    }
}

/// Number of days in year `y`.
pub open spec fn days_in_year(y: int) -> int {
    if is_leap_year(y) {
        366
    } else {
        365
    }
}

/// Number of leap years in `1..=y`.
pub open spec fn leap_years_through(y: int) -> int {
    y / 4 - y / 100 + y / 400
}

/// The month and day form a real calendar date of year `y`.
pub open spec fn valid_ymd(y: int, m: int, d: int) -> bool {
    1 <= m <= 12 && 1 <= d <= days_in_month(y, m)
}

/// Days elapsed from 0001-01-01 (day 0) to the date `y`-`m`-`d`.
pub open spec fn ymd_index(y: int, m: int, d: int) -> int {
    (y - 1) * 365 + leap_years_through(y - 1) + days_before_month(y, m) + d - 1
}

/// Day index one past the last representable date, 9999-12-31.
pub const TOTAL_DAYS: u32 = 3652059;

impl Date {
    /// The date is a real calendar date with a four-digit year.
    pub open spec fn wf(self) -> bool {
        1 <= self.year <= 9999 && valid_ymd(
            self.year as int,
            self.month as int,
            self.day as int,
        )
    }

    /// Days elapsed from 0001-01-01 to this date.
    pub open spec fn index(self) -> int {
        ymd_index(self.year as int, self.month as int, self.day as int)
    }
}

/// Whether `year` is a leap year.
pub fn is_leap(year: u16) -> (r: bool)
    ensures
        r == is_leap_year(year as int),
{
    (year % 4 == 0 && year % 100 != 0) || year % 400 == 0
}

/// Number of days in month `month` of year `year`.
pub fn month_len(year: u16, month: u8) -> (r: u8)
    requires
        1 <= month <= 12,
    ensures
        r as int == days_in_month(year as int, month as int),
{
    if month == 2 {
        if is_leap(year) {
            29
        } else {
            28
        }
    } else if month == 4 || month == 6 || month == 9 || month == 11 {
        30
    } else {
        31
    }
}

/// Number of days in year `year`.
pub fn year_len(year: u16) -> (r: u16)
    ensures
        r as int == days_in_year(year as int),
{
    if is_leap(year) {
        366
    } else {
        365
    }
}

impl Date {
    /// Builds a date from its parts, succeeding exactly when they form a real
    /// calendar date with a four-digit year.
    pub fn new(year: i64, month: u8, day: u8) -> (r: Option<Date>)
        ensures
            match r {
                Some(d) => 1 <= year <= 9999 && valid_ymd(year as int, month as int, day as int)
                    && d == (Date { year: year as u16, month, day }),
                None => !(1 <= year <= 9999 && valid_ymd(
                    year as int,
                    month as int,
                    day as int,
                )),
            },
    {
        if 1 <= year && year <= 9999 && 1 <= month && month <= 12 && 1 <= day && day <= month_len(
            year as u16,
            month,
        ) {
            Some(Date { year: year as u16, month, day })
        } else {
            None
        }
    }
}

proof fn lemma_div_step(n: int, k: int)
    requires
        n >= 1,
        k >= 1,
    ensures
        n / k == (n - 1) / k + if n % k == 0 {
            1int
        } else {
            0int
        },
{
    lemma_fundamental_div_mod(n, k);
    lemma_mod_division_less_than_divisor(n, k);
    let q = n / k;
    let r = n % k;
    if r == 0 {
        assert(n - 1 == (q - 1) * k + (k - 1)) by (nonlinear_arith)
            requires
                n == k * q + r,
                r == 0,
        ;
        lemma_fundamental_div_mod_converse(n - 1, k, q - 1, k - 1);
    } else {
        assert(n - 1 == q * k + (r - 1)) by (nonlinear_arith)
            requires
                n == k * q + r,
        ;
        lemma_fundamental_div_mod_converse(n - 1, k, q, r - 1);
    }
}

proof fn lemma_divisible_chain(y: int)
    ensures
        y % 400 == 0 ==> y % 100 == 0,
        y % 100 == 0 ==> y % 4 == 0,
{
    if y % 400 == 0 {
        lemma_fundamental_div_mod(y, 400);
        let q = y / 400;
        assert(y == (4 * q) * 100) by (nonlinear_arith)
            requires
                y == 400 * q + y % 400,
                y % 400 == 0,
        ;
        lemma_mod_multiples_basic(4 * q, 100);
    }
    if y % 100 == 0 {
        lemma_fundamental_div_mod(y, 100);
        let q = y / 100;
        assert(y == (25 * q) * 4) by (nonlinear_arith)
            requires
                y == 100 * q + y % 100,
                y % 100 == 0,
        ;
        lemma_mod_multiples_basic(25 * q, 4);
    }
}

proof fn lemma_leap_count_step(y: int)
    requires
        y >= 1,
    ensures
        leap_years_through(y) - leap_years_through(y - 1) == if is_leap_year(y) {
            1int
        } else {
            0int
        },
{
    lemma_div_step(y, 4);
    lemma_div_step(y, 100);
    lemma_div_step(y, 400);
    lemma_divisible_chain(y);
}

proof fn lemma_year_start_step(y: int)
    requires
        y >= 1,
    ensures
        ymd_index(y + 1, 1, 1) == ymd_index(y, 1, 1) + days_in_year(y),
{
    lemma_leap_count_step(y);
}

proof fn lemma_index_in_year(y: int, m: int, d: int)
    requires
        y >= 1,
        valid_ymd(y, m, d),
    ensures
        ymd_index(y, 1, 1) <= ymd_index(y, m, d),
        ymd_index(y, m, d) < ymd_index(y, 1, 1) + days_in_year(y),
{
}

proof fn lemma_year_start_le(y1: int, y2: int)
    requires
        1 <= y1 <= y2,
    ensures
        ymd_index(y1, 1, 1) <= ymd_index(y2, 1, 1),
    decreases y2 - y1,
{
    if y1 < y2 {
        lemma_year_start_le(y1, y2 - 1);
        lemma_year_start_step(y2 - 1);
    }
}

proof fn lemma_total_days()
    ensures
        ymd_index(10000, 1, 1) == TOTAL_DAYS,
{
}

/// Two well-formed dates with the same day index are the same date.
///
/// Together with the day-index contracts on the arithmetic below, this makes
/// day shifts mutually consistent: shifting a date by `a` days and then by `b`
/// days lands on the same date as shifting it once by `a + b`.
pub proof fn lemma_index_injective(d1: Date, d2: Date)
    requires
        d1.wf(),
        d2.wf(),
        d1.index() == d2.index(),
    ensures
        d1 == d2,
{
    let y1 = d1.year as int;
    let m1 = d1.month as int;
    let a1 = d1.day as int;
    let y2 = d2.year as int;
    let m2 = d2.month as int;
    let a2 = d2.day as int;
    if y1 < y2 {
        lemma_index_in_year(y1, m1, a1);
        lemma_year_start_step(y1);
        lemma_year_start_le(y1 + 1, y2);
        lemma_index_in_year(y2, m2, a2);
        assert(false);
    } else if y2 < y1 {
        lemma_index_in_year(y2, m2, a2);
        lemma_year_start_step(y2);
        lemma_year_start_le(y2 + 1, y1);
        lemma_index_in_year(y1, m1, a1);
        assert(false);
    }
    assert(days_before_month(y1, m1) + a1 == days_before_month(y1, m2) + a2);
    if m1 < m2 {
        assert(days_before_month(y1, m1) + days_in_month(y1, m1) <= days_before_month(y1, m2));
        assert(false);
    } else if m2 < m1 {
        assert(days_before_month(y1, m2) + days_in_month(y1, m2) <= days_before_month(y1, m1));
        assert(false);
    }
}

/// The unique well-formed date whose day index is `n`, for `n` in range.
pub open spec fn date_with_index(n: int) -> Date {
    choose|e: Date| e.wf() && e.index() == n
}

proof fn lemma_exists_date_with_index(n: int)
    requires
        0 <= n < TOTAL_DAYS,
    ensures
        exists|e: Date| e.wf() && e.index() == n,
    decreases n,
{
    if n == 0 {
        let e = Date { year: 1, month: 1, day: 1 };
        assert(e.wf() && e.index() == 0);
    } else {
        lemma_exists_date_with_index(n - 1);
        let e = choose|e: Date| e.wf() && e.index() == n - 1;
        let y = e.year as int;
        let m = e.month as int;
        if (e.day as int) < days_in_month(y, m) {
            let s = Date { year: e.year, month: e.month, day: (e.day + 1) as u8 };
            assert(s.wf() && s.index() == n);
        } else if e.month < 12 {
            let s = Date { year: e.year, month: (e.month + 1) as u8, day: 1 };
            assert(days_before_month(y, m + 1) == days_before_month(y, m) + days_in_month(y, m));
            assert(s.wf() && s.index() == n);
        } else {
            lemma_year_start_step(y);
            lemma_total_days();
            if e.year == 9999 {
                assert(false);
            }
            let s = Date { year: (e.year + 1) as u16, month: 1, day: 1 };
            assert(s.wf() && s.index() == n);
        }
    }
}

/// Every day index in `0..TOTAL_DAYS` names a well-formed date, and
/// `date_with_index` picks it: the correspondence between dates and day
/// indices is one to one on that range.
pub proof fn lemma_date_with_index(n: int)
    requires
        0 <= n < TOTAL_DAYS,
    ensures
        date_with_index(n).wf(),
        date_with_index(n).index() == n,
{
    lemma_exists_date_with_index(n);
}

/// Day shifts compose: shifting a date by `a` days and then by `b` more days
/// lands on the same date as shifting it once by `a + b` days.
pub proof fn lemma_shift_composes(d: Date, a: int, b: int)
    requires
        d.wf(),
        0 <= d.index() + a < TOTAL_DAYS,
        0 <= d.index() + a + b < TOTAL_DAYS,
    ensures
        date_with_index(date_with_index(d.index() + a).index() + b) == date_with_index(
            d.index() + a + b,
        ),
{
    lemma_date_with_index(d.index() + a);
}

fn month_offset(year: u16, month: u8) -> (r: u32)
    requires
        1 <= month <= 12,
    ensures
        r as int == days_before_month(year as int, month as int),
{
    let plain: u32 = if month == 1 {
        0
    } else if month == 2 {
        31
    } else if month == 3 {
        59
    } else if month == 4 {
        90
    } else if month == 5 {
        120
    } else if month == 6 {
        151
    } else if month == 7 {
        181
    } else if month == 8 {
        212
    } else if month == 9 {
        243
    } else if month == 10 {
        273
    } else if month == 11 {
        304
    } else {
        334
    };
    if month >= 3 && is_leap(year) {
        plain + 1
    } else {
        plain
    }
}

/// Days elapsed from 0001-01-01 to `d`.
pub fn date_index(d: &Date) -> (r: u32)
    requires
        d.wf(),
    ensures
        r as int == d.index(),
        r < TOTAL_DAYS,
{
    let y: u32 = (d.year - 1) as u32;
    proof {
        lemma_div_nonincreasing(y as int, 100);
        lemma_index_in_year(d.year as int, d.month as int, d.day as int);
        lemma_year_start_step(d.year as int);
        lemma_year_start_le(d.year as int + 1, 10000);
        lemma_total_days();
    }
    let before_years: u32 = y * 365 + y / 4 - y / 100 + y / 400;
    let r: u32 = before_years + month_offset(d.year, d.month) + d.day as u32 - 1;
    r
}

/// The well-formed date with day index `n`.
pub fn from_index(n: u32) -> (r: Date)
    requires
        n < TOTAL_DAYS,
    ensures
        r.wf(),
        r.index() == n,
{
    let mut year: u16 = 1;
    let mut rem: u32 = n;
    while rem >= year_len(year) as u32
        invariant
            1 <= year <= 9999,
            ymd_index(year as int, 1, 1) + rem as int == n as int,
            n < TOTAL_DAYS,
        decreases rem,
    {
        proof {
            lemma_total_days();
            lemma_year_start_step(year as int);
            if year == 9999 {
                assert(false);
            }
        }
        rem = rem - year_len(year) as u32;
        year = year + 1;
    }
    proof {
        lemma_year_start_step(year as int);
    }
    let mut month: u8 = 1;
    while rem >= month_len(year, month) as u32
        invariant
            1 <= year <= 9999,
            1 <= month <= 12,
            ymd_index(year as int, month as int, 1) + rem as int == n as int,
            (n as int) < ymd_index(year as int + 1, 1, 1),
        decreases rem,
    {
        proof {
            assert(days_before_month(year as int, month as int + 1) == days_before_month(
                year as int,
                month as int,
            ) + days_in_month(year as int, month as int));
            if month == 12 {
                assert(false);
            }
        }
        rem = rem - month_len(year, month) as u32;
        month = month + 1;
    }
    Date { year, month, day: (rem + 1) as u8 }
}

/// The date `offset` days after `d` (before, for a negative offset), or `None`
/// when that date falls outside years 1 through 9999.
pub fn add_days(d: &Date, offset: i64) -> (r: Option<Date>)
    requires
        d.wf(),
    ensures
        match r {
            Some(e) => 0 <= d.index() + offset < TOTAL_DAYS && e.wf() && e.index() == d.index()
                + offset && e == date_with_index(d.index() + offset),
            None => !(0 <= d.index() + offset < TOTAL_DAYS),
        },
{
    let idx: u32 = date_index(d);
    match (idx as i64).checked_add(offset) {
        None => None,
        Some(target) => {
            if target < 0 || target >= TOTAL_DAYS as i64 {
                None
            } else {
                let e = from_index(target as u32);
                proof {
                    assert(e.wf() && e.index() == d.index() + offset);
                    lemma_index_injective(e, date_with_index(d.index() + offset));
                }
                Some(e)
            }
        },
    }
}

} // verus!
