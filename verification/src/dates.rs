//! Proleptic Gregorian calendar arithmetic for air dates.
//!
//! An air-dated episode is numbered by the signed count of days between its
//! date and the Unix epoch (1970-01-01), so dates before 1970 give negative
//! episode numbers.

use vstd::prelude::*;

verus! {

/// Gregorian leap year.
pub open spec fn is_leap_year(y: int) -> bool {
    y % 4 == 0 && (y % 100 != 0 || y % 400 == 0)
}

/// Number of days in month `m` of year `y` (`m` between 1 and 12).
pub open spec fn days_in_month(y: int, m: int) -> int {
    if m == 2 {
        if is_leap_year(y) {
            29
        } else {
            28
        }
    } else if m == 4 || m == 6 || m == 9 || m == 11 {
        30
    } else {
        31
    }
}

/// A calendar-valid year/month/day triple.
pub open spec fn valid_ymd(y: int, m: int, d: int) -> bool {
    &&& 1 <= m <= 12
    &&& 1 <= d <= days_in_month(y, m)
}

/// Number of leap years among `0, 1, ..., y - 1`.
pub open spec fn leap_years_before(y: int) -> int
    decreases y,
{
    if y <= 0 {
        0
    } else {
        leap_years_before(y - 1) + if is_leap_year(y - 1) {
            1int
        } else {
            0int
        }
    }
}

/// Days in all years before `y`, counted from year 0.
pub open spec fn days_before_year(y: int) -> int {
    365 * y + leap_years_before(y)
}

/// Days in the months of year `y` before month `m`.
pub open spec fn days_before_month(y: int, m: int) -> int
    decreases m,
{
    if m <= 1 {
        0
    } else {
        days_before_month(y, m - 1) + days_in_month(y, m - 1)
    }
}

/// Zero-based day number of a date, counted from 0000-01-01.
pub open spec fn civil_day_number(y: int, m: int, d: int) -> int {
    days_before_year(y) + days_before_month(y, m) + (d - 1)
}

/// Signed days between a date and the Unix epoch.
pub open spec fn epoch_days(y: int, m: int, d: int) -> int {
    civil_day_number(y, m, d) - civil_day_number(1970, 1, 1)
}

pub fn leap_year_check(y: i32) -> (r: bool)
    ensures
        r == is_leap_year(y as int),
{
    y % 4 == 0 && (y % 100 != 0 || y % 400 == 0)
}

pub fn month_days(y: i32, m: u32) -> (r: u32)
    requires
        1 <= m <= 12,
    ensures
        r == days_in_month(y as int, m as int),
        28 <= r <= 31,
{
    if m == 2 {
        if leap_year_check(y) {
            29
        } else {
            28
        }
    } else if m == 4 || m == 6 || m == 9 || m == 11 {
        30
    } else {
        31
    }
}

/// Check that year, month and day form a real calendar date.
pub fn check_ymd(y: i32, m: u32, d: u32) -> (r: bool)
    requires
        0 <= y <= 9999,
    ensures
        r == valid_ymd(y as int, m as int, d as int),
{
    if m < 1 || m > 12 {
        return false;
    }
    let dm = month_days(y, m);
    1 <= d && d <= dm
}

/// Leap years before `y` stay within a small linear envelope.
proof fn lemma_leap_bound(y: int)
    requires
        y >= 0,
    ensures
        0 <= leap_years_before(y) <= y,
    decreases y,
{
    if y > 0 {
        lemma_leap_bound(y - 1);
    }
}

/// Months before `m` hold at most 31 days each.
proof fn lemma_month_bound(y: int, m: int)
    requires
        1 <= m <= 13,
    ensures
        0 <= days_before_month(y, m) <= 31 * (m - 1),
    decreases m,
{
    if m > 1 {
        lemma_month_bound(y, m - 1);
    }
}

fn leap_years_before_exec(y: i32) -> (r: i64)
    requires
        0 <= y <= 9999,
    ensures
        r == leap_years_before(y as int),
{
    proof {
        lemma_leap_bound(y as int);
    }
    let mut k: i32 = 0;
    let mut acc: i64 = 0;
    while k < y
        invariant
            0 <= k <= y <= 9999,
            acc == leap_years_before(k as int),
            0 <= acc <= k,
        decreases y - k,
    {
        proof {
            lemma_leap_bound(k as int);
            lemma_leap_bound(k as int + 1);
        }
        if leap_year_check(k) {
            acc = acc + 1;
        }
        k = k + 1;
    }
    acc
}

fn days_before_month_exec(y: i32, m: u32) -> (r: u32)
    requires
        1 <= m <= 12,
    ensures
        r == days_before_month(y as int, m as int),
{
    proof {
        lemma_month_bound(y as int, m as int);
    }
    let mut k: u32 = 1;
    let mut acc: u32 = 0;
    while k < m
        invariant
            1 <= k <= m <= 12,
            acc == days_before_month(y as int, k as int),
            0 <= acc <= 31 * (k - 1),
        decreases m - k,
    {
        proof {
            lemma_month_bound(y as int, k as int);
        }
        acc = acc + month_days(y, k);
        k = k + 1;
    }
    acc
}

/// For years up to 9999 the epoch-day count stays well inside an `i32`.
pub proof fn lemma_epoch_days_range(y: int, m: int, d: int)
    requires
        0 <= y <= 9999,
        valid_ymd(y, m, d),
    ensures
        -1000000 < epoch_days(y, m, d) < 5000000,
{
    lemma_leap_bound(y);
    lemma_leap_bound(1970);
    lemma_month_bound(y, m);
}

/// Signed number of days between the given date and 1970-01-01; negative for
/// dates before the epoch.
pub fn days_since_epoch(year: i32, month: u32, day: u32) -> (r: i64)
    requires
        0 <= year <= 9999,
        valid_ymd(year as int, month as int, day as int),
    ensures
        r == epoch_days(year as int, month as int, day as int),
{
    proof {
        lemma_leap_bound(year as int);
        lemma_leap_bound(1970);
        lemma_month_bound(year as int, month as int);
    }
    let ylen: i64 = 365 * (year as i64) + leap_years_before_exec(year);
    let mdays: i64 = days_before_month_exec(year, month) as i64;
    let own: i64 = ylen + mdays + (day as i64) - 1;
    let epoch: i64 = 365 * 1970 + leap_years_before_exec(1970);
    own - epoch
}

} // verus!
