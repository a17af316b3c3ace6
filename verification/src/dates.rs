//! Calendar arithmetic for the date-range case of the normalizer.
//!
//! Dates are plain `(year, month, day)` triples in the proleptic
//! Gregorian calendar, years 0 through 9999 (the four-digit years the
//! date token can carry). `day_number` maps a valid date to a serial
//! day count so that the difference of two day numbers is the number
//! of whole days between the dates.

use vstd::prelude::*;
use vstd::arithmetic::div_mod::{lemma_div_nonincreasing, lemma_div_is_ordered};

verus! {

/// A Gregorian leap year.
pub open spec fn is_leap_year(y: int) -> bool {
    y % 4 == 0 && (y % 100 != 0 || y % 400 == 0)
}

/// Days in month `m` of year `y` (months numbered 1 through 12).
pub open spec fn days_in_month(y: int, m: int) -> int {
    if m == 2 {
        if is_leap_year(y) {
            29
        } else {
            28
        }
    } else if m == 4 || m == 6 || m == 9 || m == 11 {
        30
    } else {
        31
    }
}

/// A calendar date the date token can denote: a real day of a
/// four-digit year.
pub open spec fn valid_date(y: int, m: int, d: int) -> bool {
    &&& 0 <= y <= 9999
    &&& 1 <= m <= 12
    &&& 1 <= d <= days_in_month(y, m)
}

/// Serial day count of a valid date (a Julian day number): consecutive
/// calendar days have consecutive day numbers, so `day_number` of an
/// end date minus `day_number` of a start date is the signed number of
/// whole days from start to end.
pub open spec fn day_number(y: int, m: int, d: int) -> int {
    let a = (14 - m) / 12;
    let y2 = y + 4800 - a;
    let m2 = m + 12 * a - 3;
    d + (153 * m2 + 2) / 5 + 365 * y2 + y2 / 4 + y2 / 400 - y2 / 100 - 32045
}

/// Lower bound on `day_number` over all valid dates.
pub const MIN_DAY_NUMBER: u64 = 1700000;

/// Upper bound on `day_number` over all valid dates.
pub const MAX_DAY_NUMBER: u64 = 5400000;

/// Executable leap-year test, equal to the spec-level one.
pub fn leap_year(y: u32) -> (r: bool)
    ensures
        r == is_leap_year(y as int),
{
    y % 4 == 0 && (y % 100 != 0 || y % 400 == 0)
}

/// Executable days-in-month, equal to the spec-level one.
pub fn month_length(y: u32, m: u32) -> (r: u32)
    ensures
        r == days_in_month(y as int, m as int),
{
    if m == 2 {
        if leap_year(y) {
            29
        } else {
            28
        }
    } else if m == 4 || m == 6 || m == 9 || m == 11 {
        30
    } else {
        31
    }
}

/// Executable date-validity test, equal to the spec-level one.
pub fn date_valid(y: u32, m: u32, d: u32) -> (r: bool)
    ensures
        r == valid_date(y as int, m as int, d as int),
{
    y <= 9999 && 1 <= m && m <= 12 && 1 <= d && d <= month_length(y, m)
}

/// Executable day number, equal to the spec-level one and bounded.
pub fn to_day_number(y: u32, m: u32, d: u32) -> (r: u64)
    requires
        valid_date(y as int, m as int, d as int),
    ensures
        r == day_number(y as int, m as int, d as int),
        MIN_DAY_NUMBER <= r <= MAX_DAY_NUMBER,
{
    let a: u32 = (14 - m) / 12;
    assert(a <= 1);
    let y2: u64 = (y + 4800 - a) as u64;
    assert(4799 <= y2 <= 14799);
    let m2: u64 = ((m + 12 * a) - 3) as u64;
    assert(m2 <= 11);
    let month_days: u64 = (153 * m2 + 2) / 5;
    proof {
        lemma_div_nonincreasing((153 * m2 + 2) as int, 5);
        lemma_div_nonincreasing(y2 as int, 4);
        lemma_div_nonincreasing(y2 as int, 400);
        lemma_div_nonincreasing(y2 as int, 100);
        lemma_div_is_ordered(4799, y2 as int, 4);
        lemma_div_is_ordered(4799, y2 as int, 400);
        lemma_div_is_ordered(4799, y2 as int, 100);
        lemma_div_is_ordered(y2 as int, 14799, 4);
        lemma_div_is_ordered(y2 as int, 14799, 400);
        lemma_div_is_ordered(y2 as int, 14799, 100);
    }
    let pos: u64 = d as u64 + month_days + 365 * y2 + y2 / 4 + y2 / 400;
    let neg: u64 = y2 / 100 + 32045;
    assert(neg <= y2 + 32045);
    assert(pos >= 365 * y2);
    pos - neg
}

} // verus!
