//! The proleptic Gregorian calendar in UTC days.
//!
//! Days are counted from 1970-01-01, which is day zero.

use vstd::prelude::*;

verus! {

/// The day number of 1 January 10000, the end of the four-digit years.
pub const FOUR_DIGIT_DAYS: u64 = 2_932_897;

/// Leap years have a 29 February.
pub open spec fn is_leap(y: int) -> bool {
    y % 4 == 0 && (y % 100 != 0 || y % 400 == 0)
}

/// The number of days of a year.
pub open spec fn year_len(y: int) -> int {
    if is_leap(y) {
        366
    } else {
        365
    }
}

/// The number of leap years from year 1 to year `y`.
pub open spec fn leaps_through(y: int) -> int {
    y / 4 - y / 100 + y / 400
}

/// The day number of 1 January of year `y`.
pub open spec fn year_start(y: int) -> int {
    365 * (y - 1970) + leaps_through(y - 1) - leaps_through(1969)
}

/// The number of days of month `m` in year `y`.
pub open spec fn month_len(y: int, m: int) -> int {
    if m == 2 {
        if is_leap(y) {
            29
        } else {
            28
        }
    } else if m == 4 || m == 6 || m == 9 || m == 11 {
        30
    } else {
        31
    }
}

/// The number of days of year `y` before month `m`.
pub open spec fn month_start(y: int, m: int) -> int
    decreases m,
{
    if m <= 1 {
        0
    } else {
        month_start(y, m - 1) + month_len(y, m - 1)
    }
}

/// The day number of a date. A day past the end of its month counts on into
/// the next one.
pub open spec fn day_number(y: int, m: int, d: int) -> int {
    year_start(y) + month_start(y, m) + d - 1
}

/// Dates that the calendar has.
pub open spec fn valid_date(y: int, m: int, d: int) -> bool {
    1 <= m <= 12 && 1 <= d <= month_len(y, m)
}

/// A year starts where the one before it ends.
pub proof fn year_follows_year(y: int)
    ensures
        year_start(y + 1) == year_start(y) + year_len(y),
{
    assert(leaps_through(y) - leaps_through(y - 1) == (if is_leap(y) {
        1int
    } else {
        0int
    }));
}

/// The twelve months fill the year.
pub proof fn months_fill_the_year(y: int)
    ensures
        month_start(y, 12) + month_len(y, 12) == year_len(y),
{
    reveal_with_fuel(month_start, 13);
}

/// Day zero is 1 January 1970.
pub proof fn epoch_is_day_zero()
    ensures
        day_number(1970, 1, 1) == 0,
{
    reveal_with_fuel(month_start, 2);
}

/// The date after a valid date.
pub open spec fn next_date(y: int, m: int, d: int) -> (int, int, int) {
    if d < month_len(y, m) {
        (y, m, d + 1)
    } else if m < 12 {
        (y, m + 1, 1)
    } else {
        (y + 1, 1, 1)
    }
}

/// Day numbers count days: the date after a valid date is valid and has the
/// next number. With `epoch_is_day_zero` this fixes every day number.
pub proof fn next_date_has_next_number(y: int, m: int, d: int)
    requires
        valid_date(y, m, d),
    ensures
        ({
            let (y2, m2, d2) = next_date(y, m, d);
            valid_date(y2, m2, d2) && day_number(y2, m2, d2) == day_number(y, m, d) + 1
        }),
{
    if d < month_len(y, m) {
    } else if m < 12 {
    } else {
        year_follows_year(y);
        months_fill_the_year(y);
        reveal_with_fuel(month_start, 2);
    }
}

proof fn lemma_year_start_grows(a: int, b: int)
    requires
        a <= b,
    ensures
        year_start(a) <= year_start(b),
        a < b ==> year_start(a) + year_len(a) <= year_start(b),
    decreases b - a,
{
    if a < b {
        year_follows_year(a);
        lemma_year_start_grows(a + 1, b);
    }
}

proof fn lemma_month_start_grows(y: int, a: int, b: int)
    requires
        1 <= a <= b,
    ensures
        0 <= month_start(y, a) <= month_start(y, b),
        a < b ==> month_start(y, a) + month_len(y, a) <= month_start(y, b),
    decreases b,
{
    if a < b {
        lemma_month_start_grows(y, a, b - 1);
    } else if a > 1 {
        lemma_month_start_grows(y, 1, b - 1);
    }
}

proof fn lemma_day_in_year(y: int, m: int, d: int)
    requires
        valid_date(y, m, d),
    ensures
        year_start(y) <= day_number(y, m, d) < year_start(y) + year_len(y),
{
    lemma_month_start_grows(y, 1, m);
    lemma_month_start_grows(y, m, 12);
    months_fill_the_year(y);
}

/// A later year has later days.
pub proof fn later_year_later_day(y1: int, m1: int, d1: int, y2: int, m2: int, d2: int)
    requires
        valid_date(y1, m1, d1),
        valid_date(y2, m2, d2),
        y1 < y2,
    ensures
        day_number(y1, m1, d1) < day_number(y2, m2, d2),
{
    lemma_day_in_year(y1, m1, d1);
    lemma_day_in_year(y2, m2, d2);
    lemma_year_start_grows(y1, y2);
}

/// Different dates have different day numbers.
pub proof fn day_number_determines_date(y1: int, m1: int, d1: int, y2: int, m2: int, d2: int)
    requires
        valid_date(y1, m1, d1),
        valid_date(y2, m2, d2),
        day_number(y1, m1, d1) == day_number(y2, m2, d2),
    ensures
        y1 == y2,
        m1 == m2,
        d1 == d2,
{
    if y1 < y2 {
        later_year_later_day(y1, m1, d1, y2, m2, d2);
    } else if y2 < y1 {
        later_year_later_day(y2, m2, d2, y1, m1, d1);
    } else if m1 < m2 {
        lemma_month_start_grows(y1, m1, m2);
    } else if m2 < m1 {
        lemma_month_start_grows(y1, m2, m1);
    }
}

/// No date from 1970 on has a day number below zero, and none before has one
/// that is not.
pub proof fn days_are_counted_from_the_epoch(y: int, m: int, d: int)
    requires
        valid_date(y, m, d),
    ensures
        day_number(y, m, d) >= 0 <==> y >= 1970,
{
    epoch_is_day_zero();
    assert(year_start(1970) == 0);
    lemma_day_in_year(y, m, d);
    if y >= 1970 {
        lemma_year_start_grows(1970, y);
    } else {
        lemma_year_start_grows(y, 1970);
    }
}

/// The calendar repeats every 400 years, which have 97 leap years.
pub proof fn calendar_repeats(y: int, m: int, d: int)
    requires
        1 <= m <= 12,
    ensures
        is_leap(y + 400) == is_leap(y),
        day_number(y + 400, m, d) == day_number(y, m, d) + 146_097,
{
    lemma_months_repeat(y, m);
    lemma_leaps_repeat(y - 1);
    assert(y + 400 - 1 == (y - 1) + 400);
}

proof fn lemma_leaps_repeat(y: int)
    ensures
        leaps_through(y + 400) == leaps_through(y) + 97,
{
    assert((y + 400) / 4 == y / 4 + 100);
    assert((y + 400) / 100 == y / 100 + 4);
    assert((y + 400) / 400 == y / 400 + 1);
}

proof fn lemma_months_repeat(y: int, m: int)
    ensures
        is_leap(y + 400) == is_leap(y),
        month_start(y + 400, m) == month_start(y, m),
    decreases m,
{
    assert(is_leap(y + 400) == is_leap(y));
    if m > 1 {
        lemma_months_repeat(y, m - 1);
    }
}

/// The leap years: every fourth, but of the full centuries only every fourth.
pub proof fn leap_years_are_every_fourth(n: int)
    ensures
        n % 25 != 0 ==> is_leap(4 * n),
        is_leap(400 * n),
        n % 4 != 0 ==> !is_leap(100 * n),
        !is_leap(4 * n + 1),
        !is_leap(4 * n + 2),
        !is_leap(4 * n + 3),
{
}

/// The day of the year on which each month starts, in a year of 365 days; from
/// March on it is one more in a leap year.
pub proof fn months_start_on_their_days(y: int, m: int)
    requires
        1 <= m <= 12,
    ensures
        month_start(y, m) == seq![0int, 31, 59, 90, 120, 151, 181, 212, 243, 273, 304, 334][m - 1]
            + (if m > 2 && is_leap(y) {
            1int
        } else {
            0int
        }),
        day_number(y, m, 1) == day_number(y, 1, 1) + month_start(y, m),
{
    reveal_with_fuel(month_start, 13);
}

/// Civil UTC date to days since 1970-01-01, after Howard Hinnant's
/// `days_from_civil`.
///
/// Only the month number and a day of at most 31 are checked: 30 February is
/// counted on into March.
pub fn days_since_epoch(y: i32, m: u32, d: u32) -> (r: Option<i64>)
    requires
        1 <= m <= 12 && 1 <= d <= 31 ==> y - (if m <= 2 {
            1int
        } else {
            0int
        }) - 399 >= i32::MIN,
    ensures
        match r {
            Some(days) => 1 <= m <= 12 && 1 <= d <= 31 && days == day_number(
                y as int,
                m as int,
                d as int,
            ),
            None => !(1 <= m <= 12 && 1 <= d <= 31),
        },
{
    if m < 1 || m > 12 || d < 1 || d > 31 {
        return None;
    }
    let ghost civil_year: int = y as int;
    let y: i32 = if m <= 2 {
        y - 1
    } else {
        y
    };
    let era: i32 = (if y >= 0 {
        y
    } else {
        y - 399
    }) / 400;
    let yoe: i64 = y as i64 - era as i64 * 400;
    assert(0 <= yoe < 400);
    let month: i64 = m as i64;
    let day: i64 = d as i64;
    let m_adj: i64 = if month > 2 {
        month - 3
    } else {
        month + 9
    };
    let doy: i64 = (153 * m_adj + 2) / 5 + day - 1;
    let doe: i64 = yoe * 365 + yoe / 4 - yoe / 100 + doy;
    let days: i64 = era as i64 * 146_097 + doe - 719_468;
    proof {
        reveal_with_fuel(month_start, 13);
        assert(y / 400 == era);
        assert(y / 4 == 100 * era + yoe / 4);
        assert(y / 100 == 4 * era + yoe / 100);
        year_follows_year(civil_year);
        assert(days == 365 * y + leaps_through(y as int) + doy - 719_468);
    }
    Some(days)
}

/// The calendar date of a day number that is not before 1970.
pub open spec fn date_of(days: int) -> (int, int, int) {
    choose|y: int, m: int, d: int|
        valid_date(y, m, d) && #[trigger] day_number(y, m, d) == days
}

/// `date_of` gives the one valid date with that day number.
pub proof fn lemma_date_of(y: int, m: int, d: int)
    requires
        valid_date(y, m, d),
    ensures
        date_of(day_number(y, m, d)) == (y, m, d),
{
    let days = day_number(y, m, d);
    let (y2, m2, d2) = date_of(days);
    assert(valid_date(y2, m2, d2) && day_number(y2, m2, d2) == days);
    day_number_determines_date(y, m, d, y2, m2, d2);
}

/// Every day from 1970 up to the end of year 9999 has a date.
pub proof fn every_day_has_a_date(days: int)
    requires
        0 <= days < FOUR_DIGIT_DAYS,
    ensures
        ({
            let (y, m, d) = date_of(days);
            valid_date(y, m, d) && day_number(y, m, d) == days && 1970 <= y <= 9999
        }),
    decreases days,
{
    if days == 0 {
        epoch_is_day_zero();
        lemma_date_of(1970, 1, 1);
    } else {
        every_day_has_a_date(days - 1);
        let (y, m, d) = date_of(days - 1);
        next_date_has_next_number(y, m, d);
        let (y2, m2, d2) = next_date(y, m, d);
        lemma_date_of(y2, m2, d2);
        if y2 > 9999 {
            assert(year_start(10000) == 2_932_897);
            lemma_day_in_year(y2, m2, d2);
        }
    }
}

/// The number of days of a year.
fn days_in_year(y: u64) -> (r: u64)
    ensures
        r == year_len(y as int),
{
    if y % 4 == 0 && (y % 100 != 0 || y % 400 == 0) {
        366
    } else {
        365
    }
}

/// The number of days of a month.
fn days_in_month(y: u64, m: u64) -> (r: u64)
    ensures
        r == month_len(y as int, m as int),
{
    if m == 2 {
        if days_in_year(y) == 366 {
            29
        } else {
            28
        }
    } else if m == 4 || m == 6 || m == 9 || m == 11 {
        30
    } else {
        31
    }
}

/// The calendar date of a day number, up to the end of year 9999.
pub fn civil_from_days(days: u64) -> (r: (u64, u64, u64))
    requires
        days < FOUR_DIGIT_DAYS,
    ensures
        valid_date(r.0 as int, r.1 as int, r.2 as int),
        day_number(r.0 as int, r.1 as int, r.2 as int) == days,
        date_of(days as int) == (r.0 as int, r.1 as int, r.2 as int),
        1970 <= r.0 <= 9999,
{
    let mut y: u64 = 1970;
    let mut left: u64 = days;
    while left >= days_in_year(y)
        invariant
            days < FOUR_DIGIT_DAYS,
            1970 <= y <= 9999,
            year_start(y as int) + left == days,
        decreases left,
    {
        proof {
            year_follows_year(y as int);
        }
        left = left - days_in_year(y);
        y = y + 1;
        assert(year_start(10000) == 2_932_897);
    }
    let mut m: u64 = 1;
    let ghost in_year = left;
    proof {
        months_fill_the_year(y as int);
    }
    while left >= days_in_month(y, m)
        invariant
            1 <= m <= 12,
            month_start(y as int, m as int) + left == in_year,
            in_year < year_len(y as int),
            month_start(y as int, 12) + month_len(y as int, 12) == year_len(y as int),
        decreases left,
    {
        left = left - days_in_month(y, m);
        m = m + 1;
    }
    proof {
        lemma_date_of(y as int, m as int, left + 1);
    }
    (y, m, left + 1)
}

/// Days past the end of a month count on, one by one.
pub proof fn days_count_on(y: int, m: int, d: int)
    ensures
        day_number(y, m, d + 1) == day_number(y, m, d) + 1,
{
}

} // verus!
