//! The proleptic Gregorian calendar, counted in days from 1970-01-01.

use vstd::prelude::*;
use vstd::arithmetic::div_mod::lemma_hoist_over_denominator;

verus! {

pub open spec fn is_leap(y: int) -> bool {
    (y % 4 == 0 && y % 100 != 0) || y % 400 == 0
}

/// Days in month `m` of year `y` (31 for a month number out of range).
pub open spec fn month_len(y: int, m: int) -> int {
    if m == 2 {
        if is_leap(y) { 29 } else { 28 }
    } else if m == 4 || m == 6 || m == 9 || m == 11 {
        30
    } else {
        31
    }
}

/// Leap years in `0..y` (negative for years before 0).
pub open spec fn leaps_before(y: int) -> int {
    (y + 3) / 4 - (y + 99) / 100 + (y + 399) / 400
}

/// Days from 0000-01-01 to the first day of year `y`.
pub open spec fn year_start(y: int) -> int {
    365 * y + leaps_before(y)
}

/// Days from 1970-01-01 to the first day of year `y`.
pub open spec fn days_before_year(y: int) -> int {
    year_start(y) - year_start(1970)
}

/// Days in year `y` before month `m` starts.
pub open spec fn days_before_month(y: int, m: int) -> int {
    let leap_day = if m > 2 && is_leap(y) { 1int } else { 0int };
    leap_day + if m <= 1 { 0int }
    else if m == 2 { 31 }
    else if m == 3 { 59 }
    else if m == 4 { 90 }
    else if m == 5 { 120 }
    else if m == 6 { 151 }
    else if m == 7 { 181 }
    else if m == 8 { 212 }
    else if m == 9 { 243 }
    else if m == 10 { 273 }
    else if m == 11 { 304 }
    else { 334 }
}

/// A day that exists: month 1–12, day 1 to the month's length.
pub open spec fn valid_date(y: int, m: int, d: int) -> bool {
    1 <= m <= 12 && 1 <= d <= month_len(y, m)
}

/// Days from 1970-01-01 to `y`-`m`-`d`.
pub open spec fn days_from_epoch(y: int, m: int, d: int) -> int {
    days_before_year(y) + days_before_month(y, m) + d - 1
}

/// A year is 365 days, or 366 in a leap year.
pub proof fn lemma_year_len(y: int)
    ensures
        year_start(y + 1) == year_start(y) + if is_leap(y) { 366int } else { 365int },
{
    let a = y + 3;
    let b = y + 99;
    let c = y + 399;
    assert((a + 1) / 4 == a / 4 + if y % 4 == 0 { 1int } else { 0int });
    assert((b + 1) / 100 == b / 100 + if y % 100 == 0 { 1int } else { 0int });
    assert((c + 1) / 400 == c / 400 + if y % 400 == 0 { 1int } else { 0int });
}

/// The calendar repeats every 400 years, of 146 097 days.
pub proof fn lemma_era(yoe: int, era: int)
    ensures
        year_start(yoe + 400 * era) == year_start(yoe) + 146097 * era,
        is_leap(yoe + 400 * era) == is_leap(yoe),
{
    lemma_hoist_over_denominator(yoe + 3, 100 * era, 4);
    lemma_hoist_over_denominator(yoe + 99, 4 * era, 100);
    lemma_hoist_over_denominator(yoe + 399, era, 400);
    assert((yoe + 400 * era) % 4 == yoe % 4) by {
        vstd::arithmetic::div_mod::lemma_mod_multiples_vanish(100 * era, yoe, 4);
    }
    assert((yoe + 400 * era) % 100 == yoe % 100) by {
        vstd::arithmetic::div_mod::lemma_mod_multiples_vanish(4 * era, yoe, 100);
    }
    assert((yoe + 400 * era) % 400 == yoe % 400) by {
        vstd::arithmetic::div_mod::lemma_mod_multiples_vanish(era, yoe, 400);
    }
}


/// Later years start later.
pub proof fn lemma_year_start_mono(a: int, b: int)
    requires
        a <= b,
    ensures
        year_start(a) + 365 * (b - a) <= year_start(b),
    decreases b - a,
{
    if a < b {
        lemma_year_start_mono(a, b - 1);
        lemma_year_len(b - 1);
    }
}

/// The months of a year fit in it.
pub proof fn lemma_months_fit(y: int, m: int)
    requires
        1 <= m <= 12,
    ensures
        0 <= days_before_month(y, m),
        days_before_month(y, m) + month_len(y, m) == if m == 12 {
            if is_leap(y) { 366int } else { 365int }
        } else {
            days_before_month(y, m + 1)
        },
        days_before_month(y, m) + month_len(y, m) <= if is_leap(y) { 366int } else { 365int },
{
}

/// A date's day count lies within its year.
pub proof fn lemma_date_in_year(y: int, m: int, d: int)
    requires
        valid_date(y, m, d),
    ensures
        days_before_year(y) <= days_from_epoch(y, m, d) < days_before_year(y + 1),
{
    lemma_months_fit(y, m);
    lemma_year_len(y);
}

/// A month ends where the next begins.
pub proof fn lemma_month_step(y: int, m: int)
    requires
        1 <= m <= 11,
    ensures
        days_before_month(y, m + 1) == days_before_month(y, m) + month_len(y, m),
{
}

/// Days in month `m` of year `y`.
pub fn days_in_month(y: i64, m: i64) -> (r: i64)
    ensures
        r == month_len(y as int, m as int),
{
    if m == 2 {
        if (y % 4 == 0 && y % 100 != 0) || y % 400 == 0 { 29 } else { 28 }
    } else if m == 4 || m == 6 || m == 9 || m == 11 {
        30
    } else {
        31
    }
}

/// `a` divided by a positive `b`, rounded down.
pub fn div_floor(a: i64, b: i64) -> (q: i64)
    requires
        b > 0,
    ensures
        q == a as int / b as int,
{
    assert(a / b <= i64::MAX && a / b >= i64::MIN) by (nonlinear_arith)
        requires b > 0;
    match a.checked_div_euclid(b) {
        Some(q) => q,
        None => 0,
    }
}

/// The remainder of `a` divided by a positive `b`, in `0..b`.
pub fn rem_floor(a: i64, b: i64) -> (r: i64)
    requires
        b > 0,
    ensures
        r == a as int % b as int,
{
    match a.checked_rem_euclid(b) {
        Some(r) => r,
        None => 0,
    }
}

/// Days from 1970-01-01 to the first day of year `y`.
fn year_days(y: i64) -> (r: i64)
    requires
        -1_000_000_000_000 <= y <= 1_000_000_000_000,
    ensures
        r == days_before_year(y as int),
{
    let leaps = div_floor(y + 3, 4) - div_floor(y + 99, 100) + div_floor(y + 399, 400);
    365 * y + leaps - (365 * 1970 + 478)
}

/// Days from 1970-01-01 to `y`-`m`-`d` (a proleptic Gregorian date).
pub fn days_from_civil(y: i64, m: i64, d: i64) -> (r: i64)
    requires
        -1_000_000_000_000 <= y <= 1_000_000_000_000,
        1 <= m <= 12,
        1 <= d <= 31,
    ensures
        r == days_from_epoch(y as int, m as int, d as int),
{
    let leap: i64 = if m > 2 && ((y % 4 == 0 && y % 100 != 0) || y % 400 == 0) { 1 } else { 0 };
    let before: i64 = if m == 1 { 0 }
        else if m == 2 { 31 }
        else if m == 3 { 59 }
        else if m == 4 { 90 }
        else if m == 5 { 120 }
        else if m == 6 { 151 }
        else if m == 7 { 181 }
        else if m == 8 { 212 }
        else if m == 9 { 243 }
        else if m == 10 { 273 }
        else if m == 11 { 304 }
        else { 334 };
    year_days(y) + leap + before + d - 1
}

/// Days from 0000-01-01 to the first day of year `yoe` of an era.
fn era_year_start(yoe: i64) -> (r: i64)
    requires
        0 <= yoe <= 400,
    ensures
        r == year_start(yoe as int),
{
    365 * yoe + (yoe + 3) / 4 - (yoe + 99) / 100 + (yoe + 399) / 400
}

/// The date `z` days after 1970-01-01.
pub fn civil_from_days(z: i64) -> (r: (i64, i64, i64))
    requires
        -1_000_000_000_000 <= z <= 1_000_000_000_000,
    ensures
        valid_date(r.0 as int, r.1 as int, r.2 as int),
        days_from_epoch(r.0 as int, r.1 as int, r.2 as int) == z,
{
    let t = z + (365 * 1970 + 478);
    let era = div_floor(t, 146097);
    let doe = t - era * 146097;
    assert(0 <= doe < 146097) by (nonlinear_arith)
        requires doe == t - era * 146097, era == t / 146097;
    proof {
        lemma_year_len(399);
        assert(year_start(400) == 146097);
    }
    let mut yoe: i64 = 0;
    while yoe < 399 && era_year_start(yoe + 1) <= doe
        invariant
            0 <= yoe <= 399,
            0 <= doe < 146097,
            year_start(yoe as int) <= doe,
        decreases 399 - yoe,
    {
        yoe += 1;
    }
    proof {
        lemma_year_len(yoe as int);
        if yoe == 399 {
            assert(year_start(400) == 146097);
        }
    }
    let doy = doe - era_year_start(yoe);
    assert(0 <= doy < if is_leap(yoe as int) { 366int } else { 365int });
    let y = era * 400 + yoe;
    proof {
        lemma_era(yoe as int, era as int);
        assert(y == yoe + 400 * era);
    }
    let mut m: i64 = 1;
    let mut start: i64 = 0;
    while m < 12 && start + days_in_month(y, m) <= doy
        invariant
            1 <= m <= 12,
            -1_000_000_000_000_000 <= y <= 1_000_000_000_000_000,
            is_leap(y as int) == is_leap(yoe as int),
            0 <= doy < if is_leap(yoe as int) { 366int } else { 365int },
            start == days_before_month(y as int, m as int),
            start <= doy,
        decreases 12 - m,
    {
        proof { lemma_month_step(y as int, m as int); }
        start = start + days_in_month(y, m);
        m += 1;
    }
    let d = doy - start + 1;
    (y, m, d)
}

} // verus!
