//! Civil (proleptic Gregorian, UTC) dates of Unix timestamps.

use vstd::prelude::*;

verus! {

/// Gregorian leap year.
pub open spec fn is_leap(y: int) -> bool {
    y % 4 == 0 && (y % 100 != 0 || y % 400 == 0)
}

/// Number of leap years in `1 ..= y` (for `y >= 0`).
pub open spec fn leaps_through(y: int) -> int {
    y / 4 - y / 100 + y / 400
}

/// Days from 1970-01-01 to January 1st of `y`.
pub open spec fn days_before_year(y: int) -> int {
    365 * (y - 1970) + leaps_through(y - 1) - leaps_through(1969)
}

/// Days from January 1st to the first day of month `m` (1..=12) of year `y`.
pub open spec fn days_before_month(y: int, m: int) -> int {
    let base: int = if m == 1 { 0 }
        else if m == 2 { 31 }
        else if m == 3 { 59 }
        else if m == 4 { 90 }
        else if m == 5 { 120 }
        else if m == 6 { 151 }
        else if m == 7 { 181 }
        else if m == 8 { 212 }
        else if m == 9 { 243 }
        else if m == 10 { 273 }
        else if m == 11 { 304 }
        else { 334 };
    if m > 2 && is_leap(y) { base + 1 } else { base }
}

/// Length of month `m` of year `y`.
pub open spec fn days_in_month(y: int, m: int) -> int {
    if m == 2 {
        if is_leap(y) { 29 } else { 28 }
    } else if m == 4 || m == 6 || m == 9 || m == 11 {
        30
    } else {
        31
    }
}

/// A real calendar date.
pub open spec fn valid_date(y: int, m: int, d: int) -> bool {
    1 <= m <= 12 && 1 <= d <= days_in_month(y, m)
}

/// Days from 1970-01-01 to the date `y-m-d`.
pub open spec fn day_number(y: int, m: int, d: int) -> int {
    days_before_year(y) + days_before_month(y, m) + d - 1
}

proof fn lemma_year_of_era(doe: u32)
    by (bit_vector)
    requires
        doe < 146097,
    ensures
        ({
            let yoe = (doe - doe / 1460 + doe / 36524 - doe / 146096) / 365;
            let start = 365 * yoe + yoe / 4 - yoe / 100;
            &&& yoe <= 399
            &&& start <= doe
            &&& doe - start < 365 + (if (yoe + 1) % 4 == 0 && ((yoe + 1) % 100 != 0 || (yoe + 1) % 400 == 0) { 1int } else { 0int })
        }),
{
}

proof fn lemma_month_of_year(doy: u32)
    by (bit_vector)
    requires
        doy < 366,
    ensures
        ({
            let mp = (5 * doy + 2) / 153;
            let s = (153 * mp + 2) / 5;
            &&& mp <= 11
            &&& s <= doy
            &&& doy - s < (if mp == 1 || mp == 3 || mp == 6 || mp == 8 { 30int } else { 31int })
            &&& (mp == 11 ==> s == 337)
            &&& (mp == 10 ==> s == 306)
            &&& (mp == 0 ==> s == 0)
            &&& (mp == 1 ==> s == 31)
            &&& (mp == 2 ==> s == 61)
            &&& (mp == 3 ==> s == 92)
            &&& (mp == 4 ==> s == 122)
            &&& (mp == 5 ==> s == 153)
            &&& (mp == 6 ==> s == 184)
            &&& (mp == 7 ==> s == 214)
            &&& (mp == 8 ==> s == 245)
            &&& (mp == 9 ==> s == 275)
        }),
{
}

proof fn lemma_leaps_step(y: int)
    requires
        y >= 1,
    ensures
        leaps_through(y) == leaps_through(y - 1) + (if is_leap(y) { 1int } else { 0int }),
{
}

proof fn lemma_era_leap(era: int, k: int)
    requires
        era >= 0,
        0 <= k <= 400,
    ensures
        is_leap(400 * era + k) == (k % 4 == 0 && (k % 100 != 0 || k % 400 == 0)),
        leaps_through(400 * era + k) == 97 * era + k / 4 - k / 100 + k / 400,
{
}

proof fn lemma_day_in_year(y: int, m: int, d: int)
    requires
        y >= 1970,
        valid_date(y, m, d),
    ensures
        days_before_year(y) <= day_number(y, m, d) < days_before_year(y + 1),
{
    lemma_leaps_step(y);
    assert(days_before_year(y + 1) == days_before_year(y) + 365 + (if is_leap(y) { 1int } else { 0int }));
}

proof fn lemma_years_increase(a: int, b: int)
    requires
        1970 <= a < b,
    ensures
        days_before_year(a + 1) <= days_before_year(b),
    decreases b - a,
{
    if b > a + 1 {
        lemma_years_increase(a, b - 1);
        lemma_leaps_step(b - 1);
    }
}

proof fn lemma_month_order(y: int, m1: int, m2: int)
    requires
        1 <= m1 < m2 <= 12,
    ensures
        days_before_month(y, m1) + days_in_month(y, m1) <= days_before_month(y, m2),
{
}

/// Each day number names exactly one date: two valid dates from 1970 on with
/// the same day number are the same date. So the date of a timestamp is
/// determined by its day number.
pub proof fn lemma_date_unique(y1: int, m1: int, d1: int, y2: int, m2: int, d2: int)
    requires
        y1 >= 1970,
        y2 >= 1970,
        valid_date(y1, m1, d1),
        valid_date(y2, m2, d2),
        day_number(y1, m1, d1) == day_number(y2, m2, d2),
    ensures
        y1 == y2,
        m1 == m2,
        d1 == d2,
{
    lemma_day_in_year(y1, m1, d1);
    lemma_day_in_year(y2, m2, d2);
    if y1 < y2 {
        lemma_years_increase(y1, y2);
    } else if y2 < y1 {
        lemma_years_increase(y2, y1);
    }
    assert(y1 == y2);
    if m1 < m2 {
        lemma_month_order(y1, m1, m2);
    } else if m2 < m1 {
        lemma_month_order(y1, m2, m1);
    }
}

/// The civil date `(year, month, day)` of a Unix timestamp in seconds (UTC):
/// the date whose day number since 1970-01-01 is `secs / 86400`, with the year
/// reduced modulo 2^32 (it exceeds `u32::MAX` only for timestamps past the
/// year 4294967295).
#[verifier::rlimit(60)]
pub fn ymd_from_unix(secs: u64) -> (r: (u32, u32, u32))
    ensures
        exists|y: int|
            #![trigger day_number(y, r.1 as int, r.2 as int)]
            y >= 1970 && r.0 == y as u32 && valid_date(y, r.1 as int, r.2 as int) && day_number(
                y,
                r.1 as int,
                r.2 as int,
            ) == secs / 86400,
{
    let days: u64 = secs / 86400;
    let z: u64 = days + 719_468;
    let era: u64 = z / 146_097;
    let doe: u64 = z - era * 146_097;
    proof {
        lemma_year_of_era(doe as u32);
    }
    let yoe: u64 = (doe - doe / 1_460 + doe / 36_524 - doe / 146_096) / 365;
    let y0: u64 = yoe + era * 400;
    let doy: u64 = doe - (365 * yoe + yoe / 4 - yoe / 100);
    proof {
        lemma_month_of_year(doy as u32);
    }
    let mp: u64 = (5 * doy + 2) / 153;
    let d: u64 = doy - (153 * mp + 2) / 5 + 1;
    let m: u64 = if mp < 10 {
        mp + 3
    } else {
        mp - 9
    };
    let y: u64 = if m <= 2 {
        y0 + 1
    } else {
        y0
    };
    proof {
        let yi = y as int;
        lemma_era_leap(era as int, yoe as int);
        lemma_era_leap(era as int, yoe + 1);
        if yi >= 1 {
            lemma_era_leap(era as int, yoe as int);
        }
        if mp < 10 {
            assert(y0 >= 1) by {
                assert(z >= 719468);
            }
            lemma_leaps_step(y0 as int);
        }
        assert(valid_date(yi, m as int, d as int));
        assert(day_number(yi, m as int, d as int) == days);
        assert(yi >= 1970);
    }
    let r = (y as u32, m as u32, d as u32);
    assert(r.1 as int == m as int && r.2 as int == d as int);
    assert(day_number(y as int, r.1 as int, r.2 as int) == secs / 86400);
    r
}

/// The `(hour, minute)` of a Unix timestamp within its (UTC) day.
pub fn hm_from_unix(secs: u64) -> (r: (u32, u32))
    ensures
        r.0 == (secs % 86400) / 3600,
        r.1 == (secs % 3600) / 60,
{
    let s = secs % 86400;
    assert(s % 3600 == secs % 3600) by (nonlinear_arith)
        requires
            s == secs % 86400,
    ;
    ((s / 3600) as u32, (s % 3600 / 60) as u32)
}

} // verus!
