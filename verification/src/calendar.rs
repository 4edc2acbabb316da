//! Calendar arithmetic on plain year / month / day values.
//!
//! Years and months are variable-length units: applying them replaces the year
//! and month components and clamps the day of month to the last valid day when
//! the original day does not exist in the target month (Jan 31 plus one month
//! is Feb 28 or 29, never Mar 2 or 3). The functions here work on the proleptic
//! Gregorian calendar, the same calendar the `time` crate uses.

use vstd::prelude::*;

use crate::CalendarDuration;

verus! {

use vstd::arithmetic::div_mod::{
    lemma_add_mod_noop,
    lemma_fundamental_div_mod,
    lemma_fundamental_div_mod_converse,
    lemma_mod_bound,
    lemma_mod_multiples_vanish,
};

/// A year is a leap year when it is divisible by 4 and not by 100, unless it
/// is also divisible by 400.
pub open spec fn is_leap_year(y: int) -> bool {
    y % 4 == 0 && (y % 100 != 0 || y % 400 == 0)
}

/// The number of days in a month of a given year.
pub open spec fn days_in_month(y: int, m: int) -> int {
    if m == 2 {
        if is_leap_year(y) {
            29
        } else {
            28
        }
    } else if m == 4 || m == 6 || m == 9 || m == 11 {
        30
    } else {
        31
    }
}

/// A valid calendar date: the month is in range and the day exists in that
/// month of that year.
pub open spec fn is_valid_date(y: int, m: int, d: int) -> bool {
    1 <= m <= 12 && 1 <= d <= days_in_month(y, m)
}

/// The largest valid day of month `m` in year `y` that is at most `d`.
pub open spec fn clamped_day(d: int, y: int, m: int) -> int {
    if d <= days_in_month(y, m) {
        d
    } else {
        days_in_month(y, m)
    }
}

/// Replacing the year component: the month is kept and the day is clamped to
/// the last valid day of that month in the target year.
pub open spec fn shifted_years(y: int, m: int, d: int, dy: int) -> (int, int, int) {
    (y + dy, m, clamped_day(d, y + dy, m))
}

/// Replacing the month component after folding whole years out of the month
/// delta. The month and year are treated as one linear count: the target year
/// delta is the floor of `(m - 1 + dm) / 12` and the target month is the
/// remainder. The day is clamped first in the target year (the year step) and
/// then in the target month.
pub open spec fn shifted_months(y: int, m: int, d: int, dm: int) -> (int, int, int) {
    let total = (m - 1) + dm;
    let yd = total / 12;
    let tm = total % 12 + 1;
    let d1 = clamped_day(d, y + yd, m);
    (y + yd, tm, clamped_day(d1, y + yd, tm))
}

/// The signed year and month deltas of a duration, and then the result of
/// applying them in order: years first, then months.
pub open spec fn applied_variable(dur: CalendarDuration, y: int, m: int, d: int) -> (
    int,
    int,
    int,
) {
    let dy = if dur.negative {
        -(dur.years as int)
    } else {
        dur.years as int
    };
    let dm = if dur.negative {
        -(dur.months as int)
    } else {
        dur.months as int
    };
    let (y1, m1, d1) = shifted_years(y, m, d, dy);
    shifted_months(y1, m1, d1, dm)
}

/// Whether `y` is a leap year.
pub fn is_leap_year_exec(y: i32) -> (r: bool)
    requires
        -1_000_000 <= y <= 1_000_000,
    ensures
        r == is_leap_year(y as int),
{
    let z: i64 = (y as i64) + 800_000_000;
    proof {
        lemma_mod_multiples_vanish(200_000_000, y as int, 4);
        lemma_mod_multiples_vanish(8_000_000, y as int, 100);
        lemma_mod_multiples_vanish(2_000_000, y as int, 400);
    }
    let zu: u64 = z as u64;
    zu % 4 == 0 && (zu % 100 != 0 || zu % 400 == 0)
}

/// The number of days in month `m` of year `y`.
pub fn days_in_month_exec(y: i32, m: u8) -> (r: u8)
    requires
        -1_000_000 <= y <= 1_000_000,
        1 <= m <= 12,
    ensures
        r as int == days_in_month(y as int, m as int),
        28 <= r <= 31,
{
    if m == 2 {
        if is_leap_year_exec(y) {
            29
        } else {
            28
        }
    } else if m == 4 || m == 6 || m == 9 || m == 11 {
        30
    } else {
        31
    }
}

/// Adds `dy` years to a date. The month is kept; if the day does not exist in
/// the target year (Feb 29 outside a leap year) it is clamped to the last
/// valid day, never carried into the next month.
pub fn shift_years(y: i32, m: u8, d: u8, dy: i32) -> (r: (i32, u8, u8))
    requires
        is_valid_date(y as int, m as int, d as int),
        -200_000 <= y <= 200_000,
        -70_000 <= dy <= 70_000,
    ensures
        (r.0 as int, r.1 as int, r.2 as int) == shifted_years(y as int, m as int, d as int, dy as int),
        is_valid_date(r.0 as int, r.1 as int, r.2 as int),
        -270_000 <= r.0 <= 270_000,
{
    let ty: i32 = y + dy;
    let dim: u8 = days_in_month_exec(ty, m);
    let day: u8 = if d <= dim {
        d
    } else {
        dim
    };
    (ty, m, day)
}

/// Adds `dm` months to a date. Whole years are folded out of the month delta
/// with floor semantics, applied via the year shift, and the remaining cyclic
/// month step replaces the month, clamping the day to the last valid day of
/// the target month.
pub fn shift_months(y: i32, m: u8, d: u8, dm: i32) -> (r: (i32, u8, u8))
    requires
        is_valid_date(y as int, m as int, d as int),
        -200_000 <= y <= 200_000,
        -300 <= dm <= 300,
    ensures
        (r.0 as int, r.1 as int, r.2 as int) == shifted_months(y as int, m as int, d as int, dm as int),
        is_valid_date(r.0 as int, r.1 as int, r.2 as int),
        -270_000 <= r.0 <= 270_000,
{
    let total: i32 = m as i32 - 1 + dm;
    let t2: u32 = (total + 600) as u32;
    let yd: i32 = (t2 / 12) as i32 - 50;
    let mi: u32 = t2 % 12;
    proof {
        lemma_fundamental_div_mod(t2 as int, 12);
        lemma_fundamental_div_mod_converse(total as int, 12, yd as int, mi as int);
    }
    let tm: u8 = (mi + 1) as u8;
    let (y1, _m1, d1) = shift_years(y, m, d, yd);
    let dim: u8 = days_in_month_exec(y1, tm);
    let day: u8 = if d1 <= dim {
        d1
    } else {
        dim
    };
    (y1, tm, day)
}

/// Applies the variable-length units of a duration (years, then months, each
/// signed by the duration's flag) to a date.
pub fn apply_variable(dur: &CalendarDuration, y: i32, m: u8, d: u8) -> (r: (i32, u8, u8))
    requires
        is_valid_date(y as int, m as int, d as int),
        -10_000 <= y <= 10_000,
    ensures
        (r.0 as int, r.1 as int, r.2 as int) == applied_variable(*dur, y as int, m as int, d as int),
        is_valid_date(r.0 as int, r.1 as int, r.2 as int),
        -200_000 <= r.0 <= 200_000,
{
    let dy: i32 = if dur.negative {
        -(dur.years as i32)
    } else {
        dur.years as i32
    };
    let dm: i32 = if dur.negative {
        -(dur.months as i32)
    } else {
        dur.months as i32
    };
    let (y1, m1, d1) = shift_years(y, m, d, dy);
    shift_months(y1, m1, d1, dm)
}

/// Adding one month to the 31st of January clamps the day to the end of
/// February — the 29th in a leap year, the 28th otherwise — and never carries
/// into March.
pub proof fn lemma_january_month_end_clamp(y: int)
    ensures
        shifted_months(y, 1, 31, 1) == (
            y,
            2int,
            if is_leap_year(y) {
                29int
            } else {
                28int
            },
        ),
{
}

/// Adding twelve months to the 29th of February of a leap year gives the 28th
/// of February of the following year: the day is clamped when the year is
/// replaced.
pub proof fn lemma_leap_day_plus_twelve_months(y: int)
    requires
        is_leap_year(y),
    ensures
        shifted_months(y, 2, 29, 12) == (y + 1, 2int, 28int),
{
    lemma_add_mod_noop(y, 1, 4);
    assert((y + 1) % 4 == 1);
}

/// Adding 38 months to a date in November lands in January four calendar
/// years on, with the day of month kept.
pub proof fn lemma_november_plus_38_months(y: int, d: int)
    requires
        is_valid_date(y, 11, d),
    ensures
        shifted_months(y, 11, d, 38) == (y + 4, 1int, d),
{
}

/// Adding a year delta and then subtracting it returns the original date
/// whenever the first step did not clamp the day.
pub proof fn lemma_shift_years_roundtrip(y: int, m: int, d: int, dy: int)
    requires
        is_valid_date(y, m, d),
        shifted_years(y, m, d, dy).2 == d,
    ensures
        shifted_years(y + dy, m, d, -dy) == (y, m, d),
{
}

/// Adding a month delta and then subtracting it returns the original date
/// whenever neither application clamped the day.
pub proof fn lemma_shift_months_roundtrip(y: int, m: int, d: int, dm: int)
    requires
        is_valid_date(y, m, d),
        shifted_months(y, m, d, dm).2 == d,
        shifted_months(
            shifted_months(y, m, d, dm).0,
            shifted_months(y, m, d, dm).1,
            d,
            -dm,
        ).2 == d,
    ensures
        shifted_months(
            shifted_months(y, m, d, dm).0,
            shifted_months(y, m, d, dm).1,
            d,
            -dm,
        ) == (y, m, d),
{
    let total = (m - 1) + dm;
    let yd = total / 12;
    let mi = total % 12;
    lemma_fundamental_div_mod(total, 12);
    lemma_mod_bound(total, 12);
    let back = mi - dm;
    lemma_fundamental_div_mod_converse(back, 12, -yd, m - 1);
}

/// Adding a duration's variable-length units and then those of its negation
/// returns the original date whenever no day clamping occurred during either
/// application.
pub proof fn lemma_apply_variable_roundtrip(dur: CalendarDuration, y: int, m: int, d: int)
    requires
        is_valid_date(y, m, d),
        applied_variable(dur, y, m, d).2 == d,
        applied_variable(
            dur.negated_spec(),
            applied_variable(dur, y, m, d).0,
            applied_variable(dur, y, m, d).1,
            d,
        ).2 == d,
    ensures
        applied_variable(
            dur.negated_spec(),
            applied_variable(dur, y, m, d).0,
            applied_variable(dur, y, m, d).1,
            d,
        ) == (y, m, d),
{
    let dy = if dur.negative {
        -(dur.years as int)
    } else {
        dur.years as int
    };
    let dm = if dur.negative {
        -(dur.months as int)
    } else {
        dur.months as int
    };
    let total = (m - 1) + dm;
    let yd = total / 12;
    let mi = total % 12;
    lemma_fundamental_div_mod(total, 12);
    lemma_mod_bound(total, 12);
    let back = mi - dm;
    lemma_fundamental_div_mod_converse(back, 12, -yd, m - 1);
}

} // verus!
