//! Applying a [`CalendarDuration`] to a `time::OffsetDateTime`.
//!
//! The variable-length units (years, months) are applied by the verified
//! calendar engine on plain year / month / day values; the date component of
//! the point in time is then replaced wholesale. The fixed-length units are
//! summed into one exact span of seconds and handed to the `time` crate's
//! arithmetic. The point in time itself is opaque; what the `time` crate reads
//! from it or builds out of it is named by the uninterpreted functions below,
//! and the contracts of `add_to` and `subtract_from` are stated over those
//! names.

use vstd::prelude::*;

use time::OffsetDateTime;

use crate::CalendarDuration;
use crate::calendar::{apply_variable, applied_variable, is_valid_date};

verus! {

use vstd::arithmetic::div_mod::lemma_fundamental_div_mod_converse;

#[verifier::external_type_specification]
#[verifier::external_body]
pub struct ExOffsetDateTime(OffsetDateTime);

/// The calendar date (year, month, day of month) a point in time shows in its
/// stored offset. Names the result of `time::OffsetDateTime::to_calendar_date`,
/// a fixed function of the value.
pub uninterp spec fn date_of(t: OffsetDateTime) -> (int, int, int);

/// The clock time a point in time shows in its stored offset, as nanoseconds
/// into the day. Names the result of `time::OffsetDateTime::time`.
pub uninterp spec fn clock_of(t: OffsetDateTime) -> int;

/// The stored offset, in seconds. Names the result of
/// `time::OffsetDateTime::offset`.
pub uninterp spec fn offset_of(t: OffsetDateTime) -> int;

/// The point in time with its calendar date replaced by the given valid date.
/// Names the result of `time::OffsetDateTime::replace_date` applied to
/// `time::Date::from_calendar_date(y, m, d)`.
pub uninterp spec fn with_date(t: OffsetDateTime, y: int, m: int, d: int) -> OffsetDateTime;

/// The absolute position of a point in time, as nanoseconds since an epoch on
/// the shared timeline. Names the result of
/// `time::OffsetDateTime::unix_timestamp_nanos`.
pub uninterp spec fn instant_of(t: OffsetDateTime) -> int;

/// The point in time moved by a whole number of seconds, or `None` when that
/// leaves the representable range. Names the result of
/// `time::OffsetDateTime::checked_add` on a whole-second span.
pub uninterp spec fn checked_shift(t: OffsetDateTime, secs: int) -> Option<OffsetDateTime>;

/// The fixed-length units of a duration expressed as one signed count of
/// seconds: weeks, days, hours, minutes and seconds at their constant lengths.
pub open spec fn fixed_seconds_spec(dur: CalendarDuration) -> int {
    let mag = dur.weeks * 604_800 + dur.days * 86_400 + dur.hours * 3_600 + dur.minutes * 60
        + dur.seconds;
    if dur.negative {
        -mag
    } else {
        mag
    }
}

/// What adding a duration to a point in time yields: the calendar date shifted
/// by the variable-length units (years, then months, clamping the day), then —
/// when the target year is one the `time` crate can hold — the fixed-length
/// units applied as one exact shift of seconds. Replacing the date with itself
/// leaves the point in time untouched, so that case shifts the input directly.
pub open spec fn added_spec(dur: CalendarDuration, t: OffsetDateTime) -> Option<OffsetDateTime> {
    let (y, m, d) = date_of(t);
    let (y2, m2, d2) = applied_variable(dur, y, m, d);
    if !(-9_999 <= y2 <= 9_999) {
        None
    } else if y2 == y && m2 == m && d2 == d {
        checked_shift(t, fixed_seconds_spec(dur))
    } else {
        checked_shift(with_date(t, y2, m2, d2), fixed_seconds_spec(dur))
    }
}

/// Relies on `time::OffsetDateTime::to_calendar_date`: an `OffsetDateTime`
/// always carries a valid proleptic-Gregorian date whose year lies in
/// -9999..=9999, and the month number of `time::Month` is 1..=12.
#[verifier::external_body]
fn date_parts(t: &OffsetDateTime) -> (r: (i32, u8, u8))
    ensures
        (r.0 as int, r.1 as int, r.2 as int) == date_of(*t),
        is_valid_date(r.0 as int, r.1 as int, r.2 as int),
        -9_999 <= r.0 <= 9_999,
{
    let (y, month, d) = t.to_calendar_date();
    (y, month as u8, d)
}

/// Relies on `time::Date::from_calendar_date`, which succeeds exactly for
/// valid calendar dates with a year in -9999..=9999, and on
/// `time::OffsetDateTime::replace_date`, which swaps in the new date and keeps
/// the clock time and the offset; replacing the date an instant already shows
/// reproduces that instant.
#[verifier::external_body]
fn replace_date_parts(t: &OffsetDateTime, y: i32, m: u8, d: u8) -> (r: Option<OffsetDateTime>)
    ensures
        r.is_some() <==> (is_valid_date(y as int, m as int, d as int) && -9_999 <= y <= 9_999),
        r.is_some() ==> r == Some(with_date(*t, y as int, m as int, d as int)),
        (match r {
            Some(q) => date_of(q) == (y as int, m as int, d as int) && clock_of(q) == clock_of(*t)
                && offset_of(q) == offset_of(*t),
            None => true,
        }),
        (y as int, m as int, d as int) == date_of(*t) && r.is_some() ==> r == Some(*t),
{
    let month = match time::Month::try_from(m) {
        Ok(month) => month,
        Err(_) => return None,
    };
    match time::Date::from_calendar_date(y, month, d) {
        Ok(date) => Some(t.replace_date(date)),
        Err(_) => None,
    }
}

/// Relies on `time::SignedDuration::seconds`, which builds a whole-second span
/// from any `i64`, and on `time::OffsetDateTime::checked_add`: it returns
/// `None` instead of overflowing past the representable range, moving by zero
/// returns the input, and a successful move is exact — the instant advances by
/// precisely the requested seconds, the offset is kept, moving back by the
/// same count restores the input, and the result (like every `OffsetDateTime`)
/// carries a valid date with a year in -9999..=9999.
#[verifier::external_body]
fn add_seconds(t: OffsetDateTime, secs: i64) -> (r: Option<OffsetDateTime>)
    ensures
        r == checked_shift(t, secs as int),
        secs == 0 ==> r == Some(t),
        (match r {
            Some(q) => instant_of(q) == instant_of(t) + secs * 1_000_000_000 && offset_of(q)
                == offset_of(t) && checked_shift(q, -(secs as int)) == Some(t) && is_valid_date(
                date_of(q).0,
                date_of(q).1,
                date_of(q).2,
            ) && -9_999 <= date_of(q).0 <= 9_999,
            None => true,
        }),
{
    t.checked_add(time::SignedDuration::seconds(secs))
}

impl CalendarDuration {
    /// The fixed-length part of the duration as one signed count of seconds.
    pub fn fixed_seconds(&self) -> (r: i64)
        ensures
            r == fixed_seconds_spec(*self),
    {
        let mag: i64 = self.weeks as i64 * 604_800 + self.days as i64 * 86_400 + self.hours as i64
            * 3_600 + self.minutes as i64 * 60 + self.seconds as i64;
        self.actual_unit_val(mag)
    }

    /// Adds this duration to a point in time: years first, then months (each
    /// clamping the day of month to the last valid day), then the fixed-length
    /// units as one exact span of seconds. Returns `None` when the result
    /// would leave the range the `time` crate can represent. Adding a zero
    /// duration returns the input unchanged, and a duration without year and
    /// month steps moves the instant by exactly its seconds and is undone by
    /// shifting back.
    pub fn add_to(&self, t: OffsetDateTime) -> (r: Option<OffsetDateTime>)
        ensures
            r == added_spec(*self, t),
            self.is_zero_spec() ==> r == Some(t),
            (match r {
                Some(q) => offset_of(q) == offset_of(t) && is_valid_date(
                    date_of(q).0,
                    date_of(q).1,
                    date_of(q).2,
                ) && -9_999 <= date_of(q).0 <= 9_999,
                None => true,
            }),
            self.years == 0 && self.months == 0 ==> r == checked_shift(
                t,
                fixed_seconds_spec(*self),
            ),
            self.years == 0 && self.months == 0 ==> (match r {
                Some(q) => instant_of(q) == instant_of(t) + fixed_seconds_spec(*self)
                    * 1_000_000_000 && checked_shift(q, -fixed_seconds_spec(*self)) == Some(t),
                None => true,
            }),
    {
        let (y, m, d) = date_parts(&t);
        let (y2, m2, d2) = apply_variable(self, y, m, d);
        proof {
            if self.years == 0 && self.months == 0 {
                lemma_apply_variable_fixed_only(*self, y as int, m as int, d as int);
            }
        }
        if y2 < -9_999 || y2 > 9_999 {
            return None;
        }
        let t2 = replace_date_parts(&t, y2, m2, d2).unwrap();
        add_seconds(t2, self.fixed_seconds())
    }

    /// Subtracts this duration from a point in time: exactly the addition of
    /// the negated duration.
    pub fn subtract_from(&self, t: OffsetDateTime) -> (r: Option<OffsetDateTime>)
        ensures
            r == added_spec(self.negated_spec(), t),
            self.is_zero_spec() ==> r == Some(t),
            self.years == 0 && self.months == 0 ==> r == checked_shift(
                t,
                -fixed_seconds_spec(*self),
            ),
    {
        proof {
            lemma_fixed_seconds_negated(*self);
        }
        self.negated().add_to(t)
    }
}

/// A duration without year and month steps leaves the calendar date alone.
pub proof fn lemma_apply_variable_fixed_only(dur: CalendarDuration, y: int, m: int, d: int)
    requires
        is_valid_date(y, m, d),
        dur.years == 0,
        dur.months == 0,
    ensures
        applied_variable(dur, y, m, d) == (y, m, d),
{
    lemma_fundamental_div_mod_converse(m - 1, 12, 0, m - 1);
}

/// Negating a duration negates its fixed-length span of seconds exactly.
pub proof fn lemma_fixed_seconds_negated(d: CalendarDuration)
    ensures
        fixed_seconds_spec(d.negated_spec()) == -fixed_seconds_spec(d),
{
}

} // verus!
