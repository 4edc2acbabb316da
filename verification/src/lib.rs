//! A calendar-respecting duration library.
//!
//! A [`CalendarDuration`] is parsed from a compact string such as `3d2h10m` or
//! `-1y2mon`, rendered back as an English phrase, and applied to a
//! `time::OffsetDateTime` with correct calendar semantics: variable-length
//! units (years, months) clamp the day of month instead of rolling over, and
//! fixed-length units (weeks, days, hours, minutes, seconds) are delegated to
//! the `time` crate's exact arithmetic.
//!
//! ## Duration string syntax
//! A sequence of `value` + `unit` pairs, optionally prefixed by `-`:
//! - `y` for years
//! - `mon` for months
//! - `w` for weeks
//! - `d` for days
//! - `h` for hours
//! - `m` for minutes
//! - `s` for seconds

use vstd::prelude::*;

pub mod calendar;
pub mod ops;
pub mod parse;
pub mod phrase;

verus! {

/// A signed, calendar-aware span of time: seven non-negative magnitude fields
/// and a single sign flag that applies to all of them uniformly.
#[derive(Debug, Copy, Clone, PartialEq, Eq, Structural)]
pub struct CalendarDuration {
    pub negative: bool,
    pub years: u16,
    pub months: u8,
    pub weeks: u32,
    pub days: u32,
    pub hours: u32,
    pub minutes: u32,
    pub seconds: u32,
}

impl CalendarDuration {
    /// The all-zero duration with the sign flag cleared.
    pub open spec fn zero_spec() -> Self {
        CalendarDuration {
            negative: false,
            years: 0,
            months: 0,
            weeks: 0,
            days: 0,
            hours: 0,
            minutes: 0,
            seconds: 0,
        }
    }

    /// A duration is zero when every magnitude field is zero; the sign flag
    /// plays no part in this.
    pub open spec fn is_zero_spec(self) -> bool {
        self.years == 0 && self.months == 0 && self.weeks == 0 && self.days == 0 && self.hours
            == 0 && self.minutes == 0 && self.seconds == 0
    }

    /// Negation toggles the sign flag and leaves every magnitude untouched.
    pub open spec fn negated_spec(self) -> Self {
        CalendarDuration { negative: !self.negative, ..self }
    }

    /// Returns true if the duration is zero.
    pub fn is_zero(&self) -> (r: bool)
        ensures
            r == self.is_zero_spec(),
    {
        self.years == 0 && self.months == 0 && self.weeks == 0 && self.days == 0 && self.hours
            == 0 && self.minutes == 0 && self.seconds == 0
    }

    /// Returns the duration with the opposite sign.
    pub fn negated(self) -> (r: Self)
        ensures
            r == self.negated_spec(),
    {
        CalendarDuration { negative: !self.negative, ..self }
    }

    /// Applies the sign flag to a magnitude: the value itself when the flag is
    /// clear, its negation when the flag is set.
    pub fn actual_unit_val(&self, value: i64) -> (r: i64)
        requires
            value != i64::MIN,
        ensures
            r == if self.negative {
                -(value as int)
            } else {
                value as int
            },
    {
        if self.negative {
            -value
        } else {
            value
        }
    }
}

impl Default for CalendarDuration {
    /// The default duration is zero with the sign flag cleared.
    fn default() -> (r: Self)
        ensures
            r == CalendarDuration::zero_spec(),
    {
        CalendarDuration {
            negative: false,
            years: 0,
            months: 0,
            weeks: 0,
            days: 0,
            hours: 0,
            minutes: 0,
            seconds: 0,
        }
    }
}

/// Negating a duration twice yields the original duration, field for field.
pub proof fn lemma_negated_involutive(d: CalendarDuration)
    ensures
        d.negated_spec().negated_spec() == d,
{
}

} // verus!
