use calendar_duration::CalendarDuration;
use calendar_duration::calendar::{apply_variable, days_in_month_exec, is_leap_year_exec, shift_months, shift_years};
use time::format_description::well_known::Rfc3339;
use time::OffsetDateTime;

fn assert_rfc3339_eq(time: OffsetDateTime, formatted: &str) {
    assert_eq!(time.format(&Rfc3339).unwrap(), formatted);
}

#[test]
fn basic_addition() {
    let base_time = OffsetDateTime::parse("2021-02-01T00:00:00Z", &Rfc3339).unwrap();

    let duration1 = CalendarDuration {
        hours: 1,
        minutes: 20,
        seconds: 5,
        ..Default::default()
    };
    assert_rfc3339_eq(duration1.add_to(base_time).unwrap(), "2021-02-01T01:20:05Z");

    let duration2 = CalendarDuration {
        months: 2,
        days: 5,
        hours: 5,
        seconds: 51,
        ..Default::default()
    };
    assert_rfc3339_eq(duration2.add_to(base_time).unwrap(), "2021-04-06T05:00:51Z");

    let duration3 = CalendarDuration {
        months: 1,
        weeks: 2,
        days: 1,
        hours: 1,
        ..Default::default()
    };
    assert_rfc3339_eq(duration3.add_to(base_time).unwrap(), "2021-03-16T01:00:00Z");

    let mut duration3 = CalendarDuration {
        days: 1,
        hours: 1,
        ..Default::default()
    };
    assert_rfc3339_eq(duration3.subtract_from(base_time).unwrap(), "2021-01-30T23:00:00Z");

    duration3 = duration3.negated();
    assert_rfc3339_eq(duration3.add_to(base_time).unwrap(), "2021-01-30T23:00:00Z");
}

#[test]
fn february_addition() {
    let time = OffsetDateTime::parse("2020-01-31T00:00:00Z", &Rfc3339).unwrap();

    let month_duration = CalendarDuration {
        months: 1,
        ..Default::default()
    };
    let time = month_duration.add_to(time).unwrap();
    assert_rfc3339_eq(time, "2020-02-29T00:00:00Z");

    let year_duration = CalendarDuration {
        years: 1,
        ..Default::default()
    };
    assert_rfc3339_eq(year_duration.add_to(time).unwrap(), "2021-02-28T00:00:00Z");
    assert_rfc3339_eq(year_duration.subtract_from(time).unwrap(), "2019-02-28T00:00:00Z");

    let time = OffsetDateTime::parse("2020-02-29T00:00:00Z", &Rfc3339).unwrap();
    let twelve_months_duration = CalendarDuration {
        months: 12,
        ..Default::default()
    };
    assert_rfc3339_eq(twelve_months_duration.add_to(time).unwrap(), "2021-02-28T00:00:00Z");
}

#[test]
fn month_year_rollover() {
    let time = OffsetDateTime::parse("2021-12-15T11:00:00Z", &Rfc3339).unwrap();

    let mut duration = CalendarDuration {
        months: 1,
        ..Default::default()
    };
    let time = duration.add_to(time).unwrap();
    assert_rfc3339_eq(time, "2022-01-15T11:00:00Z");

    duration.negative = true;
    assert_rfc3339_eq(duration.add_to(time).unwrap(), "2021-12-15T11:00:00Z");

    let time = OffsetDateTime::parse("2021-11-15T11:00:00Z", &Rfc3339).unwrap();

    let duration = CalendarDuration {
        months: 2,
        ..Default::default()
    };
    assert_rfc3339_eq(duration.add_to(time).unwrap(), "2022-01-15T11:00:00Z");

    let duration = CalendarDuration {
        months: 38,
        ..Default::default()
    };
    let time = duration.add_to(time).unwrap();
    assert_rfc3339_eq(time, "2025-01-15T11:00:00Z");

    let time = duration.subtract_from(time).unwrap();
    assert_rfc3339_eq(time, "2021-11-15T11:00:00Z");

    let duration = CalendarDuration {
        negative: true,
        months: 15,
        ..Default::default()
    };
    assert_rfc3339_eq(duration.add_to(time).unwrap(), "2020-08-15T11:00:00Z");

    let duration = CalendarDuration {
        months: 24,
        ..Default::default()
    };
    assert_rfc3339_eq(duration.add_to(time).unwrap(), "2023-11-15T11:00:00Z");
}

#[test]
fn parsed_scenarios() {
    let base_time = OffsetDateTime::parse("2021-02-01T00:00:00Z", &Rfc3339).unwrap();

    let d = CalendarDuration::from("1h20m5s");
    assert_eq!(d.hours, 1);
    assert_eq!(d.minutes, 20);
    assert_eq!(d.seconds, 5);
    assert_rfc3339_eq(d.add_to(base_time).unwrap(), "2021-02-01T01:20:05Z");

    let d = CalendarDuration::from("2mon5d5h51s");
    assert_rfc3339_eq(d.add_to(base_time).unwrap(), "2021-04-06T05:00:51Z");
}

#[test]
fn leap_years_and_month_lengths() {
    assert!(is_leap_year_exec(2000));
    assert!(is_leap_year_exec(2020));
    assert!(!is_leap_year_exec(1900));
    assert!(!is_leap_year_exec(2021));
    assert_eq!(days_in_month_exec(2020, 2), 29);
    assert_eq!(days_in_month_exec(2021, 2), 28);
    assert_eq!(days_in_month_exec(2021, 4), 30);
    assert_eq!(days_in_month_exec(2021, 12), 31);
}

#[test]
fn month_end_is_clamped_not_carried() {
    // Jan 31 plus one month: the end of February, never March.
    assert_eq!(shift_months(2021, 1, 31, 1), (2021, 2, 28));
    assert_eq!(shift_months(2020, 1, 31, 1), (2020, 2, 29));
    // A leap day moved twelve months on is clamped to Feb 28.
    assert_eq!(shift_months(2020, 2, 29, 12), (2021, 2, 28));
    // A leap day moved a year on is clamped too.
    assert_eq!(shift_years(2020, 2, 29, 1), (2021, 2, 28));
}

#[test]
fn month_spans_and_negative_deltas() {
    assert_eq!(shift_months(2021, 11, 15, 38), (2025, 1, 15));
    assert_eq!(shift_months(2021, 11, 15, 2), (2022, 1, 15));
    assert_eq!(shift_months(2021, 12, 15, 1), (2022, 1, 15));
    // Negative deltas use floor semantics across year boundaries.
    assert_eq!(shift_months(2022, 1, 15, -1), (2021, 12, 15));
    assert_eq!(shift_months(2021, 3, 15, -14), (2020, 1, 15));
    assert_eq!(shift_months(2021, 1, 15, -12), (2020, 1, 15));
}

#[test]
fn apply_variable_orders_years_first() {
    // Years then months: 2020-02-29 plus one year and one month lands on
    // 2021-03-28, the clamped February day carried into March.
    let d = CalendarDuration {
        years: 1,
        months: 1,
        ..Default::default()
    };
    assert_eq!(apply_variable(&d, 2020, 2, 29), (2021, 3, 28));
    let back = CalendarDuration {
        negative: true,
        months: 15,
        ..Default::default()
    };
    assert_eq!(apply_variable(&back, 2021, 11, 15), (2020, 8, 15));
}

#[test]
fn fixed_seconds_totals() {
    let d = CalendarDuration {
        hours: 1,
        minutes: 20,
        seconds: 5,
        ..Default::default()
    };
    assert_eq!(d.fixed_seconds(), 4805);
    assert_eq!(d.negated().fixed_seconds(), -4805);
    let d = CalendarDuration {
        weeks: 1,
        days: 2,
        ..Default::default()
    };
    assert_eq!(d.fixed_seconds(), 604_800 + 2 * 86_400);
    assert_eq!(CalendarDuration::default().fixed_seconds(), 0);
}

#[test]
fn add_then_subtract_without_clamping() {
    // Pure fixed-length deltas invert exactly.
    let base_time = OffsetDateTime::parse("2021-06-15T10:30:00Z", &Rfc3339).unwrap();
    let d = CalendarDuration::from("1w2d3h4m5s");
    let there = d.add_to(base_time).unwrap();
    let back = d.subtract_from(there).unwrap();
    assert_eq!(back, base_time);
    // A month delta without clamping inverts exactly too.
    let d = CalendarDuration::from("38mon");
    let there = d.add_to(base_time).unwrap();
    let back = d.subtract_from(there).unwrap();
    assert_eq!(back, base_time);
}

#[test]
fn out_of_range_target_year_is_none() {
    let base_time = OffsetDateTime::parse("2021-06-15T10:30:00Z", &Rfc3339).unwrap();
    let d = CalendarDuration {
        years: 60000,
        ..Default::default()
    };
    assert!(d.add_to(base_time).is_none());
}

#[test]
fn zero_duration_is_identity() {
    let base_time = OffsetDateTime::parse("2021-06-15T10:30:00Z", &Rfc3339).unwrap();
    let zero = CalendarDuration::default();
    assert_eq!(zero.add_to(base_time), Some(base_time));
    assert_eq!(zero.subtract_from(base_time), Some(base_time));
    let negative_zero = CalendarDuration {
        negative: true,
        ..Default::default()
    };
    assert_eq!(negative_zero.add_to(base_time), Some(base_time));
}
