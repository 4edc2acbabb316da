use calendar_duration::CalendarDuration;

fn assert_parse_and_display_eq(formatted: &str, displayed: &str) {
    assert_eq!(CalendarDuration::from(formatted).to_phrase(), displayed);
}

#[test]
fn parse_and_display() {
    assert_parse_and_display_eq("10s", "10 seconds");
    assert_parse_and_display_eq("40m1s", "40 minutes and 1 second");
    assert_parse_and_display_eq("1h20m41s", "1 hour, 20 minutes and 41 seconds");
    assert_parse_and_display_eq("5y2mon3w6h", "5 years, 2 months, 3 weeks and 6 hours");
}

#[test]
fn parse_pos_neg() {
    let duration = CalendarDuration::from("15s");
    assert_eq!(duration.seconds, 15);
    assert!(!duration.negative);

    let duration = CalendarDuration::from("-10s");
    assert_eq!(duration.seconds, 10);
    assert!(duration.negative);
}

#[test]
fn is_zero() {
    assert!(CalendarDuration::default().is_zero());
    assert!(!CalendarDuration {
        seconds: 1,
        ..Default::default()
    }
    .is_zero());
}

#[test]
fn parse_each_unit() {
    assert_eq!(CalendarDuration::from("5y").years, 5);
    assert_eq!(CalendarDuration::from("7mon").months, 7);
    assert_eq!(CalendarDuration::from("3w").weeks, 3);
    assert_eq!(CalendarDuration::from("11d").days, 11);
    assert_eq!(CalendarDuration::from("23h").hours, 23);
    assert_eq!(CalendarDuration::from("59m").minutes, 59);
    assert_eq!(CalendarDuration::from("42s").seconds, 42);
    let d = CalendarDuration::from("42s");
    assert!(!d.negative);
    assert_eq!(d.years, 0);
    assert_eq!(d.months, 0);
    assert_eq!(d.weeks, 0);
    assert_eq!(d.days, 0);
    assert_eq!(d.hours, 0);
    assert_eq!(d.minutes, 0);
}

#[test]
fn parse_empty_and_junk() {
    assert!(CalendarDuration::from("").is_zero());
    assert!(CalendarDuration::from("-").is_zero());
    assert!(CalendarDuration::from("5x").is_zero());
    assert!(CalendarDuration::from("abc").is_zero());
    assert!(CalendarDuration::from("h5").is_zero());
    // A unit with no digits before it commits a zero value.
    let d = CalendarDuration::from("1h2");
    assert_eq!(d.hours, 1);
    assert!(!d.is_zero());
    assert_eq!(d.seconds, 0);
}

#[test]
fn parse_out_of_range_values() {
    // Too large for the field parses as zero rather than failing.
    assert_eq!(CalendarDuration::from("70000y").years, 0);
    assert_eq!(CalendarDuration::from("300mon").months, 0);
    assert_eq!(CalendarDuration::from("4294967296s").seconds, 0);
    assert_eq!(CalendarDuration::from("99999999999999999999d").days, 0);
    assert_eq!(CalendarDuration::from("65535y").years, 65535);
    assert_eq!(CalendarDuration::from("255mon").months, 255);
    assert_eq!(CalendarDuration::from("4294967295s").seconds, 4294967295);
}

#[test]
fn parse_minus_only_leading() {
    // A '-' anywhere but first is ignored and is no pair boundary.
    let d = CalendarDuration::from("10-s");
    assert!(!d.negative);
    assert_eq!(d.seconds, 10);
    let d = CalendarDuration::from("-3w4m5s");
    assert!(d.negative);
    assert_eq!(d.weeks, 3);
    assert_eq!(d.minutes, 4);
    assert_eq!(d.seconds, 5);
}

#[test]
fn negation_toggles_sign_only() {
    let d = CalendarDuration::from("1y2mon3w4d5h6m7s");
    let n = d.negated();
    assert!(n.negative);
    assert_eq!(n.years, 1);
    assert_eq!(n.months, 2);
    assert_eq!(n.weeks, 3);
    assert_eq!(n.days, 4);
    assert_eq!(n.hours, 5);
    assert_eq!(n.minutes, 6);
    assert_eq!(n.seconds, 7);
    assert_eq!(n.negated(), d);
}

#[test]
fn is_zero_ignores_sign() {
    let d = CalendarDuration {
        negative: true,
        ..Default::default()
    };
    assert!(d.is_zero());
    assert!(!CalendarDuration {
        negative: true,
        years: 1,
        ..Default::default()
    }
    .is_zero());
}

#[test]
fn display_singular_and_plural() {
    assert_parse_and_display_eq("1y", "1 year");
    assert_parse_and_display_eq("2y", "2 years");
    assert_parse_and_display_eq("1mon", "1 month");
    assert_parse_and_display_eq("1w", "1 week");
    assert_parse_and_display_eq("1d", "1 day");
    assert_parse_and_display_eq("1h", "1 hour");
    assert_parse_and_display_eq("1m", "1 minute");
    assert_parse_and_display_eq("1s", "1 second");
    assert_parse_and_display_eq("", "");
}

#[test]
fn display_two_and_more_segments() {
    assert_parse_and_display_eq("1y1s", "1 year and 1 second");
    assert_parse_and_display_eq("2w3d", "2 weeks and 3 days");
    assert_parse_and_display_eq("1y2mon3w4d5h6m7s",
        "1 year, 2 months, 3 weeks, 4 days, 5 hours, 6 minutes and 7 seconds");
    // The sign is not rendered.
    assert_parse_and_display_eq("-2h30m", "2 hours and 30 minutes");
}
