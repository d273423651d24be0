use track2gpx::datetime::{convert_time, format_datetime, timestamp_supported, DateTime};

#[test]
fn convert_epoch_start() {
    let dt = convert_time(0);
    let expected = DateTime {
        year: 2001,
        month: 1,
        day: 1,
        hour: 0,
        minute: 0,
        second: 0,
        millisecond: 0,
    };
    assert_eq!(dt, expected);
}

#[test]
fn convert_one_day() {
    let dt = convert_time(86_400_000);
    let expected = DateTime {
        year: 2001,
        month: 1,
        day: 2,
        hour: 0,
        minute: 0,
        second: 0,
        millisecond: 0,
    };
    assert_eq!(dt, expected);
}

#[test]
fn convert_one_year_back() {
    // 365 days before 2001-01-01; 2000 is a leap year, so this lands on
    // January 2nd.
    let dt = convert_time(-31_536_000_000);
    let expected = DateTime {
        year: 2000,
        month: 1,
        day: 2,
        hour: 0,
        minute: 0,
        second: 0,
        millisecond: 0,
    };
    assert_eq!(dt, expected);
}

#[test]
fn convert_fractional_seconds() {
    let dt = convert_time(1_500);
    assert_eq!(dt.second, 1);
    assert_eq!(dt.millisecond, 500);
    assert_eq!(dt.year, 2001);
}

#[test]
fn convert_leap_day() {
    // Day 1154 after the epoch is 2004-02-29.
    let dt = convert_time(1_154 * 86_400_000);
    let expected = DateTime {
        year: 2004,
        month: 2,
        day: 29,
        hour: 0,
        minute: 0,
        second: 0,
        millisecond: 0,
    };
    assert_eq!(dt, expected);
}

#[test]
fn convert_mid_day() {
    // 2001-01-01T13:45:12.345
    let ms = 13 * 3_600_000 + 45 * 60_000 + 12 * 1_000 + 345;
    let dt = convert_time(ms);
    assert_eq!(dt.hour, 13);
    assert_eq!(dt.minute, 45);
    assert_eq!(dt.second, 12);
    assert_eq!(dt.millisecond, 345);
}

#[test]
fn convert_lowest_supported() {
    let dt = convert_time(-63_113_904_000_000);
    let expected = DateTime {
        year: 1,
        month: 1,
        day: 1,
        hour: 0,
        minute: 0,
        second: 0,
        millisecond: 0,
    };
    assert_eq!(dt, expected);
}

#[test]
fn convert_highest_supported() {
    let dt = convert_time(252_423_993_599_999);
    let expected = DateTime {
        year: 9999,
        month: 12,
        day: 31,
        hour: 23,
        minute: 59,
        second: 59,
        millisecond: 999,
    };
    assert_eq!(dt, expected);
}

#[test]
fn supported_range_bounds() {
    assert!(timestamp_supported(0));
    assert!(timestamp_supported(-63_113_904_000_000));
    assert!(!timestamp_supported(-63_113_904_000_001));
    assert!(timestamp_supported(252_423_993_599_999));
    assert!(!timestamp_supported(252_423_993_600_000));
}

#[test]
fn format_epoch_start() {
    let dt = convert_time(0);
    assert_eq!(format_datetime(&dt), "2001-01-01T00:00:00Z");
}

#[test]
fn format_with_milliseconds() {
    let dt = convert_time(1_500);
    assert_eq!(format_datetime(&dt), "2001-01-01T00:00:01.500Z");
}

#[test]
fn format_padded_fields() {
    let dt = convert_time(-31_536_000_000);
    assert_eq!(format_datetime(&dt), "2000-01-02T00:00:00Z");
}
