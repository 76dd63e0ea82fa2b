use chrono::{TimeZone, Utc};
use chrono_intervals::{get_extended_utc_intervals_with_defaults, Grouping, Instant};

fn inst(s: &str) -> Instant {
    let dt = chrono::DateTime::parse_from_rfc3339(s).unwrap();
    Instant::from_nanos(
        dt.timestamp() as i128 * 1_000_000_000 + dt.timestamp_subsec_nanos() as i128,
    )
}

fn utc_hms_nano(y: i32, mo: u32, d: u32, h: u32, mi: u32, s: u32, nano: u32) -> Instant {
    let dt = Utc.with_ymd_and_hms(y, mo, d, h, mi, s).unwrap();
    Instant::from_nanos(dt.timestamp() as i128 * 1_000_000_000 + nano as i128)
}

#[test]
fn timezone_format_test_utc_begin_end_to_utc() {
    let begin = inst("2022-09-29T08:23:45.000000Z");
    let end = inst("2022-09-30T08:23:45.000000Z");

    let daily_intervals =
        get_extended_utc_intervals_with_defaults(begin, end, &Grouping::PerDay, 0);
    let expected_intervals = vec![
        (
            utc_hms_nano(2022, 9, 29, 0, 0, 0, 0),
            utc_hms_nano(2022, 9, 29, 23, 59, 59, 999_000_000),
        ),
        (
            utc_hms_nano(2022, 9, 30, 0, 0, 0, 0),
            utc_hms_nano(2022, 9, 30, 23, 59, 59, 999_000_000),
        ),
    ];
    assert_eq!(daily_intervals, expected_intervals);
}

#[test]
fn timezone_format_test_cest_begin_end_to_utc() {
    // In Central European Summer Time (CEST), `begin` and `end` are on the 25th
    // and 26th. However due to the time difference with UTC, we will get the
    // UTC daily intervals for 24th and 25th.
    let begin = inst("2022-09-25T01:23:45.000000+02:00");
    let end = inst("2022-09-26T01:23:45.000000+02:00");

    let daily_intervals =
        get_extended_utc_intervals_with_defaults(begin, end, &Grouping::PerDay, 0);
    let expected_intervals = vec![
        (
            utc_hms_nano(2022, 9, 24, 0, 0, 0, 0),
            utc_hms_nano(2022, 9, 24, 23, 59, 59, 999_000_000),
        ),
        (
            utc_hms_nano(2022, 9, 25, 0, 0, 0, 0),
            utc_hms_nano(2022, 9, 25, 23, 59, 59, 999_000_000),
        ),
    ];
    assert_eq!(daily_intervals, expected_intervals);
}

#[test]
fn timezone_format_test_pdt_begin_end_to_utc() {
    // In Pacific Daylight Time (PDT), `begin` and `end` are on the 23rd and
    // 24th. However due to the time difference with UTC, we will get the UTC
    // daily intervals for 24th and 25th.
    let begin = inst("2022-09-23T22:23:45.000000-07:00");
    let end = inst("2022-09-24T20:23:45.000000-07:00");

    let daily_intervals =
        get_extended_utc_intervals_with_defaults(begin, end, &Grouping::PerDay, 0);
    let expected_intervals = vec![
        (
            utc_hms_nano(2022, 9, 24, 0, 0, 0, 0),
            utc_hms_nano(2022, 9, 24, 23, 59, 59, 999_000_000),
        ),
        (
            utc_hms_nano(2022, 9, 25, 0, 0, 0, 0),
            utc_hms_nano(2022, 9, 25, 23, 59, 59, 999_000_000),
        ),
    ];
    assert_eq!(daily_intervals, expected_intervals);
}
