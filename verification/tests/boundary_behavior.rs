use chrono::{TimeZone, Utc};
use chrono_intervals::{
    get_extended_utc_intervals_with_defaults, get_utc_intervals_opts, Duration, Grouping, Instant,
    IntervalGenerator,
};

fn inst(s: &str) -> Instant {
    let dt = chrono::DateTime::parse_from_rfc3339(s).unwrap();
    Instant::from_nanos(
        dt.timestamp() as i128 * 1_000_000_000 + dt.timestamp_subsec_nanos() as i128,
    )
}

fn utc_hms_nano(y: i32, mo: u32, d: u32, h: u32, mi: u32, s: u32, nano: u32) -> Instant {
    let dt = Utc.with_ymd_and_hms(y, mo, d, h, mi, s).unwrap();
    Instant::from_nanos(dt.timestamp() as i128 * 1_000_000_000 + nano as i128)
}

#[test]
fn test_zero_sized_all_groupings() {
    let begin_end = inst("2022-11-29T08:23:45.000000Z");
    for grouping in [Grouping::PerDay, Grouping::PerWeek, Grouping::PerMonth] {
        assert_eq!(
            get_extended_utc_intervals_with_defaults(begin_end, begin_end, &grouping, 3600),
            vec![]
        );
    }
}

#[test]
fn test_contiguity_all_groupings_and_precisions() {
    let begin = inst("2022-06-04T08:23:45.000000Z");
    let end = inst("2022-09-18T08:23:45.000000Z");
    let precisions = [
        Duration::milliseconds(1),
        Duration::microseconds(1),
        Duration::nanoseconds(1),
    ];
    for grouping in [Grouping::PerDay, Grouping::PerWeek, Grouping::PerMonth] {
        for precision in precisions {
            let intervals =
                get_utc_intervals_opts(begin, end, &grouping, -3600, precision, true, true);
            assert!(intervals.len() >= 2);
            for pair in intervals.windows(2) {
                // each begin follows the previous end by exactly the precision
                assert_eq!(
                    pair[1].0.as_nanos(),
                    pair[0].1.as_nanos() + precision.as_nanos()
                );
                // intervals are strictly increasing and non-degenerate
                assert!(pair[0].0 < pair[0].1);
                assert!(pair[0].1 < pair[1].0);
            }
        }
    }
}

#[test]
fn test_leap_year_february() {
    let begin = inst("2024-02-10T12:00:00.000000Z");
    let end = inst("2024-02-20T12:00:00.000000Z");
    let intervals = get_extended_utc_intervals_with_defaults(begin, end, &Grouping::PerMonth, 0);
    assert_eq!(
        intervals,
        vec![(
            utc_hms_nano(2024, 2, 1, 0, 0, 0, 0),
            utc_hms_nano(2024, 2, 29, 23, 59, 59, 999_000_000),
        )]
    );
}

#[test]
fn test_year_rollover_month() {
    let begin = inst("2021-12-15T00:00:00.000000Z");
    let end = inst("2022-01-15T00:00:00.000000Z");
    let intervals = get_extended_utc_intervals_with_defaults(begin, end, &Grouping::PerMonth, 0);
    assert_eq!(
        intervals,
        vec![
            (
                utc_hms_nano(2021, 12, 1, 0, 0, 0, 0),
                utc_hms_nano(2021, 12, 31, 23, 59, 59, 999_000_000),
            ),
            (
                utc_hms_nano(2022, 1, 1, 0, 0, 0, 0),
                utc_hms_nano(2022, 1, 31, 23, 59, 59, 999_000_000),
            ),
        ]
    );
}

#[test]
fn test_pre_epoch_days() {
    let begin = inst("1969-05-05T10:00:00.000000Z");
    let end = inst("1969-05-07T10:00:00.000000Z");
    let intervals = get_extended_utc_intervals_with_defaults(begin, end, &Grouping::PerDay, 0);
    assert_eq!(
        intervals,
        vec![
            (
                utc_hms_nano(1969, 5, 5, 0, 0, 0, 0),
                utc_hms_nano(1969, 5, 5, 23, 59, 59, 999_000_000),
            ),
            (
                utc_hms_nano(1969, 5, 6, 0, 0, 0, 0),
                utc_hms_nano(1969, 5, 6, 23, 59, 59, 999_000_000),
            ),
            (
                utc_hms_nano(1969, 5, 7, 0, 0, 0, 0),
                utc_hms_nano(1969, 5, 7, 23, 59, 59, 999_000_000),
            ),
        ]
    );
}

#[test]
fn test_begin_exactly_on_boundary() {
    // 2022-10-03 is a Monday, so begin falls exactly on a week boundary.
    let begin = utc_hms_nano(2022, 10, 3, 0, 0, 0, 0);
    let end = inst("2022-10-05T08:00:00.000000Z");

    // Extended: the first interval starts exactly at `begin`.
    let extended = get_utc_intervals_opts(
        begin,
        end,
        &Grouping::PerWeek,
        0,
        Duration::milliseconds(1),
        true,
        true,
    );
    assert_eq!(extended.first().unwrap().0, begin);

    // Not extended: the first interval starts on the boundary strictly
    // after `begin`, a week later.
    let clipped = get_utc_intervals_opts(
        begin,
        end,
        &Grouping::PerWeek,
        0,
        Duration::milliseconds(1),
        false,
        true,
    );
    assert_eq!(clipped.first().unwrap().0, utc_hms_nano(2022, 10, 10, 0, 0, 0, 0));
}

#[test]
fn test_offset_shift_moves_boundaries() {
    let begin = inst("2022-09-25T12:00:00.000000Z");
    let end = inst("2022-09-26T12:00:00.000000Z");
    let base = get_extended_utc_intervals_with_defaults(begin, end, &Grouping::PerDay, 0);
    // shifting the reference an hour to the west moves every boundary an
    // hour later in UTC
    let shifted = get_extended_utc_intervals_with_defaults(begin, end, &Grouping::PerDay, 3600);
    assert_eq!(base.len(), shifted.len());
    for (b, s) in base.iter().zip(shifted.iter()) {
        assert_eq!(s.0.as_nanos(), b.0.as_nanos() + 3600 * 1_000_000_000);
        assert_eq!(s.1.as_nanos(), b.1.as_nanos() + 3600 * 1_000_000_000);
    }
}

#[test]
fn test_with_precision_builder() {
    let begin = inst("2022-10-29T08:23:45.000000Z");
    let end = inst("2022-10-31T08:23:45.000000Z");
    let intervals = IntervalGenerator::new()
        .with_precision(Duration::microseconds(1))
        .get_intervals(begin, end);
    assert_eq!(
        intervals.first().unwrap().1,
        utc_hms_nano(2022, 10, 29, 23, 59, 59, 999_999_000)
    );
    let defaults = IntervalGenerator::default().get_intervals(begin, end);
    assert_eq!(
        defaults.first().unwrap().1,
        utc_hms_nano(2022, 10, 29, 23, 59, 59, 999_000_000)
    );
}
