use chrono::{NaiveTime, Utc};
use chrono_intervals::{
    get_extended_utc_intervals_with_defaults, get_utc_intervals_opts, Duration, Grouping, Instant,
};

fn inst(s: &str) -> Instant {
    let dt = chrono::DateTime::parse_from_rfc3339(s).unwrap();
    Instant::from_nanos(
        dt.timestamp() as i128 * 1_000_000_000 + dt.timestamp_subsec_nanos() as i128,
    )
}

fn to_utc(i: Instant) -> chrono::DateTime<Utc> {
    let n = i.as_nanos();
    let secs = n.div_euclid(1_000_000_000) as i64;
    let nanos = n.rem_euclid(1_000_000_000) as u32;
    chrono::DateTime::from_timestamp(secs, nanos).unwrap()
}

#[test]
fn intervals_test_get_utc_intervals_precision() {
    let begin = inst("2022-10-29T08:23:45.000000Z");
    let end = inst("2022-11-01T08:23:45.000000Z");

    // Milli-seconds
    let with_milli_secs_precision = get_utc_intervals_opts(
        begin,
        end,
        &Grouping::PerDay,
        0,
        Duration::milliseconds(1),
        false,
        false,
    );

    for interval in with_milli_secs_precision {
        assert_eq!(to_utc(interval.0).time(), NaiveTime::from_hms_opt(0, 0, 0).unwrap());
        assert_eq!(
            to_utc(interval.1).time(),
            NaiveTime::from_hms_milli_opt(23, 59, 59, 999).unwrap()
        );
    }

    // Micro-seconds
    let with_micro_secs_precision = get_utc_intervals_opts(
        begin,
        end,
        &Grouping::PerDay,
        0,
        Duration::microseconds(1),
        false,
        false,
    );

    for interval in with_micro_secs_precision {
        assert_eq!(to_utc(interval.0).time(), NaiveTime::from_hms_opt(0, 0, 0).unwrap());
        assert_eq!(
            to_utc(interval.1).time(),
            NaiveTime::from_hms_micro_opt(23, 59, 59, 999_999).unwrap()
        );
    }

    // Nano-seconds
    let with_nano_secs_precision = get_utc_intervals_opts(
        begin,
        end,
        &Grouping::PerDay,
        0,
        Duration::nanoseconds(1),
        false,
        false,
    );

    for interval in with_nano_secs_precision {
        assert_eq!(to_utc(interval.0).time(), NaiveTime::from_hms_opt(0, 0, 0).unwrap());
        assert_eq!(
            to_utc(interval.1).time(),
            NaiveTime::from_hms_nano_opt(23, 59, 59, 999_999_999).unwrap()
        );
    }
}

#[test]
fn intervals_test_get_utc_intervals_extended_begin_end() {
    let begin = inst("2022-10-29T08:23:45.000000Z");
    let end = inst("2022-11-01T08:23:45.000000Z");

    // Check that we get grouped intervals enclosed by `begin` and `end`
    let non_extended_intervals = get_utc_intervals_opts(
        begin,
        end,
        &Grouping::PerDay,
        0,
        Duration::milliseconds(1),
        false,
        false,
    );
    assert!(begin < non_extended_intervals.first().unwrap().0);
    assert!(end > non_extended_intervals.last().unwrap().1);
    assert_eq!(non_extended_intervals.len(), 2);

    // The first interval's beginning should be before `begin`, but `end`
    // should be after the last interval's end
    let begin_extended_intervals = get_utc_intervals_opts(
        begin,
        end,
        &Grouping::PerDay,
        0,
        Duration::milliseconds(1),
        true,
        false,
    );
    assert!(begin > begin_extended_intervals.first().unwrap().0);
    assert!(end > begin_extended_intervals.last().unwrap().1);
    assert_eq!(begin_extended_intervals.len(), 3);

    // `begin` should be before the first interval's beginning, but the last
    // interval's end should be after `end`
    let end_extended_intervals = get_utc_intervals_opts(
        begin,
        end,
        &Grouping::PerDay,
        0,
        Duration::milliseconds(1),
        false,
        true,
    );
    assert!(begin < end_extended_intervals.first().unwrap().0);
    assert!(end < end_extended_intervals.last().unwrap().1);
    assert_eq!(end_extended_intervals.len(), 3);

    // Both `begin` and `end` should be enclosed by the intervals
    let both_extended_intervals = get_utc_intervals_opts(
        begin,
        end,
        &Grouping::PerDay,
        0,
        Duration::milliseconds(1),
        true,
        true,
    );
    assert!(begin > both_extended_intervals.first().unwrap().0);
    assert!(end < both_extended_intervals.last().unwrap().1);
    assert_eq!(both_extended_intervals.len(), 4);
}

#[test]
fn intervals_test_get_extended_utc_intervals_with_defaults() {
    // Regular case
    let begin = inst("2022-10-29T08:23:45.000000Z");
    let end = inst("2022-11-01T08:23:45.000000Z");

    let intervals =
        get_extended_utc_intervals_with_defaults(begin, end, &Grouping::PerMonth, -7200);
    assert!(!intervals.is_empty());
}
