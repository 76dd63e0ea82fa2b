use chrono::{Datelike, NaiveTime, TimeZone, Utc};
use chrono_intervals::{Grouping, Instant, IntervalGenerator};

fn inst(s: &str) -> Instant {
    let dt = chrono::DateTime::parse_from_rfc3339(s).unwrap();
    Instant::from_nanos(
        dt.timestamp() as i128 * 1_000_000_000 + dt.timestamp_subsec_nanos() as i128,
    )
}

fn utc_hms_nano(y: i32, mo: u32, d: u32, h: u32, mi: u32, s: u32, nano: u32) -> Instant {
    let dt = Utc.with_ymd_and_hms(y, mo, d, h, mi, s).unwrap();
    Instant::from_nanos(dt.timestamp() as i128 * 1_000_000_000 + nano as i128)
}

fn to_utc(i: Instant) -> chrono::DateTime<Utc> {
    let n = i.as_nanos();
    let secs = n.div_euclid(1_000_000_000) as i64;
    let nanos = n.rem_euclid(1_000_000_000) as u32;
    chrono::DateTime::from_timestamp(secs, nanos).unwrap()
}

#[test]
fn test_per_week_regular() {
    let begin = inst("2022-10-04T08:23:45.000000Z");
    let end = inst("2022-10-18T08:23:45.000000Z");

    let weekly_intervals = IntervalGenerator::new()
        .with_grouping(Grouping::PerWeek)
        .get_intervals(begin, end);
    let expected_intervals = vec![
        (
            utc_hms_nano(2022, 10, 3, 0, 0, 0, 0),
            utc_hms_nano(2022, 10, 9, 23, 59, 59, 999_000_000),
        ),
        (
            utc_hms_nano(2022, 10, 10, 0, 0, 0, 0),
            utc_hms_nano(2022, 10, 16, 23, 59, 59, 999_000_000),
        ),
        (
            utc_hms_nano(2022, 10, 17, 0, 0, 0, 0),
            utc_hms_nano(2022, 10, 23, 23, 59, 59, 999_000_000),
        ),
    ];
    assert_eq!(weekly_intervals, expected_intervals);
}

#[test]
fn test_per_week_over_several_months() {
    let begin = inst("2022-09-09T08:23:45.000000Z");
    let end = inst("2022-11-09T08:23:45.000000Z");

    let weekly_intervals = IntervalGenerator::new()
        .with_grouping(Grouping::PerWeek)
        .get_intervals(begin, end);
    assert_eq!(weekly_intervals.len(), 10);
    for interval in weekly_intervals {
        assert_eq!(to_utc(interval.0).weekday(), chrono::Weekday::Mon);
        assert_eq!(to_utc(interval.1).weekday(), chrono::Weekday::Sun);
        assert_eq!(to_utc(interval.0).time(), NaiveTime::from_hms_opt(0, 0, 0).unwrap());
        assert_eq!(
            to_utc(interval.1).time(),
            NaiveTime::from_hms_milli_opt(23, 59, 59, 999).unwrap()
        );
    }
}

#[test]
fn test_per_week_over_a_year() {
    let begin = inst("2021-09-09T08:23:45.000000Z");
    let end = inst("2022-09-08T08:23:45.000000Z");

    let weekly_intervals = IntervalGenerator::new()
        .with_grouping(Grouping::PerWeek)
        .get_intervals(begin, end);
    assert_eq!(weekly_intervals.len(), 53);
    for interval in weekly_intervals.iter() {
        assert_eq!(to_utc(interval.0).weekday(), chrono::Weekday::Mon);
        assert_eq!(to_utc(interval.1).weekday(), chrono::Weekday::Sun);
        assert_eq!(to_utc(interval.0).time(), NaiveTime::from_hms_opt(0, 0, 0).unwrap());
        assert_eq!(
            to_utc(interval.1).time(),
            NaiveTime::from_hms_milli_opt(23, 59, 59, 999).unwrap()
        );
    }
    assert_eq!(to_utc(weekly_intervals.first().unwrap().0).year(), 2021);
    assert_eq!(to_utc(weekly_intervals.last().unwrap().0).year(), 2022);
}
