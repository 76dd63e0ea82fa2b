use chrono_intervals::{
    get_extended_utc_intervals_with_defaults, get_utc_intervals_opts, Duration, Grouping, Instant,
    IntervalGenerator,
};

fn inst(s: &str) -> Instant {
    let dt = chrono::DateTime::parse_from_rfc3339(s).unwrap();
    Instant::from_nanos(
        dt.timestamp() as i128 * 1_000_000_000 + dt.timestamp_subsec_nanos() as i128,
    )
}

#[test]
fn edge_cases_test_get_utc_intervals_zero_sized() {
    // `end` before `begin`
    let begin = inst("2022-11-29T08:23:45.000000Z");
    let end = inst("2022-10-01T08:23:45.000000Z");
    assert_eq!(
        IntervalGenerator::new().get_intervals(begin, end),
        Vec::with_capacity(0)
    );
    assert_eq!(
        get_extended_utc_intervals_with_defaults(begin, end, &Grouping::PerDay, 0),
        Vec::with_capacity(0)
    );

    // `begin` and `end` equal
    let begin_end = inst("2022-11-29T08:23:45.000000Z");
    assert_eq!(
        IntervalGenerator::new().get_intervals(begin_end, begin_end),
        Vec::with_capacity(0)
    );
    assert_eq!(
        get_extended_utc_intervals_with_defaults(begin_end, begin_end, &Grouping::PerDay, 0),
        Vec::with_capacity(0)
    );

    // PerDay without extension on sub-day range
    let begin = inst("2022-10-29T08:23:45.000000Z");
    let end = inst("2022-10-29T10:23:45.000000Z");
    assert_eq!(
        IntervalGenerator::new()
            .without_extended_begin()
            .without_extended_end()
            .get_intervals(begin, end),
        Vec::with_capacity(0)
    );
    assert_eq!(
        get_utc_intervals_opts(
            begin,
            end,
            &Grouping::PerDay,
            0,
            Duration::milliseconds(1),
            false,
            false
        ),
        Vec::with_capacity(0)
    );
}
