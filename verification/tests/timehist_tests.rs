use chrono::DateTime;
use lowcharts::timehist::TimeHistogram;
use lowcharts::timestamp::Timestamp;

fn ts(s: &str) -> Timestamp {
    let dt = DateTime::parse_from_rfc3339(s).unwrap();
    Timestamp::new(dt.timestamp_micros(), dt.offset().local_minus_utc())
}

#[test]
fn timehist_test_big_time_interval() {
    let mut vec = Vec::<Timestamp>::new();
    vec.push(ts("2021-04-15T04:25:00+00:00"));
    vec.push(ts("2022-04-15T04:25:00+00:00"));
    vec.push(ts("2022-04-15T04:25:00+00:00"));
    vec.push(ts("2022-04-15T04:25:00+00:00"));
    vec.push(ts("2023-04-15T04:25:00+00:00"));
    let th = TimeHistogram::new(3, &vec);
    let display = th.to_text(100);
    assert!(display.contains("Matches: 5"));
    assert!(display.contains("represents a count of 1"));
    assert!(display.contains("[2021-04-15 04:25:00] [1] ∎\n"));
    assert!(display.contains("[2021-12-14 12:25:00] [3] ∎∎∎\n"));
    assert!(display.contains("[2022-08-14 20:25:00] [1] ∎\n"));
}

#[test]
fn timehist_test_small_time_interval() {
    let mut vec = Vec::<Timestamp>::new();
    vec.push(ts("2022-04-15T04:25:00.001+00:00"));
    vec.push(ts("2022-04-15T04:25:00.002+00:00"));
    vec.push(ts("2022-04-15T04:25:00.006+00:00"));
    let th = TimeHistogram::new(4, &vec);
    let display = th.to_text(100);
    assert!(display.contains("Matches: 3"));
    assert!(display.contains("represents a count of 1"));
    assert!(display.contains("[04:25:00.001000] [2] ∎∎\n"));
    assert!(display.contains("[04:25:00.002250] [0] \n"));
    assert!(display.contains("[04:25:00.003500] [0] \n"));
    assert!(display.contains("[04:25:00.004750] [1] ∎\n"));
}

#[test]
fn test_single_timestamp() {
    let mut vec = Vec::<Timestamp>::new();
    vec.push(ts("2022-04-15T04:25:00.001+00:00"));
    vec.push(ts("2022-04-15T04:25:00.001+00:00"));
    let th = TimeHistogram::new(4, &vec);
    let display = th.to_text(100);
    assert!(display.contains("Matches: 2"));
    assert!(display.contains("represents a count of 1"));
    assert!(display.contains("[04:25:00.001000] [2] ∎∎\n"));
    assert!(display.contains("[04:25:00.001000] [0] \n"));
}

// A degenerate range puts every occurrence into the first bucket.
#[test]
fn degenerate_range_fills_first_bucket() {
    let t = ts("2022-04-15T04:25:00.001+00:00");
    let th = TimeHistogram::new(4, &[t, t, t]);
    assert_eq!(th.vec.len(), 4);
    assert_eq!(th.vec[0].count, 3);
    assert_eq!(th.vec[1].count, 0);
    assert_eq!(th.vec[2].count, 0);
    assert_eq!(th.vec[3].count, 0);
}

// Values outside the initial range are silently dropped by `add`.
#[test]
fn add_ignores_out_of_range() {
    let mut th = TimeHistogram::new(
        2,
        &[ts("2022-04-15T04:25:00+00:00"), ts("2022-04-15T04:26:00+00:00")],
    );
    th.add(ts("2022-04-15T04:24:59+00:00"));
    th.add(ts("2022-04-15T04:26:01+00:00"));
    assert_eq!(th.vec[0].count + th.vec[1].count, 2);
}
