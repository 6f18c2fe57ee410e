use chrono::DateTime;
use lowcharts::splittimehist::{labels_supported, SplitTimeHistogram};
use lowcharts::timestamp::Timestamp;

fn ts(s: &str) -> Timestamp {
    let dt = DateTime::parse_from_rfc3339(s).unwrap();
    Timestamp::new(dt.timestamp_micros(), dt.offset().local_minus_utc())
}

#[test]
fn splittimehist_test_big_time_interval() {
    let mut vec = Vec::<(Timestamp, usize)>::new();
    vec.push((ts("2021-04-15T04:25:00+00:00"), 1));
    vec.push((ts("2022-04-15T04:25:00+00:00"), 1));
    vec.push((ts("2022-04-15T04:25:00+00:00"), 0));
    vec.push((ts("2022-04-15T04:25:00+00:00"), 2));
    for _ in 0..11 {
        vec.push((ts("2023-04-15T04:25:00+00:00"), 2));
    }
    let th = SplitTimeHistogram::new(
        3,
        vec!["one".to_string(), "two".to_string(), "three".to_string()],
        &vec,
    );
    let display = th.to_text(100);
    println!("{}", display);
    assert!(display.contains("Matches: 15"));
    assert!(display.contains("one: 1."));
    assert!(display.contains("two: 2."));
    assert!(display.contains("three: 12."));
    assert!(display.contains("represents a count of 1"));
    assert!(display.contains("[2021-04-15 04:25:00] [0/1/ 0] ∎\n"));
    assert!(display.contains("[2021-12-14 12:25:00] [1/1/ 1] ∎∎∎\n"));
    assert!(display.contains(
        "[2022-08-14 20:25:00] [0/0/11] ∎∎∎∎∎∎∎∎∎∎∎\n"
    ));
}

// The validation layer accepts at most five distinct labels.
#[test]
fn label_cap_is_five() {
    let five: Vec<String> = (0..5).map(|i| format!("label{i}")).collect();
    assert!(labels_supported(&five));
    let six: Vec<String> = (0..6).map(|i| format!("label{i}")).collect();
    assert!(!labels_supported(&six));
}
