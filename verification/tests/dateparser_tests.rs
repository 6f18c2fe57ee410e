use chrono::{DateTime, Utc};
use lowcharts::dateparser::LogDateParser;
use lowcharts::timestamp::Timestamp;

fn rfc3339(s: &str) -> Timestamp {
    let dt = DateTime::parse_from_rfc3339(s).unwrap();
    Timestamp::new(dt.timestamp_micros(), dt.offset().local_minus_utc())
}

fn rfc2822(s: &str) -> Timestamp {
    let dt = DateTime::parse_from_rfc2822(s).unwrap();
    Timestamp::new(dt.timestamp_micros(), dt.offset().local_minus_utc())
}

#[test]
fn test_rfc3339_brackets() {
    let r = LogDateParser::new_with_guess("[1996-12-19T16:39:57-08:00] foobar").unwrap();
    assert_eq!(
        r.parse("[2096-11-19T16:39:57-08:00]"),
        Some(rfc3339("2096-11-19T16:39:57-08:00"))
    );
}

#[test]
fn test_rfc3339_no_brackets() {
    let r = LogDateParser::new_with_guess("2021-04-25T16:57:15.337Z foobar").unwrap();
    assert_eq!(
        r.parse("2031-04-25T16:57:15.337Z"),
        Some(rfc3339("2031-04-25T16:57:15.337Z"))
    );
}

#[test]
fn test_rfc2822() {
    let r = LogDateParser::new_with_guess("12 Jul 2003 10:52:37 +0200 foobar").unwrap();
    assert_eq!(
        r.parse("22 Jun 2003 10:52:37 +0500"),
        Some(rfc2822("22 Jun 2003 10:52:37 +0500"))
    );
}

#[test]
fn test_bad_bracket() {
    let r = LogDateParser::new_with_guess("[12 Jul 2003 10:52:37 +0200 foobar").unwrap();
    assert_eq!(
        r.parse("[22 Jun 2003 10:52:37 +0500"),
        Some(rfc2822("22 Jun 2003 10:52:37 +0500"))
    );
}

#[test]
fn test_prefix() {
    let r = LogDateParser::new_with_guess("foobar 1996-12-19T16:39:57-08:00 foobar").unwrap();
    assert_eq!(
        r.parse("foobar 2096-11-19T16:39:57-08:00"),
        Some(rfc3339("2096-11-19T16:39:57-08:00"))
    );
}

#[test]
fn test_bad_format() {
    assert!(LogDateParser::new_with_guess("996-12-19T16:39:57-08:00 foobar").is_err());
}

#[test]
fn test_short_line() {
    assert!(LogDateParser::new_with_guess("9").is_err());
}

#[test]
fn test_empty_line() {
    assert!(LogDateParser::new_with_guess("").is_err());
}

#[test]
fn test_timestamps() {
    let r = LogDateParser::new_with_guess("ts 1619688527.018165").unwrap();
    assert_eq!(
        r.parse("ts 1619655527.888165"),
        Some(rfc3339("2021-04-29T00:18:47.888165+00:00"))
    );
    let r = LogDateParser::new_with_guess("1619688527.123").unwrap();
    assert_eq!(
        r.parse("1619655527.123"),
        Some(rfc3339("2021-04-29T00:18:47.123+00:00"))
    );
    let r = LogDateParser::new_with_guess("1619688527").unwrap();
    assert_eq!(
        r.parse("1619655527.123"),
        Some(rfc3339("2021-04-29T00:18:47+00:00"))
    );
}

#[test]
fn test_known_formats() {
    let r = LogDateParser::new_with_guess("2021-04-28 06:25:24,321").unwrap();
    assert_eq!(
        r.parse("2021-04-28 06:25:24,321"),
        Some(rfc3339("2021-04-28T06:25:24.321+00:00"))
    );
    let r = LogDateParser::new_with_guess("2021-04-28 06:25:24").unwrap();
    assert_eq!(
        r.parse("2021-04-28 06:25:24"),
        Some(rfc3339("2021-04-28T06:25:24+00:00"))
    );
    let r = LogDateParser::new_with_guess("28-Apr-2021::12:10:42").unwrap();
    assert_eq!(
        r.parse("28-Apr-2021::12:10:42"),
        Some(rfc3339("2021-04-28T12:10:42+00:00"))
    );
    let r = LogDateParser::new_with_guess("2019/12/19 05:01:02").unwrap();
    assert_eq!(
        r.parse("2019/12/19 05:01:02"),
        Some(rfc3339("2019-12-19T05:01:02+00:00"))
    );
    let r = LogDateParser::new_with_guess("11:29:13.120535").unwrap();
    let now_as_date = format!("{}", Utc::now().date_naive());
    assert_eq!(
        r.parse("11:29:13.120535"),
        Some(rfc3339(&format!(
            "{}{}",
            &now_as_date[..10],
            "T11:29:13.120535+00:00"
        )))
    );
    let r = LogDateParser::new_with_guess("11:29:13").unwrap();
    assert_eq!(
        r.parse("11:29:13.120535"),
        Some(rfc3339(&format!(
            "{}{}",
            &now_as_date[..10],
            "T11:29:13+00:00"
        )))
    );
}

#[test]
fn test_tricky_line() {
    let r = LogDateParser::new_with_guess("[1996-12-19T16:39:57-08:00] foobar").unwrap();
    assert!(r.parse("nothing").is_none());
}

#[test]
fn test_custom_format() {
    assert!(LogDateParser::new_with_format(
        "[1996-12-19T16:39:57-08:00] foobar",
        "%Y-%m-%d %H:%M:%S"
    )
    .is_err());
    let r = LogDateParser::new_with_format("[1996-12-19 16-39-57] foobar", "%Y-%m-%d %H-%M-%S")
        .unwrap();
    assert_eq!(
        r.parse("[2096-11-19 04-25-24]"),
        Some(rfc3339("2096-11-19T04:25:24+00:00"))
    );
}

#[test]
fn test_fmt_dispatch() {
    // The explicit-format path through the dispatching constructor.
    let r = LogDateParser::new(
        "[1996-12-19 16-39-57] foobar",
        &Some(String::from("%Y-%m-%d %H-%M-%S")),
    )
    .unwrap();
    assert_eq!(
        r.parse("[2096-11-19 04-25-24]"),
        Some(rfc3339("2096-11-19T04:25:24+00:00"))
    );
    // And the guessing path.
    let r = LogDateParser::new("[1996-12-19T16:39:57-08:00] foobar", &None).unwrap();
    assert_eq!(
        r.parse("[2096-11-19T16:39:57-08:00]"),
        Some(rfc3339("2096-11-19T16:39:57-08:00"))
    );
}
