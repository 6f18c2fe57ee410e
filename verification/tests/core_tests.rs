use chrono::DateTime;
use lowcharts::assert_data;
use lowcharts::histogram::{HistWriter, HistogramOptions};
use lowcharts::reader::{SplitTimeReader, TimeReader};
use lowcharts::stats::percentile_indices;
use lowcharts::timestamp::{date_fmt_string, Timestamp};

fn ts(s: &str) -> Timestamp {
    let dt = DateTime::parse_from_rfc3339(s).unwrap();
    Timestamp::new(dt.timestamp_micros(), dt.offset().local_minus_utc())
}

#[test]
fn test_fmt_strings() {
    assert_eq!(date_fmt_string(100000), "%Y-%m-%d %H:%M:%S");
    assert_eq!(date_fmt_string(1000), "%H:%M:%S");
    assert_eq!(date_fmt_string(10), "%H:%M:%S%.3f");
    assert_eq!(date_fmt_string(0), "%H:%M:%S%.6f");
}

#[test]
fn test_assert_data() {
    let v = vec![true];
    assert!(assert_data(&v, 1));
    assert!(!assert_data(&v, 2));
    let v = Vec::<bool>::new();
    assert!(!assert_data(&v, 1));
}

// The nearest-rank indices: exact for a hundred samples, coarse for ten.
#[test]
fn percentile_ranks() {
    assert_eq!(percentile_indices(100), (50, 90, 95, 99));
    assert_eq!(percentile_indices(10), (5, 9, 9, 9));
    assert_eq!(percentile_indices(1), (0, 0, 0, 0));
}

#[test]
fn histogram_defaults_and_bar_area() {
    let options = HistogramOptions::default();
    assert_eq!(options.intervals, 0);
    assert!(!options.log_scale);
    assert!(options.precision.is_none());

    let writer = HistWriter { width: 110, formatter: lowcharts::format::F64Formatter::new(3) };
    assert_eq!(writer.get_max_bar_len(20), 80);
    // Too narrow for the fixed columns: fall back to the fixed bar area.
    let writer = HistWriter { width: 2, formatter: lowcharts::format::F64Formatter::new(3) };
    assert_eq!(writer.get_max_bar_len(20), 75);
}

// The ingestion decisions of the timestamp reader: the duration window keeps
// only timestamps within the window above the earliest one.
#[test]
fn time_reader_duration_window() {
    let reader = TimeReader::new(None, Some(90_000), false);
    let mut vec = vec![
        ts("2021-04-15T06:25:31+00:00"),
        ts("2021-04-15T06:26:31+00:00"),
        ts("2021-04-15T06:27:31+00:00"),
        ts("2021-04-15T06:28:31+00:00"),
    ];
    reader.apply_duration_cut(&mut vec);
    assert_eq!(vec.len(), 2);
    assert_eq!(vec[0], ts("2021-04-15T06:25:31+00:00"));
    assert_eq!(vec[1], ts("2021-04-15T06:26:31+00:00"));
}

// With early stop, a timestamp past the cut keeps nothing and stops.
#[test]
fn time_reader_early_stop() {
    let reader = TimeReader::new(None, Some(90_000), true);
    let first = ts("2021-04-15T06:25:31+00:00");
    let cut = reader.cut_for(first);
    assert_eq!(cut, Some(ts("2021-04-15T06:27:01+00:00")));
    let mut vec = Vec::new();
    assert!(!reader.push_conditionally(first, &mut vec, true, cut));
    assert!(!reader.push_conditionally(ts("2021-04-15T06:26:31+00:00"), &mut vec, true, cut));
    assert!(reader.push_conditionally(ts("2021-04-15T06:27:31+00:00"), &mut vec, true, cut));
    assert_eq!(vec.len(), 2);
}

// A line failing the caller's filter contributes nothing.
#[test]
fn time_reader_filtered_line() {
    let reader = TimeReader::new(None, None, false);
    let mut vec = Vec::new();
    assert!(!reader.push_conditionally(ts("2021-04-15T06:25:31+00:00"), &mut vec, false, None));
    assert!(vec.is_empty());
}

// One plot row: dots in the marked columns, spaces elsewhere.
#[test]
fn plot_row_marks() {
    let row = lowcharts::xy::plot_row(&vec![false, true, false, true]);
    assert_eq!(row, " \u{25cf} \u{25cf}");
}

// One line may hit several labels; each contributes its own pair.
#[test]
fn split_reader_pairs() {
    let reader = SplitTimeReader::new(
        vec!["foo".to_string(), "bar".to_string(), "gnat".to_string()],
        None,
    );
    let d = ts("2021-04-15T06:27:31+00:00");
    let mut vec = Vec::new();
    reader.push_conditionally(d, &mut vec, "[2021-04-15T06:27:31+00:00] foobar");
    assert_eq!(vec, vec![(d, 0), (d, 1)]);
    reader.push_conditionally(d, &mut vec, "none");
    assert_eq!(vec.len(), 2);
}
