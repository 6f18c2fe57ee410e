//! Offset-aware timestamps, modeled as plain microsecond counts.
//!
//! A `Timestamp` is an instant (non-leap microseconds since the Unix epoch)
//! together with the fixed UTC offset it was written in.  Ordering and
//! bucketing read only the instant; the offset matters when a timestamp is
//! rendered back to text, which chrono does behind a trusted wrapper.
use vstd::prelude::*;

verus! {

/// An instant with a fixed UTC offset, at microsecond resolution.
#[derive(Clone, Copy, Debug, PartialEq, Eq, Structural)]
pub struct Timestamp {
    /// Non-leap microseconds since 1970-01-01T00:00:00Z.
    pub micros: i64,
    /// Seconds east of UTC; a fixed offset is always within a day.
    pub offset_secs: i32,
}

impl Timestamp {
    pub fn new(micros: i64, offset_secs: i32) -> (r: Timestamp)
        ensures
            r.micros == micros,
            r.offset_secs == offset_secs,
    {
        Timestamp { micros, offset_secs }
    }
}

/// What chrono renders for an instant, an offset and a strftime format
/// string: a pure function of the three.
pub uninterp spec fn ts_render(micros: int, offset_secs: int, fmt: Seq<char>) -> Seq<char>;

/// The format strings the time histograms render with, chosen by span.
pub open spec fn is_supported_date_fmt(fmt: Seq<char>) -> bool {
    fmt == "%Y-%m-%d %H:%M:%S"@ || fmt == "%H:%M:%S"@ || fmt == "%H:%M:%S%.3f"@ || fmt
        == "%H:%M:%S%.6f"@
}

/// Relies on chrono: `DateTime::from_timestamp_micros`, `FixedOffset::east_opt`
/// and strftime formatting.  For a supported format string the rendered text
/// depends on the instant, the offset and the format alone; `None` comes only
/// of an instant outside chrono's representable range (about 262,000 years
/// either side of the epoch, so anything within ±8e18 microseconds renders).
#[verifier::external_body]
pub(crate) fn ts_to_display(micros: i64, offset_secs: i32, fmt: &str) -> (r: Option<String>)
    requires
        is_supported_date_fmt(fmt@),
    ensures
        r matches Some(s) ==> s@ == ts_render(micros as int, offset_secs as int, fmt@),
        (-8_000_000_000_000_000_000 <= micros <= 8_000_000_000_000_000_000 && -86400 < offset_secs
            < 86400) ==> r.is_some(),
{
    let offset = chrono::FixedOffset::east_opt(offset_secs)?;
    let dt = chrono::DateTime::from_timestamp_micros(micros)?;
    Some(dt.with_timezone(&offset).format(fmt).to_string())
}

/// The timestamp rendering a bucket row shows: chrono's text, or the empty
/// fallback for an instant outside chrono's representable range.  The label
/// is never anything else, and within the comfortable range below it is
/// always chrono's text.
pub fn bucket_label(ts: Timestamp, fmt: &str) -> (r: String)
    requires
        is_supported_date_fmt(fmt@),
    ensures
        r@ == ts_render(ts.micros as int, ts.offset_secs as int, fmt@) || r@ == Seq::<
            char,
        >::empty(),
        (-8_000_000_000_000_000_000 <= ts.micros <= 8_000_000_000_000_000_000 && -86400
            < ts.offset_secs < 86400) ==> r@ == ts_render(
            ts.micros as int,
            ts.offset_secs as int,
            fmt@,
        ),
{
    match ts_to_display(ts.micros, ts.offset_secs, fmt) {
        Some(s) => s,
        None => String::new(),
    }
}

/// Datetime format string with a resolution that makes sense for a span of
/// `seconds`: date plus time above a day, down to microseconds under a second.
pub open spec fn spec_date_fmt(seconds: int) -> Seq<char> {
    if seconds > 86400 {
        "%Y-%m-%d %H:%M:%S"@
    } else if seconds > 300 {
        "%H:%M:%S"@
    } else if seconds > 1 {
        "%H:%M:%S%.3f"@
    } else {
        "%H:%M:%S%.6f"@
    }
}

/// Returns a datetime formatting string with a resolution that makes sense
/// for a given number of seconds.
pub fn date_fmt_string(seconds: i64) -> (r: &'static str)
    ensures
        r@ == spec_date_fmt(seconds as int),
        is_supported_date_fmt(r@),
{
    if seconds > 86400 {
        "%Y-%m-%d %H:%M:%S"
    } else if seconds > 300 {
        "%H:%M:%S"
    } else if seconds > 1 {
        "%H:%M:%S%.3f"
    } else {
        "%H:%M:%S%.6f"
    }
}

} // verus!
