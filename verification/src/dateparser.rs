//! Heuristic log-timestamp detection.
//!
//! From one representative line the detector infers a parsing strategy: a
//! character range within the line plus one of several supported encodings
//! (RFC 3339, RFC 2822, Unix epoch seconds, a few known date and time-only
//! formats, or a caller-supplied format string).  Every later line is then
//! sliced at the same positions and parsed with the same strategy.  chrono
//! does the actual date parsing behind trusted wrappers; the detection scan,
//! the epoch grammar and the slicing are verified here.
use vstd::prelude::*;
use vstd::string::StrSliceExecFns;
use vstd::string::StringExecFns;

use crate::timestamp::Timestamp;

verus! {

/// Longest timestamp the guessing scan considers.
pub const MAX_TS_LEN: usize = 28;

/// What chrono's RFC 3339 parser yields on a text: `None` on a parse error,
/// otherwise the instant in microseconds and the fixed offset in seconds.
pub uninterp spec fn rfc3339_parse(s: Seq<char>) -> Option<Timestamp>;

/// What chrono's RFC 2822 parser yields on a text.
pub uninterp spec fn rfc2822_parse(s: Seq<char>) -> Option<Timestamp>;

/// What chrono's `NaiveDateTime::parse_from_str` yields on a text and format:
/// `None` on a parse error, otherwise the naive instant in microseconds,
/// read as UTC.
pub uninterp spec fn datetime_parse(s: Seq<char>, fmt: Seq<char>) -> Option<int>;

/// Whether chrono's `NaiveTime::parse_from_str` accepts a text under a
/// format, and if so the parsed time of day in microseconds, reduced modulo
/// one day.
pub uninterp spec fn time_parse(s: Seq<char>, fmt: Seq<char>) -> Option<int>;

/// Relies on chrono's `DateTime::parse_from_rfc3339`, `timestamp_micros` and
/// `FixedOffset::local_minus_utc`: the parse depends on the text alone, a
/// fixed offset is strictly within one day, and chrono instants stay within
/// about 8.4e18 microseconds of the epoch.
#[verifier::external_body]
pub(crate) fn parse_rfc3339(s: &str) -> (r: Option<Timestamp>)
    ensures
        r == rfc3339_parse(s@),
        r matches Some(t) ==> -86400 < t.offset_secs < 86400 && -8_400_000_000_000_000_000
            <= t.micros <= 8_400_000_000_000_000_000,
{
    match chrono::DateTime::parse_from_rfc3339(s) {
        Ok(dt) => Some(
            Timestamp { micros: dt.timestamp_micros(), offset_secs: dt.offset().local_minus_utc() },
        ),
        Err(_) => None,
    }
}

/// Relies on chrono's `DateTime::parse_from_rfc2822`, with the same reading
/// as the RFC 3339 wrapper.
#[verifier::external_body]
pub(crate) fn parse_rfc2822(s: &str) -> (r: Option<Timestamp>)
    ensures
        r == rfc2822_parse(s@),
        r matches Some(t) ==> -86400 < t.offset_secs < 86400 && -8_400_000_000_000_000_000
            <= t.micros <= 8_400_000_000_000_000_000,
{
    match chrono::DateTime::parse_from_rfc2822(s) {
        Ok(dt) => Some(
            Timestamp { micros: dt.timestamp_micros(), offset_secs: dt.offset().local_minus_utc() },
        ),
        Err(_) => None,
    }
}

/// Relies on chrono's `NaiveDateTime::parse_from_str`: success and value
/// depend on the text and format alone; the naive result is read as UTC
/// (offset zero), as the original formats carry no zone.
#[verifier::external_body]
pub(crate) fn parse_datetime(s: &str, fmt: &str) -> (r: Option<Timestamp>)
    ensures
        match r {
            Option::Some(t) => datetime_parse(s@, fmt@) == Some(t.micros as int) && t.offset_secs
                == 0 && -8_400_000_000_000_000_000 <= t.micros <= 8_400_000_000_000_000_000,
            Option::None => datetime_parse(s@, fmt@) is None,
        },
{
    match chrono::NaiveDateTime::parse_from_str(s, fmt) {
        Ok(naive) => Some(
            Timestamp { micros: naive.and_utc().timestamp_micros(), offset_secs: 0 },
        ),
        Err(_) => None,
    }
}

/// Relies on chrono's `NaiveTime::parse_from_str`, `Utc::now` and date-time
/// composition: whether the text parses, and its time of day modulo one day,
/// depend on the text and format alone; the date part is whatever today is,
/// so of the full instant only the residue modulo one day is promised.
#[verifier::external_body]
pub(crate) fn parse_time_today(s: &str, fmt: &str) -> (r: Option<Timestamp>)
    ensures
        r.is_some() == time_parse(s@, fmt@).is_some(),
        match r {
            Option::Some(t) => t.offset_secs == 0 && (time_parse(s@, fmt@) matches Some(tod) && (
            t.micros as int - tod) % 86_400_000_000 == 0) && -8_400_000_000_000_000_000 <= t.micros
                <= 8_400_000_000_000_000_000,
            Option::None => true,
        },
{
    match chrono::NaiveTime::parse_from_str(s, fmt) {
        Ok(t) => {
            let dt = chrono::Utc::now().date_naive().and_time(t).and_utc();
            Some(Timestamp { micros: dt.timestamp_micros(), offset_secs: 0 })
        },
        Err(_) => None,
    }
}

/// The known date-plus-time formats, tried in this order.
pub open spec fn spec_date_format(i: int) -> Seq<char> {
    if i == 0 {
        "%Y-%m-%d %H:%M:%S,%3f"@
    } else if i == 1 {
        "%Y-%m-%d %H:%M:%S"@
    } else if i == 2 {
        "%Y/%m/%d %H:%M:%S"@
    } else {
        "%d-%b-%Y::%H:%M:%S"@
    }
}

/// The known time-only formats, tried in this order.
pub open spec fn spec_time_format(i: int) -> Seq<char> {
    if i == 0 {
        "%H:%M:%S"@
    } else {
        "%H:%M:%S.%6f"@
    }
}

/// The known date-plus-time format with index `i`.
pub fn date_format(i: u8) -> (r: &'static str)
    requires
        i < 4,
    ensures
        r@ == spec_date_format(i as int),
{
    if i == 0 {
        "%Y-%m-%d %H:%M:%S,%3f"
    } else if i == 1 {
        "%Y-%m-%d %H:%M:%S"
    } else if i == 2 {
        "%Y/%m/%d %H:%M:%S"
    } else {
        "%d-%b-%Y::%H:%M:%S"
    }
}

/// The known time-only format with index `i`.
pub fn time_format(i: u8) -> (r: &'static str)
    requires
        i < 2,
    ensures
        r@ == spec_time_format(i as int),
{
    if i == 0 {
        "%H:%M:%S"
    } else {
        "%H:%M:%S.%6f"
    }
}

/// A decimal digit character.
pub open spec fn is_digit_char(c: char) -> bool {
    '0' <= c && c <= '9'
}

/// Value of one digit character.
pub open spec fn digit_val(c: char) -> nat
    recommends
        is_digit_char(c),
{
    (c as nat - '0' as nat) as nat
}

/// Value of a digit string, most significant first.
pub open spec fn digits_val(s: Seq<char>) -> nat
    decreases s.len(),
{
    if s.len() == 0 {
        0
    } else {
        digits_val(s.drop_last()) * 10 + digit_val(s.last())
    }
}

/// A text shaped like a Unix timestamp of arbitrary precision: exactly ten
/// integer digits, optionally a dot and one to nine fractional digits.
pub open spec fn spec_looks_like_timestamp(s: Seq<char>) -> bool {
    &&& (s.len() == 10 || (12 <= s.len() <= 20 && s[10] == '.'))
    &&& forall|i: int| 0 <= i < s.len() && i != 10 ==> is_digit_char(#[trigger] s[i])
}

/// Ten raised to a small power.
pub open spec fn pow10(n: nat) -> nat
    decreases n,
{
    if n == 0 {
        1
    } else {
        10 * pow10((n - 1) as nat)
    }
}

/// What a validated epoch text denotes: its seconds and fractional part as
/// an instant in microseconds, at offset zero.  A text that is not shaped
/// like a validated timestamp denotes nothing.
pub open spec fn epoch_parse(s: Seq<char>) -> Option<Timestamp> {
    if spec_looks_like_timestamp(s) {
        let secs = digits_val(s.subrange(0, 10));
        let nanos = if s.len() == 10 {
            0
        } else {
            digits_val(s.subrange(11, s.len() as int)) * pow10((20 - s.len()) as nat)
        };
        Some(
            Timestamp {
                micros: (secs * 1_000_000 + nanos / 1000) as i64,
                offset_secs: 0,
            },
        )
    } else {
        None
    }
}

/// True when the text is shaped like a validated Unix timestamp.
pub fn looks_like_timestamp(s: &str) -> (r: bool)
    ensures
        r == spec_looks_like_timestamp(s@),
{
    let n = s.unicode_len();
    if !(n == 10 || (12 <= n && n <= 20)) {
        return false;
    }
    if n > 10 && s.get_char(10) != '.' {
        return false;
    }
    let mut i: usize = 0;
    while i < n
        invariant
            i <= n,
            n == s@.len(),
            forall|k: int| 0 <= k < i && k != 10 ==> is_digit_char(#[trigger] s@[k]),
        decreases n - i,
    {
        if i != 10 {
            let c = s.get_char(i);
            if !(c >= '0' && c <= '9') {
                return false;
            }
        }
        i = i + 1;
    }
    true
}

/// Value of a slice of digit characters, bounded by its width.
fn digits_value(s: &str, from: usize, to: usize) -> (r: u64)
    requires
        from <= to <= s@.len(),
        to - from <= 10,
        forall|k: int| from <= k < to ==> is_digit_char(#[trigger] s@[k]),
    ensures
        r as nat == digits_val(s@.subrange(from as int, to as int)),
        r < pow10((to - from) as nat),
{
    let mut value: u64 = 0;
    let mut i: usize = from;
    proof {
        assert(s@.subrange(from as int, from as int) =~= Seq::<char>::empty());
        lemma_pow10_bounds();
    }
    while i < to
        invariant
            from <= i <= to,
            to <= s@.len(),
            to - from <= 10,
            forall|k: int| from <= k < to ==> is_digit_char(#[trigger] s@[k]),
            value as nat == digits_val(s@.subrange(from as int, i as int)),
            value < pow10((i - from) as nat),
            pow10(10) == 10_000_000_000,
        decreases to - i,
    {
        let c = s.get_char(i);
        proof {
            assert(s@.subrange(from as int, i + 1).drop_last() =~= s@.subrange(
                from as int,
                i as int,
            ));
            assert(s@.subrange(from as int, i + 1).last() == s@[i as int]);
            lemma_pow10_mono((i + 1 - from) as nat, 10);
        }
        value = value * 10 + ((c as u32) as u64 - 48);
        i = i + 1;
    }
    proof {
        lemma_pow10_mono((to - from) as nat, 10);
    }
    value
}

/// `pow10` at the widths the parser meets.
proof fn lemma_pow10_bounds()
    ensures
        pow10(10) == 10_000_000_000,
        pow10(9) == 1_000_000_000,
{
    assert(pow10(0) == 1);
    assert(pow10(1) == 10);
    assert(pow10(2) == 100);
    assert(pow10(3) == 1000);
    assert(pow10(4) == 10_000);
    assert(pow10(5) == 100_000);
    assert(pow10(6) == 1_000_000);
    assert(pow10(7) == 10_000_000);
    assert(pow10(8) == 100_000_000);
    assert(pow10(9) == 1_000_000_000);
    assert(pow10(10) == 10_000_000_000);
}

/// `pow10` is monotone.
proof fn lemma_pow10_mono(a: nat, b: nat)
    requires
        a <= b,
    ensures
        pow10(a) <= pow10(b),
    decreases b,
{
    if a < b {
        lemma_pow10_mono(a, (b - 1) as nat);
    }
}

/// Parses a validated epoch text; `None` when the text is not shaped like
/// one.
pub fn epoch_parse_exec(s: &str) -> (r: Option<Timestamp>)
    ensures
        r == epoch_parse(s@),
{
    if !looks_like_timestamp(s) {
        return None;
    }
    let n = s.unicode_len();
    proof {
        lemma_pow10_bounds();
    }
    let secs = digits_value(s, 0, 10);
    let nanos: u64 = if n == 10 {
        0
    } else {
        let frac = digits_value(s, 11, n);
        proof {
            lemma_frac_scale(digits_val(s@.subrange(11, n as int)), (n - 11) as nat);
        }
        frac * pow10_u64((20 - n) as u8)
    };
    let micros: i64 = (secs * 1_000_000 + nanos / 1000) as i64;
    Some(Timestamp::new(micros, 0))
}

/// Ten raised to a small power, executable.
fn pow10_u64(n: u8) -> (r: u64)
    requires
        n <= 10,
    ensures
        r as nat == pow10(n as nat),
    decreases n,
{
    proof {
        lemma_pow10_bounds();
        lemma_pow10_mono(n as nat, 10);
    }
    if n == 0 {
        1
    } else {
        let rest = pow10_u64(n - 1);
        proof {
            lemma_pow10_mono((n - 1) as nat, 10);
        }
        10 * rest
    }
}

/// A fraction of `f` digits scaled to nanoseconds stays under one second.
proof fn lemma_frac_scale(v: nat, f: nat)
    requires
        1 <= f <= 9,
        v < pow10(f),
    ensures
        v * pow10((9 - f) as nat) < 1_000_000_000,
    decreases f,
{
    lemma_pow10_bounds();
    assert(pow10(f) * pow10((9 - f) as nat) == pow10(9)) by {
        lemma_pow10_add(f, (9 - f) as nat);
    }
    assert(v * pow10((9 - f) as nat) < pow10(f) * pow10((9 - f) as nat)) by (nonlinear_arith)
        requires
            v < pow10(f),
            pow10((9 - f) as nat) >= 1,
    ;
}

/// A parsing strategy fixed at detection time: one of the supported
/// encodings, dispatched by `apply` without re-detection.
pub enum ParseStrategy {
    Rfc3339,
    Rfc2822,
    UnixEpoch,
    DateFormat(u8),
    TimeFormat(u8),
    Custom(String),
}

/// A strategy's format indices stay within the known tables.
pub open spec fn strategy_wf(st: ParseStrategy) -> bool {
    match st {
        ParseStrategy::DateFormat(i) => i < 4,
        ParseStrategy::TimeFormat(i) => i < 2,
        _ => true,
    }
}

/// Relation between a naive (zoneless) parse outcome and a timestamp result.
pub open spec fn naive_matches(r: Option<Timestamp>, n: Option<int>) -> bool {
    match r {
        Option::Some(t) => n == Some(t.micros as int) && t.offset_secs == 0,
        Option::None => n is None,
    }
}

/// Relation between a time-only parse outcome and a timestamp result: the
/// date part is today's, so only the time of day is pinned down.
pub open spec fn today_matches(r: Option<Timestamp>, n: Option<int>) -> bool {
    match r {
        Option::Some(t) => t.offset_secs == 0 && (n matches Some(tod) && (t.micros as int - tod)
            % 86_400_000_000 == 0),
        Option::None => n is None,
    }
}

/// What applying a strategy to a text must yield.
pub open spec fn parse_matches(st: ParseStrategy, s: Seq<char>, r: Option<Timestamp>) -> bool {
    match st {
        ParseStrategy::Rfc3339 => r == rfc3339_parse(s),
        ParseStrategy::Rfc2822 => r == rfc2822_parse(s),
        ParseStrategy::UnixEpoch => r == epoch_parse(s),
        ParseStrategy::DateFormat(i) => naive_matches(r, datetime_parse(s, spec_date_format(i as int))),
        ParseStrategy::TimeFormat(i) => today_matches(r, time_parse(s, spec_time_format(i as int))),
        ParseStrategy::Custom(f) => naive_matches(r, datetime_parse(s, f@)),
    }
}

/// The strategy detection tries on one candidate text, in fixed priority:
/// RFC 3339, RFC 2822, validated epoch seconds, the known date formats, then
/// the known time-only formats.
pub open spec fn strategy_detected(s: Seq<char>) -> Option<ParseStrategy> {
    if rfc3339_parse(s) is Some {
        Some(ParseStrategy::Rfc3339)
    } else if rfc2822_parse(s) is Some {
        Some(ParseStrategy::Rfc2822)
    } else if spec_looks_like_timestamp(s) {
        Some(ParseStrategy::UnixEpoch)
    } else if datetime_parse(s, spec_date_format(0)) is Some {
        Some(ParseStrategy::DateFormat(0))
    } else if datetime_parse(s, spec_date_format(1)) is Some {
        Some(ParseStrategy::DateFormat(1))
    } else if datetime_parse(s, spec_date_format(2)) is Some {
        Some(ParseStrategy::DateFormat(2))
    } else if datetime_parse(s, spec_date_format(3)) is Some {
        Some(ParseStrategy::DateFormat(3))
    } else if time_parse(s, spec_time_format(0)) is Some {
        Some(ParseStrategy::TimeFormat(0))
    } else if time_parse(s, spec_time_format(1)) is Some {
        Some(ParseStrategy::TimeFormat(1))
    } else {
        None
    }
}

/// Applies a fixed strategy to a text.
pub fn apply(st: &ParseStrategy, s: &str) -> (r: Option<Timestamp>)
    requires
        strategy_wf(*st),
    ensures
        parse_matches(*st, s@, r),
{
    match st {
        ParseStrategy::Rfc3339 => parse_rfc3339(s),
        ParseStrategy::Rfc2822 => parse_rfc2822(s),
        ParseStrategy::UnixEpoch => epoch_parse_exec(s),
        ParseStrategy::DateFormat(i) => parse_datetime(s, date_format(*i)),
        ParseStrategy::TimeFormat(i) => parse_time_today(s, time_format(*i)),
        ParseStrategy::Custom(f) => parse_datetime(s, f.as_str()),
    }
}

/// Tries every supported encoding on one candidate text, in priority order.
pub fn guess_parser(s: &str) -> (r: Option<ParseStrategy>)
    ensures
        r == strategy_detected(s@),
        r matches Some(st) ==> strategy_wf(st),
{
    if parse_rfc3339(s).is_some() {
        return Some(ParseStrategy::Rfc3339);
    }
    if parse_rfc2822(s).is_some() {
        return Some(ParseStrategy::Rfc2822);
    }
    if looks_like_timestamp(s) {
        return Some(ParseStrategy::UnixEpoch);
    }
    if parse_datetime(s, date_format(0)).is_some() {
        return Some(ParseStrategy::DateFormat(0));
    }
    if parse_datetime(s, date_format(1)).is_some() {
        return Some(ParseStrategy::DateFormat(1));
    }
    if parse_datetime(s, date_format(2)).is_some() {
        return Some(ParseStrategy::DateFormat(2));
    }
    if parse_datetime(s, date_format(3)).is_some() {
        return Some(ParseStrategy::DateFormat(3));
    }
    if parse_time_today(s, time_format(0)).is_some() {
        return Some(ParseStrategy::TimeFormat(0));
    }
    if parse_time_today(s, time_format(1)).is_some() {
        return Some(ParseStrategy::TimeFormat(1));
    }
    None
}

/// First position of `c` in `s` at or after `k`.
pub open spec fn first_char_from(s: Seq<char>, c: char, k: int) -> Option<int>
    decreases s.len() - k,
{
    if k < 0 || k >= s.len() {
        None
    } else if s[k] == c {
        Some(k)
    } else {
        first_char_from(s, c, k + 1)
    }
}

/// First position of a decimal digit in `s` at or after `k`.
pub open spec fn first_digit_from(s: Seq<char>, k: int) -> Option<int>
    decreases s.len() - k,
{
    if k < 0 || k >= s.len() {
        None
    } else if is_digit_char(s[k]) {
        Some(k)
    } else {
        first_digit_from(s, k + 1)
    }
}

/// Finds the first occurrence of `c`.
fn find_char(s: &str, c: char) -> (r: Option<usize>)
    ensures
        match r {
            Option::Some(u) => first_char_from(s@, c, 0) == Some(u as int),
            Option::None => first_char_from(s@, c, 0) is None,
        },
{
    let n = s.unicode_len();
    let mut k: usize = 0;
    while k < n
        invariant
            k <= n,
            n == s@.len(),
            first_char_from(s@, c, 0) == first_char_from(s@, c, k as int),
        decreases n - k,
    {
        if s.get_char(k) == c {
            return Some(k);
        }
        k = k + 1;
    }
    None
}

/// Finds the first decimal digit.
fn find_digit(s: &str) -> (r: Option<usize>)
    ensures
        match r {
            Option::Some(u) => first_digit_from(s@, 0) == Some(u as int),
            Option::None => first_digit_from(s@, 0) is None,
        },
{
    let n = s.unicode_len();
    let mut k: usize = 0;
    while k < n
        invariant
            k <= n,
            n == s@.len(),
            first_digit_from(s@, 0) == first_digit_from(s@, k as int),
        decreases n - k,
    {
        let ch = s.get_char(k);
        if ch >= '0' && ch <= '9' {
            return Some(k);
        }
        k = k + 1;
    }
    None
}

/// Highest end position the guessing scan tries for a candidate starting at
/// `i`: at most the maximum timestamp length, clamped to the line.
pub open spec fn scan_hi(s: Seq<char>, i: int) -> int {
    if s.len() - i >= MAX_TS_LEN as int {
        i + MAX_TS_LEN - 1
    } else {
        s.len() as int
    }
}

/// Highest end position the explicit-format scan tries, twice as generous.
pub open spec fn fmt_scan_hi(s: Seq<char>, i: int) -> int {
    if s.len() - i >= 2 * MAX_TS_LEN as int {
        i + 2 * MAX_TS_LEN - 1
    } else {
        s.len() as int
    }
}

/// The line opens a bracketed field: `[` first, with a closing `]`.
pub open spec fn bracket_case(s: Seq<char>) -> bool {
    s.len() > 0 && s[0] == '[' && first_char_from(s, ']', 0) is Some
}

/// The bracket contents, tried as one unit.
pub open spec fn bracket_inner(s: Seq<char>) -> Seq<char>
    recommends
        bracket_case(s),
{
    s.subrange(1, first_char_from(s, ']', 0)->Some_0)
}

/// Detection succeeds on the bracket contents.
pub open spec fn bracket_hit(s: Seq<char>) -> bool {
    bracket_case(s) && strategy_detected(bracket_inner(s)) is Some
}

/// A successful guess: the range and strategy `new_with_guess` must fix.
/// Bracket contents win; otherwise the longest parsing suffix-bounded
/// candidate from the first digit.
pub open spec fn guess_ok(s: Seq<char>, p: LogDateParser) -> bool {
    if bracket_hit(s) {
        &&& p.start == 1
    &&& Some(p.end as int) == first_char_from(s, ']', 0)
    &&& Some(p.strategy) == strategy_detected(bracket_inner(s))
    } else {
        &&& first_digit_from(s, 0) == Some(p.start as int)
    &&& p.start as int <= p.end as int <= scan_hi(s, p.start as int)
    &&& Some(p.strategy) == strategy_detected(s.subrange(p.start as int, p.end as int))
    &&& forall|j: int|
        p.end < j <= scan_hi(s, p.start as int) ==> strategy_detected(
            #[trigger] s.subrange(p.start as int, j),
        ) is None
    }
}

/// A failed guess: no bracket hit, and no candidate from the first digit
/// parses (or there is no digit).
pub open spec fn guess_fail(s: Seq<char>) -> bool {
    &&& !bracket_hit(s)
    &&& match first_digit_from(s, 0) {
        Option::None => true,
        Option::Some(i) => forall|j: int|
            i <= j <= scan_hi(s, i) ==> strategy_detected(#[trigger] s.subrange(i, j)) is None,
    }
}

/// A successful explicit-format detection: the first substring, scanning
/// start positions left to right and trying longer candidates first, that
/// parses with the given format.
pub open spec fn format_ok(s: Seq<char>, f: Seq<char>, p: LogDateParser) -> bool {
    &&& p.strategy matches ParseStrategy::Custom(g) && g@ == f
    &&& (p.start as int) < s.len()
    &&& p.start as int <= p.end as int <= fmt_scan_hi(s, p.start as int)
    &&& datetime_parse(s.subrange(p.start as int, p.end as int), f) is Some
    &&& forall|i2: int, j2: int|
        0 <= i2 < s.len() && i2 <= j2 <= fmt_scan_hi(s, i2) && (i2 < p.start || (i2 == p.start && j2
            > p.end)) ==> datetime_parse(#[trigger] s.subrange(i2, j2), f) is None
}

/// A failed explicit-format detection: no substring in the scanned set
/// parses with the given format.
pub open spec fn format_fail(s: Seq<char>, f: Seq<char>) -> bool {
    forall|i2: int, j2: int|
        0 <= i2 < s.len() && i2 <= j2 <= fmt_scan_hi(s, i2) ==> datetime_parse(
            #[trigger] s.subrange(i2, j2),
            f,
        ) is None
}

/// A detected timestamp position and strategy, built once from a
/// representative line and reused read-only for every later line.
pub struct LogDateParser {
    pub start: usize,
    pub end: usize,
    pub strategy: ParseStrategy,
}

impl LogDateParser {
    /// A parser's range is ordered and its strategy indices are in range.
    pub open spec fn wf(&self) -> bool {
        self.start <= self.end && strategy_wf(self.strategy)
    }

    /// Builds a parser, guessing the format unless one is supplied.
    pub fn new(log_line: &str, format_string: &Option<String>) -> (r: Result<
        LogDateParser,
        String,
    >)
        ensures
            match format_string {
                Option::Some(f) => match r {
                    Result::Ok(p) => p.wf() && format_ok(log_line@, f@, p),
                    Result::Err(_) => format_fail(log_line@, f@),
                },
                Option::None => match r {
                    Result::Ok(p) => p.wf() && guess_ok(log_line@, p),
                    Result::Err(_) => guess_fail(log_line@),
                },
            },
    {
        match format_string {
            Some(ts_format) => Self::new_with_format(log_line, ts_format.as_str()),
            None => Self::new_with_guess(log_line),
        }
    }

    /// Guesses a timestamp position and encoding from one line: bracket
    /// contents first, then the first digit onward.
    pub fn new_with_guess(log_line: &str) -> (r: Result<LogDateParser, String>)
        ensures
            match r {
                Result::Ok(p) => p.wf() && guess_ok(log_line@, p),
                Result::Err(_) => guess_fail(log_line@),
            },
    {
        if let Some(p) = Self::from_brackets(log_line) {
            Ok(p)
        } else if let Some(p) = Self::from_heuristic(log_line) {
            Ok(p)
        } else {
            let mut msg = String::from_str("Could not parse a timestamp in ");
            msg.append(log_line);
            Err(msg)
        }
    }

    /// Tries all encodings against the contents of a leading bracket.
    fn from_brackets(s: &str) -> (r: Option<LogDateParser>)
        ensures
            match r {
                Option::Some(p) => p.wf() && bracket_hit(s@) && p.start == 1 && Some(p.end as int)
                    == first_char_from(s@, ']', 0) && Some(p.strategy) == strategy_detected(
                    bracket_inner(s@),
                ),
                Option::None => !bracket_hit(s@),
            },
    {
        let n = s.unicode_len();
        if n == 0 || s.get_char(0) != '[' {
            return None;
        }
        match find_char(s, ']') {
            Some(x) => {
                proof {
                    lemma_first_char_in_range(s@, ']', 0, x as int);
                }
                let inner = s.substring_char(1, x);
                match guess_parser(inner) {
                    Some(strategy) => Some(LogDateParser { start: 1, end: x, strategy }),
                    None => None,
                }
            },
            None => None,
        }
    }

    /// Scans from the first digit, trying progressively shorter candidates
    /// until one parses.
    fn from_heuristic(s: &str) -> (r: Option<LogDateParser>)
        ensures
            match r {
                Option::Some(p) => p.wf() && first_digit_from(s@, 0) == Some(p.start as int)
                    && p.start as int <= p.end as int <= scan_hi(s@, p.start as int) && Some(
                    p.strategy,
                ) == strategy_detected(s@.subrange(p.start as int, p.end as int)) && forall|j: int|
                    p.end < j <= scan_hi(s@, p.start as int) ==> strategy_detected(
                        #[trigger] s@.subrange(p.start as int, j),
                    ) is None,
                Option::None => match first_digit_from(s@, 0) {
                    Option::None => true,
                    Option::Some(i) => forall|j: int|
                        i <= j <= scan_hi(s@, i) ==> strategy_detected(
                            #[trigger] s@.subrange(i, j),
                        ) is None,
                },
            },
    {
        let n = s.unicode_len();
        let i = match find_digit(s) {
            Some(i) => i,
            None => {
                return None;
            },
        };
        proof {
            lemma_first_digit_in_range(s@, 0, i as int);
        }
        let hi: usize = if n - i >= MAX_TS_LEN {
            i + (MAX_TS_LEN - 1)
        } else {
            n
        };
        let mut j: usize = hi;
        loop
            invariant
                i <= j <= hi,
                i < n,
                n == s@.len(),
                hi == scan_hi(s@, i as int),
                first_digit_from(s@, 0) == Some(i as int),
                forall|j2: int|
                    j < j2 <= hi ==> strategy_detected(#[trigger] s@.subrange(i as int, j2)) is None,
            decreases j,
        {
            let cand = s.substring_char(i, j);
            if let Some(strategy) = guess_parser(cand) {
                return Some(LogDateParser { start: i, end: j, strategy });
            }
            if j == i {
                return None;
            }
            j = j - 1;
        }
    }

    /// Brute-forces every substring of the line, start positions left to
    /// right and longer candidates first, against an explicit format string.
    pub fn new_with_format(log_line: &str, format_string: &str) -> (r: Result<
        LogDateParser,
        String,
    >)
        ensures
            match r {
                Result::Ok(p) => p.wf() && format_ok(log_line@, format_string@, p),
                Result::Err(_) => format_fail(log_line@, format_string@),
            },
    {
        let n = log_line.unicode_len();
        let mut i: usize = 0;
        while i < n
            invariant
                i <= n,
                n == log_line@.len(),
                forall|i2: int, j2: int|
                    0 <= i2 < i && i2 <= j2 <= fmt_scan_hi(log_line@, i2) ==> datetime_parse(
                        #[trigger] log_line@.subrange(i2, j2),
                        format_string@,
                    ) is None,
            decreases n - i,
        {
            let hi: usize = if n - i >= 2 * MAX_TS_LEN {
                i + (2 * MAX_TS_LEN - 1)
            } else {
                n
            };
            let mut j: usize = hi;
            let mut exhausted = false;
            while !exhausted
                invariant
                    i <= j <= hi,
                    i < n,
                    n == log_line@.len(),
                    hi == fmt_scan_hi(log_line@, i as int),
                    forall|i2: int, j2: int|
                        0 <= i2 < i && i2 <= j2 <= fmt_scan_hi(log_line@, i2) ==> datetime_parse(
                            #[trigger] log_line@.subrange(i2, j2),
                            format_string@,
                        ) is None,
                    forall|j2: int|
                        j < j2 <= hi ==> datetime_parse(
                            #[trigger] log_line@.subrange(i as int, j2),
                            format_string@,
                        ) is None,
                    exhausted ==> forall|j2: int|
                        i <= j2 <= hi ==> datetime_parse(
                            #[trigger] log_line@.subrange(i as int, j2),
                            format_string@,
                        ) is None,
                decreases j - i + (if exhausted {
                    0int
                } else {
                    1int
                }),
            {
                let cand = log_line.substring_char(i, j);
                if parse_datetime(cand, format_string).is_some() {
                    proof {
                        assert forall|i2: int, j2: int|
                            0 <= i2 < log_line@.len() && i2 <= j2 <= fmt_scan_hi(log_line@, i2) && (
                            i2 < i || (i2 == i && j2 > j)) implies datetime_parse(
                            #[trigger] log_line@.subrange(i2, j2),
                            format_string@,
                        ) is None by {
                            if i2 == i {
                                assert(datetime_parse(
                                    log_line@.subrange(i as int, j2),
                                    format_string@,
                                ) is None);
                            }
                        }
                    }
                    return Ok(
                        LogDateParser {
                            start: i,
                            end: j,
                            strategy: ParseStrategy::Custom(format_string.to_owned()),
                        },
                    );
                }
                if j == i {
                    exhausted = true;
                } else {
                    j = j - 1;
                }
            }
            proof {
                assert forall|i2: int, j2: int|
                    0 <= i2 < i + 1 && i2 <= j2 <= fmt_scan_hi(log_line@, i2) implies datetime_parse(
                    #[trigger] log_line@.subrange(i2, j2),
                    format_string@,
                ) is None by {
                    if i2 == i {
                        assert(datetime_parse(log_line@.subrange(i as int, j2), format_string@)
                            is None);
                    }
                }
            }
            i = i + 1;
        }
        let mut msg = String::from_str("Could locate a '");
        msg.append(format_string);
        msg.append("' timestamp in '");
        msg.append(log_line);
        msg.append("'");
        Err(msg)
    }

    /// Slices the line at the detected positions, clamped to its length, and
    /// applies the fixed strategy; `None` when that slice does not parse.
    pub fn parse(&self, s: &str) -> (r: Option<Timestamp>)
        requires
            self.wf(),
        ensures
            parse_matches(
                self.strategy,
                s@.subrange(
                    if self.start as int <= s@.len() {
                        self.start as int
                    } else {
                        s@.len() as int
                    },
                    if self.end as int <= s@.len() {
                        self.end as int
                    } else {
                        s@.len() as int
                    },
                ),
                r,
            ),
    {
        let n = s.unicode_len();
        let a = if self.start <= n {
            self.start
        } else {
            n
        };
        let b = if self.end <= n {
            self.end
        } else {
            n
        };
        let slice = s.substring_char(a, b);
        apply(&self.strategy, slice)
    }
}

/// A found first occurrence lies in range and is the character looked for.
proof fn lemma_first_char_in_range(s: Seq<char>, c: char, k: int, x: int)
    requires
        0 <= k,
        first_char_from(s, c, k) == Some(x),
    ensures
        k <= x < s.len(),
        s[x] == c,
    decreases s.len() - k,
{
    if k < s.len() && s[k] != c {
        lemma_first_char_in_range(s, c, k + 1, x);
    }
}

/// A found first digit lies in range.
proof fn lemma_first_digit_in_range(s: Seq<char>, k: int, x: int)
    requires
        0 <= k,
        first_digit_from(s, k) == Some(x),
    ensures
        k <= x < s.len(),
        is_digit_char(s[x]),
    decreases s.len() - k,
{
    if k < s.len() && !is_digit_char(s[k]) {
        lemma_first_digit_in_range(s, k + 1, x);
    }
}

/// `pow10` turns addition into multiplication.
proof fn lemma_pow10_add(a: nat, b: nat)
    ensures
        pow10(a) * pow10(b) == pow10(a + b),
    decreases a,
{
    if a == 0 {
        assert(pow10(a) == 1);
        assert(a + b == b);
        assert(pow10(a) * pow10(b) == pow10(b)) by (nonlinear_arith)
            requires
                pow10(a) == 1,
        ;
    } else {
        lemma_pow10_add((a - 1) as nat, b);
        assert(pow10(a) * pow10(b) == 10 * (pow10((a - 1) as nat) * pow10(b)))
            by (nonlinear_arith)
            requires
                pow10(a) == 10 * pow10((a - 1) as nat),
        ;
        assert(pow10((a + b - 1) as nat) == pow10((a - 1) as nat) * pow10(b));
        assert(pow10(a + b) == 10 * pow10((a + b - 1) as nat));
    }
}

} // verus!
