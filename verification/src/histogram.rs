//! Options and layout arithmetic for the numeric histogram.
//!
//! The numeric histogram itself buckets 64-bit float samples, so its
//! bucketing and rendering live outside the library; the option record, the
//! choice of formatter and the bar-area arithmetic are verified here.
use vstd::prelude::*;

use crate::format::F64Formatter;

verus! {

/// Fixed-width columns around the bar area: brackets, spaces and margin.
pub const EXTRA_CHARS: usize = 10;

/// Bar area used when the requested width leaves no room for the margin.
pub const FALLBACK_BAR_WIDTH: usize = 75;

/// The preferences to build a histogram with.
pub struct HistogramOptions {
    /// Number of histogram buckets to display (capped to the length of the
    /// input data).
    pub intervals: usize,
    /// If true, logarithmic scale will be used for buckets.
    pub log_scale: bool,
    /// Number of decimals to display; `None` selects human units chosen
    /// from the input data's range.
    pub precision: Option<usize>,
}

impl Default for HistogramOptions {
    /// No buckets requested, linear scale, human units.
    fn default() -> (r: HistogramOptions)
        ensures
            r.intervals == 0,
            !r.log_scale,
            r.precision is None,
    {
        HistogramOptions { intervals: 0, log_scale: false, precision: None }
    }
}

/// Lays out histogram rows for a requested terminal width.
pub struct HistWriter {
    pub width: usize,
    pub formatter: F64Formatter,
}

impl HistWriter {
    /// Space left for the bar once `fixed_width` columns are taken, falling
    /// back to a fixed area when the requested width is too small.
    pub fn get_max_bar_len(&self, fixed_width: usize) -> (r: usize)
        ensures
            r == if self.width < fixed_width + EXTRA_CHARS {
                FALLBACK_BAR_WIDTH as int
            } else {
                self.width - fixed_width - EXTRA_CHARS
            },
    {
        if self.width < fixed_width || self.width - fixed_width < EXTRA_CHARS {
            FALLBACK_BAR_WIDTH
        } else {
            self.width - fixed_width - EXTRA_CHARS
        }
    }
}

/// Weight of the log-scale bucket with index `n`: a power of two.
pub open spec fn pow2(n: nat) -> nat
    decreases n,
{
    if n == 0 {
        1
    } else {
        2 * pow2((n - 1) as nat)
    }
}

/// Total weight of the first `k` log-scale buckets.
pub open spec fn pow2_sum(k: nat) -> nat
    decreases k,
{
    if k == 0 {
        0
    } else {
        pow2_sum((k - 1) as nat) + pow2((k - 1) as nat)
    }
}

/// In a logarithmic histogram bucket `i` has width `2^i` times the first
/// width, so each bucket's width is exactly double its predecessor's, and
/// the widths of `k` buckets total `2^k - 1` first-widths: with the first
/// width set to `span / (2^k - 1)`, the cumulative upper bound of the last
/// bucket meets the configured range's span.
pub proof fn lemma_log_scale_widths_double(k: nat)
    requires
        k >= 1,
    ensures
        forall|i: nat| #[trigger] pow2(i + 1) == 2 * pow2(i),
        pow2_sum(k) == pow2(k) - 1,
    decreases k,
{
    if k == 1 {
        assert(pow2_sum(0) == 0);
        assert(pow2(0) == 1);
    } else {
        lemma_log_scale_widths_double((k - 1) as nat);
    }
}

} // verus!
