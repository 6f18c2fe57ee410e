//! Formatting choices for numbers and the horizontal bar scale.
//!
//! `F64Formatter` holds the decimal count, thousands divisor and unit suffix
//! chosen either directly (fixed mode) or from the order of magnitude of a
//! value range (adaptive mode).  The division of a value by the divisor and
//! the decimal rendering itself involve floating point and live outside the
//! library; the choice of decimals, divisor and suffix is verified here.
use vstd::prelude::*;
use vstd::string::StrSliceExecFns;
use vstd::string::StringExecFns;

use crate::text::bar_char;
use crate::text::bar_run;
use crate::text::char_run;
use crate::text::dec_str;
use crate::text::pad_left;
use crate::text::pad_left_str;
use crate::text::usize_to_string;

verus! {

/// Unit suffix attached after dividing a value by `1000^d`.
pub open spec fn unit_suffix(d: nat) -> Seq<char>
    recommends
        d <= 8,
{
    if d == 0 {
        ""@
    } else if d == 1 {
        " K"@
    } else if d == 2 {
        " M"@
    } else if d == 3 {
        " G"@
    } else if d == 4 {
        " T"@
    } else if d == 5 {
        " P"@
    } else if d == 6 {
        " E"@
    } else if d == 7 {
        " Z"@
    } else {
        " Y"@
    }
}

/// The unit suffix for a divisor power as a string slice.
pub fn unit_str(d: u8) -> (r: &'static str)
    requires
        d <= 8,
    ensures
        r@ == unit_suffix(d as nat),
{
    if d == 0 {
        ""
    } else if d == 1 {
        " K"
    } else if d == 2 {
        " M"
    } else if d == 3 {
        " G"
    } else if d == 4 {
        " T"
    } else if d == 5 {
        " P"
    } else if d == 6 {
        " E"
    } else if d == 7 {
        " Z"
    } else {
        " Y"
    }
}

/// Decimal precision and unit scaling for rendering 64-bit float values.
///
/// `decimals` digits are shown after the point; the value is first divided by
/// `1000^divisor` and `suffix` is appended.
pub struct F64Formatter {
    decimals: usize,
    divisor: u8,
    suffix: &'static str,
}

impl F64Formatter {
    /// Decimals chosen by the adaptive mode for a span whose floor of
    /// `log10` is `log` (`None` when the span is zero).
    pub open spec fn spec_decimals(magnitude: Option<i64>) -> int {
        match magnitude {
            None => 3,
            Some(log) => if log <= 0 {
                (if -log <= 8 {
                    -log
                } else {
                    8
                }) + 3
            } else {
                log as int % 3
            },
        }
    }

    /// Divisor power chosen by the adaptive mode.
    pub open spec fn spec_divisor(magnitude: Option<i64>) -> int {
        match magnitude {
            None => 0,
            Some(log) => if log <= 0 {
                0
            } else if (log - 1) / 3 <= 5 {
                (log - 1) / 3
            } else {
                5
            },
        }
    }

    /// Number of digits shown after the decimal point.
    pub closed spec fn decimals_spec(&self) -> int {
        self.decimals as int
    }

    /// How many times a value is divided by 1000 before rendering.
    pub closed spec fn divisor_spec(&self) -> int {
        self.divisor as int
    }

    /// The suffix printed after the scaled value.
    pub closed spec fn suffix_spec(&self) -> Seq<char> {
        self.suffix@
    }

    /// A formatter is coherent when its suffix names its divisor power.
    pub open spec fn wf(&self) -> bool {
        0 <= self.divisor_spec() <= 8 && self.suffix_spec() == unit_suffix(
            self.divisor_spec() as nat,
        )
    }

    /// Fixed mode: exactly `decimals` digits, no scaling, no suffix.
    pub fn new(decimals: usize) -> (r: F64Formatter)
        ensures
            r.wf(),
            r.decimals_spec() == decimals,
            r.divisor_spec() == 0,
    {
        F64Formatter { decimals, divisor: 0, suffix: "" }
    }

    /// Adaptive mode, from the order of magnitude of the value range.
    ///
    /// `magnitude` is `None` when the range's span is zero, otherwise the
    /// floor of the span's base-10 logarithm, which for a finite non-zero
    /// 64-bit float span always lies well within a thousand of zero.
    pub fn new_with_magnitude(magnitude: Option<i64>) -> (r: F64Formatter)
        requires
            magnitude matches Some(log) ==> -1100 <= log <= 1100,
        ensures
            r.wf(),
            r.decimals_spec() == Self::spec_decimals(magnitude),
            r.divisor_spec() == Self::spec_divisor(magnitude),
    {
        match magnitude {
            None => F64Formatter { decimals: 3, divisor: 0, suffix: "" },
            Some(log) => {
                if log <= 0 {
                    let neg = (-log) as usize;
                    let capped = if neg <= 8 {
                        neg
                    } else {
                        8
                    };
                    F64Formatter { decimals: capped + 3, divisor: 0, suffix: "" }
                } else {
                    let decimals = (log % 3) as usize;
                    let d = (log - 1) / 3;
                    let divisor: u8 = if d <= 5 {
                        d as u8
                    } else {
                        5
                    };
                    F64Formatter { decimals, divisor, suffix: unit_str(divisor) }
                }
            },
        }
    }

    /// Digits after the decimal point.
    pub fn decimals(&self) -> (r: usize)
        ensures
            r as int == self.decimals_spec(),
    {
        self.decimals
    }

    /// Power of 1000 the value is divided by.
    pub fn divisor(&self) -> (r: u8)
        ensures
            r as int == self.divisor_spec(),
    {
        self.divisor
    }

    /// Unit suffix, space-prefixed when present.
    pub fn suffix(&self) -> (r: &str)
        ensures
            r@ == self.suffix_spec(),
    {
        self.suffix
    }
}

/// Legend line explaining how many counts one bar glyph stands for.
pub open spec fn scale_legend(scale: nat) -> Seq<char> {
    "Each \u{220e} represents a count of "@ + dec_str(scale) + "\n"@
}

/// How many count units one bar character represents.
pub struct HorizontalScale {
    scale: usize,
}

impl HorizontalScale {
    /// The count represented by one bar glyph; always at least one.
    pub closed spec fn scale_spec(&self) -> int {
        self.scale as int
    }

    pub open spec fn wf(&self) -> bool {
        self.scale_spec() >= 1
    }

    /// Builds a scale of at least one count per glyph.
    pub fn new(scale: usize) -> (r: HorizontalScale)
        ensures
            r.wf(),
            r.scale_spec() == if scale >= 1 {
                scale as int
            } else {
                1
            },
    {
        HorizontalScale { scale: if scale >= 1 {
            scale
        } else {
            1
        } }
    }

    pub fn get_scale(&self) -> (r: usize)
        ensures
            r as int == self.scale_spec(),
    {
        self.scale
    }

    /// One bar glyph per `scale` units of count.
    pub fn get_bar(&self, units: usize) -> (r: String)
        requires
            self.wf(),
        ensures
            r@ == char_run(bar_char(), (units as int / self.scale_spec()) as nat),
    {
        bar_run(units / self.scale)
    }

    /// The count rendered in decimal, right-aligned to `width` characters.
    pub fn get_count(&self, units: usize, width: usize) -> (r: String)
        ensures
            r@ == pad_left(dec_str(units as nat), width as nat),
    {
        let s = usize_to_string(units);
        pad_left_str(s.as_str(), width)
    }

    /// The legend line, ending in a newline.
    pub fn to_text(&self) -> (r: String)
        ensures
            r@ == scale_legend(self.scale_spec() as nat),
    {
        let mut out = String::from_str("Each \u{220e} represents a count of ");
        out.append(usize_to_string(self.scale).as_str());
        out.append("\n");
        proof {
            assert(out@ =~= scale_legend(self.scale_spec() as nat));
        }
        out
    }
}

} // verus!
