//! Terminal-friendly charts: histograms, time histograms and match bars over
//! numeric or timestamped text lines.
//!
//! The crate models timestamps as plain microsecond counts, bins numeric and
//! time data into buckets, and renders colorless text rows; colorization and
//! all file or stream reading sit outside the library.
use vstd::prelude::*;

pub mod dateparser;
pub mod format;
pub mod histogram;
pub mod matchbar;
pub mod reader;
pub mod seqs;
pub mod splittimehist;
pub mod stats;
pub mod terms;
pub mod text;
pub mod timehist;
pub mod timestamp;
pub mod xy;

verus! {

/// True if `vec` has at least `min` elements.
pub fn assert_data<T>(vec: &[T], min: usize) -> (r: bool)
    ensures
        r == (vec@.len() >= min),
{
    vec.len() >= min
}

} // verus!
