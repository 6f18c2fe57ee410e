//! Nearest-rank percentile selection.
//!
//! The statistics themselves (minimum, maximum, average, variance) are
//! floating-point arithmetic and live outside the library; the nearest-rank
//! index computation and its ordering are verified here.
use vstd::prelude::*;

verus! {

/// The four nearest-rank indices used for p50, p90, p95 and p99: the median
/// index and `floor(len * p / 100)` for the others.
pub fn percentile_indices(len: usize) -> (r: (usize, usize, usize, usize))
    requires
        len >= 1,
    ensures
        r.0 == len as int / 2,
        r.1 == len as int * 9 / 10,
        r.2 == len as int * 95 / 100,
        r.3 == len as int * 99 / 100,
        r.0 <= r.1 <= r.2 <= r.3 < len,
{
    proof {
        lemma_percentile_ranks_ordered(len as nat);
    }
    let p50 = len / 2;
    let p90 = ((len as u128) * 9 / 10) as usize;
    let p95 = ((len as u128) * 95 / 100) as usize;
    let p99 = ((len as u128) * 99 / 100) as usize;
    (p50, p90, p95, p99)
}

/// The nearest-rank indices are ordered and in bounds: the median comes
/// before the ninetieth, ninety-fifth and ninety-ninth rank, and all stay
/// below the sample count.
pub proof fn lemma_percentile_ranks_ordered(n: nat)
    requires
        n >= 1,
    ensures
        n / 2 <= n * 9 / 10,
        n * 9 / 10 <= n * 95 / 100,
        n * 95 / 100 <= n * 99 / 100,
        n * 99 / 100 < n,
{
    assert(n / 2 <= n * 9 / 10) by (nonlinear_arith)
        requires
            n >= 1,
    ;
    assert(n * 9 / 10 <= n * 95 / 100) by (nonlinear_arith)
        requires
            n >= 1,
    ;
    assert(n * 95 / 100 <= n * 99 / 100) by (nonlinear_arith)
        requires
            n >= 1,
    ;
    assert(n * 99 / 100 < n) by (nonlinear_arith)
        requires
            n >= 1,
    ;
}

/// On any ascending sequence the selected percentile values are themselves
/// ordered, and every one lies between the first and last element.
pub proof fn lemma_sorted_percentiles(s: Seq<int>)
    requires
        s.len() >= 1,
        forall|i: int, j: int| 0 <= i <= j < s.len() ==> s[i] <= s[j],
    ensures
        s[0] <= s[s.len() as int / 2],
        s[s.len() as int / 2] <= s[s.len() as int * 9 / 10],
        s[s.len() as int * 9 / 10] <= s[s.len() as int * 95 / 100],
        s[s.len() as int * 95 / 100] <= s[s.len() as int * 99 / 100],
        s[s.len() as int * 99 / 100] <= s[s.len() - 1],
{
    lemma_percentile_ranks_ordered(s.len());
}

} // verus!
