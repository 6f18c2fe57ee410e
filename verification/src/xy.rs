//! The marker row of an XY plot.
//!
//! The plot itself aggregates 64-bit float samples into columns and decides
//! which row band each column's value falls in; that is floating-point work
//! and lives outside the library.  Drawing one row from those decisions is
//! verified here.
use vstd::prelude::*;
use vstd::string::StringExecFns;

verus! {

/// The dot marking a column whose value falls in the row's band.
pub open spec fn dot_char() -> char {
    '\u{25cf}'
}

/// One plot row: a dot in every marked column, a space elsewhere.
pub fn plot_row(marks: &Vec<bool>) -> (r: String)
    ensures
        r@.len() == marks@.len(),
        forall|i: int|
            0 <= i < marks@.len() ==> r@[i] == (if marks@[i] {
                dot_char()
            } else {
                ' '
            }),
{
    proof {
        reveal_strlit("\u{25cf}");
        reveal_strlit(" ");
    }
    let mut out = String::new();
    let mut i: usize = 0;
    while i < marks.len()
        invariant
            i <= marks@.len(),
            out@.len() == i,
            forall|k: int|
                0 <= k < i ==> out@[k] == (if marks@[k] {
                    dot_char()
                } else {
                    ' '
                }),
        decreases marks@.len() - i,
    {
        proof {
            reveal_strlit("\u{25cf}");
            reveal_strlit(" ");
        }
        if marks[i] {
            out.append("\u{25cf}");
        } else {
            out.append(" ");
        }
        i = i + 1;
    }
    out
}

} // verus!
