//! Bar chart of how often each of a set of labels occurs in the input lines.
use vstd::prelude::*;
use vstd::string::StrSliceExecFns;
use vstd::string::StringExecFns;

use crate::format::scale_legend;
use crate::format::HorizontalScale;
use crate::seqs::lemma_seq_max_push;
use crate::seqs::lemma_seq_sum_prefix_bound;
use crate::seqs::lemma_seq_sum_push;
use crate::seqs::seq_max;
use crate::seqs::seq_sum;
use crate::text::bar_char;
use crate::text::char_run;
use crate::text::contains_seq;
use crate::text::contains_str;
use crate::text::dec_str;
use crate::text::dec_width;
use crate::text::pad_left;
use crate::text::pad_right;
use crate::text::pad_right_str;
use crate::text::usize_to_string;

verus! {

/// One label of a match bar chart and how many lines contained it so far.
pub struct MatchBarRow {
    pub label: String,
    pub count: usize,
}

impl MatchBarRow {
    /// A row for `string` with an empty count.
    pub fn new(string: &str) -> (r: MatchBarRow)
        ensures
            r.label@ == string@,
            r.count == 0,
    {
        MatchBarRow { label: string.to_owned(), count: 0 }
    }

    /// Adds one to the count exactly when the row's label occurs in `line`.
    pub fn inc_if_matches(&mut self, line: &str)
        requires
            old(self).count < usize::MAX,
        ensures
            final(self).label == old(self).label,
            final(self).count == if contains_seq(line@, old(self).label@) {
                old(self).count + 1
            } else {
                old(self).count as int
            },
    {
        if contains_str(line, self.label.as_str()) {
            self.count = self.count + 1;
        }
    }
}

/// The counts of a row sequence, as naturals.
pub open spec fn row_counts(rows: Seq<MatchBarRow>) -> Seq<nat> {
    rows.map_values(|r: MatchBarRow| r.count as nat)
}

/// The label lengths of a row sequence, in characters.
pub open spec fn row_label_lens(rows: Seq<MatchBarRow>) -> Seq<nat> {
    rows.map_values(|r: MatchBarRow| r.label@.len())
}

/// One rendered chart line: bracketed padded label, bracketed right-aligned
/// count, then one bar glyph per `scale` counts.
pub open spec fn row_line(label: Seq<char>, count: nat, lw: nat, cw: nat, scale: nat) -> Seq<char>
    recommends
        scale >= 1,
{
    "["@ + pad_right(label, lw) + "] ["@ + pad_left(dec_str(count), cw) + "] "@ + char_run(
        bar_char(),
        count / scale,
    ) + "\n"@
}

/// All chart lines of a row sequence, in order.
pub open spec fn rows_text(rows: Seq<MatchBarRow>, lw: nat, cw: nat, scale: nat) -> Seq<char>
    decreases rows.len(),
{
    if rows.len() == 0 {
        Seq::empty()
    } else {
        rows_text(rows.drop_last(), lw, cw, scale) + row_line(
            rows.last().label@,
            rows.last().count as nat,
            lw,
            cw,
            scale,
        )
    }
}

/// The full rendering: total matches, the scale legend, a blank line, then
/// one line per row.
pub open spec fn matchbar_text(rows: Seq<MatchBarRow>, width: nat) -> Seq<char>
    recommends
        width >= 1,
{
    let top = seq_max(row_counts(rows));
    let scale = if top / width >= 1 {
        top / width
    } else {
        1
    };
    "Matches: "@ + dec_str(seq_sum(row_counts(rows))) + ".\n"@ + scale_legend(scale) + "\n"@
        + rows_text(rows, seq_max(row_label_lens(rows)), dec_str(top).len(), scale)
}

/// A bar chart of label occurrence counts.
pub struct MatchBar {
    pub vec: Vec<MatchBarRow>,
    pub top_values: usize,
    pub top_lenght: usize,
}

impl MatchBar {
    /// Builds the chart, recording the largest count and label width.
    pub fn new(vec: Vec<MatchBarRow>) -> (r: MatchBar)
        ensures
            r.vec@ == vec@,
            r.top_values as nat == seq_max(row_counts(vec@)),
            r.top_lenght as nat == seq_max(row_label_lens(vec@)),
    {
        let mut top_lenght: usize = 0;
        let mut top_values: usize = 0;
        let mut i: usize = 0;
        proof {
            assert(vec@.take(0) =~= Seq::<MatchBarRow>::empty());
            assert(row_counts(vec@.take(0)) =~= Seq::<nat>::empty());
            assert(row_label_lens(vec@.take(0)) =~= Seq::<nat>::empty());
        }
        while i < vec.len()
            invariant
                i <= vec@.len(),
                top_values as nat == seq_max(row_counts(vec@.take(i as int))),
                top_lenght as nat == seq_max(row_label_lens(vec@.take(i as int))),
            decreases vec@.len() - i,
        {
            let len = vec[i].label.as_str().unicode_len();
            proof {
                assert(row_counts(vec@.take(i + 1)) =~= row_counts(vec@.take(i as int)).push(
                    vec@[i as int].count as nat,
                ));
                assert(row_label_lens(vec@.take(i + 1)) =~= row_label_lens(
                    vec@.take(i as int),
                ).push(vec@[i as int].label@.len()));
                lemma_seq_max_push(row_counts(vec@.take(i as int)), vec@[i as int].count as nat);
                lemma_seq_max_push(
                    row_label_lens(vec@.take(i as int)),
                    vec@[i as int].label@.len(),
                );
            }
            if len > top_lenght {
                top_lenght = len;
            }
            if vec[i].count > top_values {
                top_values = vec[i].count;
            }
            i = i + 1;
        }
        proof {
            assert(vec@.take(vec@.len() as int) =~= vec@);
        }
        MatchBar { vec, top_values, top_lenght }
    }

    /// Renders the chart for a terminal of `width` characters.
    pub fn to_text(&self, width: usize) -> (r: String)
        requires
            width >= 1,
            seq_sum(row_counts(self.vec@)) <= usize::MAX,
            self.top_values as nat == seq_max(row_counts(self.vec@)),
            self.top_lenght as nat == seq_max(row_label_lens(self.vec@)),
        ensures
            r@ == matchbar_text(self.vec@, width as nat),
    {
        let scale = HorizontalScale::new(self.top_values / width);
        let width_count = dec_width(self.top_values);
        let mut total: usize = 0;
        let mut i: usize = 0;
        proof {
            assert(row_counts(self.vec@.take(0)) =~= Seq::<nat>::empty());
        }
        while i < self.vec.len()
            invariant
                i <= self.vec@.len(),
                total as nat == seq_sum(row_counts(self.vec@.take(i as int))),
                seq_sum(row_counts(self.vec@)) <= usize::MAX,
            decreases self.vec@.len() - i,
        {
            proof {
                assert(row_counts(self.vec@.take(i + 1)) =~= row_counts(
                    self.vec@.take(i as int),
                ).push(self.vec@[i as int].count as nat));
                lemma_seq_sum_push(
                    row_counts(self.vec@.take(i as int)),
                    self.vec@[i as int].count as nat,
                );
                lemma_seq_sum_prefix_bound(row_counts(self.vec@), i + 1);
                assert(row_counts(self.vec@).take(i + 1) =~= row_counts(self.vec@.take(i + 1)));
            }
            total = total + self.vec[i].count;
            i = i + 1;
        }
        proof {
            assert(self.vec@.take(self.vec@.len() as int) =~= self.vec@);
        }
        let mut out = String::from_str("Matches: ");
        out.append(usize_to_string(total).as_str());
        out.append(".\n");
        out.append(scale.to_text().as_str());
        out.append("\n");
        let ghost header = out@;
        let mut i: usize = 0;
        while i < self.vec.len()
            invariant
                i <= self.vec@.len(),
                scale.wf(),
                out@ == header + rows_text(
                    self.vec@.take(i as int),
                    self.top_lenght as nat,
                    dec_str(self.top_values as nat).len(),
                    scale.scale_spec() as nat,
                ),
                width_count == dec_str(self.top_values as nat).len(),
            decreases self.vec@.len() - i,
        {
            let row = &self.vec[i];
            out.append("[");
            out.append(pad_right_str(row.label.as_str(), self.top_lenght).as_str());
            out.append("] [");
            out.append(scale.get_count(row.count, width_count).as_str());
            out.append("] ");
            out.append(scale.get_bar(row.count).as_str());
            out.append("\n");
            proof {
                assert(self.vec@.take(i + 1).drop_last() =~= self.vec@.take(i as int));
                assert(out@ =~= header + rows_text(
                    self.vec@.take(i + 1),
                    self.top_lenght as nat,
                    dec_str(self.top_values as nat).len(),
                    scale.scale_spec() as nat,
                ));
            }
            i = i + 1;
        }
        proof {
            assert(self.vec@.take(self.vec@.len() as int) =~= self.vec@);
            assert(out@ =~= matchbar_text(self.vec@, width as nat));
        }
        out
    }
}

} // verus!
