//! Time histogram split by label: each bucket keeps one counter per tracked
//! label, so the display shows the frequency of every label over time.
//!
//! At most five labels are supported; rejecting a longer list is the caller's
//! validation step, checked here by `labels_supported`.
use vstd::prelude::*;
use vstd::string::StrSliceExecFns;
use vstd::string::StringExecFns;

use crate::format::scale_legend;
use crate::format::HorizontalScale;
use crate::seqs::lemma_seq_sum_bound;
use crate::seqs::lemma_seq_sum_le;
use crate::seqs::lemma_seq_sum_update;
use crate::seqs::seq_max;
use crate::seqs::seq_sum;
use crate::text::bar_char;
use crate::text::char_run;
use crate::text::dec_str;
use crate::text::dec_width;
use crate::text::pad_left;
use crate::text::pad_left_str;
use crate::text::usize_to_string;
use crate::timehist::displayable;
use crate::timehist::slot_of;
use crate::timestamp::bucket_label;
use crate::timestamp::date_fmt_string;
use crate::timestamp::spec_date_fmt;
use crate::timestamp::ts_render;
use crate::timestamp::Timestamp;

verus! {

/// Hard cap on the number of tracked labels.
pub open spec fn max_labels() -> int {
    5
}

/// The caller-side validation: at most five distinct labels are supported.
pub fn labels_supported(strings: &Vec<String>) -> (r: bool)
    ensures
        r == (strings@.len() <= max_labels()),
{
    strings.len() <= 5
}

/// One time slot: its starting instant and one counter per label.
pub struct SplitTimeBucket {
    pub start: Timestamp,
    pub count: Vec<usize>,
}

/// The counters of one bucket, as naturals.
pub open spec fn row_counts(b: SplitTimeBucket) -> Seq<nat> {
    b.count@.map_values(|c: usize| c as nat)
}

/// All counters of all buckets.
pub open spec fn split_counts(v: Seq<SplitTimeBucket>) -> Seq<Seq<nat>> {
    v.map_values(|b: SplitTimeBucket| row_counts(b))
}

/// The starting instants of a bucket sequence.
pub open spec fn split_starts(v: Seq<SplitTimeBucket>) -> Seq<Timestamp> {
    v.map_values(|b: SplitTimeBucket| b.start)
}

/// Total count of one bucket across its labels.
pub open spec fn row_total(b: SplitTimeBucket) -> nat {
    seq_sum(row_counts(b))
}

/// Per-bucket totals.
pub open spec fn row_totals(v: Seq<SplitTimeBucket>) -> Seq<nat> {
    v.map_values(|b: SplitTimeBucket| row_total(b))
}

/// Total count across all buckets and labels.
pub open spec fn grand_total(v: Seq<SplitTimeBucket>) -> nat {
    seq_sum(row_totals(v))
}

/// Total count of one label across all buckets.
pub open spec fn label_total(v: Seq<SplitTimeBucket>, i: int) -> nat {
    seq_sum(v.map_values(|b: SplitTimeBucket| row_counts(b)[i]))
}

/// Counters after one more occurrence of label `index` at `slot`.
pub open spec fn bump_split(counts: Seq<Seq<nat>>, slot: Option<int>, index: int) -> Seq<Seq<nat>> {
    match slot {
        None => counts,
        Some(s) => counts.update(s, counts[s].update(index, (counts[s][index] + 1) as nat)),
    }
}

/// Counters after loading a whole sequence of (timestamp, label) pairs.
pub open spec fn split_counts_after(
    counts: Seq<Seq<nat>>,
    min: int,
    max: int,
    size: nat,
    ts: Seq<(Timestamp, usize)>,
) -> Seq<Seq<nat>>
    decreases ts.len(),
{
    if ts.len() == 0 {
        counts
    } else {
        bump_split(
            split_counts_after(counts, min, max, size, ts.drop_last()),
            slot_of(min, max, size, ts.last().0.micros as int),
            ts.last().1 as int,
        )
    }
}

/// Strictly earlier under the (instant, label index) order the input pairs
/// are compared by.
pub open spec fn pair_lt(a: (Timestamp, usize), b: (Timestamp, usize)) -> bool {
    a.0.micros < b.0.micros || (a.0.micros == b.0.micros && a.1 < b.1)
}

/// Index of the least pair, the first one on ties.
pub open spec fn pair_min_index(s: Seq<(Timestamp, usize)>) -> int
    recommends
        s.len() >= 1,
    decreases s.len(),
{
    if s.len() <= 1 {
        0
    } else if pair_lt(s.last(), s[pair_min_index(s.drop_last())]) {
        s.len() - 1
    } else {
        pair_min_index(s.drop_last())
    }
}

/// Index of the greatest pair, the last one on ties.
pub open spec fn pair_max_index(s: Seq<(Timestamp, usize)>) -> int
    recommends
        s.len() >= 1,
    decreases s.len(),
{
    if s.len() <= 1 {
        0
    } else if !pair_lt(s.last(), s[pair_max_index(s.drop_last())]) {
        s.len() - 1
    } else {
        pair_max_index(s.drop_last())
    }
}

/// The chosen extremes bound every element's instant.
pub proof fn lemma_pair_min_max_index(s: Seq<(Timestamp, usize)>, i: int)
    requires
        s.len() >= 1,
        0 <= i < s.len(),
    ensures
        0 <= pair_min_index(s) < s.len(),
        0 <= pair_max_index(s) < s.len(),
        s[pair_min_index(s)].0.micros <= s[i].0.micros,
        s[i].0.micros <= s[pair_max_index(s)].0.micros,
    decreases s.len(),
{
    if s.len() > 1 {
        lemma_pair_min_max_index(s.drop_last(), if i < s.len() - 1 {
            i
        } else {
            0
        });
    }
}

/// A histogram of (timestamp, label) pairs over `[min, max]`.
pub struct SplitTimeHistogram {
    pub vec: Vec<SplitTimeBucket>,
    pub strings: Vec<String>,
    pub min: Timestamp,
    pub max: Timestamp,
    pub last: usize,
    pub span_micros: u64,
}

impl SplitTimeHistogram {
    /// Internal coherence: at least one bucket, `last` the final index,
    /// `span_micros` the width of the closed range, one counter per label in
    /// every bucket, and no more labels than supported.
    pub open spec fn wf(&self) -> bool {
        &&& self.vec@.len() >= 1
    &&& self.last == self.vec@.len() - 1
    &&& self.min.micros <= self.max.micros
    &&& self.span_micros == self.max.micros as int - self.min.micros as int
    &&& self.strings@.len() <= max_labels()
    &&& forall|i: int|
        0 <= i < self.vec@.len() ==> (#[trigger] self.vec@[i]).count@.len() == self.strings@.len()
    }

    /// Where `ts` falls, per `slot_of` over this histogram's range.
    pub fn find_slot(&self, ts: Timestamp) -> (r: Option<usize>)
        requires
            self.wf(),
        ensures
            match slot_of(
                self.min.micros as int,
                self.max.micros as int,
                self.vec@.len() as nat,
                ts.micros as int,
            ) {
                Option::None => r is None,
                Option::Some(s) => r matches Some(u) && u == s,
            },
    {
        if ts.micros < self.min.micros || ts.micros > self.max.micros {
            return None;
        }
        if self.span_micros == 0 {
            return Some(0);
        }
        let x: u64 = ((ts.micros as i128) - (self.min.micros as i128)) as u64;
        let size = self.vec.len();
        proof {
            assert((x as int) * (size as int) <= (u64::MAX as int) * (u64::MAX as int)
                && (x as int) * (size as int) >= 0) by (nonlinear_arith)
                requires
                    0 <= x as int <= u64::MAX as int,
                    0 <= size as int <= u64::MAX as int,
            ;
        }
        let q: u128 = (x as u128) * (size as u128) / (self.span_micros as u128);
        let slot = if q < self.last as u128 {
            q as usize
        } else {
            self.last
        };
        Some(slot)
    }

    /// Adds one occurrence of label `index` at `ts`; instants outside the
    /// range are silently dropped.
    pub fn add(&mut self, ts: Timestamp, index: usize)
        requires
            old(self).wf(),
            index < old(self).strings@.len(),
            grand_total(old(self).vec@) < usize::MAX,
        ensures
            final(self).wf(),
            split_counts(final(self).vec@) == bump_split(
                split_counts(old(self).vec@),
                slot_of(
                    old(self).min.micros as int,
                    old(self).max.micros as int,
                    old(self).vec@.len() as nat,
                    ts.micros as int,
                ),
                index as int,
            ),
            split_starts(final(self).vec@) == split_starts(old(self).vec@),
            final(self).strings == old(self).strings,
            final(self).min == old(self).min,
            final(self).max == old(self).max,
            final(self).span_micros == old(self).span_micros,
            final(self).last == old(self).last,
            final(self).vec@.len() == old(self).vec@.len(),
            grand_total(final(self).vec@) <= grand_total(old(self).vec@) + 1,
    {
        if let Some(slot) = self.find_slot(ts) {
            proof {
                lemma_seq_sum_bound(row_counts(self.vec@[slot as int]), index as int);
                lemma_seq_sum_bound(row_totals(self.vec@), slot as int);
            }
            let c = self.vec[slot].count[index];
            self.vec[slot].count[index] = c + 1;
            proof {
                let oldv = old(self).vec@;
                let newv = self.vec@;
                assert(row_counts(newv[slot as int]) =~= row_counts(oldv[slot as int]).update(
                    index as int,
                    (c + 1) as nat,
                ));
                assert(split_counts(newv) =~= bump_split(
                    split_counts(oldv),
                    Some(slot as int),
                    index as int,
                ));
                assert(split_starts(newv) =~= split_starts(oldv));
                lemma_seq_sum_update(row_counts(oldv[slot as int]), index as int, (c + 1) as nat);
                assert(row_totals(newv) =~= row_totals(oldv).update(
                    slot as int,
                    (row_total(oldv[slot as int]) + 1) as nat,
                ));
                lemma_seq_sum_update(
                    row_totals(oldv),
                    slot as int,
                    (row_total(oldv[slot as int]) + 1) as nat,
                );
            }
        }
    }

    /// Adds every (timestamp, label) pair of a slice, in order.
    pub fn load(&mut self, vec: &[(Timestamp, usize)])
        requires
            old(self).wf(),
            grand_total(old(self).vec@) + vec@.len() <= usize::MAX,
            forall|i: int| 0 <= i < vec@.len() ==> (#[trigger] vec@[i]).1 < old(
                self,
            ).strings@.len(),
        ensures
            final(self).wf(),
            split_counts(final(self).vec@) == split_counts_after(
                split_counts(old(self).vec@),
                old(self).min.micros as int,
                old(self).max.micros as int,
                old(self).vec@.len() as nat,
                vec@,
            ),
            split_starts(final(self).vec@) == split_starts(old(self).vec@),
            final(self).strings == old(self).strings,
            final(self).min == old(self).min,
            final(self).max == old(self).max,
            final(self).span_micros == old(self).span_micros,
            final(self).last == old(self).last,
            final(self).vec@.len() == old(self).vec@.len(),
            grand_total(final(self).vec@) <= grand_total(old(self).vec@) + vec@.len(),
    {
        let ghost orig = *self;
        let mut i: usize = 0;
        proof {
            assert(vec@.take(0) =~= Seq::<(Timestamp, usize)>::empty());
        }
        while i < vec.len()
            invariant
                i <= vec@.len(),
                self.wf(),
                split_counts(self.vec@) == split_counts_after(
                    split_counts(orig.vec@),
                    orig.min.micros as int,
                    orig.max.micros as int,
                    orig.vec@.len() as nat,
                    vec@.take(i as int),
                ),
                split_starts(self.vec@) == split_starts(orig.vec@),
                self.strings == orig.strings,
                self.min == orig.min,
                self.max == orig.max,
                self.span_micros == orig.span_micros,
                self.last == orig.last,
                self.vec@.len() == orig.vec@.len(),
                grand_total(self.vec@) <= grand_total(orig.vec@) + i,
                grand_total(orig.vec@) + vec@.len() <= usize::MAX,
                forall|j: int| 0 <= j < vec@.len() ==> (#[trigger] vec@[j]).1 < orig.strings@.len(),
            decreases vec@.len() - i,
        {
            let pair = vec[i];
            self.add(pair.0, pair.1);
            proof {
                assert(vec@.take(i + 1).drop_last() =~= vec@.take(i as int));
                assert(vec@.take(i + 1).last() == vec@[i as int]);
            }
            i = i + 1;
        }
        proof {
            assert(vec@.take(vec@.len() as int) =~= vec@);
        }
    }

    /// Builds `size` buckets spanning the pairs' extremes (compared by
    /// instant, then label index) and loads every pair.
    pub fn new(size: usize, strings: Vec<String>, ts: &[(Timestamp, usize)]) -> (r:
        SplitTimeHistogram)
        requires
            size >= 1,
            ts@.len() >= 1,
            strings@.len() <= max_labels(),
            forall|i: int| 0 <= i < ts@.len() ==> (#[trigger] ts@[i]).1 < strings@.len(),
        ensures
            r.wf(),
            r.vec@.len() == size,
            r.strings == strings,
            r.min == ts@[pair_min_index(ts@)].0,
            r.max == ts@[pair_max_index(ts@)].0,
            forall|i: int|
                0 <= i < size ==> (#[trigger] r.vec@[i]).start.micros == r.min.micros as int + (
                r.span_micros as int / size as int) * i,
            forall|i: int|
                0 <= i < size ==> (#[trigger] r.vec@[i]).start.offset_secs == r.min.offset_secs,
            split_counts(r.vec@) == split_counts_after(
                Seq::new(size as nat, |i: int| Seq::new(strings@.len(), |j: int| 0nat)),
                r.min.micros as int,
                r.max.micros as int,
                size as nat,
                ts@,
            ),
    {
        let mut mini: usize = 0;
        let mut maxi: usize = 0;
        let mut i: usize = 1;
        while i < ts.len()
            invariant
                1 <= i <= ts@.len(),
                ts@.len() >= 1,
                mini == pair_min_index(ts@.take(i as int)),
                maxi == pair_max_index(ts@.take(i as int)),
                0 <= mini < i,
                0 <= maxi < i,
            decreases ts@.len() - i,
        {
            proof {
                assert(ts@.take(i + 1).drop_last() =~= ts@.take(i as int));
                assert(ts@.take(i + 1).last() == ts@[i as int]);
                lemma_pair_min_max_index(ts@.take(i as int), 0);
            }
            let cur = ts[i];
            let best_min = ts[mini];
            let best_max = ts[maxi];
            if cur.0.micros < best_min.0.micros || (cur.0.micros == best_min.0.micros && cur.1
                < best_min.1) {
                mini = i;
            }
            if !(cur.0.micros < best_max.0.micros || (cur.0.micros == best_max.0.micros && cur.1
                < best_max.1)) {
                maxi = i;
            }
            i = i + 1;
        }
        proof {
            assert(ts@.take(ts@.len() as int) =~= ts@);
            lemma_pair_min_max_index(ts@, pair_min_index(ts@));
            lemma_pair_min_max_index(ts@, pair_max_index(ts@));
        }
        let min = ts[mini].0;
        let max = ts[maxi].0;
        let span: u64 = ((max.micros as i128) - (min.micros as i128)) as u64;
        let inc: u64 = span / (size as u64);
        let mut vec: Vec<SplitTimeBucket> = Vec::new();
        let mut k: usize = 0;
        while k < size
            invariant
                k <= size,
                size >= 1,
                vec@.len() == k,
                min.micros <= max.micros,
                span == max.micros as int - min.micros as int,
                inc == span as int / size as int,
                forall|j: int|
                    0 <= j < k ==> (#[trigger] vec@[j]).start.micros == min.micros as int + (
                    inc as int) * j,
                forall|j: int|
                    0 <= j < k ==> (#[trigger] vec@[j]).start.offset_secs == min.offset_secs,
                forall|j: int|
                    0 <= j < k ==> row_counts(#[trigger] vec@[j]) =~= Seq::new(
                        strings@.len(),
                        |t: int| 0nat,
                    ),
            decreases size - k,
        {
            proof {
                assert((inc as int) * (k as int) <= span && 0 <= (inc as int) * (k as int))
                    by (nonlinear_arith)
                    requires
                        0 <= inc as int,
                        0 <= k as int <= size as int - 1,
                        inc as int == span as int / size as int,
                        size as int >= 1,
                        span as int >= 0,
                {
                }
            }
            let start_micros: i64 = ((min.micros as i128) + (inc as i128) * (k as i128)) as i64;
            let mut count: Vec<usize> = Vec::new();
            let mut t: usize = 0;
            while t < strings.len()
                invariant
                    t <= strings@.len(),
                    count@.len() == t,
                    forall|u: int| 0 <= u < t ==> count@[u] == 0,
                decreases strings@.len() - t,
            {
                count.push(0);
                t = t + 1;
            }
            vec.push(
                SplitTimeBucket {
                    start: Timestamp { micros: start_micros, offset_secs: min.offset_secs },
                    count,
                },
            );
            k = k + 1;
        }
        proof {
            assert(row_totals(vec@) =~= Seq::new(size as nat, |i: int| 0nat)) by {
                assert forall|j: int| 0 <= j < size implies row_total(#[trigger] vec@[j]) == 0 by {
                    lemma_zero_row_sum(row_counts(vec@[j]));
                }
            }
            lemma_zero_row_sum(row_totals(vec@));
            assert(split_counts(vec@) =~= Seq::new(
                size as nat,
                |i: int| Seq::new(strings@.len(), |j: int| 0nat),
            ));
        }
        let mut sth = SplitTimeHistogram {
            vec,
            strings,
            min,
            max,
            last: size - 1,
            span_micros: span,
        };
        let ghost pre = sth;
        sth.load(ts);
        proof {
            assert forall|i: int| 0 <= i < size implies ((#[trigger] sth.vec@[i]).start.micros
                == min.micros as int + (span as int / size as int) * i
                && sth.vec@[i].start.offset_secs == min.offset_secs) by {
                assert(split_starts(sth.vec@)[i] == sth.vec@[i].start);
                assert(split_starts(pre.vec@)[i] == pre.vec@[i].start);
            }
        }
        sth
    }
}

/// Width of the widest rendered count in label column `i`.
pub open spec fn col_width(v: Seq<SplitTimeBucket>, i: int) -> nat {
    seq_max(v.map_values(|b: SplitTimeBucket| dec_str(row_counts(b)[i]).len()))
}

/// The first `k` count cells of one bucket row, `/`-separated.
pub open spec fn cells_upto(row: Seq<nat>, widths: Seq<nat>, k: int) -> Seq<char>
    decreases k,
{
    if k <= 0 {
        Seq::empty()
    } else {
        cells_upto(row, widths, k - 1) + pad_left(dec_str(row[k - 1]), widths[k - 1]) + (if k - 1
            < row.len() - 1 {
            "/"@
        } else {
            Seq::<char>::empty()
        })
    }
}

/// The first `k` per-label bars of one bucket row, drawn back to back.
pub open spec fn bars_upto(row: Seq<nat>, scale: nat, k: int) -> Seq<char>
    decreases k,
{
    if k <= 0 {
        Seq::empty()
    } else {
        bars_upto(row, scale, k - 1) + char_run(bar_char(), row[k - 1] / scale)
    }
}

/// One rendered bucket row: bracketed timestamp, bracketed cells, bars.
pub open spec fn split_row_line(
    label: Seq<char>,
    row: Seq<nat>,
    widths: Seq<nat>,
    scale: nat,
) -> Seq<char> {
    "["@ + label + "] ["@ + cells_upto(row, widths, row.len() as int) + "] "@ + bars_upto(
        row,
        scale,
        row.len() as int,
    ) + "\n"@
}

/// All bucket rows in order, labels rendered with `fmt`.
pub open spec fn split_rows_text(
    v: Seq<SplitTimeBucket>,
    fmt: Seq<char>,
    widths: Seq<nat>,
    scale: nat,
) -> Seq<char>
    decreases v.len(),
{
    if v.len() == 0 {
        Seq::empty()
    } else {
        split_rows_text(v.drop_last(), fmt, widths, scale) + split_row_line(
            ts_render(v.last().start.micros as int, v.last().start.offset_secs as int, fmt),
            row_counts(v.last()),
            widths,
            scale,
        )
    }
}

/// The first `k` per-label header lines (`label: total.`).
pub open spec fn label_lines_upto(v: Seq<SplitTimeBucket>, strings: Seq<String>, k: int) -> Seq<
    char,
>
    decreases k,
{
    if k <= 0 {
        Seq::empty()
    } else {
        label_lines_upto(v, strings, k - 1) + strings[k - 1]@ + ": "@ + dec_str(
            label_total(v, k - 1),
        ) + ".\n"@
    }
}

/// The full rendering: grand total, one line per label, the scale legend, a
/// blank line, then one row per bucket.
pub open spec fn splittimehist_text(
    v: Seq<SplitTimeBucket>,
    strings: Seq<String>,
    span_secs: int,
    width: nat,
) -> Seq<char>
    recommends
        width >= 1,
{
    let top = seq_max(row_totals(v));
    let scale = if top / width >= 1 {
        top / width
    } else {
        1
    };
    let widths = Seq::new(strings.len(), |i: int| col_width(v, i));
    "Matches: "@ + dec_str(grand_total(v)) + ".\n"@ + label_lines_upto(v, strings, strings.len() as int)
        + scale_legend(scale) + "\n"@ + split_rows_text(
        v,
        spec_date_fmt(span_secs),
        widths,
        scale,
    )
}

impl SplitTimeHistogram {
    /// Total of one bucket across its labels.
    fn row_total_exec(b: &SplitTimeBucket) -> (r: usize)
        requires
            row_total(*b) <= usize::MAX,
        ensures
            r as nat == row_total(*b),
    {
        let mut total: usize = 0;
        let mut i: usize = 0;
        proof {
            assert(row_counts(*b).take(0) =~= Seq::<nat>::empty());
        }
        while i < b.count.len()
            invariant
                i <= b.count@.len(),
                total as nat == seq_sum(row_counts(*b).take(i as int)),
                row_total(*b) <= usize::MAX,
            decreases b.count@.len() - i,
        {
            proof {
                assert(row_counts(*b).take(i + 1).drop_last() =~= row_counts(*b).take(i as int));
                assert(row_counts(*b).take(i + 1).last() == b.count@[i as int] as nat);
                crate::seqs::lemma_seq_sum_prefix_bound(row_counts(*b), i + 1);
            }
            total = total + b.count[i];
            i = i + 1;
        }
        proof {
            assert(row_counts(*b).take(b.count@.len() as int) =~= row_counts(*b));
        }
        total
    }

    /// Total of one label across all buckets.
    fn label_total_exec(&self, index: usize) -> (r: usize)
        requires
            self.wf(),
            index < self.strings@.len(),
            grand_total(self.vec@) <= usize::MAX,
        ensures
            r as nat == label_total(self.vec@, index as int),
    {
        let ghost colseq = self.vec@.map_values(|b: SplitTimeBucket| row_counts(b)[index as int]);
        proof {
            assert forall|j: int| 0 <= j < colseq.len() implies colseq[j] <= row_totals(
                self.vec@,
            )[j] by {
                lemma_seq_sum_bound(row_counts(self.vec@[j]), index as int);
            }
            lemma_seq_sum_le(colseq, row_totals(self.vec@));
        }
        let mut total: usize = 0;
        let mut i: usize = 0;
        proof {
            assert(colseq.take(0) =~= Seq::<nat>::empty());
        }
        while i < self.vec.len()
            invariant
                i <= self.vec@.len(),
                self.wf(),
                index < self.strings@.len(),
                colseq == self.vec@.map_values(|b: SplitTimeBucket| row_counts(b)[index as int]),
                total as nat == seq_sum(colseq.take(i as int)),
                seq_sum(colseq) <= usize::MAX,
            decreases self.vec@.len() - i,
        {
            proof {
                assert(colseq.take(i + 1).drop_last() =~= colseq.take(i as int));
                assert(colseq.take(i + 1).last() == self.vec@[i as int].count@[index as int]
                    as nat);
                crate::seqs::lemma_seq_sum_prefix_bound(colseq, i + 1);
            }
            total = total + self.vec[i].count[index];
            i = i + 1;
        }
        proof {
            assert(colseq.take(colseq.len() as int) =~= colseq);
        }
        total
    }

    /// Renders the split histogram for a terminal of `width` characters.
    /// Bucket labels are chrono's rendering of the bucket start; a start
    /// outside chrono's representable range would show an empty label.
    pub fn to_text(&self, width: usize) -> (r: String)
        requires
            self.wf(),
            width >= 1,
            grand_total(self.vec@) <= usize::MAX,
        ensures
            (forall|i: int|
                0 <= i < self.vec@.len() ==> displayable(#[trigger] self.vec@[i].start)) ==> r@
                == splittimehist_text(
                self.vec@,
                self.strings@,
                self.span_micros as int / 1_000_000,
                width as nat,
            ),
    {
        // Grand total and the largest per-bucket total.
        let mut total: usize = 0;
        let mut top: usize = 0;
        let mut i: usize = 0;
        proof {
            assert(row_totals(self.vec@).take(0) =~= Seq::<nat>::empty());
        }
        while i < self.vec.len()
            invariant
                i <= self.vec@.len(),
                self.wf(),
                total as nat == seq_sum(row_totals(self.vec@).take(i as int)),
                top as nat == seq_max(row_totals(self.vec@).take(i as int)),
                grand_total(self.vec@) <= usize::MAX,
            decreases self.vec@.len() - i,
        {
            proof {
                lemma_seq_sum_bound(row_totals(self.vec@), i as int);
                assert(row_totals(self.vec@).take(i + 1).drop_last() =~= row_totals(
                    self.vec@,
                ).take(i as int));
                assert(row_totals(self.vec@).take(i + 1).last() == row_total(self.vec@[i as int]));
                crate::seqs::lemma_seq_sum_prefix_bound(row_totals(self.vec@), i + 1);
            }
            let rt = Self::row_total_exec(&self.vec[i]);
            total = total + rt;
            if rt > top {
                top = rt;
            }
            i = i + 1;
        }
        proof {
            assert(row_totals(self.vec@).take(self.vec@.len() as int) =~= row_totals(self.vec@));
        }
        // Per-label column widths.
        let ghost widths_spec = Seq::new(self.strings@.len(), |t: int| col_width(self.vec@, t));
        let mut widths: Vec<usize> = Vec::new();
        let mut t: usize = 0;
        while t < self.strings.len()
            invariant
                t <= self.strings@.len(),
                self.wf(),
                widths@.len() == t,
                forall|u: int| 0 <= u < t ==> widths@[u] as nat == col_width(self.vec@, u),
            decreases self.strings@.len() - t,
        {
            let ghost lens = self.vec@.map_values(
                |b: SplitTimeBucket| dec_str(row_counts(b)[t as int]).len(),
            );
            let mut w: usize = 0;
            let mut j: usize = 0;
            proof {
                assert(lens.take(0) =~= Seq::<nat>::empty());
            }
            while j < self.vec.len()
                invariant
                    j <= self.vec@.len(),
                    self.wf(),
                    t < self.strings@.len(),
                    lens == self.vec@.map_values(
                        |b: SplitTimeBucket| dec_str(row_counts(b)[t as int]).len(),
                    ),
                    w as nat == seq_max(lens.take(j as int)),
                decreases self.vec@.len() - j,
            {
                proof {
                    assert(lens.take(j + 1).drop_last() =~= lens.take(j as int));
                    assert(lens.take(j + 1).last() == dec_str(
                        self.vec@[j as int].count@[t as int] as nat,
                    ).len());
                }
                let dw = dec_width(self.vec[j].count[t]);
                if dw > w {
                    w = dw;
                }
                j = j + 1;
            }
            proof {
                assert(lens.take(lens.len() as int) =~= lens);
            }
            widths.push(w);
            t = t + 1;
        }
        // Header.
        let scale = HorizontalScale::new(top / width);
        let seconds: i64 = (self.span_micros / 1_000_000) as i64;
        let ts_fmt = date_fmt_string(seconds);
        let mut out = String::from_str("Matches: ");
        out.append(usize_to_string(total).as_str());
        out.append(".\n");
        let ghost head0 = out@;
        let mut k: usize = 0;
        while k < self.strings.len()
            invariant
                k <= self.strings@.len(),
                self.wf(),
                grand_total(self.vec@) <= usize::MAX,
                out@ == head0 + label_lines_upto(self.vec@, self.strings@, k as int),
            decreases self.strings@.len() - k,
        {
            out.append(self.strings[k].as_str());
            out.append(": ");
            out.append(usize_to_string(self.label_total_exec(k)).as_str());
            out.append(".\n");
            k = k + 1;
        }
        out.append(scale.to_text().as_str());
        out.append("\n");
        let ghost header = out@;
        // Bucket rows.
        let mut i: usize = 0;
        while i < self.vec.len()
            invariant
                i <= self.vec@.len(),
                scale.wf(),
                self.wf(),
                widths@.len() == self.strings@.len(),
                forall|u: int|
                    0 <= u < widths@.len() ==> widths@[u] as nat == col_width(self.vec@, u),
                widths_spec == Seq::new(
                    self.strings@.len(),
                    |t: int| col_width(self.vec@, t),
                ),
                ts_fmt@ == spec_date_fmt(self.span_micros as int / 1_000_000),
                crate::timestamp::is_supported_date_fmt(ts_fmt@),
                (forall|j: int|
                    0 <= j < self.vec@.len() ==> displayable(#[trigger] self.vec@[j].start))
                    ==> out@ == header + split_rows_text(
                    self.vec@.take(i as int),
                    ts_fmt@,
                    widths_spec,
                    scale.scale_spec() as nat,
                ),
            decreases self.vec@.len() - i,
        {
            let row = &self.vec[i];
            out.append("[");
            out.append(bucket_label(row.start, ts_fmt).as_str());
            out.append("] [");
            let ghost cells_base = out@;
            let mut t: usize = 0;
            while t < row.count.len()
                invariant
                    t <= row.count@.len(),
                    row == &self.vec@[i as int],
                    i < self.vec@.len(),
                    self.wf(),
                    widths@.len() == row.count@.len(),
                    forall|u: int|
                        0 <= u < widths@.len() ==> widths@[u] as nat == col_width(self.vec@, u),
                    widths_spec.len() == widths@.len(),
                    forall|u: int|
                        0 <= u < widths@.len() ==> widths_spec[u] == widths@[u] as nat,
                    out@ == cells_base + cells_upto(row_counts(*row), widths_spec, t as int),
                decreases row.count@.len() - t,
            {
                out.append(pad_left_str(usize_to_string(row.count[t]).as_str(), widths[t]).as_str());
                if t + 1 < row.count.len() {
                    out.append("/");
                }
                proof {
                    assert(out@ =~= cells_base + cells_upto(
                        row_counts(*row),
                        widths_spec,
                        t + 1,
                    ));
                }
                t = t + 1;
            }
            out.append("] ");
            let ghost bars_base = out@;
            let mut t: usize = 0;
            while t < row.count.len()
                invariant
                    t <= row.count@.len(),
                    row == &self.vec@[i as int],
                    i < self.vec@.len(),
                    self.wf(),
                    scale.wf(),
                    out@ == bars_base + bars_upto(
                        row_counts(*row),
                        scale.scale_spec() as nat,
                        t as int,
                    ),
                decreases row.count@.len() - t,
            {
                out.append(scale.get_bar(row.count[t]).as_str());
                proof {
                    assert(out@ =~= bars_base + bars_upto(
                        row_counts(*row),
                        scale.scale_spec() as nat,
                        t + 1,
                    ));
                }
                t = t + 1;
            }
            out.append("\n");
            proof {
                assert(self.vec@.take(i + 1).drop_last() =~= self.vec@.take(i as int));
                assert(self.vec@.take(i + 1).last() == self.vec@[i as int]);
                if forall|j: int|
                    0 <= j < self.vec@.len() ==> displayable(#[trigger] self.vec@[j].start) {
                    assert(out@ =~= header + split_rows_text(
                        self.vec@.take(i + 1),
                        ts_fmt@,
                        widths_spec,
                        scale.scale_spec() as nat,
                    ));
                }
            }
            i = i + 1;
        }
        proof {
            assert(self.vec@.take(self.vec@.len() as int) =~= self.vec@);
            if forall|j: int|
                0 <= j < self.vec@.len() ==> displayable(#[trigger] self.vec@[j].start) {
                assert(out@ =~= splittimehist_text(
                    self.vec@,
                    self.strings@,
                    self.span_micros as int / 1_000_000,
                    width as nat,
                ));
            }
        }
        out
    }
}

/// A sequence of zeros sums to zero.
proof fn lemma_zero_row_sum(s: Seq<nat>)
    requires
        forall|i: int| 0 <= i < s.len() ==> s[i] == 0,
    ensures
        seq_sum(s) == 0,
    decreases s.len(),
{
    if s.len() > 0 {
        lemma_zero_row_sum(s.drop_last());
    }
}

} // verus!
