//! Histogram of timestamps: `size` buckets spanning the closed range from the
//! earliest to the latest input instant, counting how many timestamps fall in
//! each bucket.
use vstd::prelude::*;
use vstd::string::StrSliceExecFns;
use vstd::string::StringExecFns;

use crate::format::scale_legend;
use crate::format::HorizontalScale;
use crate::seqs::lemma_seq_max_update_ge;
use crate::seqs::lemma_seq_sum_bound;
use crate::seqs::lemma_seq_sum_update;
use crate::seqs::seq_max;
use crate::seqs::seq_sum;
use crate::text::bar_char;
use crate::text::char_run;
use crate::text::dec_str;
use crate::text::dec_width;
use crate::text::pad_left;
use crate::text::usize_to_string;
use crate::timestamp::bucket_label;
use crate::timestamp::date_fmt_string;
use crate::timestamp::spec_date_fmt;
use crate::timestamp::ts_render;
use crate::timestamp::Timestamp;

verus! {

/// One time slot: its starting instant and how many timestamps fell in it.
pub struct TimeBucket {
    pub start: Timestamp,
    pub count: usize,
}

/// The counts of a bucket sequence, as naturals.
pub open spec fn bucket_counts(v: Seq<TimeBucket>) -> Seq<nat> {
    v.map_values(|b: TimeBucket| b.count as nat)
}

/// The starting instants of a bucket sequence.
pub open spec fn bucket_starts(v: Seq<TimeBucket>) -> Seq<Timestamp> {
    v.map_values(|b: TimeBucket| b.start)
}

/// Which of `size` buckets over the closed range `[min, max]` an instant `m`
/// lands in: none outside the range, bucket zero when the range is a point,
/// otherwise the elapsed fraction floored and clamped to the last bucket.
pub open spec fn slot_of(min: int, max: int, size: nat, m: int) -> Option<int>
    recommends
        size >= 1,
        min <= max,
{
    if m < min || m > max {
        None
    } else if max == min {
        Some(0)
    } else {
        let q = (m - min) * size / (max - min);
        Some(
            if q <= size - 1 {
                q
            } else {
                size - 1
            },
        )
    }
}

/// Counts after one more timestamp: unchanged when it falls outside.
pub open spec fn bump(counts: Seq<nat>, slot: Option<int>) -> Seq<nat> {
    match slot {
        None => counts,
        Some(i) => counts.update(i, (counts[i] + 1) as nat),
    }
}

/// Counts after loading a whole timestamp sequence, in order.
pub open spec fn counts_after(
    counts: Seq<nat>,
    min: int,
    max: int,
    size: nat,
    ts: Seq<Timestamp>,
) -> Seq<nat>
    decreases ts.len(),
{
    if ts.len() == 0 {
        counts
    } else {
        bump(
            counts_after(counts, min, max, size, ts.drop_last()),
            slot_of(min, max, size, ts.last().micros as int),
        )
    }
}

/// Index of the earliest timestamp, the first one on ties.
pub open spec fn min_index(s: Seq<Timestamp>) -> int
    recommends
        s.len() >= 1,
    decreases s.len(),
{
    if s.len() <= 1 {
        0
    } else if s.last().micros < s[min_index(s.drop_last())].micros {
        s.len() - 1
    } else {
        min_index(s.drop_last())
    }
}

/// Index of the latest timestamp, the last one on ties.
pub open spec fn max_index(s: Seq<Timestamp>) -> int
    recommends
        s.len() >= 1,
    decreases s.len(),
{
    if s.len() <= 1 {
        0
    } else if s.last().micros >= s[max_index(s.drop_last())].micros {
        s.len() - 1
    } else {
        max_index(s.drop_last())
    }
}

/// The chosen extremes bound every element.
pub proof fn lemma_min_max_index(s: Seq<Timestamp>, i: int)
    requires
        s.len() >= 1,
        0 <= i < s.len(),
    ensures
        0 <= min_index(s) < s.len(),
        0 <= max_index(s) < s.len(),
        s[min_index(s)].micros <= s[i].micros,
        s[i].micros <= s[max_index(s)].micros,
    decreases s.len(),
{
    if s.len() > 1 {
        lemma_min_max_index(s.drop_last(), if i < s.len() - 1 {
            i
        } else {
            0
        });
    }
}

/// A histogram of timestamps over `[min, max]`, one count per bucket.
pub struct TimeHistogram {
    pub vec: Vec<TimeBucket>,
    pub min: Timestamp,
    pub max: Timestamp,
    pub top: usize,
    pub last: usize,
    pub span_micros: u64,
}

impl TimeHistogram {
    /// Internal coherence: at least one bucket, `last` is the final index,
    /// `span_micros` is the width of the closed range, `top` the largest count.
    pub open spec fn wf(&self) -> bool {
        &&& self.vec@.len() >= 1
    &&& self.last == self.vec@.len() - 1
    &&& self.min.micros <= self.max.micros
    &&& self.span_micros == self.max.micros as int - self.min.micros as int
    &&& self.top as nat == seq_max(bucket_counts(self.vec@))
    }

    /// Where `ts` falls, per `slot_of` over this histogram's range.
    pub fn find_slot(&self, ts: Timestamp) -> (r: Option<usize>)
        requires
            self.wf(),
        ensures
            match slot_of(
                self.min.micros as int,
                self.max.micros as int,
                self.vec@.len() as nat,
                ts.micros as int,
            ) {
                Option::None => r is None,
                Option::Some(s) => r matches Some(u) && u == s,
            },
    {
        if ts.micros < self.min.micros || ts.micros > self.max.micros {
            return None;
        }
        if self.span_micros == 0 {
            return Some(0);
        }
        let x: u64 = ((ts.micros as i128) - (self.min.micros as i128)) as u64;
        let size = self.vec.len();
        proof {
            assert((x as int) * (size as int) <= (u64::MAX as int) * (u64::MAX as int)
                && (x as int) * (size as int) >= 0) by (nonlinear_arith)
                requires
                    0 <= x as int <= u64::MAX as int,
                    0 <= size as int <= u64::MAX as int,
            ;
        }
        let q: u128 = (x as u128) * (size as u128) / (self.span_micros as u128);
        let slot = if q < self.last as u128 {
            q as usize
        } else {
            self.last
        };
        Some(slot)
    }

    /// Adds one timestamp; instants outside the range are silently dropped.
    pub fn add(&mut self, ts: Timestamp)
        requires
            old(self).wf(),
            seq_sum(bucket_counts(old(self).vec@)) < usize::MAX,
        ensures
            final(self).wf(),
            bucket_counts(final(self).vec@) == bump(
                bucket_counts(old(self).vec@),
                slot_of(
                    old(self).min.micros as int,
                    old(self).max.micros as int,
                    old(self).vec@.len() as nat,
                    ts.micros as int,
                ),
            ),
            bucket_starts(final(self).vec@) == bucket_starts(old(self).vec@),
            final(self).min == old(self).min,
            final(self).max == old(self).max,
            final(self).span_micros == old(self).span_micros,
            final(self).last == old(self).last,
            final(self).vec@.len() == old(self).vec@.len(),
            seq_sum(bucket_counts(final(self).vec@)) <= seq_sum(bucket_counts(old(self).vec@))
                + 1,
    {
        let ghost old_counts = bucket_counts(self.vec@);
        if let Some(slot) = self.find_slot(ts) {
            proof {
                lemma_seq_sum_bound(old_counts, slot as int);
            }
            let c = self.vec[slot].count;
            self.vec[slot].count = c + 1;
            proof {
                assert(bucket_counts(self.vec@) =~= old_counts.update(slot as int, (c + 1) as nat));
                assert(bucket_starts(self.vec@) =~= bucket_starts(old(self).vec@));
                lemma_seq_max_update_ge(old_counts, slot as int, (c + 1) as nat);
                lemma_seq_sum_update(old_counts, slot as int, (c + 1) as nat);
            }
            if c + 1 > self.top {
                self.top = c + 1;
            }
        }
    }

    /// Adds every timestamp of a slice, in order.
    pub fn load(&mut self, ts: &[Timestamp])
        requires
            old(self).wf(),
            seq_sum(bucket_counts(old(self).vec@)) + ts@.len() <= usize::MAX,
        ensures
            final(self).wf(),
            bucket_counts(final(self).vec@) == counts_after(
                bucket_counts(old(self).vec@),
                old(self).min.micros as int,
                old(self).max.micros as int,
                old(self).vec@.len() as nat,
                ts@,
            ),
            bucket_starts(final(self).vec@) == bucket_starts(old(self).vec@),
            final(self).min == old(self).min,
            final(self).max == old(self).max,
            final(self).span_micros == old(self).span_micros,
            final(self).last == old(self).last,
            final(self).vec@.len() == old(self).vec@.len(),
            seq_sum(bucket_counts(final(self).vec@)) <= seq_sum(bucket_counts(old(self).vec@))
                + ts@.len(),
    {
        let ghost orig = *self;
        let mut i: usize = 0;
        proof {
            assert(ts@.take(0) =~= Seq::<Timestamp>::empty());
        }
        while i < ts.len()
            invariant
                i <= ts@.len(),
                self.wf(),
                bucket_counts(self.vec@) == counts_after(
                    bucket_counts(orig.vec@),
                    orig.min.micros as int,
                    orig.max.micros as int,
                    orig.vec@.len() as nat,
                    ts@.take(i as int),
                ),
                bucket_starts(self.vec@) == bucket_starts(orig.vec@),
                self.min == orig.min,
                self.max == orig.max,
                self.span_micros == orig.span_micros,
                self.last == orig.last,
                self.vec@.len() == orig.vec@.len(),
                seq_sum(bucket_counts(self.vec@)) <= seq_sum(bucket_counts(orig.vec@)) + i,
                seq_sum(bucket_counts(orig.vec@)) + ts@.len() <= usize::MAX,
            decreases ts@.len() - i,
        {
            self.add(ts[i]);
            proof {
                assert(ts@.take(i + 1).drop_last() =~= ts@.take(i as int));
                assert(ts@.take(i + 1).last() == ts@[i as int]);
            }
            i = i + 1;
        }
        proof {
            assert(ts@.take(ts@.len() as int) =~= ts@);
        }
    }

    /// Builds `size` buckets spanning the input's extremes and loads every
    /// timestamp.  Bucket `i` starts at `min + i * floor(span / size)`, in
    /// the offset of the earliest input.
    pub fn new(size: usize, ts: &[Timestamp]) -> (r: TimeHistogram)
        requires
            size >= 1,
            ts@.len() >= 1,
        ensures
            r.wf(),
            r.vec@.len() == size,
            r.min == ts@[min_index(ts@)],
            r.max == ts@[max_index(ts@)],
            r.span_micros == r.max.micros as int - r.min.micros as int,
            forall|i: int|
                0 <= i < size ==> (#[trigger] r.vec@[i]).start.micros == r.min.micros as int + (
                r.span_micros as int / size as int) * i,
            forall|i: int|
                0 <= i < size ==> (#[trigger] r.vec@[i]).start.offset_secs == r.min.offset_secs,
            bucket_counts(r.vec@) == counts_after(
                Seq::new(size as nat, |i: int| 0nat),
                r.min.micros as int,
                r.max.micros as int,
                size as nat,
                ts@,
            ),
    {
        let mut mini: usize = 0;
        let mut maxi: usize = 0;
        let mut i: usize = 1;
        proof {
            assert(ts@.take(1).len() == 1);
        }
        while i < ts.len()
            invariant
                1 <= i <= ts@.len(),
                ts@.len() >= 1,
                mini == min_index(ts@.take(i as int)),
                maxi == max_index(ts@.take(i as int)),
                0 <= mini < i,
                0 <= maxi < i,
            decreases ts@.len() - i,
        {
            proof {
                assert(ts@.take(i + 1).drop_last() =~= ts@.take(i as int));
                assert(ts@.take(i + 1).last() == ts@[i as int]);
                lemma_min_max_index(ts@.take(i as int), 0);
            }
            if ts[i].micros < ts[mini].micros {
                mini = i;
            }
            if ts[i].micros >= ts[maxi].micros {
                maxi = i;
            }
            i = i + 1;
        }
        proof {
            assert(ts@.take(ts@.len() as int) =~= ts@);
            lemma_min_max_index(ts@, min_index(ts@));
            lemma_min_max_index(ts@, max_index(ts@));
        }
        let min = ts[mini];
        let max = ts[maxi];
        let span: u64 = ((max.micros as i128) - (min.micros as i128)) as u64;
        let inc: u64 = span / (size as u64);
        let mut vec: Vec<TimeBucket> = Vec::new();
        let mut k: usize = 0;
        while k < size
            invariant
                k <= size,
                size >= 1,
                vec@.len() == k,
                min.micros <= max.micros,
                span == max.micros as int - min.micros as int,
                inc == span as int / size as int,
                forall|j: int|
                    0 <= j < k ==> (#[trigger] vec@[j]).start.micros == min.micros as int + (
                    inc as int) * j,
                forall|j: int|
                    0 <= j < k ==> (#[trigger] vec@[j]).start.offset_secs == min.offset_secs,
                forall|j: int| 0 <= j < k ==> (#[trigger] vec@[j]).count == 0,
            decreases size - k,
        {
            proof {
                assert((inc as int) * (k as int) <= span && 0 <= (inc as int) * (k as int))
                    by (nonlinear_arith)
                    requires
                        0 <= inc as int,
                        0 <= k as int <= size as int - 1,
                        inc as int == span as int / size as int,
                        size as int >= 1,
                        span as int >= 0,
                {
                }
            }
            let start_micros: i64 = ((min.micros as i128) + (inc as i128) * (k as i128)) as i64;
            vec.push(TimeBucket { start: Timestamp { micros: start_micros, offset_secs: min.offset_secs }, count: 0 });
            k = k + 1;
        }
        proof {
            assert(bucket_counts(vec@) =~= Seq::new(size as nat, |i: int| 0nat));
            assert(seq_max(bucket_counts(vec@)) == 0) by {
                lemma_zero_counts_max(bucket_counts(vec@));
            }
            assert(seq_sum(bucket_counts(vec@)) == 0) by {
                lemma_zero_counts_sum(bucket_counts(vec@));
            }
        }
        let mut hist = TimeHistogram {
            vec,
            min,
            max,
            top: 0,
            last: size - 1,
            span_micros: span,
        };
        let ghost pre = hist;
        hist.load(ts);
        proof {
            assert forall|i: int| 0 <= i < size implies ((#[trigger] hist.vec@[i]).start.micros
                == min.micros as int + (span as int / size as int) * i
                && hist.vec@[i].start.offset_secs == min.offset_secs) by {
                assert(bucket_starts(hist.vec@)[i] == hist.vec@[i].start);
                assert(bucket_starts(pre.vec@)[i] == pre.vec@[i].start);
            }
        }
        hist
    }

    /// Sum of all bucket counts.
    pub fn total(&self) -> (r: usize)
        requires
            seq_sum(bucket_counts(self.vec@)) <= usize::MAX,
        ensures
            r as nat == seq_sum(bucket_counts(self.vec@)),
    {
        let mut total: usize = 0;
        let mut i: usize = 0;
        proof {
            assert(bucket_counts(self.vec@).take(0) =~= Seq::<nat>::empty());
        }
        while i < self.vec.len()
            invariant
                i <= self.vec@.len(),
                total as nat == seq_sum(bucket_counts(self.vec@).take(i as int)),
                seq_sum(bucket_counts(self.vec@)) <= usize::MAX,
            decreases self.vec@.len() - i,
        {
            proof {
                assert(bucket_counts(self.vec@).take(i + 1).drop_last() =~= bucket_counts(
                    self.vec@,
                ).take(i as int));
                assert(bucket_counts(self.vec@).take(i + 1).last() == self.vec@[i as int].count
                    as nat);
                crate::seqs::lemma_seq_sum_prefix_bound(bucket_counts(self.vec@), i + 1);
            }
            total = total + self.vec[i].count;
            i = i + 1;
        }
        proof {
            assert(bucket_counts(self.vec@).take(self.vec@.len() as int) =~= bucket_counts(
                self.vec@,
            ));
        }
        total
    }
}

/// A timestamp chrono can always reconstruct and render: within about
/// 253,000 years of the epoch, with a sane fixed offset.
pub open spec fn displayable(ts: Timestamp) -> bool {
    -8_000_000_000_000_000_000 <= ts.micros <= 8_000_000_000_000_000_000 && -86400
        < ts.offset_secs < 86400
}

/// One rendered bucket row: bracketed timestamp label, bracketed
/// right-aligned count, then one bar glyph per `scale` counts.
pub open spec fn time_row_line(label: Seq<char>, count: nat, cw: nat, scale: nat) -> Seq<char>
    recommends
        scale >= 1,
{
    "["@ + label + "] ["@ + pad_left(dec_str(count), cw) + "] "@ + char_run(
        bar_char(),
        count / scale,
    ) + "\n"@
}

/// All bucket rows in order, labels rendered with `fmt`.
pub open spec fn time_rows_text(v: Seq<TimeBucket>, fmt: Seq<char>, cw: nat, scale: nat) -> Seq<
    char,
>
    decreases v.len(),
{
    if v.len() == 0 {
        Seq::empty()
    } else {
        time_rows_text(v.drop_last(), fmt, cw, scale) + time_row_line(
            ts_render(v.last().start.micros as int, v.last().start.offset_secs as int, fmt),
            v.last().count as nat,
            cw,
            scale,
        )
    }
}

/// The full rendering: total matches, the scale legend, a blank line, then
/// one row per bucket, with the timestamp format chosen from the span.
pub open spec fn timehist_text(v: Seq<TimeBucket>, span_secs: int, width: nat) -> Seq<char>
    recommends
        width >= 1,
{
    let top = seq_max(bucket_counts(v));
    let scale = if top / width >= 1 {
        top / width
    } else {
        1
    };
    "Matches: "@ + dec_str(seq_sum(bucket_counts(v))) + ".\n"@ + scale_legend(scale) + "\n"@
        + time_rows_text(v, spec_date_fmt(span_secs), dec_str(top).len(), scale)
}

impl TimeHistogram {
    /// Renders the histogram for a terminal of `width` characters.  Bucket
    /// labels are chrono's rendering of the bucket start; a bucket start
    /// outside chrono's representable range would show an empty label.
    pub fn to_text(&self, width: usize) -> (r: String)
        requires
            self.wf(),
            width >= 1,
            seq_sum(bucket_counts(self.vec@)) <= usize::MAX,
        ensures
            (forall|i: int|
                0 <= i < self.vec@.len() ==> displayable(#[trigger] self.vec@[i].start)) ==> r@
                == timehist_text(self.vec@, self.span_micros as int / 1_000_000, width as nat),
    {
        let scale = HorizontalScale::new(self.top / width);
        let width_count = dec_width(self.top);
        let total = self.total();
        let seconds: i64 = (self.span_micros / 1_000_000) as i64;
        let ts_fmt = date_fmt_string(seconds);
        let mut out = String::from_str("Matches: ");
        out.append(usize_to_string(total).as_str());
        out.append(".\n");
        out.append(scale.to_text().as_str());
        out.append("\n");
        let ghost header = out@;
        let mut i: usize = 0;
        while i < self.vec.len()
            invariant
                i <= self.vec@.len(),
                scale.wf(),
                self.wf(),
                width_count == dec_str(self.top as nat).len(),
                ts_fmt@ == spec_date_fmt(self.span_micros as int / 1_000_000),
                crate::timestamp::is_supported_date_fmt(ts_fmt@),
                (forall|j: int|
                    0 <= j < self.vec@.len() ==> displayable(#[trigger] self.vec@[j].start))
                    ==> out@ == header + time_rows_text(
                    self.vec@.take(i as int),
                    ts_fmt@,
                    width_count as nat,
                    scale.scale_spec() as nat,
                ),
            decreases self.vec@.len() - i,
        {
            let row = &self.vec[i];
            out.append("[");
            out.append(bucket_label(row.start, ts_fmt).as_str());
            out.append("] [");
            out.append(scale.get_count(row.count, width_count).as_str());
            out.append("] ");
            out.append(scale.get_bar(row.count).as_str());
            out.append("\n");
            proof {
                assert(self.vec@.take(i + 1).drop_last() =~= self.vec@.take(i as int));
                assert(self.vec@.take(i + 1).last() == self.vec@[i as int]);
                if forall|j: int|
                    0 <= j < self.vec@.len() ==> displayable(#[trigger] self.vec@[j].start) {
                    assert(out@ =~= header + time_rows_text(
                        self.vec@.take(i + 1),
                        ts_fmt@,
                        width_count as nat,
                        scale.scale_spec() as nat,
                    ));
                }
            }
            i = i + 1;
        }
        proof {
            assert(self.vec@.take(self.vec@.len() as int) =~= self.vec@);
            if forall|j: int|
                0 <= j < self.vec@.len() ==> displayable(#[trigger] self.vec@[j].start) {
                assert(out@ =~= timehist_text(
                    self.vec@,
                    self.span_micros as int / 1_000_000,
                    width as nat,
                ));
            }
        }
        out
    }
}

/// A sequence of zero counts has maximum zero.
proof fn lemma_zero_counts_max(s: Seq<nat>)
    requires
        forall|i: int| 0 <= i < s.len() ==> s[i] == 0,
    ensures
        seq_max(s) == 0,
    decreases s.len(),
{
    if s.len() > 0 {
        lemma_zero_counts_max(s.drop_last());
    }
}

/// A sequence of zero counts has sum zero.
proof fn lemma_zero_counts_sum(s: Seq<nat>)
    requires
        forall|i: int| 0 <= i < s.len() ==> s[i] == 0,
    ensures
        seq_sum(s) == 0,
    decreases s.len(),
{
    if s.len() > 0 {
        lemma_zero_counts_sum(s.drop_last());
    }
}

/// Number of timestamps whose instant lies in the closed range `[min, max]`.
pub open spec fn in_range_count(ts: Seq<Timestamp>, min: int, max: int) -> nat
    decreases ts.len(),
{
    if ts.len() == 0 {
        0
    } else {
        in_range_count(ts.drop_last(), min, max) + (if min <= ts.last().micros <= max {
            1nat
        } else {
            0nat
        })
    }
}

/// A found slot lies within the buckets.
proof fn lemma_slot_of_in_bounds(min: int, max: int, size: nat, m: int)
    requires
        size >= 1,
        min <= max,
    ensures
        match slot_of(min, max, size, m) {
            Option::Some(s) => 0 <= s < size,
            Option::None => m < min || m > max,
        },
{
    if min <= m <= max && max > min {
        assert((m - min) * size / (max - min) >= 0) by (nonlinear_arith)
            requires
                m - min >= 0,
                size >= 1,
                max - min > 0,
        ;
    }
}

/// Loading a bucket sequence never changes how many buckets there are.
proof fn lemma_counts_after_len(counts: Seq<nat>, min: int, max: int, size: nat, ts: Seq<Timestamp>)
    requires
        size >= 1,
        min <= max,
        counts.len() == size,
    ensures
        counts_after(counts, min, max, size, ts).len() == size,
    decreases ts.len(),
{
    if ts.len() > 0 {
        lemma_counts_after_len(counts, min, max, size, ts.drop_last());
        lemma_slot_of_in_bounds(min, max, size, ts.last().micros as int);
    }
}

/// Loading raises the total of all bucket counts by exactly the number of
/// timestamps within the histogram's closed range: every in-range value is
/// counted once, and a value outside the range changes no bucket.
pub proof fn lemma_load_counts_in_range(
    counts: Seq<nat>,
    min: int,
    max: int,
    size: nat,
    ts: Seq<Timestamp>,
)
    requires
        size >= 1,
        min <= max,
        counts.len() == size,
    ensures
        seq_sum(counts_after(counts, min, max, size, ts)) == seq_sum(counts) + in_range_count(
            ts,
            min,
            max,
        ),
    decreases ts.len(),
{
    if ts.len() > 0 {
        lemma_load_counts_in_range(counts, min, max, size, ts.drop_last());
        lemma_counts_after_len(counts, min, max, size, ts.drop_last());
        lemma_slot_of_in_bounds(min, max, size, ts.last().micros as int);
        let prior = counts_after(counts, min, max, size, ts.drop_last());
        match slot_of(min, max, size, ts.last().micros as int) {
            Option::Some(s) => {
                lemma_seq_sum_update(prior, s, (prior[s] + 1) as nat);
            },
            Option::None => {},
        }
    }
}

/// When every input timestamp carries one same instant, loading puts every
/// occurrence into bucket zero: the degenerate range never divides by zero
/// and never drops a value.
pub proof fn lemma_degenerate_all_in_first_bucket(
    counts: Seq<nat>,
    m: int,
    size: nat,
    ts: Seq<Timestamp>,
)
    requires
        size >= 1,
        counts.len() == size,
        forall|i: int| 0 <= i < ts.len() ==> (#[trigger] ts[i]).micros == m,
    ensures
        counts_after(counts, m, m, size, ts) == counts.update(
            0,
            (counts[0] + ts.len()) as nat,
        ),
    decreases ts.len(),
{
    if ts.len() == 0 {
        assert(counts.update(0, counts[0]) =~= counts);
    } else {
        assert(forall|i: int|
            0 <= i < ts.drop_last().len() ==> (#[trigger] ts.drop_last()[i]).micros == m);
        lemma_degenerate_all_in_first_bucket(counts, m, size, ts.drop_last());
        assert(slot_of(m, m, size, ts.last().micros as int) == Some(0int));
        assert(counts.update(0, (counts[0] + ts.drop_last().len()) as nat).update(
            0,
            (counts[0] + ts.len()) as nat,
        ) =~= counts.update(0, (counts[0] + ts.len()) as nat));
    }
}

} // verus!
