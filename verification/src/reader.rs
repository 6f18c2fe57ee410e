//! Per-line decisions of the timestamp readers.
//!
//! Reading lines from a file or stream, and the optional regex filter, sit
//! outside the library; the caller hands each parsed timestamp (and whether
//! its line passed the filter) to these verified decision steps: whether to
//! keep it, whether to stop early, and how to apply a duration cutoff.
use vstd::prelude::*;
use vstd::string::StrSliceExecFns;

use crate::text::contains_seq;
use crate::text::contains_str;
use crate::timehist::min_index;
use crate::timestamp::Timestamp;

verus! {

/// An instant sum clamped to the representable range.
pub open spec fn sat_micros(x: int) -> int {
    if x > i64::MAX as int {
        i64::MAX as int
    } else if x < i64::MIN as int {
        i64::MIN as int
    } else {
        x
    }
}

/// Configuration of the single-series timestamp reader: an optional explicit
/// format string, an optional duration window, and whether ingestion stops
/// at the first timestamp past the window.
pub struct TimeReader {
    pub ts_format: Option<String>,
    pub duration_millis: Option<i64>,
    pub early_stop: bool,
}

/// The elements of `s` whose instant is at most `cut`, in order.
pub open spec fn kept_until(s: Seq<Timestamp>, cut: int) -> Seq<Timestamp>
    decreases s.len(),
{
    if s.len() == 0 {
        Seq::empty()
    } else {
        kept_until(s.drop_last(), cut) + (if s.last().micros <= cut {
            seq![s.last()]
        } else {
            Seq::<Timestamp>::empty()
        })
    }
}

impl TimeReader {
    pub fn new(ts_format: Option<String>, duration_millis: Option<i64>, early_stop: bool) -> (r:
        TimeReader)
        ensures
            r.ts_format == ts_format,
            r.duration_millis == duration_millis,
            r.early_stop == early_stop,
    {
        TimeReader { ts_format, duration_millis, early_stop }
    }

    /// The stop instant, when stopping early is on and a window is set: the
    /// first timestamp plus the window, clamped to the representable range.
    pub fn cut_for(&self, first: Timestamp) -> (r: Option<Timestamp>)
        ensures
            match r {
                Option::Some(c) => self.early_stop && (self.duration_millis matches Some(ms)
                    && c.micros == sat_micros(first.micros + ms * 1000) && c.offset_secs
                    == first.offset_secs),
                Option::None => !(self.early_stop && self.duration_millis is Some),
            },
    {
        if !self.early_stop {
            return None;
        }
        match self.duration_millis {
            Some(ms) => {
                let sum: i128 = (first.micros as i128) + (ms as i128) * 1000;
                let micros: i64 = if sum > i64::MAX as i128 {
                    i64::MAX
                } else if sum < i64::MIN as i128 {
                    i64::MIN
                } else {
                    sum as i64
                };
                Some(Timestamp::new(micros, first.offset_secs))
            },
            None => None,
        }
    }

    /// One ingestion step.  Past the stop instant nothing is kept and the
    /// caller is told whether to stop; otherwise the timestamp is kept
    /// exactly when its line passed the caller's filter.
    pub fn push_conditionally(
        &self,
        d: Timestamp,
        vec: &mut Vec<Timestamp>,
        line_matched: bool,
        cut: Option<Timestamp>,
    ) -> (stop: bool)
        ensures
            match cut {
                Option::Some(c) if c.micros < d.micros => final(vec)@ == old(vec)@ && stop
                    == self.early_stop,
                _ => final(vec)@ == old(vec)@ + (if line_matched {
                    seq![d]
                } else {
                    Seq::<Timestamp>::empty()
                }) && !stop,
            },
    {
        if let Some(c) = cut {
            if c.micros < d.micros {
                return self.early_stop;
            }
        }
        if line_matched {
            vec.push(d);
            proof {
                assert(vec@ =~= old(vec)@ + seq![d]);
            }
        } else {
            proof {
                assert(vec@ =~= old(vec)@ + Seq::<Timestamp>::empty());
            }
        }
        false
    }

    /// Applies the duration window after ingestion: keeps the timestamps
    /// within the window above the earliest one.  Used when no early stop
    /// ran; without a window, or with nothing read, nothing changes.
    pub fn apply_duration_cut(&self, vec: &mut Vec<Timestamp>)
        ensures
            match self.duration_millis {
                Option::None => final(vec)@ == old(vec)@,
                Option::Some(ms) => if old(vec)@.len() == 0 {
                    final(vec)@ == old(vec)@
                } else {
                    final(vec)@ == kept_until(
                        old(vec)@,
                        sat_micros(old(vec)@[min_index(old(vec)@)].micros + ms * 1000),
                    )
                },
            },
    {
        let ms = match self.duration_millis {
            Some(ms) => ms,
            None => {
                return ;
            },
        };
        if vec.len() == 0 {
            return ;
        }
        let mut mini: usize = 0;
        let mut i: usize = 1;
        while i < vec.len()
            invariant
                1 <= i <= vec@.len(),
                vec@.len() >= 1,
                mini == min_index(vec@.take(i as int)),
                0 <= mini < i,
            decreases vec@.len() - i,
        {
            proof {
                assert(vec@.take(i + 1).drop_last() =~= vec@.take(i as int));
                assert(vec@.take(i + 1).last() == vec@[i as int]);
                crate::timehist::lemma_min_max_index(vec@.take(i as int), 0);
            }
            if vec[i].micros < vec[mini].micros {
                mini = i;
            }
            i = i + 1;
        }
        proof {
            assert(vec@.take(vec@.len() as int) =~= vec@);
        }
        let sum: i128 = (vec[mini].micros as i128) + (ms as i128) * 1000;
        let cut: i64 = if sum > i64::MAX as i128 {
            i64::MAX
        } else if sum < i64::MIN as i128 {
            i64::MIN
        } else {
            sum as i64
        };
        let mut kept: Vec<Timestamp> = Vec::new();
        let mut i: usize = 0;
        proof {
            assert(vec@.take(0) =~= Seq::<Timestamp>::empty());
            assert(kept@ =~= kept_until(vec@.take(0), cut as int));
        }
        while i < vec.len()
            invariant
                i <= vec@.len(),
                kept@ == kept_until(vec@.take(i as int), cut as int),
            decreases vec@.len() - i,
        {
            proof {
                assert(vec@.take(i + 1).drop_last() =~= vec@.take(i as int));
                assert(vec@.take(i + 1).last() == vec@[i as int]);
            }
            if vec[i].micros <= cut {
                kept.push(vec[i]);
                proof {
                    assert(kept@ =~= kept_until(vec@.take(i + 1), cut as int));
                }
            } else {
                proof {
                    assert(kept@ =~= kept_until(vec@.take(i + 1), cut as int));
                }
            }
            i = i + 1;
        }
        proof {
            assert(vec@.take(vec@.len() as int) =~= vec@);
        }
        *vec = kept;
    }
}

/// The (timestamp, label index) pairs one line contributes: one pair per
/// label, in label order, for the labels the line contains.
pub open spec fn label_pairs(
    labels: Seq<String>,
    line: Seq<char>,
    d: Timestamp,
    k: int,
) -> Seq<(Timestamp, usize)>
    decreases k,
{
    if k <= 0 {
        Seq::empty()
    } else {
        label_pairs(labels, line, d, k - 1) + (if contains_seq(line, labels[k - 1]@) {
            seq![(d, (k - 1) as usize)]
        } else {
            Seq::<(Timestamp, usize)>::empty()
        })
    }
}

/// Configuration of the split timestamp reader: the tracked labels and an
/// optional explicit format string.
pub struct SplitTimeReader {
    pub matches: Vec<String>,
    pub ts_format: Option<String>,
}

impl SplitTimeReader {
    pub fn new(matches: Vec<String>, ts_format: Option<String>) -> (r: SplitTimeReader)
        ensures
            r.matches == matches,
            r.ts_format == ts_format,
    {
        SplitTimeReader { matches, ts_format }
    }

    /// One ingestion step: appends one pair per tracked label the line
    /// contains, in label order.
    pub fn push_conditionally(&self, d: Timestamp, vec: &mut Vec<(Timestamp, usize)>, line: &str)
        ensures
            final(vec)@ == old(vec)@ + label_pairs(
                self.matches@,
                line@,
                d,
                self.matches@.len() as int,
            ),
    {
        let mut i: usize = 0;
        proof {
            assert(vec@ =~= old(vec)@ + label_pairs(self.matches@, line@, d, 0));
        }
        while i < self.matches.len()
            invariant
                i <= self.matches@.len(),
                vec@ == old(vec)@ + label_pairs(self.matches@, line@, d, i as int),
            decreases self.matches@.len() - i,
        {
            if contains_str(line, self.matches[i].as_str()) {
                vec.push((d, i));
                proof {
                    assert(vec@ =~= old(vec)@ + label_pairs(self.matches@, line@, d, i + 1));
                }
            } else {
                proof {
                    assert(vec@ =~= old(vec)@ + label_pairs(self.matches@, line@, d, i + 1));
                }
            }
            i = i + 1;
        }
    }
}

} // verus!
