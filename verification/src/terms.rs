//! Bar chart of the most frequent terms seen in the input.
//!
//! The term table is a vector of unique keys with counts, viewed as a map;
//! rendering sorts it by descending count, stably, and shows the first
//! `lines` rows.
use vstd::prelude::*;
use vstd::string::StrSliceExecFns;
use vstd::string::StringExecFns;

use crate::text::bar_char;
use crate::text::char_run;
use crate::text::dec_str;
use crate::text::dec_width;
use crate::text::pad_left;
use crate::text::pad_left_str;
use crate::text::usize_to_string;

verus! {

/// The term table as a map from term text to its count.
pub open spec fn terms_map(s: Seq<(String, usize)>) -> Map<Seq<char>, nat>
    decreases s.len(),
{
    if s.len() == 0 {
        Map::empty()
    } else {
        terms_map(s.drop_last()).insert(s.last().0@, s.last().1 as nat)
    }
}

/// Every key occurs once.
pub open spec fn unique_keys(s: Seq<(String, usize)>) -> bool {
    forall|i: int, j: int| 0 <= i < j < s.len() ==> (#[trigger] s[i]).0@ != (#[trigger] s[j]).0@
}

/// An entry of a unique-keyed table is its map binding.
proof fn lemma_terms_map_entry(s: Seq<(String, usize)>, i: int)
    requires
        unique_keys(s),
        0 <= i < s.len(),
    ensures
        terms_map(s).contains_key(s[i].0@),
        terms_map(s)[s[i].0@] == s[i].1 as nat,
    decreases s.len(),
{
    if i < s.len() - 1 {
        lemma_terms_map_entry(s.drop_last(), i);
    }
}

/// A key absent from a table is absent from its map.
proof fn lemma_terms_map_absent(s: Seq<(String, usize)>, k: Seq<char>)
    requires
        forall|i: int| 0 <= i < s.len() ==> (#[trigger] s[i]).0@ != k,
    ensures
        !terms_map(s).contains_key(k),
    decreases s.len(),
{
    if s.len() > 0 {
        lemma_terms_map_absent(s.drop_last(), k);
    }
}

/// Replacing an entry by one with the same key updates its binding and
/// nothing else, and keeps the keys unique.
proof fn lemma_terms_map_update(s: Seq<(String, usize)>, i: int, e: (String, usize))
    requires
        unique_keys(s),
        0 <= i < s.len(),
        e.0@ == s[i].0@,
    ensures
        terms_map(s.update(i, e)) =~= terms_map(s).insert(s[i].0@, e.1 as nat),
        unique_keys(s.update(i, e)),
    decreases s.len(),
{
    assert forall|a: int, b: int| 0 <= a < b < s.len() implies (#[trigger] s.update(i, e)[a]).0@
        != (#[trigger] s.update(i, e)[b]).0@ by {
        assert(s[a].0@ != s[b].0@);
    }
    if i == s.len() - 1 {
        assert(s.update(i, e).drop_last() =~= s.drop_last());
        assert(s.update(i, e).last() == e);
    } else {
        assert(s.update(i, e).drop_last() =~= s.drop_last().update(i, e));
        assert(s.update(i, e).last() == s.last());
        lemma_terms_map_update(s.drop_last(), i, e);
        assert(s.last().0@ != s[i].0@);
    }
}

/// Frequency table of observed terms, shown `lines` rows at a time.
pub struct CommonTerms {
    pub terms: Vec<(String, usize)>,
    pub lines: usize,
}

impl CommonTerms {
    /// The table as a map from term to count.
    pub open spec fn view(&self) -> Map<Seq<char>, nat> {
        terms_map(self.terms@)
    }

    pub open spec fn wf(&self) -> bool {
        unique_keys(self.terms@)
    }

    /// An empty table that will display `lines` rows.
    pub fn new(lines: usize) -> (r: CommonTerms)
        ensures
            r.wf(),
            r@ == Map::<Seq<char>, nat>::empty(),
            r.lines == lines,
            r.terms@.len() == 0,
    {
        CommonTerms { terms: Vec::new(), lines }
    }

    /// Observes one term: its count rises by one, from zero if unseen.
    pub fn observe(&mut self, term: String)
        requires
            old(self).wf(),
            old(self)@.contains_key(term@) ==> old(self)@[term@] < usize::MAX,
        ensures
            final(self).wf(),
            final(self).lines == old(self).lines,
            final(self)@ == old(self)@.insert(
                term@,
                if old(self)@.contains_key(term@) {
                    (old(self)@[term@] + 1) as nat
                } else {
                    1nat
                },
            ),
    {
        let n = self.terms.len();
        let mut i: usize = 0;
        while i < n
            invariant
                i <= n,
                *self == *old(self),
                n == self.terms@.len(),
                self.wf(),
                old(self)@.contains_key(term@) ==> old(self)@[term@] < usize::MAX,
                forall|k: int| 0 <= k < i ==> (#[trigger] self.terms@[k]).0@ != term@,
            decreases n - i,
        {
            if self.terms[i].0 == term {
                proof {
                    lemma_terms_map_entry(self.terms@, i as int);
                }
                let c = self.terms[i].1;
                let key = self.terms[i].0.clone();
                let ghost pre = self.terms@;
                self.terms[i] = (key, c + 1);
                proof {
                    assert(self.terms@ =~= pre.update(i as int, self.terms@[i as int]));
                    lemma_terms_map_update(pre, i as int, self.terms@[i as int]);
                }
                return ;
            }
            i = i + 1;
        }
        proof {
            lemma_terms_map_absent(self.terms@, term@);
        }
        let ghost pre = self.terms@;
        let ghost termv = term@;
        self.terms.push((term, 1));
        proof {
            assert(self.terms@.drop_last() =~= pre);
            assert(self.terms@.last().0@ == termv);
            assert forall|a: int, b: int| 0 <= a < b < self.terms@.len() implies (
            #[trigger] self.terms@[a]).0@ != (#[trigger] self.terms@[b]).0@ by {
                if b < self.terms@.len() - 1 {
                    assert(pre[a].0@ != pre[b].0@);
                } else {
                    assert(pre[a].0@ != termv);
                }
            }
        }
    }
}

/// A term table entry as plain values: the term's text and its count.
pub open spec fn entries_view(s: Seq<(String, usize)>) -> Seq<(Seq<char>, nat)> {
    s.map_values(|p: (String, usize)| (p.0@, p.1 as nat))
}

/// Descending stable insertion of one entry: it lands after every entry with
/// an equal or larger count.
pub open spec fn insert_desc(x: (Seq<char>, nat), s: Seq<(Seq<char>, nat)>) -> Seq<
    (Seq<char>, nat),
>
    decreases s.len(),
{
    if s.len() == 0 {
        seq![x]
    } else if s.first().1 >= x.1 {
        seq![s.first()] + insert_desc(x, s.drop_first())
    } else {
        seq![x] + s
    }
}

/// Descending stable insertion sort by count.
pub open spec fn sort_desc(s: Seq<(Seq<char>, nat)>) -> Seq<(Seq<char>, nat)>
    decreases s.len(),
{
    if s.len() == 0 {
        Seq::empty()
    } else {
        insert_desc(s.last(), sort_desc(s.drop_last()))
    }
}

/// The descending stable sort of the term table, as values.
pub fn sorted_terms(terms: &Vec<(String, usize)>) -> (r: Vec<(String, usize)>)
    ensures
        entries_view(r@) == sort_desc(entries_view(terms@)),
{
    let mut out: Vec<(String, usize)> = Vec::new();
    let mut i: usize = 0;
    proof {
        assert(entries_view(terms@.take(0)) =~= Seq::<(Seq<char>, nat)>::empty());
        assert(entries_view(out@) =~= sort_desc(entries_view(terms@.take(0))));
    }
    while i < terms.len()
        invariant
            i <= terms@.len(),
            entries_view(out@) == sort_desc(entries_view(terms@.take(i as int))),
        decreases terms@.len() - i,
    {
        let x = (terms[i].0.clone(), terms[i].1);
        let ghost xv = (terms@[i as int].0@, terms@[i as int].1 as nat);
        proof {
            assert(x.0@ == terms@[i as int].0@);
        }
        // Find the first position whose count is smaller, and insert there.
        let mut p: usize = 0;
        while p < out.len() && out[p].1 >= x.1
            invariant
                p <= out@.len(),
                forall|k: int| 0 <= k < p ==> (#[trigger] out@[k]).1 >= x.1,
            decreases out@.len() - p,
        {
            p = p + 1;
        }
        proof {
            assert forall|k: int| 0 <= k < p implies (#[trigger] entries_view(out@)[k]).1
                >= xv.1 by {
                assert(out@[k].1 >= x.1);
            }
            if p < out@.len() {
                assert(entries_view(out@)[p as int].1 < xv.1);
            }
            lemma_insert_desc_at(xv, entries_view(out@), p as int);
        }
        let ghost pre = out@;
        out.insert(p, x);
        proof {
            assert(out@ =~= pre.take(p as int) + seq![x] + pre.skip(p as int));
            assert(entries_view(out@) =~= entries_view(pre).take(p as int) + seq![xv]
                + entries_view(pre).skip(p as int));
            assert(terms@.take(i + 1).drop_last() =~= terms@.take(i as int));
            assert(entries_view(terms@.take(i + 1)).drop_last() =~= entries_view(
                terms@.take(i as int),
            ));
            assert(entries_view(terms@.take(i + 1)).last() == xv);
        }
        i = i + 1;
    }
    proof {
        assert(terms@.take(terms@.len() as int) =~= terms@);
    }
    out
}

/// Width of the widest shown term, at least one.
pub open spec fn max_label(s: Seq<(Seq<char>, nat)>) -> nat
    decreases s.len(),
{
    if s.len() == 0 {
        1
    } else if s.last().0.len() >= max_label(s.drop_last()) {
        s.last().0.len()
    } else {
        max_label(s.drop_last())
    }
}

/// One rendered term row: bracketed right-aligned term, bracketed
/// right-aligned count, then one bar glyph per `divisor` counts.
pub open spec fn term_row_line(entry: (Seq<char>, nat), lw: nat, cw: nat, divisor: nat) -> Seq<char>
    recommends
        divisor >= 1,
{
    "["@ + pad_left(entry.0, lw) + "] ["@ + pad_left(dec_str(entry.1), cw) + "] "@ + char_run(
        bar_char(),
        entry.1 / divisor,
    ) + "\n"@
}

/// The shown rows, in order.
pub open spec fn term_rows_text(s: Seq<(Seq<char>, nat)>, lw: nat, cw: nat, divisor: nat) -> Seq<
    char,
>
    decreases s.len(),
{
    if s.len() == 0 {
        Seq::empty()
    } else {
        term_rows_text(s.drop_last(), lw, cw, divisor) + term_row_line(s.last(), lw, cw, divisor)
    }
}

/// The full rendering: a placeholder for an empty table, otherwise the scale
/// line followed by the first `lines` entries in descending count order.
pub open spec fn terms_text(entries: Seq<(Seq<char>, nat)>, lines: nat, width: nat) -> Seq<char>
    recommends
        width >= 1,
{
    let sorted = sort_desc(entries);
    if sorted.len() == 0 {
        "No data\n"@
    } else {
        let divisor = if sorted[0].1 / width >= 1 {
            sorted[0].1 / width
        } else {
            1
        };
        let shown = sorted.take(if lines <= sorted.len() {
            lines as int
        } else {
            sorted.len() as int
        });
        "Each \u{220e} represents a count of "@ + dec_str(divisor) + "\n"@ + term_rows_text(
            shown,
            max_label(shown),
            dec_str(sorted[0].1).len(),
            divisor,
        )
    }
}

impl CommonTerms {
    /// Renders the chart for a terminal of `width` characters.
    pub fn to_text(&self, width: usize) -> (r: String)
        requires
            width >= 1,
        ensures
            r@ == terms_text(entries_view(self.terms@), self.lines as nat, width as nat),
    {
        let sorted = sorted_terms(&self.terms);
        let ghost sortedv = sort_desc(entries_view(self.terms@));
        if sorted.len() == 0 {
            return String::from_str("No data\n");
        }
        let top = sorted[0].1;
        let d = top / width;
        let divisor: usize = if d >= 1 {
            d
        } else {
            1
        };
        let width_count = dec_width(top);
        let m: usize = if self.lines <= sorted.len() {
            self.lines
        } else {
            sorted.len()
        };
        let ghost shown = sortedv.take(m as int);
        let mut label_width: usize = 1;
        let mut k: usize = 0;
        proof {
            assert(shown.take(0) =~= Seq::<(Seq<char>, nat)>::empty());
        }
        while k < m
            invariant
                k <= m,
                m <= sorted@.len(),
                entries_view(sorted@) == sortedv,
                shown == sortedv.take(m as int),
                label_width as nat == max_label(shown.take(k as int)),
            decreases m - k,
        {
            proof {
                assert(shown.take(k + 1).drop_last() =~= shown.take(k as int));
                assert(shown.take(k + 1).last() == (sorted@[k as int].0@, sorted@[k as int].1
                    as nat));
            }
            let lw = sorted[k].0.as_str().unicode_len();
            if lw > label_width {
                label_width = lw;
            }
            k = k + 1;
        }
        proof {
            assert(shown.take(m as int) =~= shown);
        }
        let mut out = String::from_str("Each \u{220e} represents a count of ");
        out.append(usize_to_string(divisor).as_str());
        out.append("\n");
        let ghost header = out@;
        let mut k: usize = 0;
        while k < m
            invariant
                k <= m,
                m <= sorted@.len(),
                divisor >= 1,
                entries_view(sorted@) == sortedv,
                shown == sortedv.take(m as int),
                label_width as nat == max_label(shown),
                width_count as nat == dec_str(sortedv[0].1).len(),
                out@ == header + term_rows_text(
                    shown.take(k as int),
                    label_width as nat,
                    width_count as nat,
                    divisor as nat,
                ),
            decreases m - k,
        {
            out.append("[");
            out.append(pad_left_str(sorted[k].0.as_str(), label_width).as_str());
            out.append("] [");
            out.append(pad_left_str(usize_to_string(sorted[k].1).as_str(), width_count).as_str());
            out.append("] ");
            out.append(crate::text::bar_run(sorted[k].1 / divisor).as_str());
            out.append("\n");
            proof {
                assert(shown.take(k + 1).drop_last() =~= shown.take(k as int));
                assert(shown.take(k + 1).last() == (sorted@[k as int].0@, sorted@[k as int].1
                    as nat));
                assert(out@ =~= header + term_rows_text(
                    shown.take(k + 1),
                    label_width as nat,
                    width_count as nat,
                    divisor as nat,
                ));
            }
            k = k + 1;
        }
        proof {
            assert(shown.take(m as int) =~= shown);
            assert(out@ =~= terms_text(entries_view(self.terms@), self.lines as nat, width as nat));
        }
        out
    }
}

/// Characterizes insertion at the first smaller-count position.
proof fn lemma_insert_desc_at(x: (Seq<char>, nat), s: Seq<(Seq<char>, nat)>, p: int)
    requires
        0 <= p <= s.len(),
        forall|k: int| 0 <= k < p ==> (#[trigger] s[k]).1 >= x.1,
        p < s.len() ==> s[p].1 < x.1,
    ensures
        insert_desc(x, s) == s.take(p) + seq![x] + s.skip(p),
    decreases s.len(),
{
    if p == 0 {
        assert(insert_desc(x, s) =~= s.take(0) + seq![x] + s.skip(0));
    } else {
        lemma_insert_desc_at(x, s.drop_first(), p - 1);
        assert(s.drop_first().take(p - 1) =~= s.take(p).drop_first());
        assert(s.drop_first().skip(p - 1) =~= s.skip(p));
        assert(insert_desc(x, s) =~= s.take(p) + seq![x] + s.skip(p));
    }
}

} // verus!
