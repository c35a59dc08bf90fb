//! Translation of a segment span into candidates: direct lookup,
//! word-level lookups from the span start, and beam-search sentence
//! composition.

use vstd::prelude::*;
use vstd::multiset::Multiset;
use crate::dictionary::Dictionary;
use crate::model::{Candidate, cand_span_in};
use crate::strutil::{lex_le, sat_add_i64, sat_add_i64_spec};

verus! {

/// Turns a segment span into candidates: at most the (clamped) limit of
/// them, each covering a span from `start` into `(start, end]`, and none
/// at all for a degenerate span.
pub trait Translator: Send + Sync {
    fn translate(&self, segments: &Vec<String>, start: usize, end: usize, limit: usize) -> (r:
        Vec<Candidate>)
        ensures
            r@.len() <= if limit == 0 {
                1int
            } else {
                limit as int
            },
            forall|k: int|
                0 <= k < r@.len() ==> cand_span_in(#[trigger] r@[k], start as int, end as int),
            start >= end || end > segments@.len() ==> r@.len() == 0,
    ;
}

/// A dictionary-backed translator with a light sentence-composition pass.
pub struct DictTranslator<'a, D> {
    /// The dictionary every lookup goes through.
    pub dict: &'a D,
    /// Greatest number of segments one word candidate may cover.
    pub max_word_length: u8,
    /// Cap on each single span query, bounding the beam expansion.
    pub per_span_limit: usize,
}

/// A partial sentence under construction during beam search.
struct Path {
    text: String,
    score: i64,
}

impl Clone for Path {
    fn clone(&self) -> (r: Self)
        ensures
            r == *self,
    {
        Path { text: self.text.clone(), score: self.score }
    }
}

/// Beam order: score descending, then text ascending.
spec fn path_le(a: Path, b: Path) -> bool {
    a.score > b.score || (a.score == b.score && lex_le(a.text@, b.text@))
}

/// The path sequence is sorted by the beam order.
spec fn paths_sorted(s: Seq<Path>) -> bool {
    forall|i: int, j: int| 0 <= i < j < s.len() ==> #[trigger] path_le(s[i], s[j])
}

/// Stable insertion sort by score alone, descending: the ranking pass a
/// beam goes through before truncation.
fn sort_paths_by_score(v: Vec<Path>) -> (r: Vec<Path>)
    ensures
        forall|i: int, j: int|
            0 <= i < j < r@.len() ==> #[trigger] r@[i].score >= #[trigger] r@[j].score,
        r@.to_multiset() == v@.to_multiset(),
        r@.len() == v@.len(),
{
    broadcast use vstd::seq_lib::group_to_multiset_ensures;
    broadcast use vstd::multiset::group_multiset_axioms;

    let mut out: Vec<Path> = Vec::new();
    let mut i: usize = 0;
    proof {
        assert(v@.take(0).to_multiset() =~= Multiset::<Path>::empty());
        assert(out@.to_multiset() =~= Multiset::<Path>::empty());
    }
    while i < v.len()
        invariant
            i <= v@.len(),
            forall|a: int, b: int|
                0 <= a < b < out@.len() ==> #[trigger] out@[a].score >= #[trigger] out@[b].score,
            out@.to_multiset() == v@.take(i as int).to_multiset(),
            out@.len() == i,
        decreases v@.len() - i,
    {
        let x = v[i].clone();
        let mut p: usize = 0;
        while p < out.len() && out[p].score >= x.score
            invariant
                p <= out@.len(),
                forall|k: int| 0 <= k < p ==> #[trigger] out@[k].score >= x.score,
            decreases out@.len() - p,
        {
            p = p + 1;
        }
        proof {
            out@.insert_ensures(p as int, x);
            crate::filter::lemma_insert_to_multiset(out@, p as int, x);
        }
        let ghost pre = out@;
        out.insert(p, x);
        proof {
            assert(out@ == pre.insert(p as int, x));
            assert(out@.to_multiset() =~= pre.to_multiset().insert(x));
            vstd::seq_lib::to_multiset_build(v@.take(i as int), v@[i as int]);
            assert(v@.take(i + 1) =~= v@.take(i as int).push(v@[i as int]));
            assert(out@.to_multiset() =~= v@.take(i + 1).to_multiset());
        }
        i = i + 1;
    }
    proof {
        assert(v@.take(v@.len() as int) =~= v@);
    }
    out
}

/// Stable insertion sort by the full beam order: score descending, then
/// text ascending.
fn sort_paths_final(v: Vec<Path>) -> (r: Vec<Path>)
    ensures
        paths_sorted(r@),
        r@.to_multiset() == v@.to_multiset(),
        r@.len() == v@.len(),
{
    broadcast use vstd::seq_lib::group_to_multiset_ensures;
    broadcast use vstd::multiset::group_multiset_axioms;

    let mut out: Vec<Path> = Vec::new();
    let mut i: usize = 0;
    proof {
        assert(v@.take(0).to_multiset() =~= Multiset::<Path>::empty());
        assert(out@.to_multiset() =~= Multiset::<Path>::empty());
    }
    while i < v.len()
        invariant
            i <= v@.len(),
            paths_sorted(out@),
            out@.to_multiset() == v@.take(i as int).to_multiset(),
            out@.len() == i,
        decreases v@.len() - i,
    {
        let x = v[i].clone();
        let mut p: usize = 0;
        while p < out.len()
            && (out[p].score > x.score || (out[p].score == x.score && crate::strutil::str_lex_le(
            out[p].text.as_str(),
            x.text.as_str(),
        )))
            invariant
                p <= out@.len(),
                forall|k: int| 0 <= k < p ==> #[trigger] path_le(out@[k], x),
            decreases out@.len() - p,
        {
            p = p + 1;
        }
        proof {
            if p < out@.len() {
                crate::strutil::lemma_lex_le_total(out@[p as int].text@, x.text@);
                assert(path_le(x, out@[p as int]));
            }
            assert forall|k: int| p <= k < out@.len() implies #[trigger] path_le(x, out@[k]) by {
                if k > p {
                    assert(path_le(out@[p as int], out@[k]));
                    if x.score == out@[p as int].score && out@[p as int].score == out@[k].score {
                        crate::strutil::lemma_lex_le_trans(
                            x.text@,
                            out@[p as int].text@,
                            out@[k].text@,
                        );
                    }
                }
            }
            out@.insert_ensures(p as int, x);
            crate::filter::lemma_insert_to_multiset(out@, p as int, x);
        }
        let ghost pre = out@;
        out.insert(p, x);
        proof {
            assert forall|a: int, b: int|
                0 <= a < b < out@.len() implies #[trigger] path_le(out@[a], out@[b]) by {}
            assert(out@ == pre.insert(p as int, x));
            assert(out@.to_multiset() =~= pre.to_multiset().insert(x));
            vstd::seq_lib::to_multiset_build(v@.take(i as int), v@[i as int]);
            assert(v@.take(i + 1) =~= v@.take(i as int).push(v@[i as int]));
            assert(out@.to_multiset() =~= v@.take(i + 1).to_multiset());
        }
        i = i + 1;
    }
    proof {
        assert(v@.take(v@.len() as int) =~= v@);
    }
    out
}

/// Rewrites a batch of lookup results to cover the span `[start, end)`,
/// changing nothing else: the conversion every dictionary result goes
/// through before it joins the output.
fn respan(cands: &Vec<Candidate>, start: usize, end: usize) -> (r: Vec<Candidate>)
    ensures
        r@.len() == cands@.len(),
        forall|k: int|
            0 <= k < r@.len() ==> ((#[trigger] r@[k]).text@ == cands@[k].text@ && r@[k].comment
                == cands@[k].comment && r@[k].weight == cands@[k].weight && r@[k].segment_start
                == start && r@[k].segment_end == end),
{
    let mut r: Vec<Candidate> = Vec::new();
    let mut i: usize = 0;
    while i < cands.len()
        invariant
            i <= cands@.len(),
            r@.len() == i,
            forall|k: int|
                0 <= k < r@.len() ==> ((#[trigger] r@[k]).text@ == cands@[k].text@ && r@[k].comment
                    == cands@[k].comment && r@[k].weight == cands@[k].weight && r@[k].segment_start
                    == start && r@[k].segment_end == end),
        decreases cands@.len() - i,
    {
        let mut c = cands[i].clone();
        c.segment_start = start;
        c.segment_end = end;
        r.push(c);
        i = i + 1;
    }
    r
}

/// Appends candidates from the batch in order while the output stays
/// under the cap: exactly the longest prefix of the batch that fits.
fn append_up_to(out: &mut Vec<Candidate>, batch: &Vec<Candidate>, cap: usize)
    ensures
        final(out)@ == old(out)@ + batch@.take(
            vstd::math::min(
                batch@.len() as int,
                if old(out)@.len() >= cap {
                    0int
                } else {
                    cap - old(out)@.len()
                },
            ),
        ),
{
    let room: usize = if out.len() >= cap {
        0
    } else {
        cap - out.len()
    };
    let take_n: usize = if batch.len() < room {
        batch.len()
    } else {
        room
    };
    let ghost pre = out@;
    let mut i: usize = 0;
    proof {
        assert(out@ =~= pre + batch@.take(0));
    }
    while i < take_n
        invariant
            i <= take_n <= batch@.len(),
            out@ == pre + batch@.take(i as int),
        decreases take_n - i,
    {
        out.push(batch[i].clone());
        proof {
            assert(batch@.take(i + 1) =~= batch@.take(i as int).push(batch@[i as int]));
            assert(out@ =~= pre + batch@.take(i + 1));
        }
        i = i + 1;
    }
    proof {
        assert(out@ =~= pre + batch@.take(take_n as int));
    }
}

/// One beam step: every surviving path extended by every returned word,
/// in row-major order. The new text is the path text followed by the
/// word text; the new score adds the word weight and the length bonus,
/// saturating. This is the whole use the beam search makes of what the
/// dictionary returned.
fn extend_paths(row: &Vec<Path>, words: &Vec<Candidate>, bonus: i64) -> (r: Vec<Path>)
    requires
        words@.len() > 0,
    ensures
        r@.len() == row@.len() * words@.len(),
        forall|k: int|
            0 <= k < r@.len() ==> ((#[trigger] r@[k]).text@ == row@[k / (words@.len() as int)].text@
                + words@[k % (words@.len() as int)].text@ && r@[k].score == sat_add_i64_spec(
                row@[k / (words@.len() as int)].score,
                sat_add_i64_spec(words@[k % (words@.len() as int)].weight as i64, bonus),
            )),
{
    let ghost wn = words@.len() as int;
    let mut r: Vec<Path> = Vec::new();
    let mut pi: usize = 0;
    while pi < row.len()
        invariant
            wn == words@.len() as int,
            wn > 0,
            pi <= row@.len(),
            r@.len() == pi * wn,
            forall|k: int|
                0 <= k < r@.len() ==> ((#[trigger] r@[k]).text@ == row@[k / wn].text@ + words@[k
                    % wn].text@ && r@[k].score == sat_add_i64_spec(
                    row@[k / wn].score,
                    sat_add_i64_spec(words@[k % wn].weight as i64, bonus),
                )),
        decreases row@.len() - pi,
    {
        let mut wi: usize = 0;
        while wi < words.len()
            invariant
                wn == words@.len() as int,
                wn > 0,
                pi < row@.len(),
                wi <= words@.len(),
                r@.len() == pi * wn + wi,
                forall|k: int|
                    0 <= k < r@.len() ==> ((#[trigger] r@[k]).text@ == row@[k / wn].text@ + words@[
                        k % wn].text@ && r@[k].score == sat_add_i64_spec(
                        row@[k / wn].score,
                        sat_add_i64_spec(words@[k % wn].weight as i64, bonus),
                    )),
            decreases words@.len() - wi,
        {
            let mut text = String::new();
            text.append(row[pi].text.as_str());
            text.append(words[wi].text.as_str());
            let score = sat_add_i64(row[pi].score, sat_add_i64(words[wi].weight as i64, bonus));
            r.push(Path { text, score });
            proof {
                vstd::arithmetic::div_mod::lemma_fundamental_div_mod_converse(
                    pi * wn + wi,
                    wn,
                    pi as int,
                    wi as int,
                );
            }
            wi = wi + 1;
        }
        proof {
            assert(pi * wn + wn == (pi + 1) * wn) by (nonlinear_arith);
        }
        pi = pi + 1;
    }
    r
}

impl<'a, D: Dictionary> DictTranslator<'a, D> {
    /// Direct lookup of the whole span, then word candidates anchored at
    /// `start`, then sentence composition for whatever of `limit` is
    /// still unfilled. Every candidate covers a span that begins at
    /// `start` and ends within `(start, end]`.
    /// Direct lookup of the whole span, then word candidates anchored at
    /// `start`, then sentence composition for whatever of `limit` is
    /// still unfilled, every stage capped so the running total never
    /// exceeds the clamped limit. Every candidate covers a span that
    /// begins at `start` and ends within `(start, end]`; a degenerate
    /// span yields nothing.
    pub fn translate_with_composition(
        &self,
        segment: &Vec<String>,
        start: usize,
        end: usize,
        limit: usize,
    ) -> (r: Vec<Candidate>)
        ensures
            r@.len() <= if limit == 0 {
                1int
            } else {
                limit as int
            },
            forall|k: int|
                0 <= k < r@.len() ==> cand_span_in(#[trigger] r@[k], start as int, end as int),
            forall|k: int|
                0 <= k < r@.len() ==> ((#[trigger] r@[k]).segment_end == end
                    || r@[k].segment_end as int <= start as int + (if self.max_word_length < 1 {
                    1int
                } else {
                    self.max_word_length as int
                })),
            start >= end || end > segment@.len() ==> r@.len() == 0,
    {
        let limit: usize = if limit < 1 {
            1
        } else {
            limit
        };
        if start >= end || end > segment.len() {
            return Vec::new();
        }
        let mut out: Vec<Candidate> = Vec::new();

        // Direct lookup over the whole span.
        let ghost mwl_spec: int = if self.max_word_length < 1 {
            1int
        } else {
            self.max_word_length as int
        };
        let direct = self.dict.lookup_span(segment, start, end, limit);
        let batch = respan(&direct, start, end);
        let ghost batchv = batch@;
        append_up_to(&mut out, &batch, limit);
        proof {
            assert forall|k: int| 0 <= k < out@.len() implies cand_span_in(
                #[trigger] out@[k],
                start as int,
                end as int,
            ) && out@[k].segment_end == end by {
                assert(out@[k] == batchv[k]);
            }
        }

        // Word candidates anchored at the span start.
        let mwl: usize = if self.max_word_length < 1 {
            1
        } else {
            self.max_word_length as usize
        };
        let psl: usize = if self.per_span_limit < 1 {
            1
        } else {
            self.per_span_limit
        };
        let wmax: usize = if end - start < mwl {
            end - start
        } else {
            mwl
        };
        let mut w: usize = 1;
        while w <= wmax
            invariant
                start < end <= segment@.len(),
                1 <= w,
                wmax <= end - start,
                wmax <= mwl <= 255,
                mwl as int == mwl_spec,
                limit >= 1,
                out@.len() <= limit,
                forall|k: int|
                    0 <= k < out@.len() ==> cand_span_in(#[trigger] out@[k], start as int, end as int),
                forall|k: int|
                    0 <= k < out@.len() ==> ((#[trigger] out@[k]).segment_end == end
                        || out@[k].segment_end as int <= start as int + mwl_spec),
            decreases wmax + 1 - w,
        {
            let j = start + w;
            let cands = self.dict.lookup_span(segment, start, j, psl);
            let wbatch = respan(&cands, start, j);
            let ghost wbatchv = wbatch@;
            let ghost outpre = out@;
            append_up_to(&mut out, &wbatch, limit);
            proof {
                assert forall|k: int| 0 <= k < out@.len() implies cand_span_in(
                    #[trigger] out@[k],
                    start as int,
                    end as int,
                ) by {
                    if k < outpre.len() {
                        assert(out@[k] == outpre[k]);
                        assert(cand_span_in(outpre[k], start as int, end as int));
                    } else {
                        assert(out@[k] == wbatchv[k - outpre.len()]);
                        assert(wbatchv[k - outpre.len()].segment_start == start);
                        assert(wbatchv[k - outpre.len()].segment_end == j);
                    }
                    assert(cand_span_in(out@[k], start as int, end as int));
                }
            }
            w = w + 1;
        }

        // Sentence composition for the remainder.
        if out.len() < limit {
            let mut composed = self.compose_sentence_candidates(
                segment,
                start,
                end,
                limit - out.len(),
            );
            let ghost outpre1 = out@;
            let ghost compv = composed@;
            out.append(&mut composed);
            proof {
                assert(out@ == outpre1 + compv);
                assert forall|k: int|
                    0 <= k < out@.len() implies cand_span_in(
                    #[trigger] out@[k],
                    start as int,
                    end as int,
                ) by {
                    if k < outpre1.len() {
                        assert(out@[k] == outpre1[k]);
                        assert(cand_span_in(outpre1[k], start as int, end as int));
                    } else {
                        assert(out@[k] == compv[k - outpre1.len()]);
                        assert(compv[k - outpre1.len()].segment_start == start);
                        assert(compv[k - outpre1.len()].segment_end == end);
                    }
                    assert(cand_span_in(out@[k], start as int, end as int));
                }
            }
        }
        out
    }

    /// Beam search over `[start, end)`: one beam of partial sentences per
    /// position, each extension scored by word weight plus a length
    /// bonus. Emits at most `limit` full-span candidates tagged as
    /// composed, ranked by weight descending.
    fn compose_sentence_candidates(
        &self,
        segments: &Vec<String>,
        start: usize,
        end: usize,
        limit: usize,
    ) -> (r: Vec<Candidate>)
        ensures
            r@.len() <= limit,
            limit == 0 || start >= end || end > segments@.len() ==> r@.len() == 0,
            forall|k: int|
                0 <= k < r@.len() ==> (#[trigger] r@[k].segment_start == start
                    && r@[k].segment_end == end),
            forall|k: int|
                0 <= k < r@.len() ==> ((#[trigger] r@[k].comment) matches Some(tag) && tag@
                    == "compose"@),
            forall|i: int, j: int|
                0 <= i < j < r@.len() ==> #[trigger] r@[i].weight >= #[trigger] r@[j].weight,
            forall|i: int, j: int|
                0 <= i < j < r@.len() && #[trigger] r@[i].weight == #[trigger] r@[j].weight
                    && i32::MIN < r@[i].weight < i32::MAX ==> lex_le(r@[i].text@, r@[j].text@),
            exists|ss: Seq<int>| #[trigger] scores_rank(r@, ss),
    {
        if limit == 0 || start >= end || end > segments.len() || end == usize::MAX {
            let r: Vec<Candidate> = Vec::new();
            proof {
                assert(scores_rank(r@, Seq::<int>::empty()));
            }
            return r;
        }
        let beam_k: usize = if limit < 8 {
            8
        } else if limit > 64 {
            64
        } else {
            limit
        };
        let mwl: usize = if self.max_word_length < 1 {
            1
        } else {
            self.max_word_length as usize
        };
        let psl: usize = if self.per_span_limit < 1 {
            1
        } else {
            self.per_span_limit
        };
        let mut beams: Vec<Vec<Path>> = Vec::new();
        let mut z: usize = 0;
        while z <= end
            invariant
                end < usize::MAX,
                z <= end + 1,
                beams@.len() == z,
            decreases end + 1 - z,
        {
            beams.push(Vec::new());
            z = z + 1;
        }
        beams[start].push(Path { text: String::new(), score: 0 });

        let mut i: usize = start;
        while i < end
            invariant
                start <= i,
                end < usize::MAX,
                end <= segments@.len(),
                beams@.len() == end + 1,
                1 <= mwl <= 255,
            decreases end - i,
        {
            if beams[i].len() > 0 {
                let mut row: Vec<Path> = Vec::new();
                core::mem::swap(&mut row, &mut beams[i]);
                let mut row = sort_paths_by_score(row);
                row.truncate(beam_k);
                let wmax: usize = if end - i < mwl {
                    end - i
                } else {
                    mwl
                };
                let mut w: usize = 1;
                while w <= wmax
                    invariant
                        start <= i < end < usize::MAX,
                        1 <= w,
                        wmax <= end - i,
                        wmax <= mwl <= 255,
                        end <= segments@.len(),
                        beams@.len() == end + 1,
                    decreases wmax + 1 - w,
                {
                    let j = i + w;
                    let words = self.dict.lookup_span(segments, i, j, psl);
                    if words.len() > 0 {
                        let len_bonus: i64 = (w as i64) * 1000;
                        let mut extensions = extend_paths(&row, &words, len_bonus);
                        beams[j].append(&mut extensions);
                    }
                    w = w + 1;
                }
            }
            i = i + 1;
        }

        let mut finals: Vec<Path> = Vec::new();
        core::mem::swap(&mut finals, &mut beams[end]);
        let mut finals = sort_paths_final(finals);
        finals.truncate(limit);
        let mut r: Vec<Candidate> = Vec::new();
        let mut fi: usize = 0;
        while fi < finals.len()
            invariant
                fi <= finals@.len(),
                finals@.len() <= limit,
                paths_sorted(finals@),
                r@.len() == fi,
                forall|k: int|
                    0 <= k < r@.len() ==> (#[trigger] r@[k].segment_start == start
                        && r@[k].segment_end == end),
                forall|k: int|
                    0 <= k < r@.len() ==> ((#[trigger] r@[k].comment) matches Some(tag) && tag@
                        == "compose"@),
                forall|k: int|
                    0 <= k < r@.len() ==> #[trigger] r@[k].weight == clamp_weight(
                        finals@[k].score,
                    ),
                forall|k: int| 0 <= k < r@.len() ==> (#[trigger] r@[k]).text@ == finals@[k].text@,
            decreases finals@.len() - fi,
        {
            let score = finals[fi].score;
            let weight: i32 = if score > (i32::MAX as i64) {
                i32::MAX
            } else if score < (i32::MIN as i64) {
                i32::MIN
            } else {
                score as i32
            };
            let text = finals[fi].text.clone();
            r.push(
                Candidate {
                    text,
                    comment: Some(compose_tag()),
                    weight,
                    segment_start: start,
                    segment_end: end,
                },
            );
            proof {
                assert(finals@[fi as int].score == score);
            }
            fi = fi + 1;
        }
        proof {
            assert forall|i0: int, j0: int|
                0 <= i0 < j0 < r@.len() implies #[trigger] r@[i0].weight >= #[trigger] r@[j0].weight by {
                assert(path_le(finals@[i0], finals@[j0]));
            }
            assert forall|i0: int, j0: int|
                0 <= i0 < j0 < r@.len() && #[trigger] r@[i0].weight == #[trigger] r@[j0].weight
                    && i32::MIN < r@[i0].weight < i32::MAX implies lex_le(
                r@[i0].text@,
                r@[j0].text@,
            ) by {
                assert(path_le(finals@[i0], finals@[j0]));
                assert(finals@[i0].score == r@[i0].weight as int);
                assert(finals@[j0].score == r@[j0].weight as int);
            }
            let ss = Seq::new(r@.len(), |k: int| finals@[k].score as int);
            assert(scores_rank(r@, ss)) by {
                assert forall|i0: int, j0: int|
                    0 <= i0 < j0 < r@.len() implies #[trigger] ss[i0] > #[trigger] ss[j0] || (
                ss[i0] == ss[j0] && lex_le(r@[i0].text@, r@[j0].text@)) by {
                    assert(path_le(finals@[i0], finals@[j0]));
                }
            }
        }
        r
    }
}

/// The candidates carry exactly these underlying path scores, ranked
/// score descending with ties broken by text ascending; each weight is
/// its score clamped to `i32`. Stating the order over the scores also
/// covers candidates whose weight hit the clamp.
pub open spec fn scores_rank(r: Seq<Candidate>, ss: Seq<int>) -> bool {
    &&& ss.len() == r.len()
    &&& (forall|k: int| 0 <= k < r.len() ==> (#[trigger] r[k]).weight == clamp_weight_int(ss[k]))
    &&& (forall|i: int, j: int|
        0 <= i < j < r.len() ==> #[trigger] ss[i] > #[trigger] ss[j] || (ss[i] == ss[j] && lex_le(
            r[i].text@,
            r[j].text@,
        )))
}

/// Weight of a composed candidate: its path score, clamped to `i32`.
pub open spec fn clamp_weight_int(score: int) -> i32 {
    if score > i32::MAX {
        i32::MAX
    } else if score < i32::MIN {
        i32::MIN
    } else {
        score as i32
    }
}

/// Weight of a composed candidate: its path score, clamped to `i32`.
spec fn clamp_weight(score: i64) -> i32 {
    if score > i32::MAX {
        i32::MAX
    } else if score < i32::MIN {
        i32::MIN
    } else {
        score as i32
    }
}

/// The provenance note on composed candidates.
fn compose_tag() -> (r: String)
    ensures
        r@ == "compose"@,
{
    let t: &str = "compose";
    t.to_owned()
}

impl<'a, D: Dictionary> Translator for DictTranslator<'a, D> {
    fn translate(&self, segments: &Vec<String>, start: usize, end: usize, limit: usize) -> Vec<
        Candidate,
    > {
        self.translate_with_composition(segments, start, end, limit)
    }
}

} // verus!
