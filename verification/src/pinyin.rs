//! Full-pinyin segmentation: a dynamic program parses a chunk of lower
//! case letters into syllables from a closed vocabulary, with an initials
//! fallback for short unparseable input.

use vstd::prelude::*;
use crate::engine::{Analysis, Analyzer};
use crate::strutil::{
    concat_seqs, is_lower_char, join_spaces, lemma_concat_append, lemma_concat_prepend,
    lemma_concat_push, lemma_split_concat, remove_sep, split_seq, to_lower_seq,
};

verus! {

/// Every token is drawn from the vocabulary.
pub open spec fn all_in_vocab(toks: Seq<Seq<char>>, vocab: Seq<Seq<char>>) -> bool {
    forall|k: int| 0 <= k < toks.len() ==> vocab.contains(#[trigger] toks[k])
}

/// The string can be written as a concatenation of vocabulary entries.
pub open spec fn decomposable(s: Seq<char>, vocab: Seq<Seq<char>>) -> bool {
    exists|toks: Seq<Seq<char>>| all_in_vocab(toks, vocab) && concat_seqs(toks) == s
}

/// A well-formed vocabulary entry: non-empty, lower-case letters only.
pub open spec fn vocab_entry_wf(t: Seq<char>) -> bool {
    t.len() > 0 && (forall|k: int| 0 <= k < t.len() ==> is_lower_char(#[trigger] t[k]))
}

/// The empty string decomposes (as the empty concatenation).
pub proof fn lemma_decomp_empty(vocab: Seq<Seq<char>>)
    ensures
        decomposable(Seq::<char>::empty(), vocab),
{
    let toks = Seq::<Seq<char>>::empty();
    assert(concat_seqs(toks) =~= Seq::<char>::empty());
    assert(all_in_vocab(toks, vocab));
}

/// A non-empty decomposable string splits into a decomposable prefix and
/// a final vocabulary entry.
pub proof fn lemma_decomp_last(s: Seq<char>, vocab: Seq<Seq<char>>) -> (k: int)
    requires
        decomposable(s, vocab),
        s.len() > 0,
        forall|t: int| 0 <= t < vocab.len() ==> vocab_entry_wf(#[trigger] vocab[t]),
    ensures
        0 <= k < s.len(),
        decomposable(s.take(k), vocab),
        vocab.contains(s.subrange(k, s.len() as int)),
{
    let toks = choose|toks: Seq<Seq<char>>|
        all_in_vocab(toks, vocab) && concat_seqs(toks) == s;
    if toks.len() == 0 {
        assert(concat_seqs(toks) =~= Seq::<char>::empty());
        assert(false);
    }
    let last = toks.last();
    let init = toks.drop_last();
    assert(concat_seqs(toks) == concat_seqs(init) + last);
    assert(vocab.contains(last));
    let ti = choose|ti: int| 0 <= ti < vocab.len() && vocab[ti] == last;
    assert(last.len() > 0);
    let k = s.len() - last.len();
    assert(concat_seqs(init).len() == k);
    assert(s.take(k as int) =~= concat_seqs(init));
    assert(all_in_vocab(init, vocab)) by {
        assert(forall|j: int| 0 <= j < init.len() ==> init[j] == #[trigger] toks[j]);
    }
    assert(decomposable(s.take(k as int), vocab));
    assert(s.subrange(k as int, s.len() as int) =~= last);
    k as int
}

/// Every character of a concatenation of well-formed vocabulary entries
/// is a lower-case letter; a string with any other character cannot
/// decompose.
pub proof fn lemma_not_lower_not_decomposable(s: Seq<char>, vocab: Seq<Seq<char>>, bad: int)
    requires
        forall|t: int| 0 <= t < vocab.len() ==> vocab_entry_wf(#[trigger] vocab[t]),
        0 <= bad < s.len(),
        !is_lower_char(s[bad]),
    ensures
        !decomposable(s, vocab),
    decreases s.len(),
{
    if decomposable(s, vocab) {
        let k = lemma_decomp_last(s, vocab);
        let tail = s.subrange(k, s.len() as int);
        if bad >= k {
            let ti = choose|ti: int| 0 <= ti < vocab.len() && vocab[ti] == tail;
            assert(is_lower_char(tail[bad - k]));
        } else {
            lemma_not_lower_not_decomposable(s.take(k), vocab, bad);
        }
    }
}

/// The greatest frequency any entry gives this spelling; far below any
/// real frequency when no entry matches.
pub open spec fn max_freq(es: Seq<(Seq<char>, i32)>, tok: Seq<char>) -> int
    decreases es.len(),
{
    if es.len() == 0 {
        i32::MIN - 1
    } else if es.last().0 == tok && es.last().1 >= max_freq(es.drop_last(), tok) {
        es.last().1 as int
    } else {
        max_freq(es.drop_last(), tok)
    }
}

/// `max_freq` bounds every matching entry and is attained by one.
pub proof fn lemma_max_freq(es: Seq<(Seq<char>, i32)>, tok: Seq<char>)
    ensures
        forall|t: int| 0 <= t < es.len() && (#[trigger] es[t]).0 == tok ==> es[t].1 <= max_freq(
            es,
            tok,
        ),
        (exists|t: int| 0 <= t < es.len() && (#[trigger] es[t]).0 == tok) ==> exists|t: int|
            0 <= t < es.len() && (#[trigger] es[t]).0 == tok && es[t].1 == max_freq(es, tok),
    decreases es.len(),
{
    if es.len() > 0 {
        lemma_max_freq(es.drop_last(), tok);
        assert(forall|t: int|
            0 <= t < es.len() - 1 ==> (#[trigger] es[t]) == es.drop_last()[t]);
        if exists|t: int| 0 <= t < es.len() && (#[trigger] es[t]).0 == tok {
            let t0 = choose|t: int| 0 <= t < es.len() && (#[trigger] es[t]).0 == tok;
            if es.last().0 == tok && es.last().1 >= max_freq(es.drop_last(), tok) {
                assert(es[es.len() - 1].0 == tok && es[es.len() - 1].1 == max_freq(es, tok));
            } else if es.last().0 == tok {
                assert(exists|t: int|
                    0 <= t < es.drop_last().len() && (#[trigger] es.drop_last()[t]).0 == tok) by {
                    assert(es.last().1 < max_freq(es.drop_last(), tok));
                    if forall|t: int|
                        0 <= t < es.drop_last().len() ==> (#[trigger] es.drop_last()[t]).0 != tok {
                        lemma_max_freq_absent(es.drop_last(), tok);
                    }
                }
                let t1 = choose|t: int|
                    0 <= t < es.drop_last().len() && (#[trigger] es.drop_last()[t]).0 == tok
                        && es.drop_last()[t].1 == max_freq(es.drop_last(), tok);
                assert(es[t1].0 == tok && es[t1].1 == max_freq(es, tok));
            } else {
                assert(t0 < es.len() - 1);
                assert(es.drop_last()[t0].0 == tok);
                let t1 = choose|t: int|
                    0 <= t < es.drop_last().len() && (#[trigger] es.drop_last()[t]).0 == tok
                        && es.drop_last()[t].1 == max_freq(es.drop_last(), tok);
                assert(es[t1].0 == tok && es[t1].1 == max_freq(es, tok));
            }
        }
    }
}

/// When no entry matches, the greatest frequency is the sentinel below
/// every representable one.
proof fn lemma_max_freq_absent(es: Seq<(Seq<char>, i32)>, tok: Seq<char>)
    requires
        forall|t: int| 0 <= t < es.len() ==> (#[trigger] es[t]).0 != tok,
    ensures
        max_freq(es, tok) == i32::MIN - 1,
    decreases es.len(),
{
    if es.len() > 0 {
        assert(forall|t: int|
            0 <= t < es.len() - 1 ==> (#[trigger] es.drop_last()[t]) == es[t]);
        lemma_max_freq_absent(es.drop_last(), tok);
    }
}

/// What one token contributes to a parse: its structural length bonus
/// plus the best frequency the vocabulary gives it.
pub open spec fn token_score(es: Seq<(Seq<char>, i32)>, tok: Seq<char>) -> int {
    tok.len() * 10000 + max_freq(es, tok)
}

/// The score of a parse: the sum of its tokens' scores. The dynamic
/// program maximises this over all decompositions.
pub open spec fn decomp_score(es: Seq<(Seq<char>, i32)>, toks: Seq<Seq<char>>) -> int
    decreases toks.len(),
{
    if toks.len() == 0 {
        0
    } else {
        decomp_score(es, toks.drop_last()) + token_score(es, toks.last())
    }
}

/// Prepending a token adds its score.
pub proof fn lemma_decomp_score_prepend(
    es: Seq<(Seq<char>, i32)>,
    t: Seq<char>,
    ts: Seq<Seq<char>>,
)
    ensures
        decomp_score(es, seq![t] + ts) == token_score(es, t) + decomp_score(es, ts),
    decreases ts.len(),
{
    if ts.len() == 0 {
        assert(seq![t] + ts =~= seq![t]);
        assert(seq![t].drop_last() =~= Seq::<Seq<char>>::empty());
        assert(decomp_score(es, seq![t]) == decomp_score(es, seq![t].drop_last()) + token_score(
            es,
            seq![t].last(),
        ));
    } else {
        lemma_decomp_score_prepend(es, t, ts.drop_last());
        assert((seq![t] + ts).drop_last() =~= seq![t] + ts.drop_last());
        assert((seq![t] + ts).last() == ts.last());
    }
}

/// Over a well-formed vocabulary, only the empty token list has an
/// empty concatenation.
pub proof fn lemma_empty_concat_empty_toks(toks: Seq<Seq<char>>, vocab: Seq<Seq<char>>)
    requires
        all_in_vocab(toks, vocab),
        forall|t: int| 0 <= t < vocab.len() ==> vocab_entry_wf(#[trigger] vocab[t]),
        concat_seqs(toks).len() == 0,
    ensures
        toks.len() == 0,
{
    if toks.len() > 0 {
        assert(vocab.contains(toks.last()));
        let t = choose|t: int| 0 <= t < vocab.len() && vocab[t] == toks.last();
        assert(concat_seqs(toks) == concat_seqs(toks.drop_last()) + toks.last());
    }
}

/// Sources of recorded edges stay at or before the frontier.
spec fn dp_sources_upto(prev: Seq<Option<(usize, usize)>>, i: int) -> bool {
    forall|j: int|
        0 <= j < prev.len() ==> match #[trigger] prev[j] {
            Some(pr) => pr.0 <= i,
            None => true,
        }
}

/// Every vocabulary entry is well formed.
pub open spec fn vocab_wf(vocab: Seq<Seq<char>>) -> bool {
    forall|t: int| 0 <= t < vocab.len() ==> vocab_entry_wf(#[trigger] vocab[t])
}

/// The full-pinyin segmenter: a closed syllable vocabulary and the
/// dynamic program that parses a letter chunk against it.
pub struct QuanpinPreeditor {
    syllables: Vec<(String, i32)>,
}

/// Decides whether every character of the string is a lower-case letter.
fn is_lower_str(s: &str) -> (r: bool)
    ensures
        r == (forall|k: int| 0 <= k < s@.len() ==> is_lower_char(#[trigger] s@[k])),
{
    let n = s.unicode_len();
    let mut i: usize = 0;
    while i < n
        invariant
            n == s@.len(),
            i <= n,
            forall|k: int| 0 <= k < i ==> is_lower_char(#[trigger] s@[k]),
        decreases n - i,
    {
        let c = s.get_char(i);
        if !('a' <= c && c <= 'z') {
            return false;
        }
        i = i + 1;
    }
    true
}

/// Decides whether `syl` occurs in `chunk` at character position `i`.
fn match_at(chunk: &str, i: usize, syl: &str) -> (r: bool)
    requires
        i <= chunk@.len(),
    ensures
        r == (i + syl@.len() <= chunk@.len() && chunk@.subrange(i as int, i + syl@.len())
            == syl@),
{
    let n = chunk.unicode_len();
    let m = syl.unicode_len();
    if m > n - i {
        return false;
    }
    let mut k: usize = 0;
    while k < m
        invariant
            n == chunk@.len(),
            m == syl@.len(),
            i + m <= n,
            k <= m,
            forall|q: int| 0 <= q < k ==> chunk@[i + q] == #[trigger] syl@[q],
        decreases m - k,
    {
        let ca = chunk.get_char(i + k);
        let cb = syl.get_char(k);
        if !((ca as u32) == (cb as u32)) {
            proof {
                assert(chunk@[i + k] != syl@[k as int]);
                assert(chunk@.subrange(i as int, i + syl@.len())[k as int] == chunk@[i + k]);
            }
            return false;
        }
        k = k + 1;
    }
    proof {
        assert(chunk@.subrange(i as int, i + syl@.len()) =~= syl@);
    }
    true
}

/// Soundness of the backtracking tables: a recorded predecessor entry
/// names a shorter position, a vocabulary entry that matches between the
/// two positions, and a predecessor that is itself reachable.
spec fn dp_prev_wf(
    prev: Seq<Option<(usize, usize)>>,
    best: Seq<Option<i64>>,
    chunk: Seq<char>,
    vocab: Seq<Seq<char>>,
) -> bool {
    &&& prev.len() == chunk.len() + 1
    &&& best.len() == chunk.len() + 1
    &&& best[0] is Some
    &&& forall|j: int|
        0 <= j < prev.len() ==> match #[trigger] prev[j] {
            Some(pr) => {
                &&& (pr.0 as int) < j
                &&& (pr.1 as int) < vocab.len()
                &&& vocab[pr.1 as int] == chunk.subrange(pr.0 as int, j)
                &&& best[pr.0 as int] is Some
                &&& (pr.0 == 0 || prev[pr.0 as int] is Some)
            },
            None => true,
        }
    &&& forall|j: int| 1 <= j < best.len() && #[trigger] best[j] is Some ==> prev[j] is Some
}

/// Completeness of the table up to position `i`: every decomposable
/// prefix ending at or before `i` has been reached.
spec fn dp_complete_upto(
    best: Seq<Option<i64>>,
    chunk: Seq<char>,
    vocab: Seq<Seq<char>>,
    i: int,
) -> bool {
    forall|j: int|
        0 <= j <= i && decomposable(chunk.take(j), vocab) ==> #[trigger] best[j] is Some
}

/// Exact score bookkeeping along recorded chains: a position entered
/// through an edge scores its predecessor plus that edge.
spec fn dp_chain_exact(
    prev: Seq<Option<(usize, usize)>>,
    best: Seq<Option<i64>>,
    es: Seq<(Seq<char>, i32)>,
) -> bool {
    forall|j: int|
        0 <= j < prev.len() ==> match #[trigger] prev[j] {
            Some(pr) => best[j] is Some && best[pr.0 as int] is Some && best[j]->Some_0
                == best[pr.0 as int]->Some_0 + (j - pr.0) * 10000 + es[pr.1 as int].1 as int,
            None => true,
        }
}

/// Table values stay far inside `i64`, so the saturating additions are
/// exact additions.
spec fn dp_vals_bounded(best: Seq<Option<i64>>) -> bool {
    forall|j: int|
        0 <= j < best.len() ==> match #[trigger] best[j] {
            Some(v) => -(j * 0x1_0000_0000) <= v as int <= j * 0x1_0000_0000,
            None => true,
        }
}

/// Every taken edge also left its score behind: the target is at least
/// the source plus the edge weight.
spec fn dp_edges_scored_upto(
    best: Seq<Option<i64>>,
    chunk: Seq<char>,
    vocab: Seq<Seq<char>>,
    es: Seq<(Seq<char>, i32)>,
    i: int,
) -> bool {
    forall|k: int, t: int|
        0 <= k < i && 0 <= t < vocab.len() && best[k] is Some && k + vocab[t].len() <= chunk.len()
            && #[trigger] chunk.subrange(k, k + vocab[t].len()) == vocab[t] ==> best[k
            + vocab[t].len()] is Some && best[k + vocab[t].len()]->Some_0 >= best[k]->Some_0
            + vocab[t].len() * 10000 + es[t].1 as int
}

/// Optimality up to position `i`: no decomposition of a prefix there
/// scores more than the table value.
spec fn dp_optimal_upto(
    best: Seq<Option<i64>>,
    chunk: Seq<char>,
    vocab: Seq<Seq<char>>,
    es: Seq<(Seq<char>, i32)>,
    i: int,
) -> bool {
    forall|j: int, toks: Seq<Seq<char>>|
        #![trigger chunk.take(j), all_in_vocab(toks, vocab)]
        0 <= j <= i && all_in_vocab(toks, vocab) && concat_seqs(toks) == chunk.take(j) ==> best[j]
            is Some && decomp_score(es, toks) <= best[j]->Some_0
}

/// Every edge out of a reached position before `i` has been taken.
spec fn dp_edges_upto(
    best: Seq<Option<i64>>,
    chunk: Seq<char>,
    vocab: Seq<Seq<char>>,
    i: int,
) -> bool {
    forall|k: int, t: int|
        0 <= k < i && 0 <= t < vocab.len() && best[k] is Some && k + vocab[t].len() <= chunk.len()
            && #[trigger] chunk.subrange(k, k + vocab[t].len()) == vocab[t] ==> best[k
            + vocab[t].len()] is Some
}

/// One step of the optimality induction: if no decomposition beats the
/// table up to `i`, and every edge into `i + 1` is recorded with its
/// score, then no decomposition of the longer prefix beats the table
/// either.
proof fn lemma_optimal_step(
    best: Seq<Option<i64>>,
    chunk: Seq<char>,
    vocab: Seq<Seq<char>>,
    es: Seq<(Seq<char>, i32)>,
    i: int,
)
    requires
        0 <= i,
        i + 1 <= chunk.len(),
        vocab_wf(vocab),
        es.len() == vocab.len(),
        forall|k: int| 0 <= k < vocab.len() ==> (#[trigger] es[k]).0 == vocab[k],
        dp_optimal_upto(best, chunk, vocab, es, i),
        dp_edges_scored_upto(best, chunk, vocab, es, i + 1),
    ensures
        dp_optimal_upto(best, chunk, vocab, es, i + 1),
{
    assert forall|j: int, toks: Seq<Seq<char>>|
        #![trigger chunk.take(j), all_in_vocab(toks, vocab)]
        0 <= j <= i + 1 && all_in_vocab(toks, vocab) && concat_seqs(toks) == chunk.take(
            j,
        ) implies best[j] is Some && decomp_score(es, toks) <= best[j]->Some_0 by {
        if j == i + 1 {
            if toks.len() == 0 {
                assert(concat_seqs(toks).len() == 0);
            }
            let last = toks.last();
            let init = toks.drop_last();
            assert(concat_seqs(toks) == concat_seqs(init) + last);
            assert(vocab.contains(last));
            let lt = choose|lt: int| 0 <= lt < vocab.len() && vocab[lt] == last;
            assert(vocab_entry_wf(vocab[lt]));
            let k = j - last.len();
            assert(concat_seqs(init).len() == k);
            assert(chunk.take(k) =~= concat_seqs(init));
            assert(all_in_vocab(init, vocab)) by {
                assert(forall|q: int| 0 <= q < init.len() ==> init[q] == #[trigger] toks[q]);
            }
            assert(best[k] is Some && decomp_score(es, init) <= best[k]->Some_0);
            assert(chunk.subrange(k, j) =~= last) by {
                assert forall|q: int| 0 <= q < last.len() implies chunk.subrange(k, j)[q]
                    == last[q] by {
                    assert(chunk.take(j)[k + q] == (concat_seqs(init) + last)[k + q]);
                }
            }
            lemma_max_freq(es, last);
            assert(es[lt].0 == last && es[lt].1 <= max_freq(es, last));
            let tm = choose|tm: int|
                0 <= tm < es.len() && (#[trigger] es[tm]).0 == last && es[tm].1 == max_freq(
                    es,
                    last,
                );
            assert(vocab[tm] == last);
            assert(chunk.subrange(k, k + vocab[tm].len()) == vocab[tm]);
            assert(best[j] is Some && best[j]->Some_0 >= best[k]->Some_0 + last.len() * 10000
                + es[tm].1 as int);
            assert(decomp_score(es, toks) == decomp_score(es, init) + token_score(es, last));
        }
    }
}

impl QuanpinPreeditor {
    /// The spelling vocabulary, as character sequences.
    pub closed spec fn vocab(&self) -> Seq<Seq<char>> {
        Seq::new(self.syllables@.len(), |k: int| self.syllables@[k].0@)
    }

    /// The vocabulary entries with their frequencies, for the score the
    /// parser maximises.
    pub closed spec fn entries(&self) -> Seq<(Seq<char>, i32)> {
        Seq::new(self.syllables@.len(), |k: int| (self.syllables@[k].0@, self.syllables@[k].1))
    }

    /// Every spelling is a non-empty lower-case letter string.
    #[verifier::type_invariant]
    pub open spec fn wf(self) -> bool {
        vocab_wf(self.vocab())
    }

    /// Parses one break-free chunk into syllables. Succeeds exactly when
    /// the chunk is a concatenation of vocabulary spellings, and then
    /// returns tokens from the vocabulary whose concatenation is the
    /// chunk. Among the valid parses, the dynamic program prefers longer
    /// syllables and higher frequencies.
    #[verifier::rlimit(100)]
    pub fn segment_chunk(&self, chunk: &str) -> (r: Option<Vec<String>>)
        ensures
            r is Some <==> decomposable(chunk@, self.vocab()),
            match r {
                Some(toks) => all_in_vocab(toks.deep_view(), self.vocab()) && concat_seqs(
                    toks.deep_view(),
                ) == chunk@,
                None => true,
            },
            chunk@.len() <= 100000 ==> match r {
                Some(toks) => forall|alt: Seq<Seq<char>>|
                    all_in_vocab(alt, self.vocab()) && concat_seqs(alt) == chunk@
                        ==> decomp_score(self.entries(), alt) <= decomp_score(
                        self.entries(),
                        toks.deep_view(),
                    ),
                None => true,
            },
    {
        proof {
            use_type_invariant(&*self);
        }
        let ghost vocab = self.vocab();
        let ghost es = self.entries();
        let n = chunk.unicode_len();
        let ghost small = n <= 100000;
        if n == 0 {
            proof {
                lemma_decomp_empty(vocab);
                assert(concat_seqs(Seq::<Seq<char>>::empty()) =~= chunk@);
            }
            let toks: Vec<String> = Vec::new();
            proof {
                assert(toks.deep_view() =~= Seq::<Seq<char>>::empty());
                assert forall|alt: Seq<Seq<char>>|
                    all_in_vocab(alt, vocab) && concat_seqs(alt) == chunk@ implies decomp_score(
                    es,
                    alt,
                ) <= decomp_score(es, toks.deep_view()) by {
                    lemma_empty_concat_empty_toks(alt, vocab);
                    assert(alt =~= toks.deep_view());
                }
            }
            return Some(toks);
        }
        if !is_lower_str(chunk) {
            proof {
                let bad = choose|k: int| 0 <= k < chunk@.len() && !is_lower_char(chunk@[k]);
                lemma_not_lower_not_decomposable(chunk@, vocab, bad);
            }
            return None;
        }
        let mut best: Vec<Option<i64>> = Vec::new();
        let mut prev: Vec<Option<(usize, usize)>> = Vec::new();
        best.push(Some(0i64));
        prev.push(None);
        let mut z: usize = 0;
        while z < n
            invariant
                z <= n,
                best@.len() == z + 1,
                prev@.len() == z + 1,
                best@[0] == Some(0i64),
                forall|j: int| 1 <= j < best@.len() ==> #[trigger] best@[j] is None,
                forall|j: int| 0 <= j < prev@.len() ==> #[trigger] prev@[j] is None,
            decreases n - z,
        {
            best.push(None);
            prev.push(None);
            z = z + 1;
        }
        proof {
            if small {
                assert forall|j: int, toks: Seq<Seq<char>>|
                    #![trigger chunk@.take(j), all_in_vocab(toks, vocab)]
                    0 <= j <= 0 && all_in_vocab(toks, vocab) && concat_seqs(toks) == chunk@.take(
                        j,
                    ) implies best@[j] is Some && decomp_score(es, toks) <= best@[j]->Some_0 by {
                    lemma_empty_concat_empty_toks(toks, vocab);
                }
            }
        }
        let mut i: usize = 0;
        while i < n
            invariant
                i <= n,
                n == chunk@.len(),
                vocab == self.vocab(),
                es == self.entries(),
                small == (n <= 100000),
                vocab_wf(vocab),
                best@[0] == Some(0i64),
                dp_prev_wf(prev@, best@, chunk@, vocab),
                dp_sources_upto(prev@, i as int),
                dp_complete_upto(best@, chunk@, vocab, i as int),
                dp_edges_upto(best@, chunk@, vocab, i as int),
                small ==> dp_vals_bounded(best@),
                small ==> dp_chain_exact(prev@, best@, es),
                small ==> dp_edges_scored_upto(best@, chunk@, vocab, es, i as int),
                small ==> dp_optimal_upto(best@, chunk@, vocab, es, i as int),
            decreases n - i,
        {
            let reachable = match best[i] {
                Some(_) => true,
                None => false,
            };
            if reachable {
                let ghost best0 = best@;
                let ghost prev0 = prev@;
                let mut t: usize = 0;
                while t < self.syllables.len()
                    invariant
                        i < n,
                        n == chunk@.len(),
                        t <= self.syllables@.len(),
                        vocab == self.vocab(),
                        es == self.entries(),
                        small == (n <= 100000),
                        vocab_wf(vocab),
                        vocab.len() == self.syllables@.len(),
                        best@[0] == Some(0i64),
                        best@[i as int] is Some,
                        dp_prev_wf(prev@, best@, chunk@, vocab),
                        dp_sources_upto(prev@, i as int),
                        forall|j: int| 0 <= j <= i ==> #[trigger] best@[j] == best0[j],
                        forall|j: int|
                            0 <= j < best@.len() && best0[j] is Some ==> #[trigger] best@[j]
                                is Some,
                        best@.len() == best0.len(),
                        dp_complete_upto(best@, chunk@, vocab, i as int),
                        dp_edges_upto(best@, chunk@, vocab, i as int),
                        forall|u: int|
                            0 <= u < t && i + vocab[u].len() <= n && chunk@.subrange(
                                i as int,
                                i + vocab[u].len(),
                            ) == #[trigger] vocab[u] ==> best@[i + vocab[u].len()] is Some,
                        small ==> dp_vals_bounded(best@),
                        small ==> dp_chain_exact(prev@, best@, es),
                        small ==> dp_edges_scored_upto(best@, chunk@, vocab, es, i as int),
                        small ==> dp_optimal_upto(best@, chunk@, vocab, es, i as int),
                        small ==> forall|j: int|
                            0 <= j < best@.len() && best0[j] is Some ==> #[trigger] best@[j]
                                is Some && best@[j]->Some_0 >= best0[j]->Some_0,
                        small ==> forall|u: int|
                            0 <= u < t && i + vocab[u].len() <= n && chunk@.subrange(
                                i as int,
                                i + vocab[u].len(),
                            ) == #[trigger] vocab[u] ==> best@[i + vocab[u].len()] is Some
                                && best@[i + vocab[u].len()]->Some_0 >= best@[i as int]->Some_0
                                + vocab[u].len() * 10000 + es[u].1 as int,
                    decreases self.syllables@.len() - t,
                {
                    let syl_len = self.syllables[t].0.unicode_len();
                    if match_at(chunk, i, self.syllables[t].0.as_str()) {
                        proof {
                            assert(vocab[t as int] == self.syllables@[t as int].0@);
                            assert(vocab[t as int].len() > 0);
                        }
                        let j = i + syl_len;
                        let li: i64 = if syl_len >= 100000 {
                            100000
                        } else {
                            syl_len as i64
                        };
                        let bonus: i64 = li * 10000;
                        let freq = self.syllables[t].1;
                        let base = match best[i] {
                            Some(b) => b,
                            None => 0,
                        };
                        let score = crate::strutil::sat_add_i64(
                            crate::strutil::sat_add_i64(base, bonus),
                            freq as i64,
                        );
                        proof {
                            if small {
                                assert(syl_len == vocab[t as int].len());
                                assert(li == syl_len as i64);
                                assert(es[t as int].1 == freq);
                                let base_i = best@[i as int]->Some_0 as int;
                                assert(base == best@[i as int]->Some_0);
                                assert(-(n as int * 0x1_0000_0000) <= base_i <= n as int
                                    * 0x1_0000_0000);
                                assert(score as int == base_i + syl_len * 10000 + freq as int) by {
                                    assert(crate::strutil::sat_add_i64_spec(base, bonus) == base
                                        + bonus);
                                }
                            }
                        }
                        let better = match best[j] {
                            None => true,
                            Some(old_score) => score > old_score,
                        };
                        if better {
                            let ghost bpre = best@;
                            let ghost ppre = prev@;
                            best[j] = Some(score);
                            prev[j] = Some((i, t));
                            proof {
                                assert(best@ == bpre.update(j as int, Some(score)));
                                assert(prev@ == ppre.update(j as int, Some((i, t))));
                            }
                        }
                    }
                    t = t + 1;
                }
            }
            proof {
                assert(dp_complete_upto(best@, chunk@, vocab, i + 1)) by {
                    if decomposable(chunk@.take(i + 1), vocab) {
                        let k = lemma_decomp_last(chunk@.take(i + 1), vocab);
                        assert(chunk@.take(i + 1).take(k) =~= chunk@.take(k));
                        assert(chunk@.take(i + 1).subrange(k, i + 1) =~= chunk@.subrange(
                            k,
                            i + 1,
                        ));
                        let tail = chunk@.subrange(k, i + 1);
                        let ti = choose|ti: int| 0 <= ti < vocab.len() && vocab[ti] == tail;
                        assert(k + vocab[ti].len() == i + 1);
                        assert(best@[k] is Some);
                        assert(best@[i + 1] is Some);
                    }
                }
                if small {
                    assert(dp_edges_scored_upto(best@, chunk@, vocab, es, i + 1)) by {
                        assert forall|k: int, t: int|
                            0 <= k < i + 1 && 0 <= t < vocab.len() && best@[k] is Some && k
                                + vocab[t].len() <= chunk@.len() && #[trigger] chunk@.subrange(
                                k,
                                k + vocab[t].len(),
                            ) == vocab[t] implies best@[k + vocab[t].len()] is Some && best@[k
                            + vocab[t].len()]->Some_0 >= best@[k]->Some_0 + vocab[t].len() * 10000
                            + es[t].1 as int by {}
                    }
                    assert(forall|k: int|
                        0 <= k < vocab.len() ==> (#[trigger] es[k]).0 == vocab[k]);
                    lemma_optimal_step(best@, chunk@, vocab, es, i as int);
                }
            }
            i = i + 1;
        }
        let found = match best[n] {
            Some(_) => true,
            None => false,
        };
        if !found {
            proof {
                if decomposable(chunk@, vocab) {
                    assert(chunk@.take(n as int) =~= chunk@);
                    assert(best@[n as int] is Some);
                }
            }
            return None;
        }
        let mut toks: Vec<String> = Vec::new();
        let mut cur: usize = n;
        proof {
            assert(toks.deep_view() =~= Seq::<Seq<char>>::empty());
            assert(concat_seqs(toks.deep_view()) =~= chunk@.subrange(n as int, n as int));
        }
        while cur > 0
            invariant
                cur <= n,
                n == chunk@.len(),
                vocab == self.vocab(),
                es == self.entries(),
                small == (n <= 100000),
                vocab_wf(vocab),
                best@[0] == Some(0i64),
                best@[n as int] is Some,
                dp_prev_wf(prev@, best@, chunk@, vocab),
                small ==> dp_chain_exact(prev@, best@, es),
                small ==> dp_optimal_upto(best@, chunk@, vocab, es, n as int),
                cur == 0 || best@[cur as int] is Some,
                concat_seqs(toks.deep_view()) == chunk@.subrange(cur as int, n as int),
                all_in_vocab(toks.deep_view(), vocab),
                small ==> best@[n as int]->Some_0 <= best@[cur as int]->Some_0 + decomp_score(
                    es,
                    toks.deep_view(),
                ),
            decreases cur,
        {
            let step = prev[cur];
            match step {
                Some(pr) => {
                    let (pi, ti) = pr;
                    let tok = self.syllables[ti].0.clone();
                    let ghost pre = toks.deep_view();
                    toks.insert(0, tok);
                    proof {
                        assert(tok@ == vocab[ti as int]);
                        assert(toks.deep_view() =~= seq![tok@] + pre);
                        lemma_concat_prepend(tok@, pre);
                        assert(chunk@.subrange(pi as int, n as int) =~= chunk@.subrange(
                            pi as int,
                            cur as int,
                        ) + chunk@.subrange(cur as int, n as int));
                        assert(vocab.contains(tok@));
                        if small {
                            assert(tok@.len() == cur - pi);
                            assert(es[ti as int].0 == tok@);
                            lemma_max_freq(es, tok@);
                            assert(es[ti as int].1 <= max_freq(es, tok@));
                            assert(best@[cur as int]->Some_0 == best@[pi as int]->Some_0 + (
                            cur - pi) * 10000 + es[ti as int].1 as int);
                            assert(best@[cur as int]->Some_0 <= best@[pi as int]->Some_0
                                + token_score(es, tok@));
                            lemma_decomp_score_prepend(es, tok@, pre);
                            assert(decomp_score(es, toks.deep_view()) == token_score(es, tok@)
                                + decomp_score(es, pre));
                        }
                    }
                    cur = pi;
                },
                None => {
                    proof {
                        assert(false);
                    }
                    return None;
                },
            }
        }
        proof {
            assert(chunk@.subrange(0, n as int) =~= chunk@);
            assert(decomposable(chunk@, vocab)) by {
                assert(all_in_vocab(toks.deep_view(), vocab) && concat_seqs(toks.deep_view())
                    == chunk@);
            }
            if small {
                assert(best@[n as int]->Some_0 <= decomp_score(es, toks.deep_view()));
                assert forall|alt: Seq<Seq<char>>|
                    all_in_vocab(alt, vocab) && concat_seqs(alt) == chunk@ implies decomp_score(
                    es,
                    alt,
                ) <= decomp_score(es, toks.deep_view()) by {
                    assert(chunk@.take(n as int) =~= chunk@);
                    assert(decomp_score(es, alt) <= best@[n as int]->Some_0);
                }
            }
        }
        Some(toks)
    }

    /// Splits the input on the break marker and parses each chunk.
    /// Succeeds exactly when every chunk is a concatenation of vocabulary
    /// spellings; the tokens then concatenate to the input without its
    /// break markers.
    pub fn segment(&self, input: &str) -> (r: Option<Vec<String>>)
        ensures
            r is Some <==> all_chunks_decomposable(input@, self.vocab()),
            match r {
                Some(toks) => all_in_vocab(toks.deep_view(), self.vocab()) && concat_seqs(
                    toks.deep_view(),
                ) == remove_sep(input@, '\''),
                None => true,
            },
    {
        let ghost vocab = self.vocab();
        let pieces = crate::strutil::split_on(input, '\'');
        let mut out: Vec<String> = Vec::new();
        let mut p: usize = 0;
        proof {
            assert(out.deep_view() =~= Seq::<Seq<char>>::empty());
            assert(concat_seqs(out.deep_view()) =~= concat_seqs(pieces.deep_view().take(0)));
        }
        while p < pieces.len()
            invariant
                p <= pieces@.len(),
                vocab == self.vocab(),
                pieces.deep_view() == split_seq(input@, '\''),
                pieces.deep_view().len() == pieces@.len(),
                all_in_vocab(out.deep_view(), vocab),
                concat_seqs(out.deep_view()) == concat_seqs(pieces.deep_view().take(p as int)),
                forall|q: int|
                    0 <= q < p ==> decomposable(#[trigger] pieces.deep_view()[q], vocab),
            decreases pieces@.len() - p,
        {
            match self.segment_chunk(pieces[p].as_str()) {
                Some(mut seg) => {
                    let ghost outpre = out.deep_view();
                    let ghost segv = seg.deep_view();
                    out.append(&mut seg);
                    proof {
                        assert(out.deep_view() =~= outpre + segv);
                        lemma_concat_append(outpre, segv);
                        lemma_concat_push(
                            pieces.deep_view().take(p as int),
                            pieces.deep_view()[p as int],
                        );
                        assert(pieces.deep_view().take(p + 1) =~= pieces.deep_view().take(
                            p as int,
                        ).push(pieces.deep_view()[p as int]));
                    }
                },
                None => {
                    proof {
                        assert(pieces.deep_view()[p as int] == pieces@[p as int]@);
                        assert(!decomposable(split_seq(input@, '\'')[p as int], vocab));
                    }
                    return None;
                },
            }
            p = p + 1;
        }
        proof {
            assert(pieces.deep_view().take(pieces@.len() as int) =~= pieces.deep_view());
            lemma_split_concat(input@, '\'');
        }
        Some(out)
    }
}

/// Every character is a lower-case letter or the break marker.
pub open spec fn letters_only(s: Seq<char>) -> bool {
    forall|k: int| 0 <= k < s.len() ==> is_lower_char(#[trigger] s[k]) || s[k] == '\''
}

/// One single-character token for every non-break character, in order:
/// the degraded "initials" segmentation.
pub open spec fn singles(s: Seq<char>) -> Seq<Seq<char>>
    decreases s.len(),
{
    if s.len() == 0 {
        Seq::empty()
    } else if s.last() == '\'' {
        singles(s.drop_last())
    } else {
        singles(s.drop_last()).push(seq![s.last()])
    }
}

/// On a string without break markers, the initials segmentation is one
/// singleton token per character.
pub proof fn lemma_singles_no_breaks(s: Seq<char>)
    requires
        forall|k: int| 0 <= k < s.len() ==> (#[trigger] s[k]) != '\'',
    ensures
        singles(s).len() == s.len(),
        forall|k: int| 0 <= k < s.len() ==> #[trigger] singles(s)[k] == seq![s[k]],
    decreases s.len(),
{
    if s.len() > 0 {
        lemma_singles_no_breaks(s.drop_last());
        assert(singles(s) =~= singles(s.drop_last()).push(seq![s.last()]));
    }
}

/// Every break-separated chunk of the string decomposes over the
/// vocabulary.
pub open spec fn all_chunks_decomposable(s: Seq<char>, vocab: Seq<Seq<char>>) -> bool {
    forall|p: int|
        0 <= p < split_seq(s, '\'').len() ==> decomposable(#[trigger] split_seq(s, '\'')[p], vocab)
}

/// The built-in full-pinyin syllabary with its frequencies, the exact
/// vocabulary `new` and `default` construct: the standard syllables in
/// evaluation order (frequency descending — uniform here — then spelling
/// length descending, then lexicographic), each with frequency zero.
pub open spec fn builtin_entries() -> Seq<(Seq<char>, i32)> {
    builtin_block_0() + builtin_block_1() + builtin_block_2() + builtin_block_3() + builtin_block_4() + builtin_block_5() + builtin_block_6()
}

pub open spec fn builtin_block_0() -> Seq<(Seq<char>, i32)> {
    seq![("chuang"@, 0i32), ("shuang"@, 0i32), ("zhuang"@, 0i32), ("chang"@, 0i32), ("cheng"@, 0i32), ("chong"@, 0i32), ("chuai"@, 0i32), ("chuan"@, 0i32), ("guang"@, 0i32), ("huang"@, 0i32), ("jiang"@, 0i32), ("jiong"@, 0i32), ("kuang"@, 0i32), ("liang"@, 0i32), ("niang"@, 0i32), ("qiang"@, 0i32), ("qiong"@, 0i32), ("shang"@, 0i32), ("sheng"@, 0i32), ("shuai"@, 0i32), ("shuan"@, 0i32), ("xiang"@, 0i32), ("xiong"@, 0i32), ("zhang"@, 0i32), ("zheng"@, 0i32), ("zhong"@, 0i32), ("zhuai"@, 0i32), ("zhuan"@, 0i32), ("bang"@, 0i32), ("beng"@, 0i32), ("bian"@, 0i32), ("biao"@, 0i32), ("bing"@, 0i32), ("cang"@, 0i32), ("ceng"@, 0i32), ("chai"@, 0i32), ("chan"@, 0i32), ("chao"@, 0i32), ("chen"@, 0i32), ("chou"@, 0i32), ("chua"@, 0i32), ("chui"@, 0i32), ("chun"@, 0i32), ("chuo"@, 0i32), ("cong"@, 0i32), ("cuan"@, 0i32), ("dang"@, 0i32), ("deng"@, 0i32), ("dian"@, 0i32), ("diao"@, 0i32), ("ding"@, 0i32), ("dong"@, 0i32), ("duan"@, 0i32), ("fang"@, 0i32), ("feng"@, 0i32), ("gang"@, 0i32), ("geng"@, 0i32), ("gong"@, 0i32), ("guai"@, 0i32)]
}

pub open spec fn builtin_block_1() -> Seq<(Seq<char>, i32)> {
    seq![("guan"@, 0i32), ("hang"@, 0i32), ("heng"@, 0i32), ("hong"@, 0i32), ("huai"@, 0i32), ("huan"@, 0i32), ("jian"@, 0i32), ("jiao"@, 0i32), ("jing"@, 0i32), ("juan"@, 0i32), ("kang"@, 0i32), ("keng"@, 0i32), ("kong"@, 0i32), ("kuai"@, 0i32), ("kuan"@, 0i32), ("lang"@, 0i32), ("leng"@, 0i32), ("lian"@, 0i32), ("liao"@, 0i32), ("ling"@, 0i32), ("long"@, 0i32), ("luan"@, 0i32), ("mang"@, 0i32), ("meng"@, 0i32), ("mian"@, 0i32), ("miao"@, 0i32), ("ming"@, 0i32), ("nang"@, 0i32), ("neng"@, 0i32), ("nian"@, 0i32), ("niao"@, 0i32), ("ning"@, 0i32), ("nong"@, 0i32), ("nuan"@, 0i32), ("pang"@, 0i32), ("peng"@, 0i32), ("pian"@, 0i32), ("piao"@, 0i32), ("ping"@, 0i32), ("qian"@, 0i32), ("qiao"@, 0i32), ("qing"@, 0i32), ("quan"@, 0i32), ("rang"@, 0i32), ("reng"@, 0i32), ("rong"@, 0i32), ("ruan"@, 0i32), ("sang"@, 0i32), ("seng"@, 0i32), ("shai"@, 0i32), ("shan"@, 0i32), ("shao"@, 0i32), ("shei"@, 0i32), ("shen"@, 0i32), ("shou"@, 0i32), ("shua"@, 0i32), ("shui"@, 0i32), ("shun"@, 0i32), ("shuo"@, 0i32)]
}

pub open spec fn builtin_block_2() -> Seq<(Seq<char>, i32)> {
    seq![("song"@, 0i32), ("suan"@, 0i32), ("tang"@, 0i32), ("teng"@, 0i32), ("tian"@, 0i32), ("tiao"@, 0i32), ("ting"@, 0i32), ("tong"@, 0i32), ("tuan"@, 0i32), ("wang"@, 0i32), ("weng"@, 0i32), ("xian"@, 0i32), ("xiao"@, 0i32), ("xing"@, 0i32), ("xuan"@, 0i32), ("yang"@, 0i32), ("ying"@, 0i32), ("yong"@, 0i32), ("yuan"@, 0i32), ("zang"@, 0i32), ("zeng"@, 0i32), ("zhai"@, 0i32), ("zhan"@, 0i32), ("zhao"@, 0i32), ("zhei"@, 0i32), ("zhen"@, 0i32), ("zhou"@, 0i32), ("zhua"@, 0i32), ("zhui"@, 0i32), ("zhun"@, 0i32), ("zhuo"@, 0i32), ("zong"@, 0i32), ("zuan"@, 0i32), ("ang"@, 0i32), ("bai"@, 0i32), ("ban"@, 0i32), ("bao"@, 0i32), ("bei"@, 0i32), ("ben"@, 0i32), ("bie"@, 0i32), ("bin"@, 0i32), ("cai"@, 0i32), ("can"@, 0i32), ("cao"@, 0i32), ("cen"@, 0i32), ("cha"@, 0i32), ("che"@, 0i32), ("chi"@, 0i32), ("chu"@, 0i32), ("cou"@, 0i32), ("cui"@, 0i32), ("cun"@, 0i32), ("cuo"@, 0i32), ("dai"@, 0i32), ("dan"@, 0i32), ("dao"@, 0i32), ("dei"@, 0i32), ("den"@, 0i32), ("die"@, 0i32)]
}

pub open spec fn builtin_block_3() -> Seq<(Seq<char>, i32)> {
    seq![("diu"@, 0i32), ("dou"@, 0i32), ("dui"@, 0i32), ("dun"@, 0i32), ("duo"@, 0i32), ("eng"@, 0i32), ("fan"@, 0i32), ("fei"@, 0i32), ("fen"@, 0i32), ("fou"@, 0i32), ("gai"@, 0i32), ("gan"@, 0i32), ("gao"@, 0i32), ("gei"@, 0i32), ("gen"@, 0i32), ("gou"@, 0i32), ("gua"@, 0i32), ("gui"@, 0i32), ("gun"@, 0i32), ("guo"@, 0i32), ("hai"@, 0i32), ("han"@, 0i32), ("hao"@, 0i32), ("hei"@, 0i32), ("hen"@, 0i32), ("hou"@, 0i32), ("hua"@, 0i32), ("hui"@, 0i32), ("hun"@, 0i32), ("huo"@, 0i32), ("jia"@, 0i32), ("jie"@, 0i32), ("jin"@, 0i32), ("jiu"@, 0i32), ("jue"@, 0i32), ("jun"@, 0i32), ("kai"@, 0i32), ("kan"@, 0i32), ("kao"@, 0i32), ("kei"@, 0i32), ("ken"@, 0i32), ("kou"@, 0i32), ("kua"@, 0i32), ("kui"@, 0i32), ("kun"@, 0i32), ("kuo"@, 0i32), ("lai"@, 0i32), ("lan"@, 0i32), ("lao"@, 0i32), ("lei"@, 0i32), ("lia"@, 0i32), ("lie"@, 0i32), ("lin"@, 0i32), ("liu"@, 0i32), ("lou"@, 0i32), ("lun"@, 0i32), ("luo"@, 0i32), ("lve"@, 0i32), ("mai"@, 0i32)]
}

pub open spec fn builtin_block_4() -> Seq<(Seq<char>, i32)> {
    seq![("man"@, 0i32), ("mao"@, 0i32), ("mei"@, 0i32), ("men"@, 0i32), ("mie"@, 0i32), ("min"@, 0i32), ("miu"@, 0i32), ("mou"@, 0i32), ("nai"@, 0i32), ("nan"@, 0i32), ("nao"@, 0i32), ("nei"@, 0i32), ("nen"@, 0i32), ("nie"@, 0i32), ("nin"@, 0i32), ("niu"@, 0i32), ("nou"@, 0i32), ("nun"@, 0i32), ("nuo"@, 0i32), ("nve"@, 0i32), ("pai"@, 0i32), ("pan"@, 0i32), ("pao"@, 0i32), ("pei"@, 0i32), ("pen"@, 0i32), ("pie"@, 0i32), ("pin"@, 0i32), ("pou"@, 0i32), ("qia"@, 0i32), ("qie"@, 0i32), ("qin"@, 0i32), ("qiu"@, 0i32), ("que"@, 0i32), ("qun"@, 0i32), ("ran"@, 0i32), ("rao"@, 0i32), ("ren"@, 0i32), ("rou"@, 0i32), ("rua"@, 0i32), ("rui"@, 0i32), ("run"@, 0i32), ("ruo"@, 0i32), ("sai"@, 0i32), ("san"@, 0i32), ("sao"@, 0i32), ("sen"@, 0i32), ("sha"@, 0i32), ("she"@, 0i32), ("shi"@, 0i32), ("shu"@, 0i32), ("sou"@, 0i32), ("sui"@, 0i32), ("sun"@, 0i32), ("suo"@, 0i32), ("tai"@, 0i32), ("tan"@, 0i32), ("tao"@, 0i32), ("tie"@, 0i32), ("tou"@, 0i32)]
}

pub open spec fn builtin_block_5() -> Seq<(Seq<char>, i32)> {
    seq![("tui"@, 0i32), ("tun"@, 0i32), ("tuo"@, 0i32), ("wai"@, 0i32), ("wan"@, 0i32), ("wei"@, 0i32), ("wen"@, 0i32), ("xia"@, 0i32), ("xie"@, 0i32), ("xin"@, 0i32), ("xiu"@, 0i32), ("xue"@, 0i32), ("xun"@, 0i32), ("yan"@, 0i32), ("yao"@, 0i32), ("yin"@, 0i32), ("you"@, 0i32), ("yue"@, 0i32), ("yun"@, 0i32), ("zai"@, 0i32), ("zan"@, 0i32), ("zao"@, 0i32), ("zei"@, 0i32), ("zen"@, 0i32), ("zha"@, 0i32), ("zhe"@, 0i32), ("zhi"@, 0i32), ("zhu"@, 0i32), ("zou"@, 0i32), ("zui"@, 0i32), ("zun"@, 0i32), ("zuo"@, 0i32), ("ai"@, 0i32), ("an"@, 0i32), ("ao"@, 0i32), ("ba"@, 0i32), ("bi"@, 0i32), ("bo"@, 0i32), ("bu"@, 0i32), ("ca"@, 0i32), ("ce"@, 0i32), ("ci"@, 0i32), ("cu"@, 0i32), ("da"@, 0i32), ("de"@, 0i32), ("di"@, 0i32), ("du"@, 0i32), ("ei"@, 0i32), ("en"@, 0i32), ("er"@, 0i32), ("fa"@, 0i32), ("fo"@, 0i32), ("fu"@, 0i32), ("ga"@, 0i32), ("ge"@, 0i32), ("gu"@, 0i32), ("ha"@, 0i32), ("he"@, 0i32), ("hu"@, 0i32)]
}

pub open spec fn builtin_block_6() -> Seq<(Seq<char>, i32)> {
    seq![("ji"@, 0i32), ("ju"@, 0i32), ("ka"@, 0i32), ("ke"@, 0i32), ("ku"@, 0i32), ("la"@, 0i32), ("le"@, 0i32), ("li"@, 0i32), ("lu"@, 0i32), ("lv"@, 0i32), ("ma"@, 0i32), ("me"@, 0i32), ("mi"@, 0i32), ("mo"@, 0i32), ("mu"@, 0i32), ("na"@, 0i32), ("ne"@, 0i32), ("ni"@, 0i32), ("nu"@, 0i32), ("nv"@, 0i32), ("ou"@, 0i32), ("pa"@, 0i32), ("pi"@, 0i32), ("po"@, 0i32), ("pu"@, 0i32), ("qi"@, 0i32), ("qu"@, 0i32), ("re"@, 0i32), ("ri"@, 0i32), ("ru"@, 0i32), ("sa"@, 0i32), ("se"@, 0i32), ("si"@, 0i32), ("su"@, 0i32), ("ta"@, 0i32), ("te"@, 0i32), ("ti"@, 0i32), ("tu"@, 0i32), ("wa"@, 0i32), ("wo"@, 0i32), ("wu"@, 0i32), ("xi"@, 0i32), ("xu"@, 0i32), ("ya"@, 0i32), ("ye"@, 0i32), ("yi"@, 0i32), ("yo"@, 0i32), ("yu"@, 0i32), ("za"@, 0i32), ("ze"@, 0i32), ("zi"@, 0i32), ("zu"@, 0i32), ("a"@, 0i32), ("e"@, 0i32), ("o"@, 0i32)]
}

#[verifier::rlimit(100)]
fn push_block_0(v: &mut Vec<(String, i32)>)
    requires
        old(v)@.len() == 0,
    ensures
        final(v)@.len() == 59,
        forall|k: int| 0 <= k < 0 ==> #[trigger] final(v)@[k] == old(v)@[k],
        forall|k: int|
            0 <= k < 59 ==> (#[trigger] final(v)@[k]).0@ == builtin_block_0()[k
                - 0].0 && final(v)@[k].1 == builtin_block_0()[k - 0].1,
        forall|k: int|
            0 <= k < 59 ==> vocab_entry_wf(#[trigger] builtin_block_0()[k].0),
{
    v.push((String::from_str("chuang"), 0));
    v.push((String::from_str("shuang"), 0));
    v.push((String::from_str("zhuang"), 0));
    v.push((String::from_str("chang"), 0));
    v.push((String::from_str("cheng"), 0));
    v.push((String::from_str("chong"), 0));
    v.push((String::from_str("chuai"), 0));
    v.push((String::from_str("chuan"), 0));
    v.push((String::from_str("guang"), 0));
    v.push((String::from_str("huang"), 0));
    v.push((String::from_str("jiang"), 0));
    v.push((String::from_str("jiong"), 0));
    v.push((String::from_str("kuang"), 0));
    v.push((String::from_str("liang"), 0));
    v.push((String::from_str("niang"), 0));
    v.push((String::from_str("qiang"), 0));
    v.push((String::from_str("qiong"), 0));
    v.push((String::from_str("shang"), 0));
    v.push((String::from_str("sheng"), 0));
    v.push((String::from_str("shuai"), 0));
    v.push((String::from_str("shuan"), 0));
    v.push((String::from_str("xiang"), 0));
    v.push((String::from_str("xiong"), 0));
    v.push((String::from_str("zhang"), 0));
    v.push((String::from_str("zheng"), 0));
    v.push((String::from_str("zhong"), 0));
    v.push((String::from_str("zhuai"), 0));
    v.push((String::from_str("zhuan"), 0));
    v.push((String::from_str("bang"), 0));
    v.push((String::from_str("beng"), 0));
    v.push((String::from_str("bian"), 0));
    v.push((String::from_str("biao"), 0));
    v.push((String::from_str("bing"), 0));
    v.push((String::from_str("cang"), 0));
    v.push((String::from_str("ceng"), 0));
    v.push((String::from_str("chai"), 0));
    v.push((String::from_str("chan"), 0));
    v.push((String::from_str("chao"), 0));
    v.push((String::from_str("chen"), 0));
    v.push((String::from_str("chou"), 0));
    v.push((String::from_str("chua"), 0));
    v.push((String::from_str("chui"), 0));
    v.push((String::from_str("chun"), 0));
    v.push((String::from_str("chuo"), 0));
    v.push((String::from_str("cong"), 0));
    v.push((String::from_str("cuan"), 0));
    v.push((String::from_str("dang"), 0));
    v.push((String::from_str("deng"), 0));
    v.push((String::from_str("dian"), 0));
    v.push((String::from_str("diao"), 0));
    v.push((String::from_str("ding"), 0));
    v.push((String::from_str("dong"), 0));
    v.push((String::from_str("duan"), 0));
    v.push((String::from_str("fang"), 0));
    v.push((String::from_str("feng"), 0));
    v.push((String::from_str("gang"), 0));
    v.push((String::from_str("geng"), 0));
    v.push((String::from_str("gong"), 0));
    v.push((String::from_str("guai"), 0));
    proof {
        reveal_strlit("chuang");
        reveal_strlit("shuang");
        reveal_strlit("zhuang");
        reveal_strlit("chang");
        reveal_strlit("cheng");
        reveal_strlit("chong");
        reveal_strlit("chuai");
        reveal_strlit("chuan");
        reveal_strlit("guang");
        reveal_strlit("huang");
        reveal_strlit("jiang");
        reveal_strlit("jiong");
        reveal_strlit("kuang");
        reveal_strlit("liang");
        reveal_strlit("niang");
        reveal_strlit("qiang");
        reveal_strlit("qiong");
        reveal_strlit("shang");
        reveal_strlit("sheng");
        reveal_strlit("shuai");
        reveal_strlit("shuan");
        reveal_strlit("xiang");
        reveal_strlit("xiong");
        reveal_strlit("zhang");
        reveal_strlit("zheng");
        reveal_strlit("zhong");
        reveal_strlit("zhuai");
        reveal_strlit("zhuan");
        reveal_strlit("bang");
        reveal_strlit("beng");
        reveal_strlit("bian");
        reveal_strlit("biao");
        reveal_strlit("bing");
        reveal_strlit("cang");
        reveal_strlit("ceng");
        reveal_strlit("chai");
        reveal_strlit("chan");
        reveal_strlit("chao");
        reveal_strlit("chen");
        reveal_strlit("chou");
        reveal_strlit("chua");
        reveal_strlit("chui");
        reveal_strlit("chun");
        reveal_strlit("chuo");
        reveal_strlit("cong");
        reveal_strlit("cuan");
        reveal_strlit("dang");
        reveal_strlit("deng");
        reveal_strlit("dian");
        reveal_strlit("diao");
        reveal_strlit("ding");
        reveal_strlit("dong");
        reveal_strlit("duan");
        reveal_strlit("fang");
        reveal_strlit("feng");
        reveal_strlit("gang");
        reveal_strlit("geng");
        reveal_strlit("gong");
        reveal_strlit("guai");
    }
}

#[verifier::rlimit(100)]
fn push_block_1(v: &mut Vec<(String, i32)>)
    requires
        old(v)@.len() == 59,
    ensures
        final(v)@.len() == 118,
        forall|k: int| 0 <= k < 59 ==> #[trigger] final(v)@[k] == old(v)@[k],
        forall|k: int|
            59 <= k < 118 ==> (#[trigger] final(v)@[k]).0@ == builtin_block_1()[k
                - 59].0 && final(v)@[k].1 == builtin_block_1()[k - 59].1,
        forall|k: int|
            0 <= k < 59 ==> vocab_entry_wf(#[trigger] builtin_block_1()[k].0),
{
    v.push((String::from_str("guan"), 0));
    v.push((String::from_str("hang"), 0));
    v.push((String::from_str("heng"), 0));
    v.push((String::from_str("hong"), 0));
    v.push((String::from_str("huai"), 0));
    v.push((String::from_str("huan"), 0));
    v.push((String::from_str("jian"), 0));
    v.push((String::from_str("jiao"), 0));
    v.push((String::from_str("jing"), 0));
    v.push((String::from_str("juan"), 0));
    v.push((String::from_str("kang"), 0));
    v.push((String::from_str("keng"), 0));
    v.push((String::from_str("kong"), 0));
    v.push((String::from_str("kuai"), 0));
    v.push((String::from_str("kuan"), 0));
    v.push((String::from_str("lang"), 0));
    v.push((String::from_str("leng"), 0));
    v.push((String::from_str("lian"), 0));
    v.push((String::from_str("liao"), 0));
    v.push((String::from_str("ling"), 0));
    v.push((String::from_str("long"), 0));
    v.push((String::from_str("luan"), 0));
    v.push((String::from_str("mang"), 0));
    v.push((String::from_str("meng"), 0));
    v.push((String::from_str("mian"), 0));
    v.push((String::from_str("miao"), 0));
    v.push((String::from_str("ming"), 0));
    v.push((String::from_str("nang"), 0));
    v.push((String::from_str("neng"), 0));
    v.push((String::from_str("nian"), 0));
    v.push((String::from_str("niao"), 0));
    v.push((String::from_str("ning"), 0));
    v.push((String::from_str("nong"), 0));
    v.push((String::from_str("nuan"), 0));
    v.push((String::from_str("pang"), 0));
    v.push((String::from_str("peng"), 0));
    v.push((String::from_str("pian"), 0));
    v.push((String::from_str("piao"), 0));
    v.push((String::from_str("ping"), 0));
    v.push((String::from_str("qian"), 0));
    v.push((String::from_str("qiao"), 0));
    v.push((String::from_str("qing"), 0));
    v.push((String::from_str("quan"), 0));
    v.push((String::from_str("rang"), 0));
    v.push((String::from_str("reng"), 0));
    v.push((String::from_str("rong"), 0));
    v.push((String::from_str("ruan"), 0));
    v.push((String::from_str("sang"), 0));
    v.push((String::from_str("seng"), 0));
    v.push((String::from_str("shai"), 0));
    v.push((String::from_str("shan"), 0));
    v.push((String::from_str("shao"), 0));
    v.push((String::from_str("shei"), 0));
    v.push((String::from_str("shen"), 0));
    v.push((String::from_str("shou"), 0));
    v.push((String::from_str("shua"), 0));
    v.push((String::from_str("shui"), 0));
    v.push((String::from_str("shun"), 0));
    v.push((String::from_str("shuo"), 0));
    proof {
        reveal_strlit("guan");
        reveal_strlit("hang");
        reveal_strlit("heng");
        reveal_strlit("hong");
        reveal_strlit("huai");
        reveal_strlit("huan");
        reveal_strlit("jian");
        reveal_strlit("jiao");
        reveal_strlit("jing");
        reveal_strlit("juan");
        reveal_strlit("kang");
        reveal_strlit("keng");
        reveal_strlit("kong");
        reveal_strlit("kuai");
        reveal_strlit("kuan");
        reveal_strlit("lang");
        reveal_strlit("leng");
        reveal_strlit("lian");
        reveal_strlit("liao");
        reveal_strlit("ling");
        reveal_strlit("long");
        reveal_strlit("luan");
        reveal_strlit("mang");
        reveal_strlit("meng");
        reveal_strlit("mian");
        reveal_strlit("miao");
        reveal_strlit("ming");
        reveal_strlit("nang");
        reveal_strlit("neng");
        reveal_strlit("nian");
        reveal_strlit("niao");
        reveal_strlit("ning");
        reveal_strlit("nong");
        reveal_strlit("nuan");
        reveal_strlit("pang");
        reveal_strlit("peng");
        reveal_strlit("pian");
        reveal_strlit("piao");
        reveal_strlit("ping");
        reveal_strlit("qian");
        reveal_strlit("qiao");
        reveal_strlit("qing");
        reveal_strlit("quan");
        reveal_strlit("rang");
        reveal_strlit("reng");
        reveal_strlit("rong");
        reveal_strlit("ruan");
        reveal_strlit("sang");
        reveal_strlit("seng");
        reveal_strlit("shai");
        reveal_strlit("shan");
        reveal_strlit("shao");
        reveal_strlit("shei");
        reveal_strlit("shen");
        reveal_strlit("shou");
        reveal_strlit("shua");
        reveal_strlit("shui");
        reveal_strlit("shun");
        reveal_strlit("shuo");
    }
}

#[verifier::rlimit(100)]
fn push_block_2(v: &mut Vec<(String, i32)>)
    requires
        old(v)@.len() == 118,
    ensures
        final(v)@.len() == 177,
        forall|k: int| 0 <= k < 118 ==> #[trigger] final(v)@[k] == old(v)@[k],
        forall|k: int|
            118 <= k < 177 ==> (#[trigger] final(v)@[k]).0@ == builtin_block_2()[k
                - 118].0 && final(v)@[k].1 == builtin_block_2()[k - 118].1,
        forall|k: int|
            0 <= k < 59 ==> vocab_entry_wf(#[trigger] builtin_block_2()[k].0),
{
    v.push((String::from_str("song"), 0));
    v.push((String::from_str("suan"), 0));
    v.push((String::from_str("tang"), 0));
    v.push((String::from_str("teng"), 0));
    v.push((String::from_str("tian"), 0));
    v.push((String::from_str("tiao"), 0));
    v.push((String::from_str("ting"), 0));
    v.push((String::from_str("tong"), 0));
    v.push((String::from_str("tuan"), 0));
    v.push((String::from_str("wang"), 0));
    v.push((String::from_str("weng"), 0));
    v.push((String::from_str("xian"), 0));
    v.push((String::from_str("xiao"), 0));
    v.push((String::from_str("xing"), 0));
    v.push((String::from_str("xuan"), 0));
    v.push((String::from_str("yang"), 0));
    v.push((String::from_str("ying"), 0));
    v.push((String::from_str("yong"), 0));
    v.push((String::from_str("yuan"), 0));
    v.push((String::from_str("zang"), 0));
    v.push((String::from_str("zeng"), 0));
    v.push((String::from_str("zhai"), 0));
    v.push((String::from_str("zhan"), 0));
    v.push((String::from_str("zhao"), 0));
    v.push((String::from_str("zhei"), 0));
    v.push((String::from_str("zhen"), 0));
    v.push((String::from_str("zhou"), 0));
    v.push((String::from_str("zhua"), 0));
    v.push((String::from_str("zhui"), 0));
    v.push((String::from_str("zhun"), 0));
    v.push((String::from_str("zhuo"), 0));
    v.push((String::from_str("zong"), 0));
    v.push((String::from_str("zuan"), 0));
    v.push((String::from_str("ang"), 0));
    v.push((String::from_str("bai"), 0));
    v.push((String::from_str("ban"), 0));
    v.push((String::from_str("bao"), 0));
    v.push((String::from_str("bei"), 0));
    v.push((String::from_str("ben"), 0));
    v.push((String::from_str("bie"), 0));
    v.push((String::from_str("bin"), 0));
    v.push((String::from_str("cai"), 0));
    v.push((String::from_str("can"), 0));
    v.push((String::from_str("cao"), 0));
    v.push((String::from_str("cen"), 0));
    v.push((String::from_str("cha"), 0));
    v.push((String::from_str("che"), 0));
    v.push((String::from_str("chi"), 0));
    v.push((String::from_str("chu"), 0));
    v.push((String::from_str("cou"), 0));
    v.push((String::from_str("cui"), 0));
    v.push((String::from_str("cun"), 0));
    v.push((String::from_str("cuo"), 0));
    v.push((String::from_str("dai"), 0));
    v.push((String::from_str("dan"), 0));
    v.push((String::from_str("dao"), 0));
    v.push((String::from_str("dei"), 0));
    v.push((String::from_str("den"), 0));
    v.push((String::from_str("die"), 0));
    proof {
        reveal_strlit("song");
        reveal_strlit("suan");
        reveal_strlit("tang");
        reveal_strlit("teng");
        reveal_strlit("tian");
        reveal_strlit("tiao");
        reveal_strlit("ting");
        reveal_strlit("tong");
        reveal_strlit("tuan");
        reveal_strlit("wang");
        reveal_strlit("weng");
        reveal_strlit("xian");
        reveal_strlit("xiao");
        reveal_strlit("xing");
        reveal_strlit("xuan");
        reveal_strlit("yang");
        reveal_strlit("ying");
        reveal_strlit("yong");
        reveal_strlit("yuan");
        reveal_strlit("zang");
        reveal_strlit("zeng");
        reveal_strlit("zhai");
        reveal_strlit("zhan");
        reveal_strlit("zhao");
        reveal_strlit("zhei");
        reveal_strlit("zhen");
        reveal_strlit("zhou");
        reveal_strlit("zhua");
        reveal_strlit("zhui");
        reveal_strlit("zhun");
        reveal_strlit("zhuo");
        reveal_strlit("zong");
        reveal_strlit("zuan");
        reveal_strlit("ang");
        reveal_strlit("bai");
        reveal_strlit("ban");
        reveal_strlit("bao");
        reveal_strlit("bei");
        reveal_strlit("ben");
        reveal_strlit("bie");
        reveal_strlit("bin");
        reveal_strlit("cai");
        reveal_strlit("can");
        reveal_strlit("cao");
        reveal_strlit("cen");
        reveal_strlit("cha");
        reveal_strlit("che");
        reveal_strlit("chi");
        reveal_strlit("chu");
        reveal_strlit("cou");
        reveal_strlit("cui");
        reveal_strlit("cun");
        reveal_strlit("cuo");
        reveal_strlit("dai");
        reveal_strlit("dan");
        reveal_strlit("dao");
        reveal_strlit("dei");
        reveal_strlit("den");
        reveal_strlit("die");
    }
}

#[verifier::rlimit(100)]
fn push_block_3(v: &mut Vec<(String, i32)>)
    requires
        old(v)@.len() == 177,
    ensures
        final(v)@.len() == 236,
        forall|k: int| 0 <= k < 177 ==> #[trigger] final(v)@[k] == old(v)@[k],
        forall|k: int|
            177 <= k < 236 ==> (#[trigger] final(v)@[k]).0@ == builtin_block_3()[k
                - 177].0 && final(v)@[k].1 == builtin_block_3()[k - 177].1,
        forall|k: int|
            0 <= k < 59 ==> vocab_entry_wf(#[trigger] builtin_block_3()[k].0),
{
    v.push((String::from_str("diu"), 0));
    v.push((String::from_str("dou"), 0));
    v.push((String::from_str("dui"), 0));
    v.push((String::from_str("dun"), 0));
    v.push((String::from_str("duo"), 0));
    v.push((String::from_str("eng"), 0));
    v.push((String::from_str("fan"), 0));
    v.push((String::from_str("fei"), 0));
    v.push((String::from_str("fen"), 0));
    v.push((String::from_str("fou"), 0));
    v.push((String::from_str("gai"), 0));
    v.push((String::from_str("gan"), 0));
    v.push((String::from_str("gao"), 0));
    v.push((String::from_str("gei"), 0));
    v.push((String::from_str("gen"), 0));
    v.push((String::from_str("gou"), 0));
    v.push((String::from_str("gua"), 0));
    v.push((String::from_str("gui"), 0));
    v.push((String::from_str("gun"), 0));
    v.push((String::from_str("guo"), 0));
    v.push((String::from_str("hai"), 0));
    v.push((String::from_str("han"), 0));
    v.push((String::from_str("hao"), 0));
    v.push((String::from_str("hei"), 0));
    v.push((String::from_str("hen"), 0));
    v.push((String::from_str("hou"), 0));
    v.push((String::from_str("hua"), 0));
    v.push((String::from_str("hui"), 0));
    v.push((String::from_str("hun"), 0));
    v.push((String::from_str("huo"), 0));
    v.push((String::from_str("jia"), 0));
    v.push((String::from_str("jie"), 0));
    v.push((String::from_str("jin"), 0));
    v.push((String::from_str("jiu"), 0));
    v.push((String::from_str("jue"), 0));
    v.push((String::from_str("jun"), 0));
    v.push((String::from_str("kai"), 0));
    v.push((String::from_str("kan"), 0));
    v.push((String::from_str("kao"), 0));
    v.push((String::from_str("kei"), 0));
    v.push((String::from_str("ken"), 0));
    v.push((String::from_str("kou"), 0));
    v.push((String::from_str("kua"), 0));
    v.push((String::from_str("kui"), 0));
    v.push((String::from_str("kun"), 0));
    v.push((String::from_str("kuo"), 0));
    v.push((String::from_str("lai"), 0));
    v.push((String::from_str("lan"), 0));
    v.push((String::from_str("lao"), 0));
    v.push((String::from_str("lei"), 0));
    v.push((String::from_str("lia"), 0));
    v.push((String::from_str("lie"), 0));
    v.push((String::from_str("lin"), 0));
    v.push((String::from_str("liu"), 0));
    v.push((String::from_str("lou"), 0));
    v.push((String::from_str("lun"), 0));
    v.push((String::from_str("luo"), 0));
    v.push((String::from_str("lve"), 0));
    v.push((String::from_str("mai"), 0));
    proof {
        reveal_strlit("diu");
        reveal_strlit("dou");
        reveal_strlit("dui");
        reveal_strlit("dun");
        reveal_strlit("duo");
        reveal_strlit("eng");
        reveal_strlit("fan");
        reveal_strlit("fei");
        reveal_strlit("fen");
        reveal_strlit("fou");
        reveal_strlit("gai");
        reveal_strlit("gan");
        reveal_strlit("gao");
        reveal_strlit("gei");
        reveal_strlit("gen");
        reveal_strlit("gou");
        reveal_strlit("gua");
        reveal_strlit("gui");
        reveal_strlit("gun");
        reveal_strlit("guo");
        reveal_strlit("hai");
        reveal_strlit("han");
        reveal_strlit("hao");
        reveal_strlit("hei");
        reveal_strlit("hen");
        reveal_strlit("hou");
        reveal_strlit("hua");
        reveal_strlit("hui");
        reveal_strlit("hun");
        reveal_strlit("huo");
        reveal_strlit("jia");
        reveal_strlit("jie");
        reveal_strlit("jin");
        reveal_strlit("jiu");
        reveal_strlit("jue");
        reveal_strlit("jun");
        reveal_strlit("kai");
        reveal_strlit("kan");
        reveal_strlit("kao");
        reveal_strlit("kei");
        reveal_strlit("ken");
        reveal_strlit("kou");
        reveal_strlit("kua");
        reveal_strlit("kui");
        reveal_strlit("kun");
        reveal_strlit("kuo");
        reveal_strlit("lai");
        reveal_strlit("lan");
        reveal_strlit("lao");
        reveal_strlit("lei");
        reveal_strlit("lia");
        reveal_strlit("lie");
        reveal_strlit("lin");
        reveal_strlit("liu");
        reveal_strlit("lou");
        reveal_strlit("lun");
        reveal_strlit("luo");
        reveal_strlit("lve");
        reveal_strlit("mai");
    }
}

#[verifier::rlimit(100)]
fn push_block_4(v: &mut Vec<(String, i32)>)
    requires
        old(v)@.len() == 236,
    ensures
        final(v)@.len() == 295,
        forall|k: int| 0 <= k < 236 ==> #[trigger] final(v)@[k] == old(v)@[k],
        forall|k: int|
            236 <= k < 295 ==> (#[trigger] final(v)@[k]).0@ == builtin_block_4()[k
                - 236].0 && final(v)@[k].1 == builtin_block_4()[k - 236].1,
        forall|k: int|
            0 <= k < 59 ==> vocab_entry_wf(#[trigger] builtin_block_4()[k].0),
{
    v.push((String::from_str("man"), 0));
    v.push((String::from_str("mao"), 0));
    v.push((String::from_str("mei"), 0));
    v.push((String::from_str("men"), 0));
    v.push((String::from_str("mie"), 0));
    v.push((String::from_str("min"), 0));
    v.push((String::from_str("miu"), 0));
    v.push((String::from_str("mou"), 0));
    v.push((String::from_str("nai"), 0));
    v.push((String::from_str("nan"), 0));
    v.push((String::from_str("nao"), 0));
    v.push((String::from_str("nei"), 0));
    v.push((String::from_str("nen"), 0));
    v.push((String::from_str("nie"), 0));
    v.push((String::from_str("nin"), 0));
    v.push((String::from_str("niu"), 0));
    v.push((String::from_str("nou"), 0));
    v.push((String::from_str("nun"), 0));
    v.push((String::from_str("nuo"), 0));
    v.push((String::from_str("nve"), 0));
    v.push((String::from_str("pai"), 0));
    v.push((String::from_str("pan"), 0));
    v.push((String::from_str("pao"), 0));
    v.push((String::from_str("pei"), 0));
    v.push((String::from_str("pen"), 0));
    v.push((String::from_str("pie"), 0));
    v.push((String::from_str("pin"), 0));
    v.push((String::from_str("pou"), 0));
    v.push((String::from_str("qia"), 0));
    v.push((String::from_str("qie"), 0));
    v.push((String::from_str("qin"), 0));
    v.push((String::from_str("qiu"), 0));
    v.push((String::from_str("que"), 0));
    v.push((String::from_str("qun"), 0));
    v.push((String::from_str("ran"), 0));
    v.push((String::from_str("rao"), 0));
    v.push((String::from_str("ren"), 0));
    v.push((String::from_str("rou"), 0));
    v.push((String::from_str("rua"), 0));
    v.push((String::from_str("rui"), 0));
    v.push((String::from_str("run"), 0));
    v.push((String::from_str("ruo"), 0));
    v.push((String::from_str("sai"), 0));
    v.push((String::from_str("san"), 0));
    v.push((String::from_str("sao"), 0));
    v.push((String::from_str("sen"), 0));
    v.push((String::from_str("sha"), 0));
    v.push((String::from_str("she"), 0));
    v.push((String::from_str("shi"), 0));
    v.push((String::from_str("shu"), 0));
    v.push((String::from_str("sou"), 0));
    v.push((String::from_str("sui"), 0));
    v.push((String::from_str("sun"), 0));
    v.push((String::from_str("suo"), 0));
    v.push((String::from_str("tai"), 0));
    v.push((String::from_str("tan"), 0));
    v.push((String::from_str("tao"), 0));
    v.push((String::from_str("tie"), 0));
    v.push((String::from_str("tou"), 0));
    proof {
        reveal_strlit("man");
        reveal_strlit("mao");
        reveal_strlit("mei");
        reveal_strlit("men");
        reveal_strlit("mie");
        reveal_strlit("min");
        reveal_strlit("miu");
        reveal_strlit("mou");
        reveal_strlit("nai");
        reveal_strlit("nan");
        reveal_strlit("nao");
        reveal_strlit("nei");
        reveal_strlit("nen");
        reveal_strlit("nie");
        reveal_strlit("nin");
        reveal_strlit("niu");
        reveal_strlit("nou");
        reveal_strlit("nun");
        reveal_strlit("nuo");
        reveal_strlit("nve");
        reveal_strlit("pai");
        reveal_strlit("pan");
        reveal_strlit("pao");
        reveal_strlit("pei");
        reveal_strlit("pen");
        reveal_strlit("pie");
        reveal_strlit("pin");
        reveal_strlit("pou");
        reveal_strlit("qia");
        reveal_strlit("qie");
        reveal_strlit("qin");
        reveal_strlit("qiu");
        reveal_strlit("que");
        reveal_strlit("qun");
        reveal_strlit("ran");
        reveal_strlit("rao");
        reveal_strlit("ren");
        reveal_strlit("rou");
        reveal_strlit("rua");
        reveal_strlit("rui");
        reveal_strlit("run");
        reveal_strlit("ruo");
        reveal_strlit("sai");
        reveal_strlit("san");
        reveal_strlit("sao");
        reveal_strlit("sen");
        reveal_strlit("sha");
        reveal_strlit("she");
        reveal_strlit("shi");
        reveal_strlit("shu");
        reveal_strlit("sou");
        reveal_strlit("sui");
        reveal_strlit("sun");
        reveal_strlit("suo");
        reveal_strlit("tai");
        reveal_strlit("tan");
        reveal_strlit("tao");
        reveal_strlit("tie");
        reveal_strlit("tou");
    }
}

#[verifier::rlimit(100)]
fn push_block_5(v: &mut Vec<(String, i32)>)
    requires
        old(v)@.len() == 295,
    ensures
        final(v)@.len() == 354,
        forall|k: int| 0 <= k < 295 ==> #[trigger] final(v)@[k] == old(v)@[k],
        forall|k: int|
            295 <= k < 354 ==> (#[trigger] final(v)@[k]).0@ == builtin_block_5()[k
                - 295].0 && final(v)@[k].1 == builtin_block_5()[k - 295].1,
        forall|k: int|
            0 <= k < 59 ==> vocab_entry_wf(#[trigger] builtin_block_5()[k].0),
{
    v.push((String::from_str("tui"), 0));
    v.push((String::from_str("tun"), 0));
    v.push((String::from_str("tuo"), 0));
    v.push((String::from_str("wai"), 0));
    v.push((String::from_str("wan"), 0));
    v.push((String::from_str("wei"), 0));
    v.push((String::from_str("wen"), 0));
    v.push((String::from_str("xia"), 0));
    v.push((String::from_str("xie"), 0));
    v.push((String::from_str("xin"), 0));
    v.push((String::from_str("xiu"), 0));
    v.push((String::from_str("xue"), 0));
    v.push((String::from_str("xun"), 0));
    v.push((String::from_str("yan"), 0));
    v.push((String::from_str("yao"), 0));
    v.push((String::from_str("yin"), 0));
    v.push((String::from_str("you"), 0));
    v.push((String::from_str("yue"), 0));
    v.push((String::from_str("yun"), 0));
    v.push((String::from_str("zai"), 0));
    v.push((String::from_str("zan"), 0));
    v.push((String::from_str("zao"), 0));
    v.push((String::from_str("zei"), 0));
    v.push((String::from_str("zen"), 0));
    v.push((String::from_str("zha"), 0));
    v.push((String::from_str("zhe"), 0));
    v.push((String::from_str("zhi"), 0));
    v.push((String::from_str("zhu"), 0));
    v.push((String::from_str("zou"), 0));
    v.push((String::from_str("zui"), 0));
    v.push((String::from_str("zun"), 0));
    v.push((String::from_str("zuo"), 0));
    v.push((String::from_str("ai"), 0));
    v.push((String::from_str("an"), 0));
    v.push((String::from_str("ao"), 0));
    v.push((String::from_str("ba"), 0));
    v.push((String::from_str("bi"), 0));
    v.push((String::from_str("bo"), 0));
    v.push((String::from_str("bu"), 0));
    v.push((String::from_str("ca"), 0));
    v.push((String::from_str("ce"), 0));
    v.push((String::from_str("ci"), 0));
    v.push((String::from_str("cu"), 0));
    v.push((String::from_str("da"), 0));
    v.push((String::from_str("de"), 0));
    v.push((String::from_str("di"), 0));
    v.push((String::from_str("du"), 0));
    v.push((String::from_str("ei"), 0));
    v.push((String::from_str("en"), 0));
    v.push((String::from_str("er"), 0));
    v.push((String::from_str("fa"), 0));
    v.push((String::from_str("fo"), 0));
    v.push((String::from_str("fu"), 0));
    v.push((String::from_str("ga"), 0));
    v.push((String::from_str("ge"), 0));
    v.push((String::from_str("gu"), 0));
    v.push((String::from_str("ha"), 0));
    v.push((String::from_str("he"), 0));
    v.push((String::from_str("hu"), 0));
    proof {
        reveal_strlit("tui");
        reveal_strlit("tun");
        reveal_strlit("tuo");
        reveal_strlit("wai");
        reveal_strlit("wan");
        reveal_strlit("wei");
        reveal_strlit("wen");
        reveal_strlit("xia");
        reveal_strlit("xie");
        reveal_strlit("xin");
        reveal_strlit("xiu");
        reveal_strlit("xue");
        reveal_strlit("xun");
        reveal_strlit("yan");
        reveal_strlit("yao");
        reveal_strlit("yin");
        reveal_strlit("you");
        reveal_strlit("yue");
        reveal_strlit("yun");
        reveal_strlit("zai");
        reveal_strlit("zan");
        reveal_strlit("zao");
        reveal_strlit("zei");
        reveal_strlit("zen");
        reveal_strlit("zha");
        reveal_strlit("zhe");
        reveal_strlit("zhi");
        reveal_strlit("zhu");
        reveal_strlit("zou");
        reveal_strlit("zui");
        reveal_strlit("zun");
        reveal_strlit("zuo");
        reveal_strlit("ai");
        reveal_strlit("an");
        reveal_strlit("ao");
        reveal_strlit("ba");
        reveal_strlit("bi");
        reveal_strlit("bo");
        reveal_strlit("bu");
        reveal_strlit("ca");
        reveal_strlit("ce");
        reveal_strlit("ci");
        reveal_strlit("cu");
        reveal_strlit("da");
        reveal_strlit("de");
        reveal_strlit("di");
        reveal_strlit("du");
        reveal_strlit("ei");
        reveal_strlit("en");
        reveal_strlit("er");
        reveal_strlit("fa");
        reveal_strlit("fo");
        reveal_strlit("fu");
        reveal_strlit("ga");
        reveal_strlit("ge");
        reveal_strlit("gu");
        reveal_strlit("ha");
        reveal_strlit("he");
        reveal_strlit("hu");
    }
}

#[verifier::rlimit(100)]
fn push_block_6(v: &mut Vec<(String, i32)>)
    requires
        old(v)@.len() == 354,
    ensures
        final(v)@.len() == 409,
        forall|k: int| 0 <= k < 354 ==> #[trigger] final(v)@[k] == old(v)@[k],
        forall|k: int|
            354 <= k < 409 ==> (#[trigger] final(v)@[k]).0@ == builtin_block_6()[k
                - 354].0 && final(v)@[k].1 == builtin_block_6()[k - 354].1,
        forall|k: int|
            0 <= k < 55 ==> vocab_entry_wf(#[trigger] builtin_block_6()[k].0),
{
    v.push((String::from_str("ji"), 0));
    v.push((String::from_str("ju"), 0));
    v.push((String::from_str("ka"), 0));
    v.push((String::from_str("ke"), 0));
    v.push((String::from_str("ku"), 0));
    v.push((String::from_str("la"), 0));
    v.push((String::from_str("le"), 0));
    v.push((String::from_str("li"), 0));
    v.push((String::from_str("lu"), 0));
    v.push((String::from_str("lv"), 0));
    v.push((String::from_str("ma"), 0));
    v.push((String::from_str("me"), 0));
    v.push((String::from_str("mi"), 0));
    v.push((String::from_str("mo"), 0));
    v.push((String::from_str("mu"), 0));
    v.push((String::from_str("na"), 0));
    v.push((String::from_str("ne"), 0));
    v.push((String::from_str("ni"), 0));
    v.push((String::from_str("nu"), 0));
    v.push((String::from_str("nv"), 0));
    v.push((String::from_str("ou"), 0));
    v.push((String::from_str("pa"), 0));
    v.push((String::from_str("pi"), 0));
    v.push((String::from_str("po"), 0));
    v.push((String::from_str("pu"), 0));
    v.push((String::from_str("qi"), 0));
    v.push((String::from_str("qu"), 0));
    v.push((String::from_str("re"), 0));
    v.push((String::from_str("ri"), 0));
    v.push((String::from_str("ru"), 0));
    v.push((String::from_str("sa"), 0));
    v.push((String::from_str("se"), 0));
    v.push((String::from_str("si"), 0));
    v.push((String::from_str("su"), 0));
    v.push((String::from_str("ta"), 0));
    v.push((String::from_str("te"), 0));
    v.push((String::from_str("ti"), 0));
    v.push((String::from_str("tu"), 0));
    v.push((String::from_str("wa"), 0));
    v.push((String::from_str("wo"), 0));
    v.push((String::from_str("wu"), 0));
    v.push((String::from_str("xi"), 0));
    v.push((String::from_str("xu"), 0));
    v.push((String::from_str("ya"), 0));
    v.push((String::from_str("ye"), 0));
    v.push((String::from_str("yi"), 0));
    v.push((String::from_str("yo"), 0));
    v.push((String::from_str("yu"), 0));
    v.push((String::from_str("za"), 0));
    v.push((String::from_str("ze"), 0));
    v.push((String::from_str("zi"), 0));
    v.push((String::from_str("zu"), 0));
    v.push((String::from_str("a"), 0));
    v.push((String::from_str("e"), 0));
    v.push((String::from_str("o"), 0));
    proof {
        reveal_strlit("ji");
        reveal_strlit("ju");
        reveal_strlit("ka");
        reveal_strlit("ke");
        reveal_strlit("ku");
        reveal_strlit("la");
        reveal_strlit("le");
        reveal_strlit("li");
        reveal_strlit("lu");
        reveal_strlit("lv");
        reveal_strlit("ma");
        reveal_strlit("me");
        reveal_strlit("mi");
        reveal_strlit("mo");
        reveal_strlit("mu");
        reveal_strlit("na");
        reveal_strlit("ne");
        reveal_strlit("ni");
        reveal_strlit("nu");
        reveal_strlit("nv");
        reveal_strlit("ou");
        reveal_strlit("pa");
        reveal_strlit("pi");
        reveal_strlit("po");
        reveal_strlit("pu");
        reveal_strlit("qi");
        reveal_strlit("qu");
        reveal_strlit("re");
        reveal_strlit("ri");
        reveal_strlit("ru");
        reveal_strlit("sa");
        reveal_strlit("se");
        reveal_strlit("si");
        reveal_strlit("su");
        reveal_strlit("ta");
        reveal_strlit("te");
        reveal_strlit("ti");
        reveal_strlit("tu");
        reveal_strlit("wa");
        reveal_strlit("wo");
        reveal_strlit("wu");
        reveal_strlit("xi");
        reveal_strlit("xu");
        reveal_strlit("ya");
        reveal_strlit("ye");
        reveal_strlit("yi");
        reveal_strlit("yo");
        reveal_strlit("yu");
        reveal_strlit("za");
        reveal_strlit("ze");
        reveal_strlit("zi");
        reveal_strlit("zu");
        reveal_strlit("a");
        reveal_strlit("e");
        reveal_strlit("o");
    }
}

/// The first `upto` built entries match the built-in table, viewwise.
spec fn built_prefix_matches(v: Seq<(String, i32)>, upto: int) -> bool {
    forall|k: int|
        0 <= k < upto ==> (#[trigger] v[k]).0@ == builtin_entries()[k].0 && v[k].1
            == builtin_entries()[k].1
}

/// Index `k` of the built-in table falls in the block that covers it.
proof fn lemma_builtin_index(k: int)
    requires
        0 <= k < 409,
    ensures
        k < 59 ==> builtin_entries()[k] == builtin_block_0()[k],
        59 <= k < 118 ==> builtin_entries()[k] == builtin_block_1()[k - 59],
        118 <= k < 177 ==> builtin_entries()[k] == builtin_block_2()[k - 118],
        177 <= k < 236 ==> builtin_entries()[k] == builtin_block_3()[k - 177],
        236 <= k < 295 ==> builtin_entries()[k] == builtin_block_4()[k - 236],
        295 <= k < 354 ==> builtin_entries()[k] == builtin_block_5()[k - 295],
        354 <= k < 409 ==> builtin_entries()[k] == builtin_block_6()[k - 354],
{
}

impl Default for QuanpinPreeditor {
    /// Builds the segmenter over the standard full-pinyin syllabary,
    /// kept in evaluation order: frequency descending, then spelling
    /// length descending, then lexicographic. The built-in table carries
    /// no usage statistics, so every spelling has frequency zero; ties
    /// in the parse score therefore fall to the longer, earlier-listed
    /// syllable. A table with real frequencies would shift those ties.
    fn default() -> (r: Self)
        ensures
            r.wf(),
            r.entries() == builtin_entries(),
    {
        let mut syllables: Vec<(String, i32)> = Vec::new();
        let ghost pre0 = syllables@;
        push_block_0(&mut syllables);
        proof {
            assert(built_prefix_matches(syllables@, 59)) by {
                assert forall|k: int|
                    0 <= k < 59 implies (#[trigger] syllables@[k]).0@
                    == builtin_entries()[k].0 && syllables@[k].1 == builtin_entries()[k].1 by {
                    lemma_builtin_index(k);
                    if k < 0 {
                        assert(syllables@[k] == pre0[k]);
                        assert(built_prefix_matches(pre0, 0));
                    }
                }
            }
        }
        let ghost pre1 = syllables@;
        push_block_1(&mut syllables);
        proof {
            assert(built_prefix_matches(syllables@, 118)) by {
                assert forall|k: int|
                    0 <= k < 118 implies (#[trigger] syllables@[k]).0@
                    == builtin_entries()[k].0 && syllables@[k].1 == builtin_entries()[k].1 by {
                    lemma_builtin_index(k);
                    if k < 59 {
                        assert(syllables@[k] == pre1[k]);
                        assert(built_prefix_matches(pre1, 59));
                    }
                }
            }
        }
        let ghost pre2 = syllables@;
        push_block_2(&mut syllables);
        proof {
            assert(built_prefix_matches(syllables@, 177)) by {
                assert forall|k: int|
                    0 <= k < 177 implies (#[trigger] syllables@[k]).0@
                    == builtin_entries()[k].0 && syllables@[k].1 == builtin_entries()[k].1 by {
                    lemma_builtin_index(k);
                    if k < 118 {
                        assert(syllables@[k] == pre2[k]);
                        assert(built_prefix_matches(pre2, 118));
                    }
                }
            }
        }
        let ghost pre3 = syllables@;
        push_block_3(&mut syllables);
        proof {
            assert(built_prefix_matches(syllables@, 236)) by {
                assert forall|k: int|
                    0 <= k < 236 implies (#[trigger] syllables@[k]).0@
                    == builtin_entries()[k].0 && syllables@[k].1 == builtin_entries()[k].1 by {
                    lemma_builtin_index(k);
                    if k < 177 {
                        assert(syllables@[k] == pre3[k]);
                        assert(built_prefix_matches(pre3, 177));
                    }
                }
            }
        }
        let ghost pre4 = syllables@;
        push_block_4(&mut syllables);
        proof {
            assert(built_prefix_matches(syllables@, 295)) by {
                assert forall|k: int|
                    0 <= k < 295 implies (#[trigger] syllables@[k]).0@
                    == builtin_entries()[k].0 && syllables@[k].1 == builtin_entries()[k].1 by {
                    lemma_builtin_index(k);
                    if k < 236 {
                        assert(syllables@[k] == pre4[k]);
                        assert(built_prefix_matches(pre4, 236));
                    }
                }
            }
        }
        let ghost pre5 = syllables@;
        push_block_5(&mut syllables);
        proof {
            assert(built_prefix_matches(syllables@, 354)) by {
                assert forall|k: int|
                    0 <= k < 354 implies (#[trigger] syllables@[k]).0@
                    == builtin_entries()[k].0 && syllables@[k].1 == builtin_entries()[k].1 by {
                    lemma_builtin_index(k);
                    if k < 295 {
                        assert(syllables@[k] == pre5[k]);
                        assert(built_prefix_matches(pre5, 295));
                    }
                }
            }
        }
        let ghost pre6 = syllables@;
        push_block_6(&mut syllables);
        proof {
            assert(built_prefix_matches(syllables@, 409)) by {
                assert forall|k: int|
                    0 <= k < 409 implies (#[trigger] syllables@[k]).0@
                    == builtin_entries()[k].0 && syllables@[k].1 == builtin_entries()[k].1 by {
                    lemma_builtin_index(k);
                    if k < 354 {
                        assert(syllables@[k] == pre6[k]);
                        assert(built_prefix_matches(pre6, 354));
                    }
                }
            }
        }
        let ghost pre7 = syllables@;
        proof {
            assert forall|t: int| 0 <= t < syllables@.len() implies vocab_entry_wf(
                #[trigger] syllables@[t].0@,
            ) by {
                lemma_builtin_index(t);
            }
        }
        let r = QuanpinPreeditor { syllables };
        proof {
            assert(r.entries() =~= builtin_entries()) by {
                assert forall|k: int|
                    0 <= k < r.entries().len() implies #[trigger] r.entries()[k]
                    == builtin_entries()[k] by {
                    assert(r.entries()[k] == (r.syllables@[k].0@, r.syllables@[k].1));
                }
            }
        }
        r
    }
}

impl QuanpinPreeditor {
    /// A segmenter over the built-in full-pinyin syllabary.
    pub fn new() -> (r: Self)
        ensures
            r.wf(),
            r.entries() == builtin_entries(),
    {
        Self::default()
    }
}

impl Analyzer for QuanpinPreeditor {
    /// Lowercases the input and parses it. If every break-separated chunk
    /// decomposes over the vocabulary and at least one token results, the
    /// analysis is that token sequence with its space-joined display.
    /// Otherwise, short letters-only input degrades to one token per
    /// letter, and anything else passes through unsegmented.
    fn analyze(&self, input: &str) -> (r: Analysis)
        ensures
            input@.len() == 0 ==> r.segment@.len() == 0 && r.preedit@ == Seq::<char>::empty(),
            ({
                let low = to_lower_seq(input@);
                input@.len() > 0 && all_chunks_decomposable(low, self.vocab()) && remove_sep(
                    low,
                    '\'',
                ).len() > 0 ==> {
                    &&& all_in_vocab(r.segment.deep_view(), self.vocab())
                    &&& concat_seqs(r.segment.deep_view()) == remove_sep(low, '\'')
                    &&& r.preedit@ == join_spaces(r.segment.deep_view())
                    &&& r.segment@.len() > 0
                }
            }),
            ({
                let low = to_lower_seq(input@);
                input@.len() > 0 && !(all_chunks_decomposable(low, self.vocab()) && remove_sep(
                    low,
                    '\'',
                ).len() > 0) && letters_only(low) && 1 <= low.len() <= 6 ==> {
                    &&& r.segment.deep_view() == singles(low)
                    &&& r.preedit@ == join_spaces(singles(low))
                }
            }),
            ({
                let low = to_lower_seq(input@);
                input@.len() > 0 && !(all_chunks_decomposable(low, self.vocab()) && remove_sep(
                    low,
                    '\'',
                ).len() > 0) && !(letters_only(low) && 1 <= low.len() <= 6) ==> {
                    &&& r.segment@.len() == 0
                    &&& r.preedit@ == input@
                }
            }),
    {
        proof {
            use_type_invariant(&*self);
        }
        let n = input.unicode_len();
        if n == 0 {
            return Analysis { segment: Vec::new(), preedit: String::new() };
        }
        let low = crate::strutil::to_lower(input);
        let ghost lowv = low@;
        let parsed = self.segment(low.as_str());
        let use_parsed = match &parsed {
            Some(toks) => toks.len() > 0,
            None => false,
        };
        if use_parsed {
            let toks = match parsed {
                Some(toks) => toks,
                None => Vec::new(),
            };
            proof {
                assert(remove_sep(lowv, '\'').len() > 0) by {
                    assert(toks.deep_view().len() > 0);
                    let last = toks.deep_view().last();
                    assert(self.vocab().contains(last));
                    assert(concat_seqs(toks.deep_view()) == concat_seqs(
                        toks.deep_view().drop_last(),
                    ) + last);
                }
            }
            let preedit = crate::strutil::join_with_spaces(&toks);
            return Analysis { segment: toks, preedit };
        }
        proof {
            if parsed is Some {
                let toks = parsed->Some_0;
                assert(toks.deep_view().len() == 0);
                assert(concat_seqs(toks.deep_view()) =~= Seq::<char>::empty());
                assert(remove_sep(lowv, '\'').len() == 0);
            }
        }
        // Fallback: the chunks did not parse (or parsed to nothing).
        let mut only_letters = true;
        let mut q: usize = 0;
        while q < low.as_str().unicode_len()
            invariant
                lowv == low@,
                q <= lowv.len(),
                only_letters == (forall|k: int|
                    0 <= k < q ==> is_lower_char(#[trigger] lowv[k]) || lowv[k] == '\''),
            decreases lowv.len() - q,
        {
            let c = low.as_str().get_char(q);
            if !(('a' <= c && c <= 'z') || c == '\'') {
                only_letters = false;
            }
            q = q + 1;
        }
        if only_letters && n >= 1 && n <= 6 {
            proof {
                assert(lowv.len() == input@.len());
                assert(letters_only(lowv));
            }
            let mut segs: Vec<String> = Vec::new();
            let mut k: usize = 0;
            proof {
                assert(segs.deep_view() =~= singles(lowv.take(0)));
            }
            while k < low.as_str().unicode_len()
                invariant
                    lowv == low@,
                    k <= lowv.len(),
                    segs.deep_view() == singles(lowv.take(k as int)),
                decreases lowv.len() - k,
            {
                let c = low.as_str().get_char(k);
                proof {
                    assert(lowv.take(k + 1).drop_last() =~= lowv.take(k as int));
                    assert(lowv.take(k + 1).last() == lowv[k as int]);
                }
                if c != '\'' {
                    let cs = crate::strutil::char_string(c);
                    let ghost pre = segs.deep_view();
                    segs.push(cs);
                    proof {
                        assert(segs.deep_view() =~= pre.push(seq![lowv[k as int]]));
                    }
                }
                k = k + 1;
            }
            proof {
                assert(lowv.take(lowv.len() as int) =~= lowv);
            }
            let preedit = crate::strutil::join_with_spaces(&segs);
            return Analysis { segment: segs, preedit };
        }
        proof {
            assert(only_letters == letters_only(lowv));
            assert(lowv.len() == input@.len());
        }
        Analysis { segment: Vec::new(), preedit: input.to_owned() }
    }
}

} // verus!
