//! Candidate post-processing: ranking sort, duplicate removal, truncation.

use vstd::prelude::*;
use vstd::multiset::Multiset;
use crate::model::{
    Candidate, cand_le, cand_le_exec, cand_same_key, cand_same_key_exec, cands_sorted,
    cands_distinct_adjacent, cands_distinct_keys,
};

verus! {

/// Post-processing over a candidate list (ordering, duplicate removal,
/// truncation, character-set filtering and the like).
pub trait Filter: Send + Sync {
    fn apply(&self, candidates: Vec<Candidate>) -> Vec<Candidate>;
}

/// The default filter: sorts by weight descending then text ascending,
/// drops consecutive duplicates that share text and span, and truncates
/// to the configured limit (clamped to at least one).
pub struct DedupSortTruncate {
    /// Greatest number of candidates to keep.
    pub limit: u8,
}

/// The ranking order is total.
pub proof fn lemma_cand_le_total(a: Candidate, b: Candidate)
    ensures
        cand_le(a, b) || cand_le(b, a),
{
    crate::strutil::lemma_lex_le_total(a.text@, b.text@);
}

/// The ranking order is transitive.
pub proof fn lemma_cand_le_trans(a: Candidate, b: Candidate, c: Candidate)
    requires
        cand_le(a, b),
        cand_le(b, c),
    ensures
        cand_le(a, c),
{
    if a.weight == b.weight && b.weight == c.weight {
        crate::strutil::lemma_lex_le_trans(a.text@, b.text@, c.text@);
    }
}

/// Inserting an element anywhere adds exactly it to the multiset.
pub proof fn lemma_insert_to_multiset<T>(s: Seq<T>, p: int, x: T)
    requires
        0 <= p <= s.len(),
    ensures
        s.insert(p, x).to_multiset() =~= s.to_multiset().insert(x),
{
    broadcast use vstd::seq_lib::group_to_multiset_ensures;
    broadcast use vstd::multiset::group_multiset_axioms;

    let a = s.subrange(0, p);
    let b = s.subrange(p, s.len() as int);
    assert(s =~= a + b);
    vstd::seq_lib::lemma_multiset_commutative(a, b);
    vstd::seq_lib::lemma_multiset_commutative(a.push(x), b);
    assert(s.insert(p, x) == a.push(x) + b);
    assert(a.push(x).to_multiset() =~= a.to_multiset().insert(x));
    assert((a.to_multiset().insert(x)).add(b.to_multiset()) =~= (a.to_multiset().add(
        b.to_multiset(),
    )).insert(x));
}

/// A sequence with two positions holding the same value has that value
/// at multiplicity two or more.
proof fn lemma_two_positions_count(s: Seq<Candidate>, i: int, j: int)
    requires
        0 <= i < j < s.len(),
        s[i] == s[j],
    ensures
        s.to_multiset().count(s[i]) >= 2,
{
    broadcast use vstd::seq_lib::group_to_multiset_ensures;
    broadcast use vstd::multiset::group_multiset_axioms;

    let r = s.remove(i);
    assert(r.to_multiset() =~= s.to_multiset().remove(s[i]));
    assert(r[j - 1] == s[j]);
    assert(r.contains(s[i]));
    assert(r.to_multiset().count(s[i]) > 0);
}

/// A value with positive multiplicity sits at some position.
proof fn lemma_count_to_position(s: Seq<Candidate>, x: Candidate) -> (i: int)
    requires
        s.to_multiset().count(x) > 0,
    ensures
        0 <= i < s.len(),
        s[i] == x,
{
    broadcast use vstd::seq_lib::group_to_multiset_ensures;

    assert(s.contains(x));
    let i = choose|i: int| 0 <= i < s.len() && s[i] == x;
    i
}

/// A value with multiplicity two or more sits at two distinct positions.
proof fn lemma_count2_to_positions(s: Seq<Candidate>, x: Candidate) -> (r: (int, int))
    requires
        s.to_multiset().count(x) >= 2,
    ensures
        0 <= r.0 < s.len(),
        0 <= r.1 < s.len(),
        r.0 != r.1,
        s[r.0] == x && s[r.1] == x,
{
    broadcast use vstd::seq_lib::group_to_multiset_ensures;
    broadcast use vstd::multiset::group_multiset_axioms;

    let i = lemma_count_to_position(s, x);
    let r = s.remove(i);
    assert(r.to_multiset() =~= s.to_multiset().remove(x));
    let j0 = lemma_count_to_position(r, x);
    let j = if j0 < i {
        j0
    } else {
        j0 + 1
    };
    assert(s[j] == x);
    (i, j)
}

/// Distinct keys survive any reordering: a multiset-equal sequence of a
/// key-distinct sequence is key-distinct.
pub proof fn lemma_distinct_keys_permutation(s1: Seq<Candidate>, s2: Seq<Candidate>)
    requires
        s1.to_multiset() == s2.to_multiset(),
        cands_distinct_keys(s1),
    ensures
        cands_distinct_keys(s2),
{
    broadcast use vstd::seq_lib::group_to_multiset_ensures;

    assert forall|i: int, j: int| 0 <= i < j < s2.len() implies !cand_same_key(s2[i], s2[j]) by {
        if cand_same_key(s2[i], s2[j]) {
            let (p0, q0): (int, int) = if s2[i] == s2[j] {
                lemma_two_positions_count(s2, i, j);
                lemma_count2_to_positions(s1, s2[i])
            } else {
                assert(s2.contains(s2[i]) && s2.contains(s2[j]));
                assert(s2.to_multiset().count(s2[i]) > 0);
                assert(s2.to_multiset().count(s2[j]) > 0);
                let p = lemma_count_to_position(s1, s2[i]);
                let q = lemma_count_to_position(s1, s2[j]);
                (p, q)
            };
            let p = if p0 < q0 {
                p0
            } else {
                q0
            };
            let q = if p0 < q0 {
                q0
            } else {
                p0
            };
            assert(cand_same_key(s1[p], s1[q]));
            assert(false);
        }
    }
}

/// The consecutive-duplicate removal, as a function: of each run of
/// neighbours sharing text and span, only the first survives.
pub open spec fn dedup_consec(s: Seq<Candidate>) -> Seq<Candidate>
    decreases s.len(),
{
    if s.len() == 0 {
        Seq::empty()
    } else if s.len() == 1 {
        s
    } else if cand_same_key(s.last(), s[s.len() - 2]) {
        dedup_consec(s.drop_last())
    } else {
        dedup_consec(s.drop_last()).push(s.last())
    }
}

/// Stable insertion sort by the ranking order: the result is sorted and
/// holds exactly the same candidates.
pub fn sort_candidates(v: Vec<Candidate>) -> (r: Vec<Candidate>)
    ensures
        cands_sorted(r@),
        r@.to_multiset() == v@.to_multiset(),
        r@.len() == v@.len(),
{
    broadcast use vstd::seq_lib::group_to_multiset_ensures;
    broadcast use vstd::multiset::group_multiset_axioms;

    let mut out: Vec<Candidate> = Vec::new();
    let mut i: usize = 0;
    proof {
        assert(v@.take(0).to_multiset() =~= Multiset::<Candidate>::empty());
        assert(out@.to_multiset() =~= Multiset::<Candidate>::empty());
    }
    while i < v.len()
        invariant
            i <= v@.len(),
            cands_sorted(out@),
            out@.to_multiset() == v@.take(i as int).to_multiset(),
            out@.len() == i,
        decreases v@.len() - i,
    {
        let x = v[i].clone();
        let mut p: usize = 0;
        while p < out.len() && cand_le_exec(&out[p], &x)
            invariant
                p <= out@.len(),
                forall|k: int| 0 <= k < p ==> cand_le(#[trigger] out@[k], x),
            decreases out@.len() - p,
        {
            p = p + 1;
        }
        proof {
            if p < out@.len() {
                lemma_cand_le_total(out@[p as int], x);
            }
            assert forall|k: int| p <= k < out@.len() implies cand_le(x, #[trigger] out@[k]) by {
                if k > p {
                    lemma_cand_le_trans(x, out@[p as int], out@[k]);
                }
            }
            lemma_insert_to_multiset(out@, p as int, x);
            out@.insert_ensures(p as int, x);
            assert(v@.take(i + 1) =~= v@.take(i as int).push(v@[i as int]));
        }
        let ghost pre = out@;
        out.insert(p, x);
        proof {
            assert(out@ == pre.insert(p as int, x));
            assert(out@.to_multiset() =~= pre.to_multiset().insert(x));
            vstd::seq_lib::to_multiset_build(v@.take(i as int), v@[i as int]);
            assert(v@.take(i + 1).to_multiset() =~= v@.take(i as int).to_multiset().insert(
                v@[i as int],
            ));
            assert(out@.to_multiset() =~= v@.take(i + 1).to_multiset());
            assert forall|a: int, b: int|
                0 <= a < b < out@.len() implies #[trigger] cand_le(out@[a], out@[b]) by {
                out@.insert_ensures(p as int, x);
            }
        }
        i = i + 1;
    }
    proof {
        assert(v@.take(v@.len() as int) =~= v@);
    }
    out
}

/// Removes consecutive candidates that share text and span, keeping the
/// first of each run. Order, sortedness and key-distinctness are
/// preserved, and every survivor comes from the input.
pub fn dedup_consecutive(v: &Vec<Candidate>) -> (r: Vec<Candidate>)
    ensures
        r@ == dedup_consec(v@),
        cands_distinct_adjacent(r@),
        forall|k: int| 0 <= k < r@.len() ==> v@.contains(#[trigger] r@[k]),
        cands_sorted(v@) ==> cands_sorted(r@),
        cands_distinct_keys(v@) ==> cands_distinct_keys(r@),
        r@.len() <= v@.len(),
{
    let mut out: Vec<Candidate> = Vec::new();
    let ghost mut idxs: Seq<int> = Seq::empty();
    let mut i: usize = 0;
    proof {
        assert(out@ =~= dedup_consec(v@.take(0)));
    }
    while i < v.len()
        invariant
            i <= v@.len(),
            out@ == dedup_consec(v@.take(i as int)),
            idxs.len() == out@.len(),
            forall|k: int| 0 <= k < idxs.len() ==> 0 <= #[trigger] idxs[k] < i,
            forall|k: int| 0 <= k < idxs.len() ==> out@[k] == v@[#[trigger] idxs[k]],
            forall|k: int| 0 <= k < idxs.len() - 1 ==> #[trigger] idxs[k] < idxs[k + 1],
            forall|k: int|
                0 <= k < out@.len() - 1 ==> !cand_same_key(#[trigger] out@[k], out@[k + 1]),
            i > 0 && out@.len() > 0 ==> cand_same_key(out@.last(), v@[i - 1]),
            out@.len() > 0 <==> i > 0,
        decreases v@.len() - i,
    {
        proof {
            assert(v@.take(i + 1).drop_last() =~= v@.take(i as int));
            assert(v@.take(i + 1).last() == v@[i as int]);
            if i > 0 {
                assert(v@.take(i + 1)[i - 1] == v@[i - 1]);
            }
        }
        let keep = if out.len() == 0 {
            true
        } else {
            !cand_same_key_exec(&v[i], &v[i - 1])
        };
        if keep {
            out.push(v[i].clone());
            proof {
                idxs = idxs.push(i as int);
            }
        }
        i = i + 1;
    }
    proof {
        assert(v@.take(v@.len() as int) =~= v@);
        assert forall|k: int| 0 <= k < out@.len() implies v@.contains(#[trigger] out@[k]) by {
            assert(out@[k] == v@[idxs[k]]);
        }
        if cands_sorted(v@) {
            assert forall|a: int, b: int|
                0 <= a < b < out@.len() implies #[trigger] cand_le(out@[a], out@[b]) by {
                assert(out@[a] == v@[idxs[a]] && out@[b] == v@[idxs[b]]);
                lemma_idxs_increasing(idxs, a, b);
            }
        }
        if cands_distinct_keys(v@) {
            assert forall|a: int, b: int|
                0 <= a < b < out@.len() implies !(#[trigger] cand_same_key(out@[a], out@[b])) by {
                lemma_idxs_increasing(idxs, a, b);
            }
        }
        assert(out@.len() <= v@.len()) by {
            if out@.len() > v@.len() {
                lemma_idxs_increasing(idxs, 0, idxs.len() - 1);
            }
        }
    }
    out
}

/// A pairwise-increasing index sequence is increasing across any gap.
proof fn lemma_idxs_increasing(idxs: Seq<int>, a: int, b: int)
    requires
        forall|k: int| 0 <= k < idxs.len() - 1 ==> #[trigger] idxs[k] < idxs[k + 1],
        0 <= a <= b < idxs.len(),
    ensures
        idxs[b] - idxs[a] >= b - a,
    decreases b - a,
{
    if a < b {
        lemma_idxs_increasing(idxs, a, b - 1);
    }
}

impl Filter for DedupSortTruncate {
    /// Sort by weight descending then text ascending; drop consecutive
    /// duplicates sharing text and span; truncate to the limit, clamped
    /// to at least one. The result is pinned up to the stable sort: it
    /// is the truncated duplicate-removal of some sorted permutation of
    /// the input.
    fn apply(&self, candidates: Vec<Candidate>) -> (r: Vec<Candidate>)
        ensures
            cands_sorted(r@),
            cands_distinct_adjacent(r@),
            cands_distinct_keys(candidates@) ==> cands_distinct_keys(r@),
            forall|k: int| 0 <= k < r@.len() ==> candidates@.contains(#[trigger] r@[k]),
            r@.len() <= if self.limit == 0 {
                1int
            } else {
                self.limit as int
            },
            exists|s: Seq<Candidate>|
                {
                    &&& s.to_multiset() == candidates@.to_multiset()
                    &&& cands_sorted(s)
                    &&& r@ == dedup_consec(s).take(
                        vstd::math::min(
                            if self.limit == 0 {
                                1int
                            } else {
                                self.limit as int
                            },
                            dedup_consec(s).len() as int,
                        ),
                    )
                },
    {
        broadcast use vstd::seq_lib::group_to_multiset_ensures;

        let limit: usize = if self.limit < 1 {
            1
        } else {
            self.limit as usize
        };
        let ghost orig = candidates@;
        let sorted = sort_candidates(candidates);
        proof {
            if cands_distinct_keys(orig) {
                lemma_distinct_keys_permutation(orig, sorted@);
            }
        }
        let mut deduped = dedup_consecutive(&sorted);
        proof {
            assert forall|k: int| 0 <= k < deduped@.len() implies orig.contains(
                #[trigger] deduped@[k],
            ) by {
                assert(sorted@.contains(deduped@[k]));
                assert(sorted@.to_multiset().count(deduped@[k]) > 0);
                assert(orig.to_multiset().count(deduped@[k]) > 0);
            }
        }
        let ghost before = deduped@;
        deduped.truncate(limit);
        proof {
            assert(deduped@ == before.subrange(
                0,
                vstd::math::min(limit as int, before.len() as int),
            ));
            let ghost cut = vstd::math::min(limit as int, before.len() as int);
            assert(deduped@ =~= before.take(cut));
            assert(sorted@.to_multiset() == orig.to_multiset());
            assert(cands_sorted(sorted@));
            assert(before == dedup_consec(sorted@));
        }
        deduped
    }
}

} // verus!
