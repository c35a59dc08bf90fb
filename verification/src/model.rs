//! Candidates and the read-only snapshot handed to front-ends.

use vstd::prelude::*;
use crate::strutil::lex_le;

verus! {

/// A candidate word or phrase that the user may select. The range
/// `[segment_start, segment_end)` indexes into the current segmentation;
/// accepting the candidate advances the confirmed boundary to
/// `segment_end`.
pub struct Candidate {
    /// The text that selecting the candidate commits.
    pub text: String,
    /// Free-form provenance note (a source key, a composition tag).
    pub comment: Option<String>,
    /// Ranking weight; higher sorts earlier.
    pub weight: i32,
    /// First segment index the candidate covers.
    pub segment_start: usize,
    /// One past the last segment index the candidate covers.
    pub segment_end: usize,
}

impl Clone for Candidate {
    fn clone(&self) -> (r: Self)
        ensures
            r == *self,
    {
        Candidate {
            text: self.text.clone(),
            comment: match &self.comment {
                Some(c) => Some(c.clone()),
                None => None,
            },
            weight: self.weight,
            segment_start: self.segment_start,
            segment_end: self.segment_end,
        }
    }
}

/// Ranking order on candidates: weight descending, then text ascending.
/// Total and transitive; candidates that tie on both compare equal both
/// ways.
pub open spec fn cand_le(a: Candidate, b: Candidate) -> bool {
    a.weight > b.weight || (a.weight == b.weight && lex_le(a.text@, b.text@))
}

/// The candidate sequence is sorted by `cand_le`.
pub open spec fn cands_sorted(s: Seq<Candidate>) -> bool {
    forall|i: int, j: int| 0 <= i < j < s.len() ==> cand_le(s[i], s[j])
}

/// Two candidates that count as duplicates: same text over the same span.
pub open spec fn cand_same_key(a: Candidate, b: Candidate) -> bool {
    a.text@ == b.text@ && a.segment_start == b.segment_start && a.segment_end == b.segment_end
}

/// No two candidates in the sequence share text and span.
pub open spec fn cands_distinct_keys(s: Seq<Candidate>) -> bool {
    forall|i: int, j: int| 0 <= i < j < s.len() ==> !cand_same_key(s[i], s[j])
}

/// No two neighbouring candidates share text and span.
pub open spec fn cands_distinct_adjacent(s: Seq<Candidate>) -> bool {
    forall|k: int| 0 <= k < s.len() - 1 ==> !cand_same_key(#[trigger] s[k], s[k + 1])
}

/// A candidate's span lies inside the open range `[confirm, caret)`.
pub open spec fn cand_span_in(c: Candidate, confirm: int, caret: int) -> bool {
    c.segment_start == confirm && confirm < c.segment_end <= caret
}

/// Decides `cand_le` on two candidates.
pub fn cand_le_exec(a: &Candidate, b: &Candidate) -> (r: bool)
    ensures
        r == cand_le(*a, *b),
{
    if a.weight > b.weight {
        true
    } else if a.weight == b.weight {
        crate::strutil::str_lex_le(a.text.as_str(), b.text.as_str())
    } else {
        false
    }
}

/// Decides `cand_same_key` on two candidates.
pub fn cand_same_key_exec(a: &Candidate, b: &Candidate) -> (r: bool)
    ensures
        r == cand_same_key(*a, *b),
{
    a.text == b.text && a.segment_start == b.segment_start && a.segment_end == b.segment_end
}

/// Read-only snapshot of a session for a front-end to render. Built on
/// demand and never held across mutations.
pub struct UiState {
    /// The raw, not yet committed input string.
    pub raw_input: String,
    /// Display form of the segmentation.
    pub preedit: String,
    /// The segmentation the candidates index into.
    pub segment: Vec<String>,
    /// End boundary of the segments open for confirmation.
    pub caret: usize,
    /// Segments before this index are already confirmed.
    pub confirm: usize,
    /// Text of the already confirmed selections.
    pub confirm_text: String,
    /// Candidates for the open span `[confirm, caret)`.
    pub candidate_list: Vec<Candidate>,
}

} // verus!
