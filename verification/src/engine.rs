//! Analysis of raw input and the engine that turns session state into a
//! renderable snapshot.

use vstd::prelude::*;
use crate::dictionary::Dictionary;
use crate::filter::{DedupSortTruncate, Filter};
use crate::model::{Candidate, UiState, cand_span_in, cands_sorted};
use crate::segmenter::Segmenter;
use crate::translator::DictTranslator;

verus! {

/// The segmentation of a raw input string: an ordered token sequence and
/// its display form.
pub struct Analysis {
    /// The tokens: known spellings or single-letter fallback tokens.
    pub segment: Vec<String>,
    /// Display form of the segmentation.
    pub preedit: String,
}

impl Clone for Analysis {
    fn clone(&self) -> (r: Self)
        ensures
            r.segment.deep_view() == self.segment.deep_view(),
            r.preedit@ == self.preedit@,
    {
        let r = Analysis { segment: self.segment.clone(), preedit: self.preedit.clone() };
        proof {
            assert(r.segment.deep_view() =~= self.segment.deep_view()) by {
                assert forall|i: int|
                    0 <= i < self.segment@.len() implies r.segment.deep_view()[i]
                    == self.segment.deep_view()[i] by {
                    assert(vstd::pervasive::cloned::<String>(self.segment@[i], r.segment@[i]));
                }
            }
        }
        r
    }
}

/// Parses raw input into a segmentation. Pure with respect to the input:
/// equal inputs give equal analyses.
pub trait Analyzer: Send + Sync {
    fn analyze(&self, input: &str) -> Analysis;
}

/// The orchestrator: analyzer, dictionary and configuration, turning
/// session state into a renderable snapshot.
pub struct Engine<D, A> {
    /// The segmenter for raw input.
    analyzer: A,
    /// The candidate store.
    dictionary: D,
    /// Number of candidates shown, kept within two to nine.
    candidate_limit: u8,
    /// Greatest number of segments one word candidate may cover.
    max_word_length: u8,
    /// Cap on each single span query during composition.
    per_span_limit: usize,
}

impl<D, A> Engine<D, A> {
    /// The configured candidate limit.
    pub closed spec fn spec_candidate_limit(&self) -> u8 {
        self.candidate_limit
    }

    /// The configured greatest word span.
    pub closed spec fn spec_max_word_length(&self) -> u8 {
        self.max_word_length
    }

    /// The configured per-span query cap.
    pub closed spec fn spec_per_span_limit(&self) -> usize {
        self.per_span_limit
    }

    /// The dictionary the engine queries.
    pub closed spec fn spec_dictionary(&self) -> D {
        self.dictionary
    }

    /// The analyzer the engine segments with.
    pub closed spec fn spec_analyzer(&self) -> A {
        self.analyzer
    }

    /// Configuration sanity: the limits the constructors keep.
    #[verifier::type_invariant]
    pub closed spec fn wf(self) -> bool {
        2 <= self.candidate_limit <= 9 && self.max_word_length >= 1 && self.per_span_limit >= 1
    }
}

impl<D: Dictionary, A: Analyzer + Segmenter> Engine<D, A> {
    /// An engine over the given dictionary and analyzer, with the
    /// default configuration: nine candidates, words of up to four
    /// segments, sixteen results per span query.
    pub fn new(dictionary: D, analyzer: A) -> (r: Self)
        ensures
            r.spec_candidate_limit() == 9,
            r.spec_max_word_length() == 4,
            r.spec_per_span_limit() == 16,
            r.spec_dictionary() == dictionary,
            r.spec_analyzer() == analyzer,
    {
        Engine { dictionary, analyzer, candidate_limit: 9, max_word_length: 4, per_span_limit: 16 }
    }

    /// Sets the candidate limit; anything outside two to nine falls back
    /// to nine.
    pub fn candidate_limit(self, limit: u8) -> (r: Self)
        ensures
            r.spec_candidate_limit() == if 2 <= limit <= 9 {
                limit
            } else {
                9u8
            },
            r.spec_max_word_length() == self.spec_max_word_length(),
            r.spec_per_span_limit() == self.spec_per_span_limit(),
            r.spec_dictionary() == self.spec_dictionary(),
            r.spec_analyzer() == self.spec_analyzer(),
    {
        proof {
            use_type_invariant(&self);
        }
        let mut e = self;
        if limit < 2 || limit > 9 {
            e.candidate_limit = 9;
        } else {
            e.candidate_limit = limit;
        }
        e
    }

    /// Sets how many segments one word candidate may cover, at least one.
    pub fn max_word_length(self, n: u8) -> (r: Self)
        ensures
            r.spec_candidate_limit() == self.spec_candidate_limit(),
            r.spec_max_word_length() == if n < 1 {
                1u8
            } else {
                n
            },
            r.spec_per_span_limit() == self.spec_per_span_limit(),
            r.spec_dictionary() == self.spec_dictionary(),
            r.spec_analyzer() == self.spec_analyzer(),
    {
        proof {
            use_type_invariant(&self);
        }
        let mut e = self;
        e.max_word_length = if n < 1 {
            1
        } else {
            n
        };
        e
    }

    /// Segments raw input without generating candidates.
    pub fn analyze(&self, raw_input: &str) -> Analysis {
        self.analyzer.analyze(raw_input)
    }

    /// Builds a snapshot straight from raw input: nothing confirmed yet,
    /// caret at the end of the segmentation.
    pub fn compose(&self, raw_input: &str) -> (r: UiState)
        ensures
            r.raw_input@ == raw_input@,
            r.confirm == 0,
            r.caret == r.segment@.len(),
            r.confirm_text@.len() == 0,
            forall|k: int|
                0 <= k < r.candidate_list@.len() ==> cand_span_in(
                    #[trigger] r.candidate_list@[k],
                    r.confirm as int,
                    r.caret as int,
                ),
            cands_sorted(r.candidate_list@),
            r.candidate_list@.len() <= self.spec_candidate_limit(),
    {
        let analysis = self.analyze(raw_input);
        let ghost seg_len = analysis.segment@.len();
        let ghost adeep = analysis.segment.deep_view();
        let r = self.compose_with_state(raw_input, analysis, 0, None, String::new());
        proof {
            assert(adeep.len() == seg_len);
            assert(r.segment.deep_view().len() == r.segment@.len());
        }
        r
    }

    /// Builds the snapshot for a given session state. The caret is
    /// clamped to the segmentation, the confirmed boundary to the caret,
    /// and candidates are generated only for the open span
    /// `[confirm, caret)` — never for confirmed or unreachable segments.
    pub fn compose_with_state(
        &self,
        raw_input: &str,
        analysis: Analysis,
        confirm: usize,
        caret: Option<usize>,
        confirm_text: String,
    ) -> (r: UiState)
        ensures
            r.raw_input@ == raw_input@,
            r.preedit@ == analysis.preedit@,
            r.segment.deep_view() == analysis.segment.deep_view(),
            r.caret as int == vstd::math::min(
                match caret {
                    Some(c) => c as int,
                    None => analysis.segment@.len() as int,
                },
                analysis.segment@.len() as int,
            ),
            r.confirm as int == vstd::math::min(confirm as int, r.caret as int),
            r.confirm_text@ == confirm_text@,
            r.caret <= r.segment@.len(),
            forall|k: int|
                0 <= k < r.candidate_list@.len() ==> cand_span_in(
                    #[trigger] r.candidate_list@[k],
                    r.confirm as int,
                    r.caret as int,
                ),
            cands_sorted(r.candidate_list@),
            crate::model::cands_distinct_adjacent(r.candidate_list@),
            r.candidate_list@.len() <= self.spec_candidate_limit(),
    {
        let seg_len = analysis.segment.len();
        let caret2: usize = match caret {
            Some(c) => if c < seg_len {
                c
            } else {
                seg_len
            },
            None => seg_len,
        };
        let confirmed: usize = if confirm < caret2 {
            confirm
        } else {
            caret2
        };
        let candidate_list: Vec<Candidate> = if seg_len == 0 || confirmed >= caret2 {
            Vec::new()
        } else {
            self.compose_from_segment(&analysis.segment, confirmed, caret2)
        };
        proof {
            assert(analysis.segment@.len() == analysis.segment.deep_view().len());
        }
        UiState {
            raw_input: raw_input.to_owned(),
            preedit: analysis.preedit,
            segment: analysis.segment,
            caret: caret2,
            confirm: confirmed,
            confirm_text,
            candidate_list,
        }
    }

    /// Candidates for the open span: translation, then ranking,
    /// duplicate removal and truncation.
    fn compose_from_segment(&self, segment: &Vec<String>, start: usize, end: usize) -> (r: Vec<
        Candidate,
    >)
        requires
            start < end <= segment@.len(),
        ensures
            forall|k: int|
                0 <= k < r@.len() ==> cand_span_in(#[trigger] r@[k], start as int, end as int),
            cands_sorted(r@),
            crate::model::cands_distinct_adjacent(r@),
            r@.len() <= self.spec_candidate_limit(),
    {
        proof {
            use_type_invariant(&*self);
        }
        let translator = DictTranslator {
            dict: &self.dictionary,
            max_word_length: self.max_word_length,
            per_span_limit: self.per_span_limit,
        };
        let out = translator.translate_with_composition(
            segment,
            start,
            end,
            self.candidate_limit as usize,
        );
        let ghost outv = out@;
        let filtered = (DedupSortTruncate { limit: self.candidate_limit }).apply(out);
        proof {
            assert forall|k: int| 0 <= k < filtered@.len() implies cand_span_in(
                #[trigger] filtered@[k],
                start as int,
                end as int,
            ) by {
                assert(outv.contains(filtered@[k]));
                let w = choose|w: int| 0 <= w < outv.len() && outv[w] == filtered@[k];
                assert(cand_span_in(outv[w], start as int, end as int));
            }
        }
        filtered
    }
}

impl<D: Dictionary, A: Analyzer + Segmenter> crate::processor::EngineFacade for Engine<D, A> {
    fn analyze(&self, raw_input: &str) -> Analysis {
        Engine::<D, A>::analyze(self, raw_input)
    }

    fn compose_with_state(
        &self,
        raw_input: &str,
        analysis: Analysis,
        confirm: usize,
        caret: Option<usize>,
        confirm_text: String,
    ) -> UiState {
        Engine::<D, A>::compose_with_state(self, raw_input, analysis, confirm, caret, confirm_text)
    }
}

} // verus!
