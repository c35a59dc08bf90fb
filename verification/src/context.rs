//! The per-session mutable state: raw input, its analysis, the caret and
//! the confirmed boundary with its accumulated text.

use vstd::prelude::*;
use crate::engine::Analysis;
use crate::key_event::Action;
use crate::model::{Candidate, UiState, cand_span_in, cands_sorted};
use crate::processor::EngineFacade;

verus! {

/// The single mutable entity of a session. Every event handler borrows
/// it in turn; it is never aliased.
pub struct Context {
    /// The raw, not yet committed input.
    pub raw_input: String,
    /// The current segmentation of `raw_input`.
    pub analysis: Analysis,
    /// End boundary of the segments open for confirmation.
    pub caret: usize,
    /// Segments before this index are confirmed.
    pub confirm: usize,
    /// Accumulated text of confirmed selections.
    pub confirm_text: String,
}

impl Context {
    /// The state-machine invariant: the confirmed boundary never passes
    /// the caret, and the caret never passes the segmentation.
    pub open spec fn wf(self) -> bool {
        self.confirm <= self.caret <= self.analysis.segment@.len()
    }
}

/// The empty session state: everything blank, both boundaries at zero.
pub open spec fn is_empty_state(c: Context) -> bool {
    &&& c.raw_input@.len() == 0
    &&& c.analysis.segment@.len() == 0
    &&& c.analysis.preedit@.len() == 0
    &&& c.caret == 0
    &&& c.confirm == 0
    &&& c.confirm_text@.len() == 0
}

impl Default for Context {
    /// A fresh, empty context.
    fn default() -> (r: Self)
        ensures
            is_empty_state(r),
            r.wf(),
    {
        Context {
            raw_input: String::new(),
            analysis: Analysis { segment: Vec::new(), preedit: String::new() },
            caret: 0,
            confirm: 0,
            confirm_text: String::new(),
        }
    }
}

/// The empty state is unique up to observation: any two contexts in it
/// agree on every field a caller can read, so resetting is idempotent —
/// a second reset reproduces the state the first one left.
pub proof fn lemma_empty_state_unique(a: Context, b: Context)
    requires
        is_empty_state(a),
        is_empty_state(b),
    ensures
        a.raw_input@ == b.raw_input@,
        a.analysis.segment.deep_view() == b.analysis.segment.deep_view(),
        a.analysis.preedit@ == b.analysis.preedit@,
        a.caret == b.caret,
        a.confirm == b.confirm,
        a.confirm_text@ == b.confirm_text@,
{
    assert(a.raw_input@ =~= b.raw_input@);
    assert(a.analysis.segment.deep_view() =~= b.analysis.segment.deep_view());
    assert(a.analysis.preedit@ =~= b.analysis.preedit@);
    assert(a.confirm_text@ =~= b.confirm_text@);
}

impl Context {
    /// Returns to the empty state unconditionally. Running it twice
    /// leaves the same state as running it once: the post-state is the
    /// unique empty state, independent of the prior state.
    pub fn reset(&mut self)
        ensures
            is_empty_state(*final(self)),
            final(self).wf(),
    {
        *self = Context::default();
    }

    /// Re-runs the segmenter over the raw input. The caret moves to the
    /// end of the new segmentation; if the confirmed boundary now lies
    /// beyond the caret, it is clamped down and the confirmed text is
    /// discarded, since the old boundary indexes a segmentation that no
    /// longer exists.
    pub fn reanalyze<E: EngineFacade>(&mut self, engine: &E)
        ensures
            final(self).wf(),
            final(self).raw_input@ == old(self).raw_input@,
            final(self).caret == final(self).analysis.segment@.len(),
            final(self).confirm as int == vstd::math::min(
                old(self).confirm as int,
                final(self).caret as int,
            ),
            old(self).confirm > final(self).caret ==> final(self).confirm_text@.len() == 0,
            old(self).confirm <= final(self).caret ==> final(self).confirm_text@ == old(self).confirm_text@,
    {
        self.analysis = engine.analyze(self.raw_input.as_str());
        self.caret = self.analysis.segment.len();
        if self.confirm > self.caret {
            self.confirm = self.caret;
            self.confirm_text = String::new();
        }
    }

    /// Builds the read-only snapshot for the current state.
    pub fn ui_state<E: EngineFacade>(&self, engine: &E) -> (r: UiState)
        requires
            self.wf(),
        ensures
            r.raw_input@ == self.raw_input@,
            r.preedit@ == self.analysis.preedit@,
            r.segment.deep_view() == self.analysis.segment.deep_view(),
            r.caret == self.caret,
            r.confirm == self.confirm,
            r.confirm_text@ == self.confirm_text@,
            forall|k: int|
                0 <= k < r.candidate_list@.len() ==> cand_span_in(
                    #[trigger] r.candidate_list@[k],
                    self.confirm as int,
                    self.caret as int,
                ),
            cands_sorted(r.candidate_list@),
    {
        let analysis = self.analysis.clone();
        proof {
            assert(analysis.segment@.len() == analysis.segment.deep_view().len());
            assert(self.analysis.segment@.len() == self.analysis.segment.deep_view().len());
        }
        engine.compose_with_state(
            self.raw_input.as_str(),
            analysis,
            self.confirm,
            Some(self.caret),
            self.confirm_text.clone(),
        )
    }

    /// The Enter behaviour: commit the confirmed text followed by the
    /// remaining raw input, then reset. Nothing is emitted when both are
    /// empty; the reset happens regardless.
    pub fn commit_on_enter(&mut self) -> (r: Vec<Action>)
        ensures
            is_empty_state(*final(self)),
            final(self).wf(),
            old(self).confirm_text@.len() + old(self).raw_input@.len() == 0 ==> r@.len() == 0,
            old(self).confirm_text@.len() + old(self).raw_input@.len() > 0 ==> r@.len() == 1
                && r@[0] == Action::Commit(r@[0]->Commit_0) && r@[0]->Commit_0@ == old(self).confirm_text@ + old(self).raw_input@,
    {
        let mut actions: Vec<Action> = Vec::new();
        if !self.raw_input.as_str().is_empty() || !self.confirm_text.as_str().is_empty() {
            let mut s = String::new();
            s.append(self.confirm_text.as_str());
            s.append(self.raw_input.as_str());
            if !s.as_str().is_empty() {
                actions.push(Action::Commit(s));
            }
        }
        self.reset();
        actions
    }

    /// The selection step against a given candidate list. A structurally
    /// invalid selection is a silent no-op that leaves the state exactly
    /// as it was: an absent index, a candidate that does not start at
    /// the confirmed boundary, an empty or backward span, or one past
    /// the caret. A valid selection appends the candidate text and moves
    /// the boundary to the candidate's end; reaching the caret commits
    /// the accumulated text if there is any, and otherwise resets.
    pub fn select_from_list(&mut self, list: &Vec<Candidate>, index: usize) -> (r: Vec<Action>)
        requires
            old(self).wf(),
        ensures
            final(self).wf(),
            ({
                let rejected = old(self).raw_input@.len() == 0 || old(self).confirm >= old(self).caret || index >= list@.len() || list@[index as int].segment_start != old(self).confirm || list@[index as int].segment_end
                    <= list@[index as int].segment_start || list@[index as int].segment_end > old(self).caret;
                &&& (rejected ==> *final(self) == *old(self) && r@.len() == 0)
                &&& (!rejected ==> {
                    let c = list@[index as int];
                    let joined = old(self).confirm_text@ + c.text@;
                    &&& (c.segment_end < old(self).caret ==> final(self).confirm == c.segment_end
                        && final(self).caret == old(self).caret && final(self).raw_input@ == old(self).raw_input@
                        && final(self).analysis == old(self).analysis
                        && final(self).confirm_text@ == joined && r@.len() == 0)
                    &&& (c.segment_end == old(self).caret ==> {
                        &&& (joined.len() > 0 ==> final(self).confirm == c.segment_end && final(self).caret == old(self).caret
                            && final(self).raw_input@ == old(self).raw_input@
                            && final(self).analysis == old(self).analysis
                            && final(self).confirm_text@.len() == 0 && r@.len()
                            == 1 && r@[0]->Commit_0@ == joined)
                        &&& (joined.len() == 0 ==> is_empty_state(*final(self)) && r@.len() == 0)
                    })
                })
            }),
    {
        if self.raw_input.as_str().is_empty() || self.confirm >= self.caret {
            return Vec::new();
        }
        if index >= list.len() {
            return Vec::new();
        }
        let cand = &list[index];
        if cand.segment_start != self.confirm {
            return Vec::new();
        }
        if cand.segment_end <= cand.segment_start || cand.segment_end > self.caret {
            return Vec::new();
        }
        self.confirm_text.append(cand.text.as_str());
        self.confirm = cand.segment_end;
        if self.confirm == self.caret {
            if !self.confirm_text.as_str().is_empty() {
                let mut taken = String::new();
                core::mem::swap(&mut taken, &mut self.confirm_text);
                let mut actions: Vec<Action> = Vec::new();
                actions.push(Action::Commit(taken));
                return actions;
            }
            self.reset();
        }
        Vec::new()
    }

    /// Fetches the current snapshot and applies the selection at `index`
    /// to it. A no-op when nothing is open for selection.
    pub fn select_candidate<E: EngineFacade>(&mut self, engine: &E, index: usize) -> (r: Vec<
        Action,
    >)
        requires
            old(self).wf(),
        ensures
            final(self).wf(),
            old(self).raw_input@.len() == 0 || old(self).confirm >= old(self).caret ==> *final(self) == *old(self) && r@.len() == 0,
            final(self).confirm >= old(self).confirm || is_empty_state(*final(self)),
            final(self).caret == old(self).caret || is_empty_state(*final(self)),
            final(self).raw_input@ == old(self).raw_input@ || is_empty_state(*final(self)),
            final(self).analysis.segment.deep_view() == old(self).analysis.segment.deep_view()
                || is_empty_state(*final(self)),
            r@.len() <= 1,
            r@.len() == 1 ==> final(self).confirm == final(self).caret && final(self).confirm_text@.len() == 0,
    {
        if self.raw_input.as_str().is_empty() || self.confirm >= self.caret {
            return Vec::new();
        }
        let ui = self.ui_state(engine);
        self.select_from_list(&ui.candidate_list, index)
    }
}

} // verus!
