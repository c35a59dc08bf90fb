//! The session object a front-end talks to: it owns the engine, the
//! context and the processor chain, feeds every event through the chain
//! and hands back a fresh snapshot with the collected actions.

use vstd::prelude::*;
use crate::context::{Context, is_empty_state};
use crate::dictionary::Dictionary;
use crate::engine::{Analyzer, Engine};
use crate::key_event::{Action, InputEvent};
use crate::model::{UiState, cand_span_in, cands_sorted};
use crate::processor::{
    EditingProcessor, EnterCommitProcessor, ProcessStatus, Processor, SelectionProcessor,
    editing_reanalyzed,
};
use crate::segmenter::Segmenter;
use crate::strutil::{is_input_char, lower_char};

verus! {

/// One input session: engine, context, and the ordered processor chain
/// (editing, then selection, then enter-commit).
pub struct Session<D, P> {
    engine: Engine<D, P>,
    ctx: Context,
    editing: EditingProcessor,
    selection: SelectionProcessor,
    enter: EnterCommitProcessor,
}

impl<D, P> Session<D, P> {
    /// The context invariant: it holds of a fresh session and every
    /// event handler preserves it, so it holds in every reachable
    /// session state.
    pub closed spec fn wf(self) -> bool {
        self.ctx.wf()
    }

    /// The session's state, for contracts over event handling.
    pub closed spec fn spec_ctx(&self) -> Context {
        self.ctx
    }

    /// The engine the session was built over.
    pub closed spec fn spec_engine(&self) -> Engine<D, P> {
        self.engine
    }
}

impl<D: Dictionary, P: Analyzer + Segmenter> Session<D, P> {
    /// A fresh session over the given engine, with the default
    /// processor chain and an empty context.
    pub fn new(engine: Engine<D, P>) -> (r: Self)
        ensures
            r.wf(),
            is_empty_state(r.spec_ctx()),
            r.spec_engine() == engine,
    {
        Session {
            engine,
            ctx: Context::default(),
            editing: EditingProcessor,
            selection: SelectionProcessor,
            enter: EnterCommitProcessor,
        }
    }

    /// The current read-only snapshot. Its boundaries are consistent and
    /// every candidate covers a span starting at the confirmed boundary
    /// inside the open range.
    pub fn ui_state(&self) -> (r: UiState)
        requires
            self.wf(),
        ensures
            r.raw_input@ == self.spec_ctx().raw_input@,
            r.preedit@ == self.spec_ctx().analysis.preedit@,
            r.segment.deep_view() == self.spec_ctx().analysis.segment.deep_view(),
            r.caret == self.spec_ctx().caret,
            r.confirm == self.spec_ctx().confirm,
            r.confirm_text@ == self.spec_ctx().confirm_text@,
            r.confirm <= r.caret <= r.segment@.len(),
            forall|k: int|
                0 <= k < r.candidate_list@.len() ==> cand_span_in(
                    #[trigger] r.candidate_list@[k],
                    r.confirm as int,
                    r.caret as int,
                ),
            cands_sorted(r.candidate_list@),
    {
        let r = self.ctx.ui_state(&self.engine);
        proof {
            assert(r.segment.deep_view().len() == r.segment@.len());
            assert(self.ctx.analysis.segment.deep_view().len()
                == self.ctx.analysis.segment@.len());
        }
        r
    }

    /// Feeds one event through the processor chain, stopping at the
    /// first processor that consumes it, and returns the new snapshot
    /// with every action emitted along the way. Editing events rewrite
    /// the raw input and re-analyse it, selection advances the confirmed
    /// boundary, Enter commits and resets, and an event no processor
    /// claims changes nothing and emits nothing.
    pub fn handle(&mut self, ev: InputEvent) -> (r: (UiState, Vec<Action>))
        requires
            old(self).wf(),
        ensures
            final(self).wf(),
            final(self).spec_engine() == old(self).spec_engine(),
            r.0.raw_input@ == final(self).spec_ctx().raw_input@,
            r.0.preedit@ == final(self).spec_ctx().analysis.preedit@,
            r.0.segment.deep_view() == final(self).spec_ctx().analysis.segment.deep_view(),
            r.0.caret == final(self).spec_ctx().caret,
            r.0.confirm == final(self).spec_ctx().confirm,
            r.0.confirm_text@ == final(self).spec_ctx().confirm_text@,
            r.0.confirm <= r.0.caret <= r.0.segment@.len(),
            forall|k: int|
                0 <= k < r.0.candidate_list@.len() ==> cand_span_in(
                    #[trigger] r.0.candidate_list@[k],
                    r.0.confirm as int,
                    r.0.caret as int,
                ),
            ev matches InputEvent::Char(ch) ==> r.1@.len() == 0 && (if is_input_char(ch) {
                final(self).spec_ctx().raw_input@ == old(self).spec_ctx().raw_input@.push(
                    lower_char(ch),
                ) && editing_reanalyzed(old(self).spec_ctx(), final(self).spec_ctx())
            } else {
                final(self).spec_ctx() == old(self).spec_ctx()
            }),
            ev matches InputEvent::Backspace ==> r.1@.len() == 0 && (if old(self).spec_ctx().raw_input@.len() == 0 {
                final(self).spec_ctx().raw_input@ == old(self).spec_ctx().raw_input@
            } else {
                final(self).spec_ctx().raw_input@ == old(self).spec_ctx().raw_input@.drop_last()
            }) && editing_reanalyzed(old(self).spec_ctx(), final(self).spec_ctx()),
            ev matches InputEvent::Clear ==> r.1@.len() == 0 && is_empty_state(
                final(self).spec_ctx(),
            ),
            (ev matches InputEvent::Space || ev matches InputEvent::Select(_)) ==> r.1@.len()
                <= 1 && (old(self).spec_ctx().raw_input@.len() == 0 || old(self).spec_ctx().confirm
                >= old(self).spec_ctx().caret ==> final(self).spec_ctx() == old(self).spec_ctx()
                && r.1@.len() == 0) && (final(self).spec_ctx().confirm >= old(self).spec_ctx().confirm || is_empty_state(final(self).spec_ctx())) && (r.1@.len() == 1
                ==> final(self).spec_ctx().confirm == final(self).spec_ctx().caret && final(self).spec_ctx().confirm_text@.len() == 0),
            ev matches InputEvent::Enter ==> is_empty_state(final(self).spec_ctx()) && (if old(self).spec_ctx().confirm_text@.len() + old(self).spec_ctx().raw_input@.len() == 0 {
                r.1@.len() == 0
            } else {
                r.1@.len() == 1 && r.1@[0]->Commit_0@ == old(self).spec_ctx().confirm_text@ + old(self).spec_ctx().raw_input@
            }),
            ev matches InputEvent::Exit ==> final(self).spec_ctx() == old(self).spec_ctx()
                && r.1@.len() == 0,
    {
        let mut actions: Vec<Action> = Vec::new();
        let (status, mut a) = self.editing.process(&self.engine, &mut self.ctx, &ev);
        actions.append(&mut a);
        let consumed = match status {
            ProcessStatus::Consume => true,
            ProcessStatus::Continue => false,
        };
        if !consumed {
            let (status, mut a) = self.selection.process(&self.engine, &mut self.ctx, &ev);
            actions.append(&mut a);
            let consumed = match status {
                ProcessStatus::Consume => true,
                ProcessStatus::Continue => false,
            };
            if !consumed {
                let (_status, mut a) = self.enter.process(&self.engine, &mut self.ctx, &ev);
                actions.append(&mut a);
            }
        }
        let ui = self.ctx.ui_state(&self.engine);
        proof {
            assert(ui.segment.deep_view().len() == ui.segment@.len());
            assert(self.ctx.analysis.segment.deep_view().len()
                == self.ctx.analysis.segment@.len());
        }
        (ui, actions)
    }
}

} // verus!
