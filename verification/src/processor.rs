//! The input-event handling chain. Each processor either consumes an
//! event, mutating the shared context, or passes it on to the next one.

use vstd::prelude::*;
use crate::context::{Context, is_empty_state};
use crate::engine::Analysis;
use crate::key_event::{Action, InputEvent};
use crate::model::{UiState, cand_span_in, cands_sorted};
use crate::strutil::{is_input_char, lower_char};

verus! {

/// The object the processors see of the engine: analysis of raw input
/// and snapshot composition. The snapshot contract is what the whole
/// session state machine leans on: the clamping of `caret` and
/// `confirm`, and that every candidate starts at the confirmed boundary
/// and ends inside the open span.
pub trait EngineFacade {
    fn analyze(&self, raw_input: &str) -> Analysis;

    fn compose_with_state(
        &self,
        raw_input: &str,
        analysis: Analysis,
        confirm: usize,
        caret: Option<usize>,
        confirm_text: String,
    ) -> (r: UiState)
        ensures
            r.raw_input@ == raw_input@,
            r.preedit@ == analysis.preedit@,
            r.segment.deep_view() == analysis.segment.deep_view(),
            r.caret as int == vstd::math::min(
                match caret {
                    Some(c) => c as int,
                    None => analysis.segment@.len() as int,
                },
                analysis.segment@.len() as int,
            ),
            r.confirm as int == vstd::math::min(confirm as int, r.caret as int),
            r.confirm_text@ == confirm_text@,
            r.caret <= r.segment@.len(),
            forall|k: int|
                0 <= k < r.candidate_list@.len() ==> cand_span_in(
                    #[trigger] r.candidate_list@[k],
                    r.confirm as int,
                    r.caret as int,
                ),
            cands_sorted(r.candidate_list@),
    ;
}

/// Whether a processor handled the event or passed it on.
#[derive(Clone, Copy, PartialEq, Eq, Debug)]
pub enum ProcessStatus {
    /// The event was handled; later processors do not run.
    Consume,
    /// The event was not handled; the next processor sees it.
    Continue,
}

/// One stage of the event chain: reads the event, mutates the context,
/// and may emit actions. Well-formedness of the context is preserved.
pub trait Processor: Send + Sync {
    fn process<E: EngineFacade>(
        &mut self,
        engine: &E,
        context: &mut Context,
        input_event: &InputEvent,
    ) -> (r: (ProcessStatus, Vec<Action>))
        requires
            old(context).wf(),
        ensures
            final(context).wf(),
    ;
}

/// What re-analysis leaves of the boundaries: the caret moves to the end
/// of the new segmentation, the confirmed boundary is clamped to it, and
/// the confirmed text is discarded exactly when the clamp moved it.
pub open spec fn editing_reanalyzed(pre: Context, post: Context) -> bool {
    &&& post.caret == post.analysis.segment@.len()
    &&& post.confirm as int == vstd::math::min(pre.confirm as int, post.caret as int)
    &&& (pre.confirm > post.caret ==> post.confirm_text@.len() == 0)
    &&& (pre.confirm <= post.caret ==> post.confirm_text@ == pre.confirm_text@)
}

/// Editing: character insertion, backspace and clearing, each followed
/// by re-analysis of the raw input.
pub struct EditingProcessor;

impl Processor for EditingProcessor {
    fn process<E: EngineFacade>(
        &mut self,
        engine: &E,
        context: &mut Context,
        input_event: &InputEvent,
    ) -> (r: (ProcessStatus, Vec<Action>))
        ensures
            final(context).wf(),
            r.1@.len() == 0,
            r.0 == ProcessStatus::Consume <==> (*input_event matches InputEvent::Char(_)
                || *input_event matches InputEvent::Backspace
                || *input_event matches InputEvent::Clear),
            r.0 == ProcessStatus::Continue ==> *final(context) == *old(context),
            *input_event matches InputEvent::Char(ch) ==> (if is_input_char(ch) {
                final(context).raw_input@ == old(context).raw_input@.push(lower_char(ch))
                    && editing_reanalyzed(*old(context), *final(context))
            } else {
                *final(context) == *old(context)
            }),
            *input_event matches InputEvent::Backspace ==> (if old(context).raw_input@.len() == 0 {
                final(context).raw_input@ == old(context).raw_input@
            } else {
                final(context).raw_input@ == old(context).raw_input@.drop_last()
            }) && editing_reanalyzed(*old(context), *final(context)),
            *input_event matches InputEvent::Clear ==> is_empty_state(*final(context)),
    {
        match *input_event {
            InputEvent::Char(ch) => {
                if ('a' <= ch && ch <= 'z') || ('A' <= ch && ch <= 'Z') || ch == '\'' {
                    crate::strutil::push_char(
                        &mut context.raw_input,
                        crate::strutil::lower_char_exec(ch),
                    );
                    context.reanalyze(engine);
                }
                (ProcessStatus::Consume, Vec::new())
            },
            InputEvent::Backspace => {
                crate::strutil::pop_char(&mut context.raw_input);
                context.reanalyze(engine);
                (ProcessStatus::Consume, Vec::new())
            },
            InputEvent::Clear => {
                context.reset();
                (ProcessStatus::Consume, Vec::new())
            },
            _ => (ProcessStatus::Continue, Vec::new()),
        }
    }
}

/// Selection: space selects the highlighted candidate, a digit selects
/// by index; both advance the confirmed boundary.
pub struct SelectionProcessor;

impl Processor for SelectionProcessor {
    fn process<E: EngineFacade>(
        &mut self,
        engine: &E,
        context: &mut Context,
        input_event: &InputEvent,
    ) -> (r: (ProcessStatus, Vec<Action>))
        ensures
            final(context).wf(),
            r.0 == ProcessStatus::Consume <==> (*input_event matches InputEvent::Space
                || *input_event matches InputEvent::Select(_)),
            r.0 == ProcessStatus::Continue ==> *final(context) == *old(context) && r.1@.len()
                == 0,
            r.0 == ProcessStatus::Consume && (old(context).raw_input@.len() == 0 || old(context).confirm >= old(context).caret) ==> *final(context) == *old(context) && r.1@.len()
                == 0,
            final(context).confirm >= old(context).confirm || is_empty_state(*final(context)),
            final(context).caret == old(context).caret || is_empty_state(*final(context)),
            r.1@.len() <= 1,
            r.1@.len() == 1 ==> final(context).confirm == final(context).caret && final(context).confirm_text@.len() == 0,
    {
        match *input_event {
            InputEvent::Space => {
                let actions = context.select_candidate(engine, 0);
                (ProcessStatus::Consume, actions)
            },
            InputEvent::Select(i) => {
                let actions = context.select_candidate(engine, i);
                (ProcessStatus::Consume, actions)
            },
            _ => (ProcessStatus::Continue, Vec::new()),
        }
    }
}

/// Enter: commits the confirmed text together with the remaining raw
/// input, then resets the session.
pub struct EnterCommitProcessor;

impl Processor for EnterCommitProcessor {
    fn process<E: EngineFacade>(
        &mut self,
        _engine: &E,
        context: &mut Context,
        input_event: &InputEvent,
    ) -> (r: (ProcessStatus, Vec<Action>))
        ensures
            final(context).wf(),
            r.0 == ProcessStatus::Consume <==> *input_event matches InputEvent::Enter,
            r.0 == ProcessStatus::Continue ==> *final(context) == *old(context) && r.1@.len()
                == 0,
            *input_event matches InputEvent::Enter ==> is_empty_state(*final(context)),
            *input_event matches InputEvent::Enter && old(context).confirm_text@.len() + old(context).raw_input@.len() == 0 ==> r.1@.len() == 0,
            *input_event matches InputEvent::Enter && old(context).confirm_text@.len() + old(context).raw_input@.len() > 0 ==> r.1@.len() == 1 && r.1@[0]->Commit_0@ == old(context).confirm_text@ + old(context).raw_input@,
    {
        match *input_event {
            InputEvent::Enter => (ProcessStatus::Consume, context.commit_on_enter()),
            _ => (ProcessStatus::Continue, Vec::new()),
        }
    }
}

} // verus!
