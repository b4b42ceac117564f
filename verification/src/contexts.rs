//! What the models are shown, as the engine composes it.
//!
//! The rendered lines come with what they stand for: a fact line with its key
//! and value, a record line with its turn, a note with the hash it is known by.

use vstd::prelude::*;

use crate::types::{clone_texts, Json};

verus! {

/// A fact as a prompt carries it.
#[derive(Debug)]
pub struct ShownFact {
    pub key: String,
    pub value: Json,
    pub rendered: String,
}

pub struct ShownFactV {
    pub key: Seq<char>,
    pub value: Seq<char>,
    pub rendered: Seq<char>,
}

impl DeepView for ShownFact {
    type V = ShownFactV;

    open spec fn deep_view(&self) -> ShownFactV {
        ShownFactV {
            key: self.key.deep_view(),
            value: self.value.deep_view(),
            rendered: self.rendered.deep_view(),
        }
    }
}

impl Clone for ShownFact {
    fn clone(&self) -> (r: Self)
        ensures
            r.deep_view() == self.deep_view(),
    {
        let r: ShownFact = ShownFact {
            key: self.key.clone(),
            value: self.value.clone(),
            rendered: self.rendered.clone(),
        };
        r
    }
}

/// The rolling summary as a prompt carries it.
#[derive(Debug)]
pub struct ShownSummary {
    pub through_turn: u32,
    pub rendered: String,
}

pub struct ShownSummaryV {
    pub through_turn: u32,
    pub rendered: Seq<char>,
}

impl DeepView for ShownSummary {
    type V = ShownSummaryV;

    open spec fn deep_view(&self) -> ShownSummaryV {
        ShownSummaryV {
            through_turn: self.through_turn,
            rendered: self.rendered.deep_view(),
        }
    }
}

impl Clone for ShownSummary {
    fn clone(&self) -> (r: Self)
        ensures
            r.deep_view() == self.deep_view(),
    {
        let r: ShownSummary = ShownSummary {
            through_turn: self.through_turn,
            rendered: self.rendered.clone(),
        };
        r
    }
}

/// A completed turn as a prompt carries it.
#[derive(Debug)]
pub struct ShownRecord {
    pub turn: u32,
    pub rendered: String,
}

pub struct ShownRecordV {
    pub turn: u32,
    pub rendered: Seq<char>,
}

impl DeepView for ShownRecord {
    type V = ShownRecordV;

    open spec fn deep_view(&self) -> ShownRecordV {
        ShownRecordV {
            turn: self.turn,
            rendered: self.rendered.deep_view(),
        }
    }
}

impl Clone for ShownRecord {
    fn clone(&self) -> (r: Self)
        ensures
            r.deep_view() == self.deep_view(),
    {
        let r: ShownRecord = ShownRecord {
            turn: self.turn,
            rendered: self.rendered.clone(),
        };
        r
    }
}

/// A guidance note, with the hash that it is known by.
#[derive(Debug)]
pub struct ShownNote {
    pub hash: String,
    pub text: String,
}

pub struct ShownNoteV {
    pub hash: Seq<char>,
    pub text: Seq<char>,
}

impl DeepView for ShownNote {
    type V = ShownNoteV;

    open spec fn deep_view(&self) -> ShownNoteV {
        ShownNoteV {
            hash: self.hash.deep_view(),
            text: self.text.deep_view(),
        }
    }
}

impl Clone for ShownNote {
    fn clone(&self) -> (r: Self)
        ensures
            r.deep_view() == self.deep_view(),
    {
        let r: ShownNote = ShownNote {
            hash: self.hash.clone(),
            text: self.text.clone(),
        };
        r
    }
}

/// Everything that the reply model is shown.
#[derive(Debug)]
pub struct ReplyContext {
    pub persona: String,
    pub facts: Vec<ShownFact>,
    pub summary: Option<ShownSummary>,
    pub window: Vec<ShownRecord>,
    pub user_text: String,
    pub obligations: Vec<String>,
    pub turn_trace: String,
    pub guidance: Vec<ShownNote>,
    pub do_not_state: Vec<String>,
    pub do_not_repeat: Vec<String>,
}

pub struct ReplyContextV {
    pub persona: Seq<char>,
    pub facts: Seq<ShownFactV>,
    pub summary: Option<ShownSummaryV>,
    pub window: Seq<ShownRecordV>,
    pub user_text: Seq<char>,
    pub obligations: Seq<Seq<char>>,
    pub turn_trace: Seq<char>,
    pub guidance: Seq<ShownNoteV>,
    pub do_not_state: Seq<Seq<char>>,
    pub do_not_repeat: Seq<Seq<char>>,
}

impl DeepView for ReplyContext {
    type V = ReplyContextV;

    open spec fn deep_view(&self) -> ReplyContextV {
        ReplyContextV {
            persona: self.persona.deep_view(),
            facts: self.facts.deep_view(),
            summary: self.summary.deep_view(),
            window: self.window.deep_view(),
            user_text: self.user_text.deep_view(),
            obligations: self.obligations.deep_view(),
            turn_trace: self.turn_trace.deep_view(),
            guidance: self.guidance.deep_view(),
            do_not_state: self.do_not_state.deep_view(),
            do_not_repeat: self.do_not_repeat.deep_view(),
        }
    }
}

impl Clone for ReplyContext {
    fn clone(&self) -> (r: Self)
        ensures
            r.deep_view() == self.deep_view(),
    {
        let r: ReplyContext = ReplyContext {
            persona: self.persona.clone(),
            facts: self.facts.clone(),
            summary: self.summary.clone(),
            window: self.window.clone(),
            user_text: self.user_text.clone(),
            obligations: clone_texts(&self.obligations),
            turn_trace: self.turn_trace.clone(),
            guidance: self.guidance.clone(),
            do_not_state: clone_texts(&self.do_not_state),
            do_not_repeat: clone_texts(&self.do_not_repeat),
        };
        proof {
            assert(r.facts.deep_view() =~= self.facts.deep_view());
            assert(r.summary.deep_view() =~= self.summary.deep_view());
            assert(r.window.deep_view() =~= self.window.deep_view());
            assert(r.guidance.deep_view() =~= self.guidance.deep_view());
        }
        r
    }
}

/// What the emitter is shown beside its context when it may answer instead of
/// acting.
#[derive(Debug)]
pub struct AnswerBlocks {
    pub persona: String,
    pub reply_guidance: Vec<String>,
    pub memory_silent: bool,
    pub with_action: bool,
}

pub struct AnswerBlocksV {
    pub persona: Seq<char>,
    pub reply_guidance: Seq<Seq<char>>,
    pub memory_silent: bool,
    pub with_action: bool,
}

impl DeepView for AnswerBlocks {
    type V = AnswerBlocksV;

    open spec fn deep_view(&self) -> AnswerBlocksV {
        AnswerBlocksV {
            persona: self.persona.deep_view(),
            reply_guidance: self.reply_guidance.deep_view(),
            memory_silent: self.memory_silent,
            with_action: self.with_action,
        }
    }
}

impl Clone for AnswerBlocks {
    fn clone(&self) -> (r: Self)
        ensures
            r.deep_view() == self.deep_view(),
    {
        let r: AnswerBlocks = AnswerBlocks {
            persona: self.persona.clone(),
            reply_guidance: clone_texts(&self.reply_guidance),
            memory_silent: self.memory_silent,
            with_action: self.with_action,
        };
        r
    }
}

/// Everything that the emitter is shown beside the legal actions.
#[derive(Debug)]
pub struct EmitterContext {
    pub facts: Vec<ShownFact>,
    pub summary: Option<ShownSummary>,
    pub window: Vec<ShownRecord>,
    pub user_text: String,
    pub obligations: Vec<String>,
    pub trace_so_far: Vec<String>,
    pub pending_confirmation: bool,
    pub rejections_this_turn: Vec<String>,
    pub guidance: Vec<String>,
    pub budget_line: Option<String>,
    pub answer: Option<AnswerBlocks>,
}

pub struct EmitterContextV {
    pub facts: Seq<ShownFactV>,
    pub summary: Option<ShownSummaryV>,
    pub window: Seq<ShownRecordV>,
    pub user_text: Seq<char>,
    pub obligations: Seq<Seq<char>>,
    pub trace_so_far: Seq<Seq<char>>,
    pub pending_confirmation: bool,
    pub rejections_this_turn: Seq<Seq<char>>,
    pub guidance: Seq<Seq<char>>,
    pub budget_line: Option<Seq<char>>,
    pub answer: Option<AnswerBlocksV>,
}

impl DeepView for EmitterContext {
    type V = EmitterContextV;

    open spec fn deep_view(&self) -> EmitterContextV {
        EmitterContextV {
            facts: self.facts.deep_view(),
            summary: self.summary.deep_view(),
            window: self.window.deep_view(),
            user_text: self.user_text.deep_view(),
            obligations: self.obligations.deep_view(),
            trace_so_far: self.trace_so_far.deep_view(),
            pending_confirmation: self.pending_confirmation,
            rejections_this_turn: self.rejections_this_turn.deep_view(),
            guidance: self.guidance.deep_view(),
            budget_line: self.budget_line.deep_view(),
            answer: self.answer.deep_view(),
        }
    }
}

impl Clone for EmitterContext {
    fn clone(&self) -> (r: Self)
        ensures
            r.deep_view() == self.deep_view(),
    {
        let r: EmitterContext = EmitterContext {
            facts: self.facts.clone(),
            summary: self.summary.clone(),
            window: self.window.clone(),
            user_text: self.user_text.clone(),
            obligations: clone_texts(&self.obligations),
            trace_so_far: clone_texts(&self.trace_so_far),
            pending_confirmation: self.pending_confirmation,
            rejections_this_turn: clone_texts(&self.rejections_this_turn),
            guidance: clone_texts(&self.guidance),
            budget_line: self.budget_line.clone(),
            answer: self.answer.clone(),
        };
        proof {
            assert(r.facts.deep_view() =~= self.facts.deep_view());
            assert(r.summary.deep_view() =~= self.summary.deep_view());
            assert(r.window.deep_view() =~= self.window.deep_view());
            assert(r.budget_line.deep_view() =~= self.budget_line.deep_view());
            assert(r.answer.deep_view() =~= self.answer.deep_view());
        }
        r
    }
}

} // verus!
