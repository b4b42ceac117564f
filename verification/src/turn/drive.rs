//! Driving a turn: what comes from outside, taken one answer at a time.
//!
//! A turn says what it needs, outside that is done, and what came of it is handed
//! back. Every course that a turn can take is a list of such answers, so what holds
//! of every list holds of every turn.

use vstd::prelude::*;

use crate::contexts::ReplyContextV;
use crate::events;
use crate::events::{
    ActionSpecV, EventKindV, EventV, Manifest, ManifestV, Proposal, ProposalV, RejectReasonV, StagedEffect, StagedEffectV,
    ToolOutcome, ToolOutcomeV, ToolOutput, ToolOutputV,
};
use crate::guards::{ClassifiedProposalV, GuardCtxV};
use crate::router::RouteV;
use crate::state;
use crate::store;
use crate::store::SessionLogV;
use crate::turn::accounting;
use crate::turn::accounting::{BookedCall, BookedCallV};
use crate::turn::builtins;
use crate::turn::config::EngineConfigV;
use crate::turn::gate;
use crate::turn::laws;
use crate::turn::legal;
use crate::turn::progress;
use crate::turn::progress::{CtxV, Turn, TurnV};
use crate::turn::reply;
use crate::turn::run;
use crate::turn::run::{EmitFailure, EmitFailureV};
use crate::turn::specs::{CONFIRM_PENDING, INSPECT_RESULT, RESPOND_DIRECTLY};
use crate::turn::steer;
use crate::turn::steer::{Arguments, ArgumentsV, Around, AroundV, Need, NeedV};
use crate::turn::tools;
use crate::turn::tools::ToolFailure;
use crate::types::{EventId, SideEffect, TaggedV, Timestamp, Trust};

verus! {

// ---------------------------------------------------------------------------
// Answers
// ---------------------------------------------------------------------------

/// What came of what a turn needed.
#[derive(Debug)]
#[allow(inconsistent_fields)]
pub enum Answer {
    /// A proposal, as it was made and as it is read, with the texts beside it.
    Proposed {
        raw: Proposal,
        said: Proposal,
        answer: Option<String>,
        line: Option<String>,
        calls: Vec<BookedCall>,
        manifest: Manifest,
    },
    /// No proposal.
    Unproposed { failure: EmitFailure, said: String, retryable: bool, calls: Vec<BookedCall>, manifest: Manifest },
    /// What was confirmed, as it is read.
    Repaired { said: Proposal },
    /// What is known of the arguments.
    Looked { h: Arguments },
    /// The store wrote or forgot a fact, or what it had against it.
    Stored { failure: Option<String> },
    /// What a search found.
    Searched { outcome: ToolOutcome },
    /// How many facts a purge took.
    Purged { result: Result<usize, String> },
    /// What a tool would do.
    Planned { staged: Option<StagedEffect> },
    /// What a tool gave.
    Returned { result: Result<ToolOutput, ToolFailure> },
}

#[allow(inconsistent_fields)]
pub enum AnswerV {
    Proposed {
        raw: ProposalV,
        said: ProposalV,
        answer: Option<Seq<char>>,
        line: Option<Seq<char>>,
        calls: Seq<BookedCallV>,
        manifest: ManifestV,
    },
    Unproposed {
        failure: EmitFailureV,
        said: Seq<char>,
        retryable: bool,
        calls: Seq<BookedCallV>,
        manifest: ManifestV,
    },
    Repaired { said: ProposalV },
    Looked { h: ArgumentsV },
    Stored { failure: Option<Seq<char>> },
    Searched { outcome: ToolOutcomeV },
    Purged { outcome: ToolOutcomeV },
    Planned { staged: Option<StagedEffectV> },
    Returned { outcome: ToolOutcomeV },
}

impl DeepView for Answer {
    type V = AnswerV;

    open spec fn deep_view(&self) -> AnswerV {
        match self {
            Answer::Proposed { raw, said, answer, line, calls, manifest } => AnswerV::Proposed {
                raw: raw.deep_view(),
                said: said.deep_view(),
                answer: answer.deep_view(),
                line: line.deep_view(),
                calls: calls.deep_view(),
                manifest: manifest.deep_view(),
            },
            Answer::Unproposed { failure, said, retryable, calls, manifest } => AnswerV::Unproposed {
                failure: failure.deep_view(),
                said: said.deep_view(),
                retryable: *retryable,
                calls: calls.deep_view(),
                manifest: manifest.deep_view(),
            },
            Answer::Repaired { said } => AnswerV::Repaired { said: said.deep_view() },
            Answer::Looked { h } => AnswerV::Looked { h: h.deep_view() },
            Answer::Stored { failure } => AnswerV::Stored { failure: failure.deep_view() },
            Answer::Searched { outcome } => AnswerV::Searched { outcome: outcome.deep_view() },
            Answer::Purged { result } => AnswerV::Purged { outcome: builtins::purge_outcome(*result) },
            Answer::Planned { staged } => AnswerV::Planned { staged: staged.deep_view() },
            Answer::Returned { result } => AnswerV::Returned { outcome: tools::outcome_from(*result) },
        }
    }
}

/// The model calls that an answer took.
pub open spec fn calls_in(a: AnswerV) -> nat {
    match a {
        AnswerV::Proposed { calls, .. } => calls.len(),
        AnswerV::Unproposed { calls, .. } => calls.len(),
        _ => 0,
    }
}

/// The turn after an answer, and what it needs then; nothing where the answer is
/// not one to what was needed, or where nothing runs the action or a fact's
/// beginning cannot be counted on from.
pub open spec fn takes(t: TurnV, w: AroundV, need: NeedV, a: AnswerV, at: Timestamp) -> Option<(TurnV, NeedV)> {
    match (need, a) {
        (NeedV::Proposal { .. }, AnswerV::Proposed { raw, said, answer, line, calls, manifest }) => Some(
            steer::weighed(
                steer::with_calls(t, calls, manifest),
                w,
                raw,
                said,
                answer,
                line,
                state::folded(t.log),
                steer::actions_now(t, w),
                steer::pending_now(t),
                at,
            ),
        ),
        (NeedV::Proposal { .. }, AnswerV::Unproposed { failure, said, retryable, calls, manifest }) => Some(
            steer::unproposed(steer::with_calls(t, calls, manifest), w, failure, said, retryable, at),
        ),
        (NeedV::Repair { cx }, AnswerV::Repaired { said }) => Some(steer::repaired(t, w, cx, said)),
        (NeedV::Arguments { cx }, AnswerV::Looked { h }) => if h.wf() && steer::runs(w, cx.proposal.action) {
            Some(steer::tried(t, w, cx, h))
        } else {
            None
        },
        (NeedV::Write { write }, AnswerV::Stored { failure }) => Some(
            steer::came_back(t, w, write.call, builtins::stored("remembered "@ + write.key, failure), at),
        ),
        (NeedV::Search { lookup }, AnswerV::Searched { outcome }) => Some(
            steer::came_back(t, w, lookup.call, outcome, at),
        ),
        (NeedV::Forget { it }, AnswerV::Stored { failure }) => Some(
            steer::came_back(t, w, it.call, builtins::stored("forgot "@ + it.key, failure), at),
        ),
        (NeedV::Purge { call }, AnswerV::Purged { outcome }) => Some(steer::came_back(t, w, call, outcome, at)),
        (NeedV::DryRun { cx, prompt }, AnswerV::Planned { staged }) => Some(
            steer::ends(tools::stages(t, cx, prompt, staged), w.cfg, at),
        ),
        (NeedV::Call { cx, call }, AnswerV::Returned { outcome }) => Some(steer::came_back(t, w, call, outcome, at)),
        _ => None,
    }
}

/// What the user is told at once.
pub open spec fn told_now(t: TurnV, w: AroundV, need: NeedV, a: AnswerV) -> Option<Seq<char>> {
    match (need, a) {
        (NeedV::Proposal { .. }, AnswerV::Proposed { said, line, .. }) => steer::told(t, w, said, line),
        _ => None,
    }
}

/// The turn must be stored at once: something left the machine or changed outside
/// it, and the record of that must not be lost.
pub open spec fn stores_now(t: TurnV, w: AroundV, need: NeedV, a: AnswerV) -> bool {
    match need {
        NeedV::Proposal { .. } => told_now(t, w, need, a) is Some,
        NeedV::Write { .. } => true,
        NeedV::Forget { .. } => true,
        NeedV::Purge { .. } => true,
        NeedV::Call { cx, .. } => match steer::tool_named(w.tools, cx.proposal.action) {
            Some(spec) => spec.side_effect != SideEffect::Pure,
            None => false,
        },
        _ => false,
    }
}

/// What an answer came to.
#[derive(Debug)]
pub struct Taken {
    /// What the turn needs next.
    pub need: Need,
    /// How many requests are spent.
    pub spent: u32,
    /// What the user is to be told at once.
    pub told: Option<String>,
    /// Whether the turn must be stored at once.
    pub store_now: bool,
}

impl Turn {
    /// Whether a step with the answer fits.
    pub fn has_room_for(&self, answer: &Answer) -> (r: bool)
        ensures
            r == steer::fits(self.deep_view(), calls_in(answer.deep_view()) as int),
    {
        let n: usize = match answer {
            Answer::Proposed { calls, .. } => calls.len(),
            Answer::Unproposed { calls, .. } => calls.len(),
            _ => 0,
        };
        if n > u32::MAX as usize {
            return false;
        }
        self.has_step(n as u32)
    }

    /// Take an answer to what the turn needed; nothing happens where it is not one.
    pub fn take(&mut self, w: &Around, need: Need, answer: Answer, spent: u32, at: Timestamp) -> (r: Option<Taken>)
        requires
            w.deep_view().wf(),
            steer::fits(old(self).deep_view(), calls_in(answer.deep_view()) as int),
        ensures
            match r {
                Some(k) => {
                    &&& takes(old(self).deep_view(), w.deep_view(), need.deep_view(), answer.deep_view(), at) == Some(
                        (final(self).deep_view(), k.need.deep_view()),
                    )
                    &&& k.spent == accounting::spent_after(spent, calls_in(answer.deep_view()))
                    &&& k.told.deep_view() == told_now(
                        old(self).deep_view(),
                        w.deep_view(),
                        need.deep_view(),
                        answer.deep_view(),
                    )
                    &&& k.store_now == stores_now(
                        old(self).deep_view(),
                        w.deep_view(),
                        need.deep_view(),
                        answer.deep_view(),
                    )
                },
                None => {
                    &&& takes(old(self).deep_view(), w.deep_view(), need.deep_view(), answer.deep_view(), at) is None
                    &&& final(self).deep_view() == old(self).deep_view()
                },
            },
    {
        match need {
            Need::Proposal { .. } => match answer {
                Answer::Proposed { raw, said, answer, line, calls, manifest } => {
                    let (need, spent, told): (Need, u32, Option<String>) = self.proposal(
                        w,
                        &raw,
                        said,
                        answer,
                        line,
                        &calls,
                        &manifest,
                        spent,
                        at,
                    );
                    let store_now: bool = told.is_some();
                    Some(Taken { need, spent, told, store_now })
                },
                Answer::Unproposed { failure, said, retryable, calls, manifest } => {
                    let (need, spent): (Need, u32) = self.no_proposal(
                        w,
                        failure,
                        said,
                        retryable,
                        &calls,
                        &manifest,
                        spent,
                        at,
                    );
                    Some(Taken { need, spent, told: None, store_now: false })
                },
                _ => None,
            },
            Need::Repair { cx } => match answer {
                Answer::Repaired { said } => {
                    let need: Need = self.repaired(w, cx, said);
                    Some(Taken { need, spent, told: None, store_now: false })
                },
                _ => None,
            },
            Need::Arguments { cx } => match answer {
                Answer::Looked { h } => {
                    if !h.is_wf() || !w.can_run(cx.proposal.action.as_str()) {
                        return None;
                    }
                    let need: Need = self.arguments(w, cx, h);
                    Some(Taken { need, spent, told: None, store_now: false })
                },
                _ => None,
            },
            Need::Write { write } => match answer {
                Answer::Stored { failure } => {
                    let need: Need = self.written(w, &write, failure, at);
                    Some(Taken { need, spent, told: None, store_now: true })
                },
                _ => None,
            },
            Need::Search { lookup } => match answer {
                Answer::Searched { outcome } => {
                    let need: Need = self.came_back(w, lookup.call, outcome, at);
                    Some(Taken { need, spent, told: None, store_now: false })
                },
                _ => None,
            },
            Need::Forget { it } => match answer {
                Answer::Stored { failure } => {
                    let need: Need = self.forgotten(w, &it, failure, at);
                    Some(Taken { need, spent, told: None, store_now: true })
                },
                _ => None,
            },
            Need::Purge { call } => match answer {
                Answer::Purged { result } => {
                    let need: Need = self.all_forgotten(w, call, result, at);
                    Some(Taken { need, spent, told: None, store_now: true })
                },
                _ => None,
            },
            Need::DryRun { cx, prompt } => match answer {
                Answer::Planned { staged } => {
                    let need: Need = self.staged(w, &cx, prompt.as_str(), staged, at);
                    Some(Taken { need, spent, told: None, store_now: false })
                },
                _ => None,
            },
            Need::Call { cx, call } => match answer {
                Answer::Returned { result } => {
                    let (need, store_now): (Need, bool) = self.tool_answered(w, &cx, call, result, at);
                    Some(Taken { need, spent, told: None, store_now })
                },
                _ => None,
            },
            Need::Nothing { .. } => None,
        }
    }
}

// ---------------------------------------------------------------------------
// The reply
// ---------------------------------------------------------------------------

/// What happens to a turn while its reply is written.
#[allow(inconsistent_fields)]
pub enum ReplyMoveV {
    /// The text that came beside a proposal is the draft.
    TakeDraft,
    /// A draft was asked for; `failure` is why none came.
    Drafted { failure: Option<Seq<char>>, calls: Seq<BookedCallV>, manifest: ManifestV, at: Timestamp },
    /// The draft was looked at.
    Looked { ctx: ReplyContextV, draft: Seq<char>, copies: bool, addressed: Seq<bool>, at: Timestamp },
    /// It was asked for once more, and `reply` stands.
    Redrafted { ctx: ReplyContextV, reply: Seq<char>, calls: Seq<BookedCallV>, manifest: ManifestV, at: Timestamp },
}

/// The turn after a draft was asked for.
pub open spec fn draft_came(
    t: TurnV,
    failure: Option<Seq<char>>,
    calls: Seq<BookedCallV>,
    manifest: ManifestV,
    at: Timestamp,
) -> TurnV {
    let u = steer::with_calls(t, calls, manifest);
    match failure {
        Some(detail) => progress::logged(u, at, EventKindV::ReplyFailed { detail }),
        None => u,
    }
}

/// The turn after one of them.
pub open spec fn reply_moved(t: TurnV, cfg: EngineConfigV, m: ReplyMoveV) -> TurnV {
    match m {
        ReplyMoveV::TakeDraft => TurnV { draft: None, ..t },
        ReplyMoveV::Drafted { failure, calls, manifest, at } => draft_came(t, failure, calls, manifest, at),
        ReplyMoveV::Looked { ctx, draft, copies, addressed, at } => steer::looked_at(
            t,
            cfg,
            ctx,
            draft,
            copies,
            addressed,
            at,
        ).0,
        ReplyMoveV::Redrafted { ctx, reply, calls, manifest, at } => reply::cites(
            steer::with_calls(t, calls, manifest),
            ctx,
            reply,
            at,
        ),
    }
}

impl Turn {
    /// The text that came beside a proposal and is the draft, where there is one.
    pub fn take_draft(&mut self) -> (r: Option<String>)
        ensures
            r.deep_view() == old(self).deep_view().draft,
            final(self).deep_view() == (TurnV { draft: None, ..old(self).deep_view() }),
    {
        self.draft.take()
    }

    /// A draft was asked for: what came, or what the user reads instead. Also how
    /// many requests are spent.
    pub fn drafted(
        &mut self,
        result: Result<String, String>,
        calls: &Vec<BookedCall>,
        manifest: &Manifest,
        spent: u32,
        at: Timestamp,
    ) -> (r: (Result<String, String>, u32))
        requires
            steer::fits(old(self).deep_view(), calls@.len() as int),
        ensures
            final(self).deep_view() == draft_came(
                old(self).deep_view(),
                match result {
                    Ok(_) => None,
                    Err(detail) => Some(detail@),
                },
                calls.deep_view(),
                manifest.deep_view(),
                at,
            ),
            match result {
                Ok(text) => r.0 is Ok && r.0->Ok_0@ == text@,
                Err(detail) => r.0 is Err && r.0->Err_0@ == reply::no_reply(detail@),
            },
            r.1 == accounting::spent_after(spent, calls@.len()),
    {
        let spent: u32 = self.book(calls, manifest, spent);
        match result {
            Ok(text) => (Ok(text), spent),
            Err(detail) => {
                let instead: String = self.reply_failed(detail.as_str(), at);
                (Err(instead), spent)
            },
        }
    }
}

// ---------------------------------------------------------------------------
// Courses
// ---------------------------------------------------------------------------

/// A turn after a list of answers, and what it needs then; nothing where one of
/// them answers something else.
pub open spec fn driven(t: TurnV, w: AroundV, need: NeedV, answers: Seq<(AnswerV, Timestamp)>) -> Option<(TurnV, NeedV)>
    decreases answers.len(),
{
    if answers.len() == 0 {
        Some((t, need))
    } else {
        match driven(t, w, need, answers.drop_last()) {
            Some(u) => takes(u.0, w, u.1, answers.last().0, answers.last().1),
            None => None,
        }
    }
}

/// A search that a turn makes before any proposal.
pub struct UnaskedV {
    pub action: Seq<char>,
    pub args: TaggedV,
    pub outcome: ToolOutcomeV,
    pub at: Timestamp,
}

pub open spec fn searched(t: TurnV, list: Seq<UnaskedV>) -> TurnV
    decreases list.len(),
{
    if list.len() == 0 {
        t
    } else {
        let u = searched(t, list.drop_last());
        let s = list.last();
        progress::returns_with(
            progress::logged(u, s.at, EventKindV::ToolCalled { action: s.action, args: s.args }),
            s.at,
            progress::next(u),
            s.outcome,
        )
    }
}

pub open spec fn replying(t: TurnV, cfg: EngineConfigV, moves: Seq<ReplyMoveV>) -> TurnV
    decreases moves.len(),
{
    if moves.len() == 0 {
        t
    } else {
        reply_moved(replying(t, cfg, moves.drop_last()), cfg, moves.last())
    }
}

/// Everything from outside that a turn meets between its message and its reply.
pub struct CourseV {
    pub route: RouteV,
    pub unasked: Seq<UnaskedV>,
    pub began: Timestamp,
    pub answers: Seq<(AnswerV, Timestamp)>,
    pub reply: Seq<ReplyMoveV>,
    pub text: Seq<char>,
    pub ended: Timestamp,
}

/// The turn as it goes into its loop.
pub open spec fn set_out(t: TurnV, c: CourseV) -> TurnV {
    searched(TurnV { tier: c.route.tier, selected: c.route.tools, cues: c.route.cues, ..t }, c.unasked)
}

/// The turn at the end of its course; nothing where the course does not bring it to
/// its end.
pub open spec fn ran(t: TurnV, w: AroundV, c: CourseV) -> Option<TurnV> {
    let g = steer::goes_round(set_out(t, c), w, c.began);
    match driven(g.0, w, g.1, c.answers) {
        Some((u, NeedV::Nothing { policy })) => Some(
            progress::logged(replying(u, w.cfg, c.reply), c.ended, EventKindV::Replied { text: c.text }),
        ),
        _ => None,
    }
}

/// The logs of a store into which a turn's log was stored as far as it had got,
/// once for each length.
pub open spec fn flushed(
    logs: Seq<SessionLogV>,
    session: Seq<char>,
    log: Seq<EventV>,
    from: int,
    lengths: Seq<int>,
) -> Seq<SessionLogV>
    decreases lengths.len(),
{
    if lengths.len() == 0 {
        logs
    } else {
        store::logs_after(
            flushed(logs, session, log, from, lengths.drop_last()),
            session,
            log.take(lengths.last()).skip(from),
        )
    }
}

// ---------------------------------------------------------------------------
// Laws
// ---------------------------------------------------------------------------

/// Taking any answer advances the turn.
pub proof fn taking_advances(t: TurnV, w: AroundV, need: NeedV, a: AnswerV, at: Timestamp)
    ensures
        takes(t, w, need, a, at) matches Some(u) ==> laws::advances(t, u.0),
{
    let none = EmitFailureV::Other;
    match (need, a) {
        (NeedV::Proposal { .. }, AnswerV::Proposed { raw, said, answer, line, calls, manifest }) => {
            let b = steer::with_calls(t, calls, manifest);
            let (s, o, p) = (state::folded(t.log), steer::actions_now(t, w), steer::pending_now(t));
            laws::booking_advances(t, calls, manifest);
            laws::weighing_advances(b, w, none, seq![], false, raw, said, answer, line, s, o, p, at);
            laws::moves_compose(t, b, steer::weighed(b, w, raw, said, answer, line, s, o, p, at).0);
        },
        (NeedV::Proposal { .. }, AnswerV::Unproposed { failure, said, retryable, calls, manifest }) => {
            let b = steer::with_calls(t, calls, manifest);
            let (s, o, p) = (state::folded(t.log), steer::actions_now(t, w), steer::pending_now(t));
            let raw = ProposalV { rationale: seq![], action: seq![], args: seq![] };
            laws::booking_advances(t, calls, manifest);
            laws::weighing_advances(b, w, failure, said, retryable, raw, raw, None, None, s, o, p, at);
            laws::moves_compose(t, b, steer::unproposed(b, w, failure, said, retryable, at).0);
        },
        (NeedV::Repair { cx }, AnswerV::Repaired { said }) => {
            laws::repairing_advances(t, w, cx, said);
        },
        (NeedV::Arguments { cx }, AnswerV::Looked { h }) => {
            laws::trying_advances(t, w, cx, h);
        },
        (NeedV::Write { write }, AnswerV::Stored { failure }) => {
            laws::coming_back_advances(
                t,
                w,
                write.call,
                builtins::stored("remembered "@ + write.key, failure),
                at,
            );
        },
        (NeedV::Search { lookup }, AnswerV::Searched { outcome }) => {
            laws::coming_back_advances(t, w, lookup.call, outcome, at);
        },
        (NeedV::Forget { it }, AnswerV::Stored { failure }) => {
            laws::coming_back_advances(t, w, it.call, builtins::stored("forgot "@ + it.key, failure), at);
        },
        (NeedV::Purge { call }, AnswerV::Purged { outcome }) => {
            laws::coming_back_advances(t, w, call, outcome, at);
        },
        (NeedV::DryRun { cx, prompt }, AnswerV::Planned { staged }) => {
            laws::staging_advances(t, cx, w.cfg, prompt, staged, at);
        },
        (NeedV::Call { cx, call }, AnswerV::Returned { outcome }) => {
            laws::coming_back_advances(t, w, call, outcome, at);
        },
        _ => {},
    }
}

/// Any list of answers advances the turn.
pub proof fn driving_advances(t: TurnV, w: AroundV, need: NeedV, answers: Seq<(AnswerV, Timestamp)>)
    ensures
        driven(t, w, need, answers) matches Some(u) ==> laws::advances(t, u.0),
    decreases answers.len(),
{
    laws::every_turn_follows_itself(t);
    if answers.len() > 0 {
        let rest = answers.drop_last();
        driving_advances(t, w, need, rest);
        if let Some(u) = driven(t, w, need, rest) {
            taking_advances(u.0, w, u.1, answers.last().0, answers.last().1);
            if let Some(v) = driven(t, w, need, answers) {
                laws::moves_compose(t, u.0, v.0);
            }
        }
    }
}

/// The searches before the first proposal advance the turn.
proof fn lemma_searched(t: TurnV, list: Seq<UnaskedV>)
    ensures
        laws::advances(t, searched(t, list)),
    decreases list.len(),
{
    laws::every_turn_follows_itself(t);
    if list.len() > 0 {
        lemma_searched(t, list.drop_last());
        let u = searched(t, list.drop_last());
        let s = list.last();
        let called = EventKindV::ToolCalled { action: s.action, args: s.args };
        let v = progress::logged(u, s.at, called);
        laws::recording_advances(u, s.at, called);
        laws::recording_advances(v, s.at, EventKindV::ToolReturned { call: progress::next(u), outcome: s.outcome });
        laws::moves_compose(t, u, v);
        laws::moves_compose(t, v, searched(t, list));
    }
}

/// Writing the reply advances the turn.
pub proof fn replying_advances(t: TurnV, cfg: EngineConfigV, moves: Seq<ReplyMoveV>)
    ensures
        laws::advances(t, replying(t, cfg, moves)),
    decreases moves.len(),
{
    laws::every_turn_follows_itself(t);
    if moves.len() > 0 {
        replying_advances(t, cfg, moves.drop_last());
        let u = replying(t, cfg, moves.drop_last());
        match moves.last() {
            ReplyMoveV::TakeDraft => {},
            ReplyMoveV::Drafted { failure, calls, manifest, at } => {
                laws::booking_advances(u, calls, manifest);
                if let Some(detail) = failure {
                    let b = steer::with_calls(u, calls, manifest);
                    laws::recording_advances(b, at, EventKindV::ReplyFailed { detail });
                    laws::moves_compose(u, b, reply_moved(u, cfg, moves.last()));
                }
            },
            ReplyMoveV::Looked { ctx, draft, copies, addressed, at } => {
                laws::looking_advances(u, cfg, ctx, draft, copies, addressed, at);
            },
            ReplyMoveV::Redrafted { ctx, reply, calls, manifest, at } => {
                let b = steer::with_calls(u, calls, manifest);
                laws::booking_advances(u, calls, manifest);
                laws::every_reply_step_advances(b, ctx, reply, seq![], at);
                laws::moves_compose(u, b, reply_moved(u, cfg, moves.last()));
            },
        }
        laws::moves_compose(t, u, replying(t, cfg, moves));
    }
}

/// Storing a turn's log as far as it has got, however often, leaves the session's
/// log a beginning of it, and no other session changes.
proof fn lemma_flushed(
    logs: Seq<SessionLogV>,
    session: Seq<char>,
    log: Seq<EventV>,
    from: int,
    lengths: Seq<int>,
    other: Seq<char>,
)
    requires
        events::rising(log),
        log.len() > 0 ==> log[0].id.0 > 0,
        0 <= from <= log.len(),
        store::loaded(logs, session) == log.take(from),
        forall|i: int| 0 <= i < lengths.len() ==> from <= #[trigger] lengths[i] <= log.len(),
        other != session,
    ensures
        ({
            let held = store::loaded(flushed(logs, session, log, from, lengths), session);
            held.len() >= from && held.is_prefix_of(log)
        }),
        store::loaded(flushed(logs, session, log, from, lengths), other) == store::loaded(logs, other),
    decreases lengths.len(),
{
    if lengths.len() > 0 {
        let rest = lengths.drop_last();
        assert forall|i: int| 0 <= i < rest.len() implies from <= #[trigger] rest[i] <= log.len() by {
            assert(rest[i] == lengths[i]);
        }
        lemma_flushed(logs, session, log, from, rest, other);
        let before = flushed(logs, session, log, from, rest);
        let held = store::loaded(before, session);
        let n = lengths.last();
        assert(lengths[lengths.len() - 1] == n);
        store::laws::storing_a_beginning(before, session, log, from, n);
        store::laws::sessions_are_apart(before, session, log.take(n).skip(from), other);
    } else {
        assert(log.take(from).is_prefix_of(log));
    }
}

/// What a whole turn leaves, whatever came from outside: the session's log as it
/// was, with the turn's own events behind, all on the turn after the last one and
/// numbered on, the message first and the reply last. Each of them is stored once,
/// however often the turn was stored on its way, and no other session changes.
pub proof fn a_whole_turn_is_added_to_its_session(
    session: Seq<char>,
    stored: Seq<EventV>,
    scope: Seq<char>,
    user_text: Seq<char>,
    at: Timestamp,
    w: AroundV,
    c: CourseV,
    logs: Seq<SessionLogV>,
    lengths: Seq<int>,
    other: Seq<char>,
)
    requires
        events::rising(stored),
        stored.len() > 0 ==> stored[0].id.0 > 0,
        state::folded(stored).turn < u32::MAX,
        ran(run::opened(session, stored, scope, user_text, at), w, c) is Some,
        ({
            let done = ran(run::opened(session, stored, scope, user_text, at), w, c)->0;
            &&& events::next_id(stored) + done.log.len() - stored.len() <= u64::MAX
            &&& forall|i: int|
                0 <= i < lengths.len() ==> stored.len() <= #[trigger] lengths[i] <= done.log.len()
        }),
        store::loaded(logs, session) == stored,
        other != session,
    ensures
        ({
            let done = ran(run::opened(session, stored, scope, user_text, at), w, c)->0;
            let n = stored.len() as int;
            let after = store::logs_after(flushed(logs, session, done.log, n, lengths), session, done.log.skip(n));
            &&& stored.is_prefix_of(done.log)
            &&& done.log.len() >= n + 2
            &&& done.log[n].kind == (EventKindV::UserSaid { text: user_text })
            &&& done.log.last().kind == (EventKindV::Replied { text: c.text })
            &&& forall|i: int|
                n <= i < done.log.len() ==> (#[trigger] done.log[i]).turn == state::folded(stored).turn + 1
                    && done.log[i].id.0 == events::next_id(stored) + i - n
            &&& done.settled is Some
            &&& store::loaded(after, session) == done.log
            &&& store::loaded(after, other) == store::loaded(logs, other)
        }),
{
    let t = run::opened(session, stored, scope, user_text, at);
    let first = TurnV { tier: c.route.tier, selected: c.route.tools, cues: c.route.cues, ..t };
    let b = set_out(t, c);
    let g = steer::goes_round(b, w, c.began);
    let u = driven(g.0, w, g.1, c.answers)->0;
    let end = replying(u.0, w.cfg, c.reply);
    lemma_searched(first, c.unasked);
    laws::going_round_is_bounded(b, w, c.began);
    laws::moves_compose(first, b, g.0);
    driving_advances(g.0, w, g.1, c.answers);
    laws::moves_compose(first, g.0, u.0);
    driving_settles(g.0, w, g.1, c.answers);
    replying_advances(u.0, w.cfg, c.reply);
    laws::moves_compose(first, u.0, end);
    let done = ran(t, w, c)->0;
    assert(done == progress::logged(end, c.ended, EventKindV::Replied { text: c.text }));
    laws::what_a_run_of_moves_adds(session, stored, scope, user_text, at, first, end, c.text, c.ended);
    let n = stored.len() as int;
    assert(done.log.take(n) =~= stored);
    lemma_flushed(logs, session, done.log, n, lengths, other);
    let held = flushed(logs, session, done.log, n, lengths);
    store::laws::the_store_follows_the_log(held, session, done.log, n);
    store::laws::sessions_are_apart(held, session, done.log.skip(n), other);
}

/// A turn that needs nothing more is settled.
pub proof fn driving_settles(t: TurnV, w: AroundV, need: NeedV, answers: Seq<(AnswerV, Timestamp)>)
    requires
        need matches NeedV::Nothing { policy } ==> t.settled == Some(policy),
    ensures
        driven(t, w, need, answers) matches Some(u) ==> (u.1 matches NeedV::Nothing { policy } ==> u.0.settled == Some(
            policy,
        )),
    decreases answers.len(),
{
    if answers.len() > 0 {
        let rest = answers.drop_last();
        driving_settles(t, w, need, rest);
        if let Some(u) = driven(t, w, need, rest) {
            lemma_takes_settles(u.0, w, u.1, answers.last().0, answers.last().1);
        }
    }
}


proof fn lemma_takes_settles(t: TurnV, w: AroundV, need: NeedV, a: AnswerV, at: Timestamp)
    ensures
        takes(t, w, need, a, at) matches Some(u) ==> (u.1 matches NeedV::Nothing { policy } ==> u.0.settled == Some(
            policy,
        )),
{
    assert forall|v: TurnV, x: AroundV, when: Timestamp| #[trigger] steer::goes_round(v, x, when).1 is Nothing implies
        steer::goes_round(v, x, when).0.settled == Some(steer::goes_round(v, x, when).1->policy) by {
        laws::going_round_is_bounded(v, x, when);
    }
    assert forall|v: TurnV, cfg: EngineConfigV, when: Timestamp|
        (#[trigger] steer::ends(v, cfg, when)).0.settled == Some(steer::ends(v, cfg, when).1->policy) by {
        laws::every_turn_is_settled(v, cfg, when);
    }
}

// ---------------------------------------------------------------------------
// Confirming
// ---------------------------------------------------------------------------

/// What becomes of something staged and confirmed on the very next turn, all the way
/// to its tool: the confirmation is recorded and the staged proposal goes to the
/// repairs; read with them, it goes through its schema and past the guards, of which
/// the one that waits for the user lets it through; and where none of those raises
/// anything, the call of its tool is recorded and is what the turn needs next. `k` is
/// where it was staged, `said` the staged proposal as it is read.
pub proof fn what_was_staged_is_called_once_confirmed(
    t: TurnV,
    w: AroundV,
    need: NeedV,
    raw: ProposalV,
    p: ProposalV,
    answer: Option<Seq<char>>,
    line: Option<Seq<char>>,
    calls: Seq<BookedCallV>,
    manifest: ManifestV,
    k: int,
    staged: ProposalV,
    said: ProposalV,
    spec: ActionSpecV,
    h: ArgumentsV,
    at: Timestamp,
    then: Timestamp,
    last: Timestamp,
)
    requires
        w.wf(),
        t.settled is None,
        need is Proposal,
        state::still_waits(t.log, k),
        t.turn == t.log[k].turn + 1,
        !t.book.never_residual,
        p.action == CONFIRM_PENDING@,
        !t.book.calls.contains(progress::key_of(p)),
        run::staged_proposal(t.log, t.log[k].id) == Some(staged),
        builtins::builtin_named(said.action) is None,
        steer::tool_named(w.tools, said.action) == Some(spec),
        h.wf(),
        h.invalid is None,
        gate::objection(
            gate::builtins(false),
            ClassifiedProposalV { proposal: said, args: h.args },
            GuardCtxV {
                spec,
                turn: t.turn,
                confirmed_this_turn: true,
                fired_actions: state::folded(t.log).fired_tags,
                pending_confirmation: Some(t.log[k].id),
            },
            h.plugins,
        ) is None,
    ensures
        ({
            let one = seq![(AnswerV::Proposed { raw, said: p, answer, line, calls, manifest }, at)];
            let three = one.push((AnswerV::Repaired { said }, then)).push((AnswerV::Looked { h }, last));
            &&& driven(t, w, need, one) matches Some((u, NeedV::Repair { cx }))
            &&& cx.proposal == staged && cx.confirmed_now
            &&& t.log.is_prefix_of(u.log)
            &&& u.log.last().kind == (EventKindV::Confirmed { pending: t.log[k].id })
            &&& driven(t, w, need, three) == Some(
                (
                    progress::calls_for(u, cx.at, said, said.action, h.args),
                    NeedV::Call { cx: CtxV { proposal: said, ..cx }, call: progress::next(u) },
                ),
            )
            &&& progress::calls_for(u, cx.at, said, said.action, h.args).log == u.log.push(
                EventV {
                    id: progress::next(u),
                    turn: t.turn,
                    at: cx.at,
                    kind: EventKindV::ToolCalled { action: said.action, args: h.args },
                },
            )
        }),
{
    let id = t.log[k].id;
    let b = steer::with_calls(t, calls, manifest);
    let first = (AnswerV::Proposed { raw, said: p, answer, line, calls, manifest }, at);
    let one = seq![first];
    let two = one.push((AnswerV::Repaired { said }, then));
    let three = two.push((AnswerV::Looked { h }, last));
    laws::booking_advances(t, calls, manifest);
    state::the_last_staged_action_is_pending(t.log);
    legal::confirming_needs_something_to_confirm(steer::offer_now(t, w), w.cfg, w.tools);
    lemma_confirming_is_itself();
    let a = run::answers(run::proposes(b, at, raw), w.cfg, p.action, steer::asked_for(b, w, answer), at);
    let s = run::tells(a, steer::asked_for(b, w, line), at);
    let u = progress::logged(s, at, EventKindV::Confirmed { pending: id });
    assert forall|i: int| 0 <= i < t.log.len() implies u.log[i] == t.log[i] by {
        assert(b.log[i] == t.log[i]);
    }
    laws::what_was_staged_stays(t.log, u.log, id);
    assert(u.log.take(t.log.len() as int) =~= t.log);
    let cx = CtxV {
        state: state::folded(t.log),
        proposal: staged,
        pid: progress::next(b),
        confirmed_now: true,
        active_pending: Some(id),
        at,
    };
    assert(one.drop_last() =~= seq![]);
    assert(driven(t, w, need, seq![]) == Some((t, need)));
    assert(driven(t, w, need, one) == Some((u, NeedV::Repair { cx })));
    assert(two.drop_last() =~= one);
    let read = CtxV { proposal: said, ..cx };
    assert(driven(t, w, need, two) == Some((u, NeedV::Arguments { cx: read })));
    assert(three.drop_last() =~= two);
    let classified = ClassifiedProposalV { proposal: said, args: h.args };
    gate::a_confirmation_opens_the_gate(w.cfg.confirm_irreversible, classified, tools::tool_ctx(u, read, spec), h.plugins);
    assert(u.turn == t.turn);
    assert(driven(t, w, need, three) == Some(steer::tried(u, w, read, h)));
}

/// Confirming is neither replying nor paging.
proof fn lemma_confirming_is_itself()
    ensures
        CONFIRM_PENDING@ != INSPECT_RESULT@,
        CONFIRM_PENDING@ != RESPOND_DIRECTLY@,
{
    reveal_strlit("confirm_pending");
    reveal_strlit("inspect_result");
    reveal_strlit("respond_directly");
    assert(CONFIRM_PENDING@.len() != INSPECT_RESULT@.len());
    assert(CONFIRM_PENDING@.len() != RESPOND_DIRECTLY@.len());
}

/// A log grew, and by no call and no confirmation.
pub open spec fn calls_nothing(before: Seq<EventV>, after: Seq<EventV>) -> bool {
    &&& before.len() <= after.len()
    &&& forall|i: int| 0 <= i < before.len() ==> #[trigger] after[i] == before[i]
    &&& forall|i: int|
        before.len() <= i < after.len() ==> !((#[trigger] after[i]).kind is ToolCalled) && !(after[i].kind is Confirmed)
}

proof fn lemma_nothing_twice(a: Seq<EventV>, b: Seq<EventV>, c: Seq<EventV>)
    requires
        calls_nothing(a, b),
        calls_nothing(b, c),
    ensures
        calls_nothing(a, c),
{
    assert forall|i: int| 0 <= i < a.len() implies #[trigger] c[i] == a[i] by {
        assert(b[i] == a[i]);
    }
    assert forall|i: int| a.len() <= i < c.len() implies !((#[trigger] c[i]).kind is ToolCalled) && !(c[i].kind
        is Confirmed) by {
        if i < b.len() {
            assert(c[i] == b[i]);
        }
    }
}

proof fn lemma_booking_calls_nothing(log: Seq<EventV>, turn: u32, calls: Seq<BookedCallV>, manifest: ManifestV)
    ensures
        calls_nothing(log, accounting::booked(log, turn, calls, manifest)),
    decreases calls.len(),
{
    if calls.len() > 0 {
        lemma_booking_calls_nothing(log, turn, calls.drop_last(), manifest);
        lemma_nothing_twice(
            log,
            accounting::booked(log, turn, calls.drop_last(), manifest),
            accounting::booked(log, turn, calls, manifest),
        );
    }
}

proof fn lemma_round_calls_nothing(t: TurnV, w: AroundV, at: Timestamp)
    ensures
        calls_nothing(t.log, steer::goes_round(t, w, at).0.log),
        calls_nothing(t.log, steer::ends(t, w.cfg, at).0.log),
{
    let u = run::begun(t, at);
    assert(calls_nothing(t.log, u.log));
    assert(calls_nothing(u.log, steer::ends(u, w.cfg, at).0.log));
    lemma_nothing_twice(t.log, u.log, steer::ends(u, w.cfg, at).0.log);
}

/// What was staged and confirmed too late, or once only the question is left:
/// confirming is not on offer, it is refused as such, and neither that nor the reply
/// that follows calls anything.
pub proof fn a_late_confirmation_is_refused(
    t: TurnV,
    w: AroundV,
    need: NeedV,
    raw: ProposalV,
    p: ProposalV,
    answer: Option<Seq<char>>,
    line: Option<Seq<char>>,
    calls: Seq<BookedCallV>,
    manifest: ManifestV,
    k: int,
    reply: AnswerV,
    at: Timestamp,
    then: Timestamp,
)
    requires
        w.wf(),
        t.settled is None,
        need is Proposal,
        state::still_waits(t.log, k),
        t.turn > t.log[k].turn + 1 || t.book.never_residual,
        p.action == CONFIRM_PENDING@,
        reply matches AnswerV::Proposed { said, .. } && said.action == RESPOND_DIRECTLY@,
    ensures
        ({
            let one = seq![(AnswerV::Proposed { raw, said: p, answer, line, calls, manifest }, at)];
            &&& driven(t, w, need, one) matches Some((u, next))
            &&& next is Proposal || next is Nothing
            &&& exists|i: int|
                t.log.len() <= i < u.log.len() && (#[trigger] u.log[i]).kind == (EventKindV::Rejected {
                    proposal_of: progress::next(steer::with_calls(t, calls, manifest)),
                    reason: RejectReasonV::IllegalAction { action: CONFIRM_PENDING@ },
                })
            &&& calls_nothing(t.log, u.log)
            &&& next is Proposal ==> (driven(t, w, need, one.push((reply, then))) matches Some((v, over)) && over
                is Nothing && calls_nothing(t.log, v.log))
        }),
{
    let b = steer::with_calls(t, calls, manifest);
    let first = (AnswerV::Proposed { raw, said: p, answer, line, calls, manifest }, at);
    let one = seq![first];
    let two = one.push((reply, then));
    state::the_last_staged_action_is_pending(t.log);
    legal::confirming_needs_something_to_confirm(steer::offer_now(t, w), w.cfg, w.tools);
    lemma_confirming_is_itself();
    lemma_booking_calls_nothing(t.log, t.turn, calls, manifest);
    let pid = progress::next(b);
    let a = run::answers(run::proposes(b, at, raw), w.cfg, p.action, steer::asked_for(b, w, answer), at);
    let s = run::tells(a, steer::asked_for(b, w, line), at);
    let v = run::not_offered(s, at, pid, false, p.action);
    assert(!legal::offers(w.tools, p.action));
    assert(calls_nothing(b.log, a.log));
    assert(calls_nothing(a.log, s.log));
    assert(calls_nothing(s.log, v.log));
    lemma_nothing_twice(t.log, b.log, a.log);
    lemma_nothing_twice(t.log, a.log, s.log);
    lemma_nothing_twice(t.log, s.log, v.log);
    lemma_round_calls_nothing(v, w, at);
    laws::going_round_is_bounded(v, w, at);
    let (u, next) = steer::goes_round(v, w, at);
    lemma_nothing_twice(t.log, v.log, u.log);
    assert(one.drop_last() =~= seq![]);
    assert(driven(t, w, need, seq![]) == Some((t, need)));
    assert(driven(t, w, need, one) == Some((u, next)));
    let end = v.log.len() - 1;
    assert(v.log[end].kind == (EventKindV::Rejected {
        proposal_of: pid,
        reason: RejectReasonV::IllegalAction { action: CONFIRM_PENDING@ },
    }));
    assert(u.log[end] == v.log[end]);
    if next is Proposal {
        if let AnswerV::Proposed { raw: raw2, said: said2, answer: answer2, line: line2, calls: calls2, manifest: m2 } = reply {
            assert(two.drop_last() =~= one);
            let b2 = steer::with_calls(u, calls2, m2);
            lemma_booking_calls_nothing(u.log, u.turn, calls2, m2);
            let a2 = run::answers(
                run::proposes(b2, then, raw2),
                w.cfg,
                said2.action,
                steer::asked_for(b2, w, answer2),
                then,
            );
            assert(a2.settled is Some);
            assert(calls_nothing(b2.log, a2.log));
            lemma_nothing_twice(t.log, u.log, b2.log);
            lemma_nothing_twice(t.log, b2.log, a2.log);
            lemma_round_calls_nothing(a2, w, then);
            let over = steer::ends(a2, w.cfg, then);
            lemma_nothing_twice(t.log, a2.log, over.0.log);
            assert(driven(t, w, need, two) == Some(over));
        }
    }
}

/// An answer is taken exactly where it answers what was needed.
pub proof fn an_answer_must_fit_what_was_needed(t: TurnV, w: AroundV, need: NeedV, a: AnswerV, at: Timestamp)
    ensures
        takes(t, w, need, a, at) is Some <==> match need {
            NeedV::Proposal { .. } => a is Proposed || a is Unproposed,
            NeedV::Repair { .. } => a is Repaired,
            NeedV::Arguments { cx } => a matches AnswerV::Looked { h } && h.wf() && steer::runs(w, cx.proposal.action),
            NeedV::Write { .. } => a is Stored,
            NeedV::Forget { .. } => a is Stored,
            NeedV::Search { .. } => a is Searched,
            NeedV::Purge { .. } => a is Purged,
            NeedV::DryRun { .. } => a is Planned,
            NeedV::Call { .. } => a is Returned,
            NeedV::Nothing { .. } => false,
        },
{
}

/// What came of a call goes to the call that was made: what was written and what was
/// forgotten by its key, and what failed by the store's own words.
pub proof fn what_came_back_goes_to_its_call(
    t: TurnV,
    w: AroundV,
    write: builtins::FactWriteV,
    it: builtins::ForgettingV,
    lookup: builtins::LookupV,
    cx: CtxV,
    call: EventId,
    outcome: ToolOutcomeV,
    detail: Seq<char>,
    at: Timestamp,
)
    ensures
        ({
            let told = |summary: Seq<char>|
                ToolOutcomeV::Done { output: ToolOutputV { summary, artifact: None, trust: Trust::System } };
            let failed = ToolOutcomeV::Failed { kind: "store"@, detail };
            &&& takes(t, w, NeedV::Write { write }, AnswerV::Stored { failure: None }, at) == Some(
                steer::came_back(t, w, write.call, told("remembered "@ + write.key), at),
            )
            &&& takes(t, w, NeedV::Write { write }, AnswerV::Stored { failure: Some(detail) }, at) == Some(
                steer::came_back(t, w, write.call, failed, at),
            )
            &&& takes(t, w, NeedV::Forget { it }, AnswerV::Stored { failure: None }, at) == Some(
                steer::came_back(t, w, it.call, told("forgot "@ + it.key), at),
            )
            &&& takes(t, w, NeedV::Forget { it }, AnswerV::Stored { failure: Some(detail) }, at) == Some(
                steer::came_back(t, w, it.call, failed, at),
            )
            &&& takes(t, w, NeedV::Search { lookup }, AnswerV::Searched { outcome }, at) == Some(
                steer::came_back(t, w, lookup.call, outcome, at),
            )
            &&& takes(t, w, NeedV::Purge { call }, AnswerV::Purged { outcome }, at) == Some(
                steer::came_back(t, w, call, outcome, at),
            )
            &&& takes(t, w, NeedV::Call { cx, call }, AnswerV::Returned { outcome }, at) == Some(
                steer::came_back(t, w, call, outcome, at),
            )
        }),
{
}

/// Model calls are booked before anything else is done with what they gave: the events that
/// a proposal or its failure adds begin with theirs.
pub proof fn model_calls_are_booked_first(t: TurnV, w: AroundV, shown: NeedV, a: AnswerV, at: Timestamp, i: int)
    requires
        shown is Proposal,
        0 <= i < calls_in(a),
        takes(t, w, shown, a, at) is Some,
    ensures
        ({
            let after = takes(t, w, shown, a, at)->0;
            let log = after.0.log;
            &&& t.log.len() + i < log.len()
            &&& match a {
                AnswerV::Proposed { calls, manifest, .. } => log[t.log.len() + i].kind == (EventKindV::ModelCall {
                    usage: calls[i].usage,
                    manifest,
                }),
                AnswerV::Unproposed { calls, manifest, .. } => log[t.log.len() + i].kind == (EventKindV::ModelCall {
                    usage: calls[i].usage,
                    manifest,
                }),
                _ => false,
            }
        }),
{
    let u = takes(t, w, shown, a, at)->0;
    let none = EmitFailureV::Other;
    let (s, o, p) = (state::folded(t.log), steer::actions_now(t, w), steer::pending_now(t));
    match a {
        AnswerV::Proposed { raw, said, answer, line, calls, manifest } => {
            let b = steer::with_calls(t, calls, manifest);
            accounting::every_call_is_booked_once(t.log, t.turn, calls, manifest);
            laws::weighing_advances(b, w, none, seq![], false, raw, said, answer, line, s, o, p, at);
            assert(u.0.log.take(b.log.len() as int)[t.log.len() + i] == u.0.log[t.log.len() + i]);
        },
        AnswerV::Unproposed { failure, said, retryable, calls, manifest } => {
            let b = steer::with_calls(t, calls, manifest);
            let raw = ProposalV { rationale: seq![], action: seq![], args: seq![] };
            accounting::every_call_is_booked_once(t.log, t.turn, calls, manifest);
            laws::weighing_advances(b, w, failure, said, retryable, raw, raw, None, None, s, o, p, at);
            assert(u.0.log.take(b.log.len() as int)[t.log.len() + i] == u.0.log[t.log.len() + i]);
        },
        _ => {},
    }
}

/// A turn is stored at once where the user was told something, where the memory was
/// changed, and where a tool with an effect ran; the first tool of the name counts.
pub proof fn when_a_turn_is_stored_at_once(t: TurnV, w: AroundV, need: NeedV, a: AnswerV, k: int)
    ensures
        need is Write || need is Forget || need is Purge ==> stores_now(t, w, need, a),
        need is Search || need is Repair || need is Arguments || need is DryRun || need is Nothing ==> !stores_now(
            t,
            w,
            need,
            a,
        ),
        need is Proposal ==> stores_now(t, w, need, a) == (told_now(t, w, need, a) is Some),
        need matches NeedV::Call { cx, .. } && 0 <= k < w.tools.len() && w.tools[k].name == cx.proposal.action && (forall|
            j: int,
        |
            0 <= j < k ==> (#[trigger] w.tools[j]).name != cx.proposal.action) ==> (stores_now(t, w, need, a)
            <==> w.tools[k].side_effect is Reversible || w.tools[k].side_effect is Irreversible),
{
    if let NeedV::Call { cx, .. } = need {
        if 0 <= k < w.tools.len() && w.tools[k].name == cx.proposal.action && (forall|j: int|
            0 <= j < k ==> (#[trigger] w.tools[j]).name != cx.proposal.action) {
            lemma_tool_named(w.tools, cx.proposal.action, k);
        }
    }
}

proof fn lemma_tool_named(tools: Seq<ActionSpecV>, name: Seq<char>, k: int)
    requires
        0 <= k < tools.len(),
        tools[k].name == name,
        forall|j: int| 0 <= j < k ==> (#[trigger] tools[j]).name != name,
    ensures
        steer::tool_named(tools, name) == Some(tools[k]),
    decreases tools.len(),
{
    if k > 0 {
        assert(tools[0].name != name);
        let rest = tools.drop_first();
        assert forall|j: int| 0 <= j < k - 1 implies (#[trigger] rest[j]).name != name by {
            assert(rest[j] == tools[j + 1]);
        }
        lemma_tool_named(rest, name, k - 1);
    }
}

/// The user is told a line before its action runs, where lines are asked for at the turn's
/// tier; a reply, and a turn that is over, tell nothing beforehand.
pub proof fn what_is_told_at_once(t: TurnV, w: AroundV, shown: NeedV, a: AnswerV)
    ensures
        !(shown is Proposal) || !(a is Proposed) ==> told_now(t, w, shown, a) is None,
        shown is Proposal && (a matches AnswerV::Proposed { said, line, .. } && (t.settled is Some || said.action
            == "respond_directly"@ || line is None)) ==> told_now(t, w, shown, a) is None,
        shown is Proposal && run::may_answer(w.cfg, t.tier) && t.settled is None && (a matches AnswerV::Proposed {
            said,
            ..
        } && said.action != "respond_directly"@) ==> (a matches AnswerV::Proposed { line, .. } && told_now(t, w, shown, a)
            == line),
        !run::may_answer(w.cfg, t.tier) ==> told_now(t, w, shown, a) is None,
{
}

/// A course goes on from where it stood: its answers may be taken in any number of goes.
pub proof fn a_course_goes_on_where_it_stood(
    t: TurnV,
    w: AroundV,
    need: NeedV,
    first: Seq<(AnswerV, Timestamp)>,
    rest: Seq<(AnswerV, Timestamp)>,
)
    ensures
        driven(t, w, need, seq![]) == Some((t, need)),
        driven(t, w, need, first) matches Some(u) ==> driven(t, w, need, first + rest) == driven(u.0, w, u.1, rest),
        driven(t, w, need, first) is None ==> driven(t, w, need, first + rest) is None,
        first.len() == 1 ==> driven(t, w, need, first) == takes(t, w, need, first[0].0, first[0].1),
    decreases rest.len(),
{
    if rest.len() == 0 {
        assert(first + rest =~= first);
    } else {
        a_course_goes_on_where_it_stood(t, w, need, first, rest.drop_last());
        assert((first + rest).drop_last() =~= first + rest.drop_last());
        assert((first + rest).last() == rest.last());
    }
    if first.len() == 1 {
        assert(first.drop_last() =~= seq![]);
    }
}

/// A draft that failed is recorded with why, behind the calls that it took; one that came
/// leaves its calls only.
pub proof fn what_asking_for_a_draft_leaves(
    t: TurnV,
    failure: Option<Seq<char>>,
    calls: Seq<BookedCallV>,
    manifest: ManifestV,
    at: Timestamp,
)
    ensures
        ({
            let log = draft_came(t, failure, calls, manifest, at).log;
            &&& failure is None ==> log.len() == t.log.len() + calls.len()
            &&& failure matches Some(detail) ==> log.len() == t.log.len() + calls.len() + 1 && log.last().kind == (
            EventKindV::ReplyFailed { detail }) && log.last().turn == t.turn && log.last().at == at
        }),
{
    accounting::every_call_is_booked_once(t.log, t.turn, calls, manifest);
}

} // verus!
