//! Replaying a recorded session.
//!
//! A recording is a fixture: its proposals drive a scripted emitter, its tool
//! outcomes drive replay tools, its generated replies drive a queue. The log of
//! the second run is normalized and held against the recording.

use vstd::prelude::*;

use crate::events::{
    ActionSpec, ActionSpecV, Event, EventKind, EventKindV, EventV, Proposal, ProposalV, RejectReason, RejectReasonV,
    ReplyPolicy, ReplyPolicyV, ToolOutcome, ToolOutcomeV, ToolOutput, ToolOutputV,
};
use crate::facts::SessionDigestV;
use crate::text;
use crate::text::{cat2, cat7, number, same};
use crate::turn::config;
use crate::turn::config::{EngineConfig, EngineConfigV};
use crate::turn::legal;
use crate::turn::legal::OfferV;
use crate::turn::progress;
use crate::turn::progress::insert_text;
use crate::turn::run;
use crate::turn::specs;
use crate::turn::specs::{
    plain, ASK_CLARIFICATION, CONFIRM_PENDING, EXEMPLARS, FORGET_ALL, FORGET_FACT, INSPECT_RESULT, RECALL, REMEMBER_FACT,
};
use crate::turn::tools::ToolFailure;
use crate::types::{clone_texts, EventId, SideEffect, Trust};

verus! {

// ---------------------------------------------------------------------------
// Errors
// ---------------------------------------------------------------------------

/// Why a replay failed.
#[derive(Debug)]
#[allow(inconsistent_fields)]
pub enum ReplayError {
    ChainBroken { detail: String },
    Divergence { at: usize, expected: String, got: String },
    LengthMismatch { expected: usize, got: usize },
    Engine { detail: String },
}

#[allow(inconsistent_fields)]
pub enum ReplayErrorV {
    ChainBroken { detail: Seq<char> },
    Divergence { at: usize, expected: Seq<char>, got: Seq<char> },
    LengthMismatch { expected: usize, got: usize },
    Engine { detail: Seq<char> },
}

impl DeepView for ReplayError {
    type V = ReplayErrorV;

    open spec fn deep_view(&self) -> ReplayErrorV {
        match self {
            ReplayError::ChainBroken { detail } => ReplayErrorV::ChainBroken { detail: detail.deep_view() },
            ReplayError::Divergence { at, expected, got } => ReplayErrorV::Divergence { at: *at, expected: expected.deep_view(), got: got.deep_view() },
            ReplayError::LengthMismatch { expected, got } => ReplayErrorV::LengthMismatch { expected: *expected, got: *got },
            ReplayError::Engine { detail } => ReplayErrorV::Engine { detail: detail.deep_view() },
        }
    }
}

impl Clone for ReplayError {
    fn clone(&self) -> (r: Self)
        ensures
            r.deep_view() == self.deep_view(),
    {
        match self {
            ReplayError::ChainBroken { detail } => ReplayError::ChainBroken { detail: detail.clone() },
            ReplayError::Divergence { at, expected, got } => ReplayError::Divergence { at: *at, expected: expected.clone(), got: got.clone() },
            ReplayError::LengthMismatch { expected, got } => ReplayError::LengthMismatch { expected: *expected, got: *got },
            ReplayError::Engine { detail } => ReplayError::Engine { detail: detail.clone() },
        }
    }
}

impl ReplayErrorV {
    pub open spec fn says(self) -> Seq<char> {
        match self {
            ReplayErrorV::ChainBroken { detail } => "recorded chain broken: "@ + detail,
            ReplayErrorV::Divergence { at, expected, got } => "divergence at line "@ + text::decimal(at as nat)
                + ": expected `"@ + expected + "`, got `"@ + got + "`"@,
            ReplayErrorV::LengthMismatch { expected, got } => "replay produced "@ + text::decimal(got as nat)
                + " lines, recording has "@ + text::decimal(expected as nat),
            ReplayErrorV::Engine { detail } => "engine error during replay: "@ + detail,
        }
    }
}

impl ReplayError {
    pub fn message(&self) -> (r: String)
        ensures
            r@ == self.deep_view().says(),
    {
        match self {
            ReplayError::ChainBroken { detail } => cat2("recorded chain broken: ", detail.as_str()),
            ReplayError::Divergence { at, expected, got } => {
                let n: String = number(*at as u64);
                cat7("divergence at line ", n.as_str(), ": expected `", expected.as_str(), "`, got `", got.as_str(), "`")
            },
            ReplayError::LengthMismatch { expected, got } => {
                let e: String = number(*expected as u64);
                let g: String = number(*got as u64);
                crate::text::cat4("replay produced ", g.as_str(), " lines, recording has ", e.as_str())
            },
            ReplayError::Engine { detail } => cat2("engine error during replay: ", detail.as_str()),
        }
    }
}

// ---------------------------------------------------------------------------
// Normal form
// ---------------------------------------------------------------------------

pub open spec fn reason_name(reason: RejectReasonV) -> Seq<char> {
    match reason {
        RejectReasonV::Malformed { .. } => "Malformed"@,
        RejectReasonV::ProviderUnavailable { .. } => "ProviderUnavailable"@,
        RejectReasonV::IllegalAction { .. } => "IllegalAction"@,
        RejectReasonV::GuardDenied { .. } => "GuardDenied"@,
    }
}

pub open spec fn policy_name(policy: ReplyPolicyV) -> Seq<char> {
    match policy {
        ReplyPolicyV::Verbatim { .. } => "Verbatim"@,
        ReplyPolicyV::Template { .. } => "Template"@,
        ReplyPolicyV::Generate => "Generate"@,
    }
}

/// What an event did, in one line. What a replay with recorded stand-ins cannot
/// reproduce has no line: how a reply came about, what was said on the way, the
/// summaries, and what the models cost.
pub open spec fn normal_line(kind: EventKindV) -> Option<Seq<char>> {
    match kind {
        EventKindV::ReplyFailed { .. } => None,
        EventKindV::ReplyFlagged { .. } => None,
        EventKindV::ReplyEchoed { .. } => None,
        EventKindV::ReplyCited { .. } => None,
        EventKindV::Said { .. } => None,
        EventKindV::Summarized { .. } => None,
        EventKindV::ModelCall { .. } => None,
        EventKindV::UserSaid { text } => Some("UserSaid "@ + text),
        EventKindV::Proposed { proposal } => Some("Proposed "@ + proposal.action),
        EventKindV::Rejected { reason, .. } => Some("Rejected "@ + reason_name(reason)),
        EventKindV::ToolCalled { action, .. } => Some("ToolCalled "@ + action),
        EventKindV::ToolReturned { outcome, .. } => Some(
            match outcome {
                ToolOutcomeV::Done { .. } => "ToolReturned Ok"@,
                ToolOutcomeV::Failed { .. } => "ToolReturned Err"@,
            },
        ),
        EventKindV::PendingConfirmation { .. } => Some("PendingConfirmation"@),
        EventKindV::Confirmed { .. } => Some("Confirmed"@),
        EventKindV::Corrected { .. } => Some("Corrected"@),
        EventKindV::Settled { policy } => Some("Settled "@ + policy_name(policy)),
        EventKindV::Replied { text } => Some("Replied "@ + text),
    }
}

/// The behaviour of a log, one line per event that shows any.
pub open spec fn normal_form(events: Seq<EventV>) -> Seq<Seq<char>>
    decreases events.len(),
{
    if events.len() == 0 {
        seq![]
    } else {
        let rest = normal_form(events.drop_last());
        match normal_line(events.last().kind) {
            Some(line) => rest.push(line),
            None => rest,
        }
    }
}

/// The line of one event.
pub fn normalize_kind(kind: &EventKind) -> (r: Option<String>)
    ensures
        r.deep_view() == normal_line(kind.deep_view()),
{
    match kind {
        EventKind::ReplyFailed { .. } => None,
        EventKind::ReplyFlagged { .. } => None,
        EventKind::ReplyEchoed { .. } => None,
        EventKind::ReplyCited { .. } => None,
        EventKind::Said { .. } => None,
        EventKind::Summarized { .. } => None,
        EventKind::ModelCall { .. } => None,
        EventKind::UserSaid { text } => Some(cat2("UserSaid ", text.as_str())),
        EventKind::Proposed { proposal } => Some(cat2("Proposed ", proposal.action.as_str())),
        EventKind::Rejected { reason, .. } => {
            let name: &str = match reason {
                RejectReason::Malformed { .. } => "Malformed",
                RejectReason::ProviderUnavailable { .. } => "ProviderUnavailable",
                RejectReason::IllegalAction { .. } => "IllegalAction",
                RejectReason::GuardDenied { .. } => "GuardDenied",
            };
            Some(cat2("Rejected ", name))
        },
        EventKind::ToolCalled { action, .. } => Some(cat2("ToolCalled ", action.as_str())),
        EventKind::ToolReturned { outcome, .. } => match outcome {
            ToolOutcome::Done { .. } => Some("ToolReturned Ok".to_owned()),
            ToolOutcome::Failed { .. } => Some("ToolReturned Err".to_owned()),
        },
        EventKind::PendingConfirmation { .. } => Some("PendingConfirmation".to_owned()),
        EventKind::Confirmed { .. } => Some("Confirmed".to_owned()),
        EventKind::Corrected { .. } => Some("Corrected".to_owned()),
        EventKind::Settled { policy } => {
            let name: &str = match policy {
                ReplyPolicy::Verbatim { .. } => "Verbatim",
                ReplyPolicy::Template { .. } => "Template",
                ReplyPolicy::Generate => "Generate",
            };
            Some(cat2("Settled ", name))
        },
        EventKind::Replied { text } => Some(cat2("Replied ", text.as_str())),
    }
}

/// One line for every event that shows behaviour.
pub fn normalize(events: &Vec<Event>) -> (r: Vec<String>)
    ensures
        r.deep_view() == normal_form(events.deep_view()),
{
    let ghost all = events.deep_view();
    let mut out: Vec<String> = Vec::new();
    let mut i: usize = 0;
    proof {
        assert(all.take(0) =~= seq![]);
        assert(out.deep_view() =~= seq![]);
    }
    while i < events.len()
        invariant
            i <= events@.len(),
            all == events.deep_view(),
            out.deep_view() == normal_form(all.take(i as int)),
        decreases events@.len() - i,
    {
        proof {
            assert(all.take(i + 1).drop_last() =~= all.take(i as int));
            assert(all.take(i + 1).last() == events@[i as int].deep_view());
        }
        if let Some(line) = normalize_kind(&events[i].kind) {
            let ghost before = out.deep_view();
            out.push(line);
            proof {
                assert(out.deep_view() =~= before.push(line@));
            }
        }
        i = i + 1;
    }
    proof {
        assert(all.take(all.len() as int) =~= all);
    }
    out
}

/// What separates two normal forms: the first line that differs, then the
/// length.
pub open spec fn difference(expected: Seq<Seq<char>>, got: Seq<Seq<char>>, from: int) -> Option<ReplayErrorV>
    decreases expected.len() - from,
{
    if from < 0 || from >= expected.len() || from >= got.len() {
        if expected.len() != got.len() {
            Some(ReplayErrorV::LengthMismatch { expected: expected.len() as usize, got: got.len() as usize })
        } else {
            None
        }
    } else if expected[from] != got[from] {
        Some(ReplayErrorV::Divergence { at: from as usize, expected: expected[from], got: got[from] })
    } else {
        difference(expected, got, from + 1)
    }
}

/// Hold a second run against the recording.
pub fn diff(recorded: &Vec<Event>, replayed: &Vec<Event>) -> (r: Result<(), ReplayError>)
    ensures
        match r {
            Ok(_) => difference(normal_form(recorded.deep_view()), normal_form(replayed.deep_view()), 0) is None,
            Err(e) => difference(normal_form(recorded.deep_view()), normal_form(replayed.deep_view()), 0) == Some(
                e.deep_view(),
            ),
        },
        r is Ok <==> normal_form(recorded.deep_view()) == normal_form(replayed.deep_view()),
{
    let expected: Vec<String> = normalize(recorded);
    let got: Vec<String> = normalize(replayed);
    let ghost ev = expected.deep_view();
    let ghost gv = got.deep_view();
    proof {
        no_difference_is_equality(ev, gv);
    }
    let mut i: usize = 0;
    while i < expected.len() && i < got.len()
        invariant
            i <= expected@.len(),
            i <= got@.len(),
            ev == expected.deep_view(),
            gv == got.deep_view(),
            ev == normal_form(recorded.deep_view()),
            gv == normal_form(replayed.deep_view()),
            difference(ev, gv, 0) == difference(ev, gv, i as int),
            difference(ev, gv, 0) is None <==> ev == gv,
        decreases expected@.len() - i,
    {
        assert(ev[i as int] == expected@[i as int]@);
        assert(gv[i as int] == got@[i as int]@);
        if !same(expected[i].as_str(), got[i].as_str()) {
            return Err(ReplayError::Divergence { at: i, expected: expected[i].clone(), got: got[i].clone() });
        }
        i = i + 1;
    }
    if expected.len() != got.len() {
        return Err(ReplayError::LengthMismatch { expected: expected.len(), got: got.len() });
    }
    Ok(())
}

/// Two normal forms differ nowhere exactly where they are the same.
pub proof fn no_difference_is_equality(expected: Seq<Seq<char>>, got: Seq<Seq<char>>)
    ensures
        difference(expected, got, 0) is None <==> expected == got,
{
    lemma_difference(expected, got, 0);
    if difference(expected, got, 0) is None {
        assert(expected =~= got);
    }
}

proof fn lemma_difference(expected: Seq<Seq<char>>, got: Seq<Seq<char>>, from: int)
    requires
        0 <= from,
    ensures
        difference(expected, got, from) is None ==> expected.len() == got.len() && forall|i: int|
            from <= i < expected.len() ==> expected[i] == got[i],
        expected == got ==> difference(expected, got, from) is None,
    decreases expected.len() - from,
{
    if from < expected.len() && from < got.len() && expected[from] == got[from] {
        lemma_difference(expected, got, from + 1);
    }
}

// ---------------------------------------------------------------------------
// Stand-ins
// ---------------------------------------------------------------------------

/// Actions that the engine answers itself: those that it offers, and the one that
/// it runs without offering it.
pub open spec fn synthetic(name: Seq<char>) -> bool {
    name == REMEMBER_FACT@ || name == ASK_CLARIFICATION@ || name == CONFIRM_PENDING@ || name == FORGET_FACT@ || name
        == FORGET_ALL@ || name == RECALL@ || name == INSPECT_RESULT@ || name == EXEMPLARS@
}

fn is_synthetic(name: &str) -> (r: bool)
    ensures
        r == synthetic(name@),
{
    same(name, REMEMBER_FACT) || same(name, ASK_CLARIFICATION) || same(name, CONFIRM_PENDING) || same(
        name,
        FORGET_FACT,
    ) || same(name, FORGET_ALL) || same(name, RECALL) || same(name, INSPECT_RESULT) || same(name, EXEMPLARS)
}

/// A tool that gives its recorded outcomes, one after the other.
#[derive(Debug)]
pub struct ReplayTool {
    pub spec: ActionSpec,
    /// What is still to be given.
    pub outcomes: Vec<ToolOutcome>,
    /// Whether a call beyond the recording succeeds.
    pub synthetic_ok: bool,
}

pub struct ReplayToolV {
    pub spec: ActionSpecV,
    pub outcomes: Seq<ToolOutcomeV>,
    pub synthetic_ok: bool,
}

impl DeepView for ReplayTool {
    type V = ReplayToolV;

    open spec fn deep_view(&self) -> ReplayToolV {
        ReplayToolV {
            spec: self.spec.deep_view(),
            outcomes: self.outcomes.deep_view(),
            synthetic_ok: self.synthetic_ok,
        }
    }
}

impl Clone for ReplayTool {
    fn clone(&self) -> (r: Self)
        ensures
            r.deep_view() == self.deep_view(),
    {
        let r: ReplayTool = ReplayTool {
            spec: self.spec.clone(),
            outcomes: self.outcomes.clone(),
            synthetic_ok: self.synthetic_ok,
        };
        proof {
            assert(r.outcomes.deep_view() =~= self.outcomes.deep_view());
        }
        r
    }
}

/// What a tool without outcomes answers.
pub open spec fn beyond_recording(synthetic_ok: bool) -> ToolOutcomeV {
    if synthetic_ok {
        ToolOutcomeV::Done {
            output: ToolOutputV { summary: "(verified: synthetic ok)"@, artifact: None, trust: Trust::System },
        }
    } else {
        ToolOutcomeV::Failed { kind: "replay"@, detail: "outcome queue exhausted"@ }
    }
}

/// A result as an outcome.
pub open spec fn as_outcome(r: Result<ToolOutput, ToolFailure>) -> ToolOutcomeV {
    crate::turn::tools::outcome_from(r)
}

impl ReplayTool {
    pub fn new(spec: ActionSpec, outcomes: Vec<ToolOutcome>, synthetic_ok: bool) -> (r: Self)
        ensures
            r.deep_view() == (ReplayToolV {
                spec: spec.deep_view(),
                outcomes: outcomes.deep_view(),
                synthetic_ok,
            }),
    {
        ReplayTool { spec, outcomes, synthetic_ok }
    }

    /// Give the next outcome.
    pub fn call(&mut self) -> (r: Result<ToolOutput, ToolFailure>)
        ensures
            as_outcome(r) == (if old(self).deep_view().outcomes.len() > 0 {
                old(self).deep_view().outcomes[0]
            } else {
                beyond_recording(old(self).synthetic_ok)
            }),
            final(self).deep_view() == (if old(self).deep_view().outcomes.len() > 0 {
                ReplayToolV { outcomes: old(self).deep_view().outcomes.drop_first(), ..old(self).deep_view() }
            } else {
                old(self).deep_view()
            }),
    {
        let ghost before = self.outcomes.deep_view();
        if self.outcomes.len() > 0 {
            let first: ToolOutcome = self.outcomes.remove(0);
            proof {
                assert(before[0] == first.deep_view());
                assert(self.outcomes.deep_view() =~= before.drop_first());
            }
            match first {
                ToolOutcome::Done { output } => Ok(output),
                ToolOutcome::Failed { kind, detail } => Err(ToolFailure { kind, detail }),
            }
        } else if self.synthetic_ok {
            Ok(
                ToolOutput {
                    summary: "(verified: synthetic ok)".to_owned(),
                    artifact: None,
                    trust: Trust::System,
                },
            )
        } else {
            Err(ToolFailure { kind: "replay".to_owned(), detail: "outcome queue exhausted".to_owned() })
        }
    }
}

/// A spec for an action that no spec is known of.
pub open spec fn dummy_schema(action: Seq<char>) -> ActionSpecV {
    specs::plain_spec(
        action,
        "replay double for "@ + action,
        "{\"properties\":{},\"type\":\"object\"}"@,
        SideEffect::Pure,
    )
}

pub fn dummy_spec(action: &str) -> (r: ActionSpec)
    ensures
        r.deep_view() == dummy_schema(action@),
{
    let description: String = cat2("replay double for ", action);
    plain(action, description.as_str(), "{\"properties\":{},\"type\":\"object\"}", SideEffect::Pure)
}

/// The replies that a model wrote, given out again one after the other.
#[derive(Debug)]
pub struct QueueReplier {
    pub texts: Vec<String>,
}

impl QueueReplier {
    /// Give the next reply. Beyond the recording there is none, and the error
    /// says so.
    pub fn reply(&mut self) -> (r: Result<String, String>)
        ensures
            match r {
                Ok(text) => old(self).texts@.len() > 0 && text@ == old(self).texts.deep_view()[0]
                    && final(self).texts.deep_view() == old(self).texts.deep_view().drop_first(),
                Err(detail) => old(self).texts@.len() == 0 && *final(self) == *old(self) && detail@
                    == "replay reply queue exhausted"@,
            },
    {
        let ghost before = self.texts.deep_view();
        if self.texts.len() > 0 {
            let first: String = self.texts.remove(0);
            proof {
                assert(self.texts.deep_view() =~= before.drop_first());
            }
            Ok(first)
        } else {
            Err("replay reply queue exhausted".to_owned())
        }
    }
}

/// Stand-ins made from a recording.
#[derive(Debug)]
pub struct Doubles {
    pub user_inputs: Vec<String>,
    pub proposals: Vec<Proposal>,
    pub tools: Vec<ReplayTool>,
    pub replier: QueueReplier,
}

pub struct DoublesV {
    pub user_inputs: Seq<Seq<char>>,
    pub proposals: Seq<ProposalV>,
    pub tools: Seq<ReplayToolV>,
    pub replies: Seq<Seq<char>>,
}

impl DeepView for Doubles {
    type V = DoublesV;

    open spec fn deep_view(&self) -> DoublesV {
        DoublesV {
            user_inputs: self.user_inputs.deep_view(),
            proposals: self.proposals.deep_view(),
            tools: self.tools.deep_view(),
            replies: self.replier.texts.deep_view(),
        }
    }
}

impl Clone for Doubles {
    fn clone(&self) -> (r: Self)
        ensures
            r.deep_view() == self.deep_view(),
    {
        let r: Doubles = Doubles {
            user_inputs: clone_texts(&self.user_inputs),
            proposals: self.proposals.clone(),
            tools: self.tools.clone(),
            replier: QueueReplier { texts: clone_texts(&self.replier.texts) },
        };
        proof {
            assert(r.proposals.deep_view() =~= self.proposals.deep_view());
            assert(r.tools.deep_view() =~= self.tools.deep_view());
        }
        r
    }
}

/// What the user said.
pub open spec fn inputs_in(events: Seq<EventV>) -> Seq<Seq<char>>
    decreases events.len(),
{
    if events.len() == 0 {
        seq![]
    } else {
        let rest = inputs_in(events.drop_last());
        match events.last().kind {
            EventKindV::UserSaid { text } => rest.push(text),
            _ => rest,
        }
    }
}

pub open spec fn proposals_in(events: Seq<EventV>) -> Seq<ProposalV>
    decreases events.len(),
{
    if events.len() == 0 {
        seq![]
    } else {
        let rest = proposals_in(events.drop_last());
        match events.last().kind {
            EventKindV::Proposed { proposal } => rest.push(proposal),
            _ => rest,
        }
    }
}

/// The action that a call was made for: the last call with that number.
pub open spec fn action_of_call(events: Seq<EventV>, call: EventId) -> Option<Seq<char>>
    decreases events.len(),
{
    if events.len() == 0 {
        None
    } else {
        match events.last().kind {
            EventKindV::ToolCalled { action, .. } => if events.last().id == call {
                Some(action)
            } else {
                action_of_call(events.drop_last(), call)
            },
            _ => action_of_call(events.drop_last(), call),
        }
    }
}

/// What an action returned, call by call.
pub open spec fn outcomes_for(events: Seq<EventV>, action: Seq<char>) -> Seq<ToolOutcomeV>
    decreases events.len(),
{
    if events.len() == 0 {
        seq![]
    } else {
        let rest = outcomes_for(events.drop_last(), action);
        match events.last().kind {
            EventKindV::ToolReturned { call, outcome } => if action_of_call(events.drop_last(), call) == Some(action) {
                rest.push(outcome)
            } else {
                rest
            },
            _ => rest,
        }
    }
}

/// The actions that returned something, each once, in the order of their first
/// return.
pub open spec fn actions_in(events: Seq<EventV>) -> Seq<Seq<char>>
    decreases events.len(),
{
    if events.len() == 0 {
        seq![]
    } else {
        let rest = actions_in(events.drop_last());
        match events.last().kind {
            EventKindV::ToolReturned { call, .. } => match action_of_call(events.drop_last(), call) {
                Some(action) => progress::with_text(rest, action),
                None => rest,
            },
            _ => rest,
        }
    }
}

/// How a turn was settled last.
pub open spec fn settled_on(events: Seq<EventV>, turn: u32) -> Option<ReplyPolicyV>
    decreases events.len(),
{
    if events.len() == 0 {
        None
    } else if events.last().turn == turn && events.last().kind is Settled {
        Some(events.last().kind->policy)
    } else {
        settled_on(events.drop_last(), turn)
    }
}

/// The replies that a model wrote.
pub open spec fn replies_in(events: Seq<EventV>) -> Seq<Seq<char>>
    decreases events.len(),
{
    if events.len() == 0 {
        seq![]
    } else {
        let rest = replies_in(events.drop_last());
        match events.last().kind {
            EventKindV::Replied { text } => if settled_on(events.drop_last(), events.last().turn) == Some(
                ReplyPolicyV::Generate,
            ) {
                rest.push(text)
            } else {
                rest
            },
            _ => rest,
        }
    }
}

/// The stand-ins of the first `n` known tools, each with its own spec. Outcomes
/// go to the first tool of their name.
pub open spec fn known_tools(events: Seq<EventV>, known: Seq<ActionSpecV>, synthetic_ok: bool) -> Seq<ReplayToolV>
    decreases known.len(),
{
    if known.len() == 0 {
        seq![]
    } else {
        let rest = known_tools(events, known.drop_last(), synthetic_ok);
        let spec = known.last();
        if synthetic(spec.name) {
            rest
        } else {
            rest.push(
                ReplayToolV {
                    spec,
                    outcomes: if names_known(known.drop_last(), spec.name) {
                        seq![]
                    } else {
                        outcomes_for(events, spec.name)
                    },
                    synthetic_ok,
                },
            )
        }
    }
}

pub open spec fn names_known(known: Seq<ActionSpecV>, name: Seq<char>) -> bool {
    exists|i: int| 0 <= i < known.len() && (#[trigger] known[i]).name == name
}

/// The stand-ins of actions that were recorded and no spec is known of.
pub open spec fn unknown_tools(
    events: Seq<EventV>,
    actions: Seq<Seq<char>>,
    known: Seq<ActionSpecV>,
    synthetic_ok: bool,
) -> Seq<ReplayToolV>
    decreases actions.len(),
{
    if actions.len() == 0 {
        seq![]
    } else {
        let rest = unknown_tools(events, actions.drop_last(), known, synthetic_ok);
        let action = actions.last();
        if synthetic(action) || names_known(known, action) {
            rest
        } else {
            rest.push(
                ReplayToolV { spec: dummy_schema(action), outcomes: outcomes_for(events, action), synthetic_ok },
            )
        }
    }
}

/// The stand-ins that a recording makes.
pub open spec fn doubles_of(events: Seq<EventV>, known: Seq<ActionSpecV>, synthetic_ok: bool) -> DoublesV {
    DoublesV {
        user_inputs: inputs_in(events),
        proposals: proposals_in(events),
        tools: known_tools(events, known, synthetic_ok) + unknown_tools(
            events,
            actions_in(events),
            known,
            synthetic_ok,
        ),
        replies: replies_in(events),
    }
}

fn find_call(events: &Vec<Event>, n: usize, call: EventId) -> (r: Option<String>)
    requires
        n <= events@.len(),
    ensures
        r.deep_view() == action_of_call(events.deep_view().take(n as int), call),
{
    let ghost all = events.deep_view();
    let mut i: usize = n;
    while i > 0
        invariant
            i <= n <= events@.len(),
            all == events.deep_view(),
            action_of_call(all.take(n as int), call) == action_of_call(all.take(i as int), call),
        decreases i,
    {
        proof {
            assert(all.take(i as int).drop_last() =~= all.take(i - 1));
            assert(all.take(i as int).last() == events@[i - 1].deep_view());
        }
        if let EventKind::ToolCalled { action, .. } = &events[i - 1].kind {
            if events[i - 1].id == call {
                return Some(action.clone());
            }
        }
        i = i - 1;
    }
    None
}

fn is_generated(events: &Vec<Event>, n: usize, turn: u32) -> (r: bool)
    requires
        n <= events@.len(),
    ensures
        r == (settled_on(events.deep_view().take(n as int), turn) == Some(ReplyPolicyV::Generate)),
{
    let ghost all = events.deep_view();
    let mut i: usize = n;
    while i > 0
        invariant
            i <= n <= events@.len(),
            all == events.deep_view(),
            settled_on(all.take(n as int), turn) == settled_on(all.take(i as int), turn),
        decreases i,
    {
        proof {
            assert(all.take(i as int).drop_last() =~= all.take(i - 1));
            assert(all.take(i as int).last() == events@[i - 1].deep_view());
        }
        if events[i - 1].turn == turn {
            if let EventKind::Settled { policy } = &events[i - 1].kind {
                return match policy {
                    ReplyPolicy::Generate => true,
                    _ => false,
                };
            }
        }
        i = i - 1;
    }
    false
}

fn collect_outcomes(events: &Vec<Event>, action: &str) -> (r: Vec<ToolOutcome>)
    ensures
        r.deep_view() == outcomes_for(events.deep_view(), action@),
{
    let ghost all = events.deep_view();
    let mut out: Vec<ToolOutcome> = Vec::new();
    let mut i: usize = 0;
    proof {
        assert(all.take(0) =~= seq![]);
        assert(out.deep_view() =~= seq![]);
    }
    while i < events.len()
        invariant
            i <= events@.len(),
            all == events.deep_view(),
            out.deep_view() == outcomes_for(all.take(i as int), action@),
        decreases events@.len() - i,
    {
        proof {
            assert(all.take(i + 1).drop_last() =~= all.take(i as int));
            assert(all.take(i + 1).last() == events@[i as int].deep_view());
        }
        if let EventKind::ToolReturned { call, outcome } = &events[i].kind {
            if let Some(a) = find_call(events, i, *call) {
                if same(a.as_str(), action) {
                    let ghost before = out.deep_view();
                    let one: ToolOutcome = outcome.clone();
                    out.push(one);
                    proof {
                        assert(out.deep_view() =~= before.push(one.deep_view()));
                    }
                }
            }
        }
        i = i + 1;
    }
    proof {
        assert(all.take(all.len() as int) =~= all);
    }
    out
}

fn has_name(known: &Vec<ActionSpec>, n: usize, name: &str) -> (r: bool)
    requires
        n <= known@.len(),
    ensures
        r == names_known(known.deep_view().take(n as int), name@),
{
    let ghost all = known.deep_view().take(n as int);
    let mut i: usize = 0;
    while i < n
        invariant
            i <= n <= known@.len(),
            all == known.deep_view().take(n as int),
            forall|k: int| 0 <= k < i ==> (#[trigger] all[k]).name != name@,
        decreases n - i,
    {
        assert(all[i as int] == known@[i as int].deep_view());
        if same(known[i].name.as_str(), name) {
            return true;
        }
        i = i + 1;
    }
    false
}

fn make_known(events: &Vec<Event>, known: &Vec<ActionSpec>, synthetic_ok: bool) -> (r: Vec<ReplayTool>)
    ensures
        r.deep_view() == known_tools(events.deep_view(), known.deep_view(), synthetic_ok),
{
    let ghost all = known.deep_view();
    let ghost ev = events.deep_view();
    let mut out: Vec<ReplayTool> = Vec::new();
    let mut i: usize = 0;
    proof {
        assert(all.take(0) =~= seq![]);
        assert(out.deep_view() =~= seq![]);
    }
    while i < known.len()
        invariant
            i <= known@.len(),
            all == known.deep_view(),
            ev == events.deep_view(),
            out.deep_view() == known_tools(ev, all.take(i as int), synthetic_ok),
        decreases known@.len() - i,
    {
        proof {
            assert(all.take(i + 1).drop_last() =~= all.take(i as int));
            assert(all.take(i + 1).last() == known@[i as int].deep_view());
        }
        let name: &str = known[i].name.as_str();
        if !is_synthetic(name) {
            let outcomes: Vec<ToolOutcome> = if has_name(known, i, name) {
                let none: Vec<ToolOutcome> = Vec::new();
                proof {
                    assert(none.deep_view() =~= seq![]);
                }
                none
            } else {
                collect_outcomes(events, name)
            };
            let ghost before = out.deep_view();
            let one: ReplayTool = ReplayTool::new(known[i].clone(), outcomes, synthetic_ok);
            out.push(one);
            proof {
                assert(out.deep_view() =~= before.push(one.deep_view()));
            }
        }
        i = i + 1;
    }
    proof {
        assert(all.take(all.len() as int) =~= all);
    }
    out
}

fn make_unknown(events: &Vec<Event>, actions: &Vec<String>, known: &Vec<ActionSpec>, synthetic_ok: bool) -> (r: Vec<
    ReplayTool,
>)
    ensures
        r.deep_view() == unknown_tools(events.deep_view(), actions.deep_view(), known.deep_view(), synthetic_ok),
{
    let ghost all = actions.deep_view();
    let ghost ev = events.deep_view();
    let ghost kv = known.deep_view();
    let mut out: Vec<ReplayTool> = Vec::new();
    let mut i: usize = 0;
    proof {
        assert(all.take(0) =~= seq![]);
        assert(out.deep_view() =~= seq![]);
        assert(kv.take(kv.len() as int) =~= kv);
    }
    while i < actions.len()
        invariant
            i <= actions@.len(),
            all == actions.deep_view(),
            ev == events.deep_view(),
            kv == known.deep_view(),
            kv.take(kv.len() as int) == kv,
            out.deep_view() == unknown_tools(ev, all.take(i as int), kv, synthetic_ok),
        decreases actions@.len() - i,
    {
        proof {
            assert(all.take(i + 1).drop_last() =~= all.take(i as int));
            assert(all.take(i + 1).last() == actions@[i as int]@);
        }
        let name: &str = actions[i].as_str();
        if !is_synthetic(name) && !has_name(known, known.len(), name) {
            let ghost before = out.deep_view();
            let one: ReplayTool = ReplayTool::new(dummy_spec(name), collect_outcomes(events, name), synthetic_ok);
            out.push(one);
            proof {
                assert(out.deep_view() =~= before.push(one.deep_view()));
            }
        }
        i = i + 1;
    }
    proof {
        assert(all.take(all.len() as int) =~= all);
    }
    out
}

/// Make stand-ins from a recording. A known spec is used as it is; an action
/// without one gets a permissive spec.
pub fn doubles_from(recorded: &Vec<Event>, known_specs: &Vec<ActionSpec>, synthetic_ok: bool) -> (r: Doubles)
    ensures
        r.deep_view() == doubles_of(recorded.deep_view(), known_specs.deep_view(), synthetic_ok),
{
    let ghost all = recorded.deep_view();
    let mut user_inputs: Vec<String> = Vec::new();
    let mut proposals: Vec<Proposal> = Vec::new();
    let mut actions: Vec<String> = Vec::new();
    let mut replies: Vec<String> = Vec::new();
    let mut i: usize = 0;
    proof {
        assert(all.take(0) =~= seq![]);
        assert(user_inputs.deep_view() =~= seq![]);
        assert(proposals.deep_view() =~= seq![]);
        assert(actions.deep_view() =~= seq![]);
        assert(replies.deep_view() =~= seq![]);
    }
    while i < recorded.len()
        invariant
            i <= recorded@.len(),
            all == recorded.deep_view(),
            user_inputs.deep_view() == inputs_in(all.take(i as int)),
            proposals.deep_view() == proposals_in(all.take(i as int)),
            actions.deep_view() == actions_in(all.take(i as int)),
            replies.deep_view() == replies_in(all.take(i as int)),
        decreases recorded@.len() - i,
    {
        proof {
            assert(all.take(i + 1).drop_last() =~= all.take(i as int));
            assert(all.take(i + 1).last() == recorded@[i as int].deep_view());
        }
        match &recorded[i].kind {
            EventKind::UserSaid { text } => {
                let ghost before = user_inputs.deep_view();
                user_inputs.push(text.clone());
                proof {
                    assert(user_inputs.deep_view() =~= before.push(text@));
                }
            },
            EventKind::Proposed { proposal } => {
                let ghost before = proposals.deep_view();
                proposals.push(proposal.clone());
                proof {
                    assert(proposals.deep_view() =~= before.push(proposal.deep_view()));
                }
            },
            EventKind::ToolReturned { call, .. } => {
                if let Some(a) = find_call(recorded, i, *call) {
                    insert_text(&mut actions, a.as_str());
                }
            },
            EventKind::Replied { text } => {
                if is_generated(recorded, i, recorded[i].turn) {
                    let ghost before = replies.deep_view();
                    replies.push(text.clone());
                    proof {
                        assert(replies.deep_view() =~= before.push(text@));
                    }
                }
            },
            _ => {},
        }
        i = i + 1;
    }
    proof {
        assert(all.take(all.len() as int) =~= all);
    }
    let mut tools: Vec<ReplayTool> = make_known(recorded, known_specs, synthetic_ok);
    let mut more: Vec<ReplayTool> = make_unknown(recorded, &actions, known_specs, synthetic_ok);
    let ghost a = tools.deep_view();
    let ghost b = more.deep_view();
    tools.append(&mut more);
    proof {
        assert(tools.deep_view() =~= a + b);
    }
    Doubles { user_inputs, proposals, tools, replier: QueueReplier { texts: replies } }
}

/// What a replay runs with, beyond the recording.
#[derive(Debug)]
pub struct ReplayOptions {
    /// Specs of the tools in use, also of those that were never called.
    pub known_specs: Vec<ActionSpec>,
    /// Whether a call beyond the recording succeeds.
    pub synthetic_ok_for_new_calls: bool,
}

impl Default for ReplayOptions {
    fn default() -> (r: Self)
        ensures
            r.known_specs@.len() == 0,
            !r.synthetic_ok_for_new_calls,
    {
        ReplayOptions { known_specs: Vec::new(), synthetic_ok_for_new_calls: false }
    }
}

/// The settings of a replay: the defaults, without the check of drafts and
/// without the narrowing by what is stored. The recording carries what became of
/// each draft, and a second check would drain the recorded replies; a replay
/// starts from an empty store, and a narrower offer would refuse what was
/// recorded.
pub fn replay_config() -> (r: EngineConfig)
    ensures
        r.deep_view() == (EngineConfigV {
            reply_grounding_check: false,
            prune_inapplicable: false,
            ..config::default_settings()
        }),
{
    let mut cfg: EngineConfig = EngineConfig::default();
    cfg.reply_grounding_check = false;
    cfg.prune_inapplicable = false;
    cfg
}

/// What a replay runs with: the stand-ins of a recording that is intact.
/// `chain` is what the check of the recording's own hashes gave.
pub fn replay_with(recorded: &Vec<Event>, chain: Result<(), String>, opts: &ReplayOptions) -> (r: Result<
    Doubles,
    ReplayError,
>)
    ensures
        match chain {
            Ok(_) => r matches Ok(d) && d.deep_view() == doubles_of(
                recorded.deep_view(),
                opts.known_specs.deep_view(),
                opts.synthetic_ok_for_new_calls,
            ),
            Err(detail) => r == Err::<Doubles, ReplayError>(ReplayError::ChainBroken { detail }),
        },
{
    match chain {
        Ok(_) => Ok(doubles_from(recorded, &opts.known_specs, opts.synthetic_ok_for_new_calls)),
        Err(detail) => Err(ReplayError::ChainBroken { detail }),
    }
}

/// The log of a second run.
#[derive(Debug)]
pub struct Replayed {
    pub events: Vec<Event>,
}

/// What the second run came to: the log that it left, or why it did not run to
/// its end.
pub fn rerun(run: Result<Vec<Event>, String>) -> (r: Result<Replayed, ReplayError>)
    ensures
        r == (match run {
            Ok(events) => Ok::<Replayed, ReplayError>(Replayed { events }),
            Err(detail) => Err(ReplayError::Engine { detail }),
        }),
{
    match run {
        Ok(events) => Ok(Replayed { events }),
        Err(detail) => Err(ReplayError::Engine { detail }),
    }
}

/// Hold the log of a second run against the recording. A run that failed is
/// handed on as it is.
pub fn replay_session(recorded: &Vec<Event>, again: Result<Replayed, ReplayError>) -> (r: Result<(), ReplayError>)
    ensures
        match again {
            Ok(x) => match difference(normal_form(recorded.deep_view()), normal_form(x.events.deep_view()), 0) {
                Some(d) => r matches Err(e) && e.deep_view() == d,
                None => r is Ok,
            },
            Err(e) => r == Err::<(), ReplayError>(e),
        },
        r is Ok <==> (again matches Ok(x) && normal_form(recorded.deep_view()) == normal_form(x.events.deep_view())),
{
    match again {
        Ok(x) => diff(recorded, &x.events),
        Err(e) => Err(e),
    }
}

// ---------------------------------------------------------------------------
// Laws
// ---------------------------------------------------------------------------

/// A log never diverges from itself, whatever is in it.
pub proof fn a_faithful_replay_passes(events: Seq<EventV>)
    ensures
        difference(normal_form(events), normal_form(events), 0) is None,
{
    no_difference_is_equality(normal_form(events), normal_form(events));
}

/// A replay narrows nothing: whatever was on offer when the session was
/// recorded is on offer when it is replayed, however empty the store is by then.
pub proof fn a_replay_narrows_nothing(
    o: OfferV,
    cfg: EngineConfigV,
    tools: Seq<ActionSpecV>,
    name: Seq<char>,
    turn: u32,
    session: Seq<char>,
    digests: Option<Seq<SessionDigestV>>,
)
    requires
        legal::offers(legal::on_offer(o, cfg, tools), name),
    ensures
        legal::offers(
            legal::on_offer(
                OfferV {
                    recall_applies: run::something_out_of_sight(
                        EngineConfigV { prune_inapplicable: false, ..cfg },
                        turn,
                        session,
                        digests,
                    ),
                    scope_holds_facts: true,
                    ..o
                },
                EngineConfigV { prune_inapplicable: false, ..cfg },
                tools,
            ),
            name,
        ),
{
    let wide = OfferV { recall_applies: true, scope_holds_facts: true, ..o };
    legal::lifting_the_pruning_only_widens(o, cfg, tools, name);
    legal::the_offer_by_name(wide, cfg, tools, name);
    legal::the_offer_by_name(wide, EngineConfigV { prune_inapplicable: false, ..cfg }, tools, name);
}

/// What a replay cannot reproduce makes no difference: dropping such an event
/// leaves the normal form as it is.
pub proof fn infrastructure_makes_no_difference(before: Seq<EventV>, e: EventV, after: Seq<EventV>)
    requires
        normal_line(e.kind) is None,
    ensures
        normal_form(before.push(e) + after) == normal_form(before + after),
    decreases after.len(),
{
    if after.len() == 0 {
        assert(before.push(e) + after =~= before.push(e));
        assert(before + after =~= before);
        assert(before.push(e).drop_last() =~= before);
    } else {
        infrastructure_makes_no_difference(before, e, after.drop_last());
        assert((before.push(e) + after).drop_last() =~= before.push(e) + after.drop_last());
        assert((before + after).drop_last() =~= before + after.drop_last());
        assert((before.push(e) + after).last() == after.last());
        assert((before + after).last() == after.last());
    }
}

/// No tool stands in for an action that the engine answers itself.
pub proof fn own_actions_have_no_stand_in(events: Seq<EventV>, known: Seq<ActionSpecV>, synthetic_ok: bool, i: int)
    requires
        0 <= i < doubles_of(events, known, synthetic_ok).tools.len(),
    ensures
        !synthetic(doubles_of(events, known, synthetic_ok).tools[i].spec.name),
{
    let a = known_tools(events, known, synthetic_ok);
    let b = unknown_tools(events, actions_in(events), known, synthetic_ok);
    if i < a.len() {
        lemma_known(events, known, synthetic_ok, i);
        assert((a + b)[i] == a[i]);
    } else {
        lemma_unknown(events, actions_in(events), known, synthetic_ok, i - a.len());
        assert((a + b)[i] == b[i - a.len()]);
    }
}

proof fn lemma_known(events: Seq<EventV>, known: Seq<ActionSpecV>, synthetic_ok: bool, i: int)
    requires
        0 <= i < known_tools(events, known, synthetic_ok).len(),
    ensures
        !synthetic(known_tools(events, known, synthetic_ok)[i].spec.name),
    decreases known.len(),
{
    let rest = known_tools(events, known.drop_last(), synthetic_ok);
    if i < rest.len() {
        lemma_known(events, known.drop_last(), synthetic_ok, i);
    }
}

proof fn lemma_unknown(
    events: Seq<EventV>,
    actions: Seq<Seq<char>>,
    known: Seq<ActionSpecV>,
    synthetic_ok: bool,
    i: int,
)
    requires
        0 <= i < unknown_tools(events, actions, known, synthetic_ok).len(),
    ensures
        !synthetic(unknown_tools(events, actions, known, synthetic_ok)[i].spec.name),
    decreases actions.len(),
{
    let rest = unknown_tools(events, actions.drop_last(), known, synthetic_ok);
    if i < rest.len() {
        lemma_unknown(events, actions.drop_last(), known, synthetic_ok, i);
    }
}

/// The event shows what the session did, and not only how it came about.
pub open spec fn shows_behaviour(kind: EventKindV) -> bool {
    ||| kind is UserSaid || kind is Proposed || kind is Rejected || kind is ToolCalled || kind is ToolReturned
    ||| kind is PendingConfirmation || kind is Confirmed || kind is Corrected || kind is Settled || kind is Replied
}

/// Two events show the same behaviour: the user or the engine said the same, the same
/// action was proposed or called, something was refused for the same reason, a call
/// came out the same way, a turn ended the same way.
pub open spec fn same_behaviour(a: EventKindV, b: EventKindV) -> bool {
    match (a, b) {
        (EventKindV::UserSaid { text: x }, EventKindV::UserSaid { text: y }) => x == y,
        (EventKindV::Replied { text: x }, EventKindV::Replied { text: y }) => x == y,
        (EventKindV::Proposed { proposal: x }, EventKindV::Proposed { proposal: y }) => x.action == y.action,
        (EventKindV::ToolCalled { action: x, .. }, EventKindV::ToolCalled { action: y, .. }) => x == y,
        (EventKindV::Rejected { reason: x, .. }, EventKindV::Rejected { reason: y, .. }) => {
            &&& x is Malformed <==> y is Malformed
            &&& x is ProviderUnavailable <==> y is ProviderUnavailable
            &&& x is IllegalAction <==> y is IllegalAction
            &&& x is GuardDenied <==> y is GuardDenied
        },
        (EventKindV::ToolReturned { outcome: x, .. }, EventKindV::ToolReturned { outcome: y, .. }) => x is Done <==> y
            is Done,
        (EventKindV::Settled { policy: x }, EventKindV::Settled { policy: y }) => {
            &&& x is Verbatim <==> y is Verbatim
            &&& x is Template <==> y is Template
            &&& x is Generate <==> y is Generate
        },
        (EventKindV::PendingConfirmation { .. }, EventKindV::PendingConfirmation { .. }) => true,
        (EventKindV::Confirmed { .. }, EventKindV::Confirmed { .. }) => true,
        (EventKindV::Corrected { .. }, EventKindV::Corrected { .. }) => true,
        _ => false,
    }
}

/// Two texts behind the same lead are the same where the whole is.
proof fn lemma_behind(lead: Seq<char>, x: Seq<char>, y: Seq<char>)
    ensures
        lead + x == lead + y <==> x == y,
{
    if lead + x == lead + y {
        assert((lead + x).skip(lead.len() as int) =~= x);
        assert((lead + y).skip(lead.len() as int) =~= y);
    }
}

/// How a line begins tells the kind of event.
proof fn lemma_leads(kind: EventKindV)
    requires
        shows_behaviour(kind),
    ensures
        normal_line(kind) matches Some(l) && l.len() >= 9 && match kind {
            EventKindV::UserSaid { .. } => l[0] == 'U',
            EventKindV::Settled { .. } => l[0] == 'S',
            EventKindV::Proposed { .. } => l[0] == 'P' && l[1] == 'r',
            EventKindV::PendingConfirmation { .. } => l[0] == 'P' && l[1] == 'e',
            EventKindV::Rejected { .. } => l[0] == 'R' && l[2] == 'j',
            EventKindV::Replied { .. } => l[0] == 'R' && l[2] == 'p',
            EventKindV::ToolCalled { .. } => l[0] == 'T' && l[4] == 'C',
            EventKindV::ToolReturned { .. } => l[0] == 'T' && l[4] == 'R',
            EventKindV::Confirmed { .. } => l[0] == 'C' && l[2] == 'n',
            EventKindV::Corrected { .. } => l[0] == 'C' && l[2] == 'r',
            _ => false,
        } || (normal_line(kind) matches Some(l) && kind is Replied && l.len() >= 8 && l[0] == 'R' && l[2] == 'p'),
{
    reveal_strlit("UserSaid ");
    reveal_strlit("Settled ");
    reveal_strlit("Proposed ");
    reveal_strlit("PendingConfirmation");
    reveal_strlit("Rejected ");
    reveal_strlit("Replied ");
    reveal_strlit("ToolCalled ");
    reveal_strlit("ToolReturned Ok");
    reveal_strlit("ToolReturned Err");
    reveal_strlit("Confirmed");
    reveal_strlit("Corrected");
    reveal_strlit("Verbatim");
    reveal_strlit("Template");
    reveal_strlit("Generate");
}

/// An event has a line exactly where it shows behaviour, and two events have the same
/// line exactly where they show the same.
pub proof fn a_line_tells_what_happened(a: EventKindV, b: EventKindV)
    ensures
        normal_line(a) is Some <==> shows_behaviour(a),
        shows_behaviour(a) && shows_behaviour(b) ==> (normal_line(a) == normal_line(b) <==> same_behaviour(a, b)),
{
    if shows_behaviour(a) && shows_behaviour(b) {
        lemma_leads(a);
        lemma_leads(b);
        match (a, b) {
            (EventKindV::UserSaid { text: x }, EventKindV::UserSaid { text: y }) => {
                lemma_behind("UserSaid "@, x, y);
            },
            (EventKindV::Replied { text: x }, EventKindV::Replied { text: y }) => {
                lemma_behind("Replied "@, x, y);
            },
            (EventKindV::Proposed { proposal: x }, EventKindV::Proposed { proposal: y }) => {
                lemma_behind("Proposed "@, x.action, y.action);
            },
            (EventKindV::ToolCalled { action: x, .. }, EventKindV::ToolCalled { action: y, .. }) => {
                lemma_behind("ToolCalled "@, x, y);
            },
            (EventKindV::Rejected { reason: x, .. }, EventKindV::Rejected { reason: y, .. }) => {
                lemma_behind("Rejected "@, reason_name(x), reason_name(y));
                reveal_strlit("Malformed");
                reveal_strlit("ProviderUnavailable");
                reveal_strlit("IllegalAction");
                reveal_strlit("GuardDenied");
                assert("Malformed"@.len() == 9 && "ProviderUnavailable"@.len() == 19 && "IllegalAction"@.len() == 13
                    && "GuardDenied"@.len() == 11);
            },
            (EventKindV::ToolReturned { outcome: x, .. }, EventKindV::ToolReturned { outcome: y, .. }) => {
                reveal_strlit("ToolReturned Ok");
                reveal_strlit("ToolReturned Err");
                assert("ToolReturned Ok"@.len() == 15 && "ToolReturned Err"@.len() == 16);
            },
            (EventKindV::Settled { policy: x }, EventKindV::Settled { policy: y }) => {
                lemma_behind("Settled "@, policy_name(x), policy_name(y));
                reveal_strlit("Verbatim");
                reveal_strlit("Template");
                reveal_strlit("Generate");
                assert("Verbatim"@[0] == 'V' && "Template"@[0] == 'T' && "Generate"@[0] == 'G');
            },
            _ => {},
        }
    }
}

/// The events of a log that show behaviour.
pub open spec fn behaviour(events: Seq<EventV>) -> Seq<EventV> {
    events.filter(|e: EventV| shows_behaviour(e.kind))
}

proof fn lemma_form(events: Seq<EventV>)
    ensures
        normal_form(events).len() == behaviour(events).len(),
        forall|i: int|
            0 <= i < behaviour(events).len() ==> normal_line((#[trigger] behaviour(events)[i]).kind) == Some(
                normal_form(events)[i],
            ) && shows_behaviour(behaviour(events)[i].kind),
    decreases events.len(),
{
    reveal(Seq::filter);
    if events.len() > 0 {
        lemma_form(events.drop_last());
        a_line_tells_what_happened(events.last().kind, events.last().kind);
    }
}

/// Two logs pass as the same exactly where what they did is the same, step by step:
/// as many events that show behaviour, and each pair of them shows the same.
pub proof fn a_replay_passes_where_it_did_the_same(recorded: Seq<EventV>, replayed: Seq<EventV>)
    ensures
        difference(normal_form(recorded), normal_form(replayed), 0) is None <==> behaviour(recorded).len() == behaviour(
            replayed,
        ).len() && forall|i: int|
            0 <= i < behaviour(recorded).len() ==> same_behaviour(
                (#[trigger] behaviour(recorded)[i]).kind,
                behaviour(replayed)[i].kind,
            ),
{
    let (a, b) = (behaviour(recorded), behaviour(replayed));
    lemma_form(recorded);
    lemma_form(replayed);
    no_difference_is_equality(normal_form(recorded), normal_form(replayed));
    if normal_form(recorded) == normal_form(replayed) {
        assert forall|i: int| 0 <= i < a.len() implies same_behaviour((#[trigger] a[i]).kind, b[i].kind) by {
            a_line_tells_what_happened(a[i].kind, b[i].kind);
            assert(shows_behaviour(b[i].kind));
        }
    }
    if a.len() == b.len() && (forall|i: int| 0 <= i < a.len() ==> same_behaviour((#[trigger] a[i]).kind, b[i].kind)) {
        assert forall|i: int| 0 <= i < a.len() implies normal_form(recorded)[i] == normal_form(replayed)[i] by {
            a_line_tells_what_happened(a[i].kind, b[i].kind);
            assert(shows_behaviour(b[i].kind));
        }
        assert(normal_form(recorded) =~= normal_form(replayed));
    }
}

/// A divergence is the first line at which the two differ, with both lines; a
/// difference in length is told only where one is the beginning of the other.
pub proof fn the_first_difference_is_told(expected: Seq<Seq<char>>, got: Seq<Seq<char>>)
    requires
        expected.len() <= usize::MAX,
        got.len() <= usize::MAX,
    ensures
        match difference(expected, got, 0) {
            None => expected == got,
            Some(ReplayErrorV::Divergence { at, expected: e, got: g }) => {
                &&& at < expected.len() && at < got.len()
                &&& expected.take(at as int) == got.take(at as int)
                &&& e == expected[at as int] && g == got[at as int] && e != g
            },
            Some(ReplayErrorV::LengthMismatch { expected: e, got: g }) => {
                &&& e == expected.len() && g == got.len() && e != g
                &&& expected.is_prefix_of(got) || got.is_prefix_of(expected)
            },
            _ => false,
        },
{
    lemma_first_difference(expected, got, 0);
    no_difference_is_equality(expected, got);
    match difference(expected, got, 0) {
        Some(ReplayErrorV::Divergence { at, expected: e, got: g }) => {
            assert(expected.take(at as int) =~= got.take(at as int));
        },
        Some(ReplayErrorV::LengthMismatch { expected: e, got: g }) => {
            if expected.len() < got.len() {
                assert(expected =~= got.take(expected.len() as int));
            } else {
                assert(got =~= expected.take(got.len() as int));
            }
        },
        _ => {},
    }
}

proof fn lemma_first_difference(expected: Seq<Seq<char>>, got: Seq<Seq<char>>, from: int)
    requires
        0 <= from <= expected.len(),
        from <= got.len(),
        expected.len() <= usize::MAX,
        got.len() <= usize::MAX,
        forall|i: int| 0 <= i < from ==> expected[i] == got[i],
    ensures
        match difference(expected, got, from) {
            None => true,
            Some(ReplayErrorV::Divergence { at, expected: e, got: g }) => {
                &&& at < expected.len() && at < got.len()
                &&& forall|i: int| 0 <= i < at ==> expected[i] == got[i]
                &&& e == expected[at as int] && g == got[at as int] && e != g
            },
            Some(ReplayErrorV::LengthMismatch { expected: e, got: g }) => {
                &&& e == expected.len() && g == got.len() && e != g
                &&& forall|i: int| 0 <= i < expected.len() && i < got.len() ==> expected[i] == got[i]
            },
            _ => false,
        },
    decreases expected.len() - from,
{
    if from < expected.len() && from < got.len() && expected[from] == got[from] {
        lemma_first_difference(expected, got, from + 1);
    }
}

/// A replay is given what the user said and what the model proposed, all of it and in
/// order.
pub proof fn a_replay_is_given_the_whole_recording(events: Seq<EventV>, known: Seq<ActionSpecV>, synthetic_ok: bool)
    ensures
        ({
            let said = events.filter(|e: EventV| e.kind is UserSaid);
            let proposed = events.filter(|e: EventV| e.kind is Proposed);
            let d = doubles_of(events, known, synthetic_ok);
            &&& d.user_inputs.len() == said.len()
            &&& forall|i: int|
                0 <= i < said.len() ==> (#[trigger] said[i]).kind == (EventKindV::UserSaid { text: d.user_inputs[i] })
            &&& d.proposals.len() == proposed.len()
            &&& forall|i: int|
                0 <= i < proposed.len() ==> (#[trigger] proposed[i]).kind == (EventKindV::Proposed {
                    proposal: d.proposals[i],
                })
        }),
    decreases events.len(),
{
    reveal(Seq::filter);
    if events.len() > 0 {
        a_replay_is_given_the_whole_recording(events.drop_last(), known, synthetic_ok);
    }
}

/// The last time that the turn was settled is at `s`.
pub open spec fn settled_last_at(events: Seq<EventV>, turn: u32, s: int) -> bool {
    &&& 0 <= s < events.len()
    &&& events[s].turn == turn && events[s].kind is Settled
    &&& forall|j: int| s < j < events.len() ==> !((#[trigger] events[j]).turn == turn && events[j].kind is Settled)
}

proof fn lemma_settled_on(events: Seq<EventV>, turn: u32)
    ensures
        match settled_on(events, turn) {
            Some(p) => exists|s: int| #[trigger] settled_last_at(events, turn, s) && events[s].kind == (EventKindV::Settled {
                policy: p,
            }),
            None => forall|j: int| 0 <= j < events.len() ==> !((#[trigger] events[j]).turn == turn && events[j].kind is Settled),
        },
    decreases events.len(),
{
    if events.len() > 0 {
        let past = events.drop_last();
        let n = events.len() - 1;
        lemma_settled_on(past, turn);
        if events.last().turn == turn && events.last().kind is Settled {
            assert(settled_last_at(events, turn, n));
        } else {
            match settled_on(past, turn) {
                Some(p) => {
                    let s = choose|s: int| #[trigger] settled_last_at(past, turn, s) && past[s].kind == (EventKindV::Settled {
                        policy: p,
                    });
                    assert forall|j: int| s < j < events.len() implies !((#[trigger] events[j]).turn == turn
                        && events[j].kind is Settled) by {
                        if j < n {
                            assert(past[j] == events[j]);
                        }
                    }
                    assert(events[s] == past[s]);
                    assert(settled_last_at(events, turn, s));
                },
                None => {
                    assert forall|j: int| 0 <= j < events.len() implies !((#[trigger] events[j]).turn == turn
                        && events[j].kind is Settled) by {
                        if j < n {
                            assert(past[j] == events[j]);
                        }
                    }
                },
            }
        }
    }
}

/// A reply is given out again exactly where a model wrote it: where its turn was
/// settled, last, on having one written.
pub proof fn replies_that_a_model_wrote_are_given_again(events: Seq<EventV>, e: EventV)
    ensures
        replies_in(events.push(e)) == (if e.kind is Replied && exists|s: int|
            #[trigger] settled_last_at(events, e.turn, s) && events[s].kind == (EventKindV::Settled {
                policy: ReplyPolicyV::Generate,
            }) {
            replies_in(events).push(e.kind->Replied_text)
        } else {
            replies_in(events)
        }),
{
    assert(events.push(e).drop_last() =~= events);
    lemma_settled_on(events, e.turn);
    if exists|s: int|
        #[trigger] settled_last_at(events, e.turn, s) && events[s].kind == (EventKindV::Settled {
            policy: ReplyPolicyV::Generate,
        }) {
        let s = choose|s: int|
            #[trigger] settled_last_at(events, e.turn, s) && events[s].kind == (EventKindV::Settled {
                policy: ReplyPolicyV::Generate,
            });
        assert(events[s].turn == e.turn);
        if let Some(p) = settled_on(events, e.turn) {
            let r = choose|r: int| #[trigger] settled_last_at(events, e.turn, r) && events[r].kind == (EventKindV::Settled {
                policy: p,
            });
            assert(r == s) by {
                if r < s {
                    assert(!(events[s].turn == e.turn && events[s].kind is Settled));
                } else if s < r {
                    assert(!(events[r].turn == e.turn && events[r].kind is Settled));
                }
            }
        }
    }
}

/// The call of the action under the number is at `c`, and no later call has it.
pub open spec fn called_last_at(events: Seq<EventV>, call: EventId, c: int) -> bool {
    &&& 0 <= c < events.len()
    &&& events[c].id == call && events[c].kind is ToolCalled
    &&& forall|j: int| c < j < events.len() ==> !((#[trigger] events[j]).id == call && events[j].kind is ToolCalled)
}

proof fn lemma_called(events: Seq<EventV>, call: EventId, c: int)
    requires
        called_last_at(events, call, c),
    ensures
        action_of_call(events, call) == Some(events[c].kind->ToolCalled_action),
    decreases events.len(),
{
    let n = events.len() - 1;
    if c < n {
        let past = events.drop_last();
        assert(!(events[n].id == call && events[n].kind is ToolCalled));
        assert(past[c] == events[c]);
        assert forall|j: int| c < j < past.len() implies !((#[trigger] past[j]).id == call && past[j].kind is ToolCalled) by {
            assert(past[j] == events[j]);
        }
        lemma_called(past, call, c);
    }
}

/// What came of a call is given out by the stand-in of the action that was called,
/// behind what came of that action's earlier calls, and by no other.
pub proof fn outcomes_go_to_the_action_that_was_called(events: Seq<EventV>, e: EventV, c: int, action: Seq<char>)
    requires
        e.kind is ToolReturned,
        called_last_at(events, e.kind->ToolReturned_call, c),
    ensures
        outcomes_for(events.push(e), action) == (if events[c].kind->ToolCalled_action == action {
            outcomes_for(events, action).push(e.kind->ToolReturned_outcome)
        } else {
            outcomes_for(events, action)
        }),
        actions_in(events.push(e)).contains(events[c].kind->ToolCalled_action),
{
    assert(events.push(e).drop_last() =~= events);
    lemma_called(events, e.kind->ToolReturned_call, c);
    let a = events[c].kind->ToolCalled_action;
    let list = actions_in(events);
    if list.contains(a) {
        let k = choose|k: int| 0 <= k < list.len() && list[k] == a;
        assert(progress::with_text(list, a)[k] == a);
    } else {
        assert(progress::with_text(list, a)[list.len() as int] == a);
    }
}

/// Nothing else that happens gives a stand-in anything.
pub proof fn only_outcomes_are_given_out(events: Seq<EventV>, e: EventV, action: Seq<char>)
    requires
        !(e.kind is ToolReturned),
    ensures
        outcomes_for(events.push(e), action) == outcomes_for(events, action),
        actions_in(events.push(e)) == actions_in(events),
{
    assert(events.push(e).drop_last() =~= events);
}

proof fn lemma_known_has(events: Seq<EventV>, known: Seq<ActionSpecV>, synthetic_ok: bool, i: int)
    requires
        0 <= i < known.len(),
        !synthetic(known[i].name),
        !names_known(known.take(i), known[i].name),
    ensures
        known_tools(events, known, synthetic_ok).contains(
            ReplayToolV { spec: known[i], outcomes: outcomes_for(events, known[i].name), synthetic_ok },
        ),
    decreases known.len(),
{
    let n = known.len() - 1;
    let all = known_tools(events, known, synthetic_ok);
    let rest = known_tools(events, known.drop_last(), synthetic_ok);
    let want = ReplayToolV { spec: known[i], outcomes: outcomes_for(events, known[i].name), synthetic_ok };
    if i < n {
        assert(known.drop_last().take(i) =~= known.take(i));
        lemma_known_has(events, known.drop_last(), synthetic_ok, i);
        let k = choose|k: int| 0 <= k < rest.len() && rest[k] == want;
        assert(all[k] == want);
    } else {
        assert(known.take(i) =~= known.drop_last());
        assert(all[rest.len() as int] == want);
    }
}

proof fn lemma_unknown_has(events: Seq<EventV>, actions: Seq<Seq<char>>, known: Seq<ActionSpecV>, synthetic_ok: bool, i: int)
    requires
        0 <= i < actions.len(),
        !synthetic(actions[i]),
        !names_known(known, actions[i]),
    ensures
        unknown_tools(events, actions, known, synthetic_ok).contains(
            ReplayToolV { spec: dummy_schema(actions[i]), outcomes: outcomes_for(events, actions[i]), synthetic_ok },
        ),
    decreases actions.len(),
{
    let all = unknown_tools(events, actions, known, synthetic_ok);
    let rest = unknown_tools(events, actions.drop_last(), known, synthetic_ok);
    let want = ReplayToolV { spec: dummy_schema(actions[i]), outcomes: outcomes_for(events, actions[i]), synthetic_ok };
    if i < actions.len() - 1 {
        lemma_unknown_has(events, actions.drop_last(), known, synthetic_ok, i);
        let k = choose|k: int| 0 <= k < rest.len() && rest[k] == want;
        assert(all[k] == want);
    } else {
        assert(all[rest.len() as int] == want);
    }
}

/// The engine's own actions by name.
pub open spec fn of_the_engine(name: Seq<char>) -> bool {
    ||| name == "remember_fact"@ || name == "ask_clarification"@ || name == "confirm_pending"@ || name == "forget_fact"@
    ||| name == "forget_all"@ || name == "recall"@ || name == "inspect_result"@ || name == "exemplars"@
}

/// Every tool that is known has a stand-in with its own spec and what it returned, and
/// so has every action that returned something without being known; none of the
/// engine's own actions has one.
pub proof fn every_tool_has_its_stand_in(events: Seq<EventV>, known: Seq<ActionSpecV>, synthetic_ok: bool, i: int)
    ensures
        0 <= i < known.len() && !of_the_engine(known[i].name) && (forall|j: int|
            0 <= j < i ==> (#[trigger] known[j]).name != known[i].name) ==> doubles_of(
            events,
            known,
            synthetic_ok,
        ).tools.contains(ReplayToolV { spec: known[i], outcomes: outcomes_for(events, known[i].name), synthetic_ok }),
        0 <= i < actions_in(events).len() && !of_the_engine(actions_in(events)[i]) && (forall|j: int|
            0 <= j < known.len() ==> (#[trigger] known[j]).name != actions_in(events)[i]) ==> doubles_of(
            events,
            known,
            synthetic_ok,
        ).tools.contains(
            ReplayToolV {
                spec: dummy_schema(actions_in(events)[i]),
                outcomes: outcomes_for(events, actions_in(events)[i]),
                synthetic_ok,
            },
        ),
        0 <= i < doubles_of(events, known, synthetic_ok).tools.len() ==> !of_the_engine(
            doubles_of(events, known, synthetic_ok).tools[i].spec.name,
        ),
{
    let a = known_tools(events, known, synthetic_ok);
    let b = unknown_tools(events, actions_in(events), known, synthetic_ok);
    let all = a + b;
    if 0 <= i < known.len() && !of_the_engine(known[i].name) && (forall|j: int|
        0 <= j < i ==> (#[trigger] known[j]).name != known[i].name) {
        assert(!names_known(known.take(i), known[i].name)) by {
            assert forall|j: int| 0 <= j < known.take(i).len() implies (#[trigger] known.take(i)[j]).name != known[i].name by {
                assert(known.take(i)[j] == known[j]);
            }
        }
        lemma_known_has(events, known, synthetic_ok, i);
        let want = ReplayToolV { spec: known[i], outcomes: outcomes_for(events, known[i].name), synthetic_ok };
        let k = choose|k: int| 0 <= k < a.len() && a[k] == want;
        assert(all[k] == want);
    }
    let actions = actions_in(events);
    if 0 <= i < actions.len() && !of_the_engine(actions[i]) && (forall|j: int|
        0 <= j < known.len() ==> (#[trigger] known[j]).name != actions[i]) {
        lemma_unknown_has(events, actions, known, synthetic_ok, i);
        let want = ReplayToolV { spec: dummy_schema(actions[i]), outcomes: outcomes_for(events, actions[i]), synthetic_ok };
        let k = choose|k: int| 0 <= k < b.len() && b[k] == want;
        assert(all[a.len() + k] == want);
    }
    if 0 <= i < all.len() {
        own_actions_have_no_stand_in(events, known, synthetic_ok, i);
    }
}

/// How the line of an event reads.
pub proof fn how_a_line_reads(
    text: Seq<char>,
    proposal: ProposalV,
    of: EventId,
    detail: Seq<char>,
    action: Seq<char>,
    args: crate::types::TaggedV,
    output: ToolOutputV,
    kind: Seq<char>,
)
    ensures
        normal_line(EventKindV::UserSaid { text }) == Some("UserSaid "@ + text),
        normal_line(EventKindV::Proposed { proposal }) == Some("Proposed "@ + proposal.action),
        normal_line(EventKindV::Rejected { proposal_of: of, reason: RejectReasonV::Malformed { detail } }) == Some(
            "Rejected "@ + "Malformed"@,
        ),
        normal_line(EventKindV::ToolCalled { action, args }) == Some("ToolCalled "@ + action),
        normal_line(EventKindV::ToolReturned { call: of, outcome: ToolOutcomeV::Done { output } }) == Some(
            "ToolReturned Ok"@,
        ),
        normal_line(EventKindV::ToolReturned { call: of, outcome: ToolOutcomeV::Failed { kind, detail } }) == Some(
            "ToolReturned Err"@,
        ),
        normal_line(EventKindV::Confirmed { pending: of }) == Some("Confirmed"@),
        normal_line(EventKindV::Settled { policy: ReplyPolicyV::Verbatim { text } }) == Some("Settled "@ + "Verbatim"@),
        normal_line(EventKindV::Settled { policy: ReplyPolicyV::Generate }) == Some("Settled "@ + "Generate"@),
        normal_line(EventKindV::Replied { text }) == Some("Replied "@ + text),
        forall|k: EventKindV|
            {
                &&& k is PendingConfirmation ==> #[trigger] normal_line(k) == Some("PendingConfirmation"@)
                &&& k is Corrected ==> normal_line(k) == Some("Corrected"@)
                &&& (k matches EventKindV::Rejected { reason, .. } && reason is IllegalAction) ==> normal_line(k) == Some(
                    "Rejected "@ + "IllegalAction"@,
                )
                &&& (k matches EventKindV::Rejected { reason, .. } && reason is ProviderUnavailable) ==> normal_line(k) == Some(
                    "Rejected "@ + "ProviderUnavailable"@,
                )
                &&& (k matches EventKindV::Rejected { reason, .. } && reason is GuardDenied) ==> normal_line(k) == Some(
                    "Rejected "@ + "GuardDenied"@,
                )
                &&& (k matches EventKindV::Settled { policy } && policy is Template) ==> normal_line(k) == Some(
                    "Settled "@ + "Template"@,
                )
            },
{
}

/// A replay that failed says at which line and what was there instead, how many lines there
/// were, or what went wrong.
pub proof fn a_failed_replay_says_why(at: usize, expected: Seq<char>, got: Seq<char>, n: usize, m: usize, detail: Seq<char>)
    ensures
        (ReplayErrorV::Divergence { at, expected, got }).says() == "divergence at line "@ + text::decimal(at as nat)
            + ": expected `"@ + expected + "`, got `"@ + got + "`"@,
        (ReplayErrorV::LengthMismatch { expected: n, got: m }).says() == "replay produced "@ + text::decimal(m as nat)
            + " lines, recording has "@ + text::decimal(n as nat),
        (ReplayErrorV::ChainBroken { detail }).says() == "recorded chain broken: "@ + detail,
        (ReplayErrorV::Engine { detail }).says() == "engine error during replay: "@ + detail,
{
}

/// A stand-in that is asked for more than was recorded fails, unless it is told to go on;
/// it changes nothing, whatever the tool would.
pub proof fn what_a_stand_in_does_beyond_its_recording(action: Seq<char>)
    ensures
        beyond_recording(false) == (ToolOutcomeV::Failed { kind: "replay"@, detail: "outcome queue exhausted"@ }),
        beyond_recording(true) is Done,
        beyond_recording(true) matches ToolOutcomeV::Done { output } && output.trust == Trust::System && output.summary
            == "(verified: synthetic ok)"@,
        dummy_schema(action).name == action && dummy_schema(action).description == "replay double for "@ + action
            && dummy_schema(action).side_effect == SideEffect::Pure && dummy_schema(action).args_schema
            == "{\"properties\":{},\"type\":\"object\"}"@,
        dummy_schema(action).residual_policy.len() == 0 && dummy_schema(action).dedupe_tag is None,
{
}

} // verus!
