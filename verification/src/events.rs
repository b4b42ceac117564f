//! What happens in a session, and the log that holds it.

use vstd::prelude::*;

use crate::types::{
    clone_tagged, clone_texts, EventId, Json, ResidualRule, SessionId, SideEffect, Tagged, TaggedV, Tier,
    Timestamp, Trust,
};

verus! {

/// Name of a stored artifact: the digest of its content.
#[derive(Debug, Clone, Copy)]
pub struct ArtifactId(pub [u8; 32]);

impl DeepView for ArtifactId {
    type V = ArtifactId;

    open spec fn deep_view(&self) -> ArtifactId {
        *self
    }
}

/// A context block that an experiment blanks.
#[derive(Debug, Clone, Copy, PartialEq, Eq, Structural)]
pub enum Ablate {
    Facts,
    Summary,
    Guidance,
}

impl DeepView for Ablate {
    type V = Ablate;

    open spec fn deep_view(&self) -> Ablate {
        *self
    }
}

/// What the emitter asks for: one action with its arguments, and why.
#[derive(Debug)]
pub struct Proposal {
    pub rationale: String,
    pub action: String,
    pub args: Json,
}

pub struct ProposalV {
    pub rationale: Seq<char>,
    pub action: Seq<char>,
    pub args: Seq<char>,
}

impl DeepView for Proposal {
    type V = ProposalV;

    open spec fn deep_view(&self) -> ProposalV {
        ProposalV {
            rationale: self.rationale.deep_view(),
            action: self.action.deep_view(),
            args: self.args.deep_view(),
        }
    }
}

impl Clone for Proposal {
    fn clone(&self) -> (r: Self)
        ensures
            r.deep_view() == self.deep_view(),
    {
        let r: Proposal = Proposal {
            rationale: self.rationale.clone(),
            action: self.action.clone(),
            args: self.args.clone(),
        };
        r
    }
}

/// The rule on one argument of an action.
#[derive(Debug)]
pub struct ArgRule {
    pub arg: String,
    pub rule: ResidualRule,
}

pub struct ArgRuleV {
    pub arg: Seq<char>,
    pub rule: ResidualRule,
}

impl DeepView for ArgRule {
    type V = ArgRuleV;

    open spec fn deep_view(&self) -> ArgRuleV {
        ArgRuleV {
            arg: self.arg.deep_view(),
            rule: self.rule,
        }
    }
}

impl Clone for ArgRule {
    fn clone(&self) -> (r: Self)
        ensures
            r.deep_view() == self.deep_view(),
    {
        let r: ArgRule = ArgRule {
            arg: self.arg.clone(),
            rule: self.rule,
        };
        r
    }
}

/// What an action is called, what it takes and what it does.
#[derive(Debug)]
pub struct ActionSpec {
    pub name: String,
    pub description: String,
    pub args_schema: Json,
    pub side_effect: SideEffect,
    /// Arguments under a rule; the others are free.
    pub residual_policy: Vec<ArgRule>,
    /// Set where the action may fire once in a session.
    pub dedupe_tag: Option<String>,
}

pub struct ActionSpecV {
    pub name: Seq<char>,
    pub description: Seq<char>,
    pub args_schema: Seq<char>,
    pub side_effect: SideEffect,
    pub residual_policy: Seq<ArgRuleV>,
    pub dedupe_tag: Option<Seq<char>>,
}

impl DeepView for ActionSpec {
    type V = ActionSpecV;

    open spec fn deep_view(&self) -> ActionSpecV {
        ActionSpecV {
            name: self.name.deep_view(),
            description: self.description.deep_view(),
            args_schema: self.args_schema.deep_view(),
            side_effect: self.side_effect,
            residual_policy: self.residual_policy.deep_view(),
            dedupe_tag: self.dedupe_tag.deep_view(),
        }
    }
}

impl Clone for ActionSpec {
    fn clone(&self) -> (r: Self)
        ensures
            r.deep_view() == self.deep_view(),
    {
        let r: ActionSpec = ActionSpec {
            name: self.name.clone(),
            description: self.description.clone(),
            args_schema: self.args_schema.clone(),
            side_effect: self.side_effect,
            residual_policy: self.residual_policy.clone(),
            dedupe_tag: self.dedupe_tag.clone(),
        };
        proof {
            assert(r.residual_policy.deep_view() =~= self.residual_policy.deep_view());
            assert(r.dedupe_tag.deep_view() =~= self.dedupe_tag.deep_view());
        }
        r
    }
}

/// Why a proposal did not run.
#[derive(Debug)]
pub enum RejectReason {
    Malformed { detail: String },
    ProviderUnavailable { status: u32, detail: String },
    IllegalAction { action: String },
    GuardDenied { guard: String, reason: String },
}

pub enum RejectReasonV {
    Malformed { detail: Seq<char> },
    ProviderUnavailable { status: u32, detail: Seq<char> },
    IllegalAction { action: Seq<char> },
    GuardDenied { guard: Seq<char>, reason: Seq<char> },
}

impl DeepView for RejectReason {
    type V = RejectReasonV;

    open spec fn deep_view(&self) -> RejectReasonV {
        match self {
            RejectReason::Malformed { detail } => RejectReasonV::Malformed { detail: detail.deep_view() },
            RejectReason::ProviderUnavailable { status, detail } => RejectReasonV::ProviderUnavailable { status: *status, detail: detail.deep_view() },
            RejectReason::IllegalAction { action } => RejectReasonV::IllegalAction { action: action.deep_view() },
            RejectReason::GuardDenied { guard, reason } => RejectReasonV::GuardDenied { guard: guard.deep_view(), reason: reason.deep_view() },
        }
    }
}

impl Clone for RejectReason {
    fn clone(&self) -> (r: Self)
        ensures
            r.deep_view() == self.deep_view(),
    {
        match self {
            RejectReason::Malformed { detail } => RejectReason::Malformed { detail: detail.clone() },
            RejectReason::ProviderUnavailable { status, detail } => RejectReason::ProviderUnavailable { status: *status, detail: detail.clone() },
            RejectReason::IllegalAction { action } => RejectReason::IllegalAction { action: action.clone() },
            RejectReason::GuardDenied { guard, reason } => RejectReason::GuardDenied { guard: guard.clone(), reason: reason.clone() },
        }
    }
}

/// What a staged action would do.
#[derive(Debug)]
pub struct StagedEffect {
    pub description: String,
}

pub struct StagedEffectV {
    pub description: Seq<char>,
}

impl DeepView for StagedEffect {
    type V = StagedEffectV;

    open spec fn deep_view(&self) -> StagedEffectV {
        StagedEffectV {
            description: self.description.deep_view(),
        }
    }
}

impl Clone for StagedEffect {
    fn clone(&self) -> (r: Self)
        ensures
            r.deep_view() == self.deep_view(),
    {
        let r: StagedEffect = StagedEffect {
            description: self.description.clone(),
        };
        r
    }
}

/// How the turn's reply is made.
#[derive(Debug)]
pub enum ReplyPolicy {
    Verbatim { text: String },
    Template { id: String, vars: Json },
    Generate,
}

pub enum ReplyPolicyV {
    Verbatim { text: Seq<char> },
    Template { id: Seq<char>, vars: Seq<char> },
    Generate,
}

impl DeepView for ReplyPolicy {
    type V = ReplyPolicyV;

    open spec fn deep_view(&self) -> ReplyPolicyV {
        match self {
            ReplyPolicy::Verbatim { text } => ReplyPolicyV::Verbatim { text: text.deep_view() },
            ReplyPolicy::Template { id, vars } => ReplyPolicyV::Template { id: id.deep_view(), vars: vars.deep_view() },
            ReplyPolicy::Generate => ReplyPolicyV::Generate,
        }
    }
}

impl Clone for ReplyPolicy {
    fn clone(&self) -> (r: Self)
        ensures
            r.deep_view() == self.deep_view(),
    {
        match self {
            ReplyPolicy::Verbatim { text } => ReplyPolicy::Verbatim { text: text.clone() },
            ReplyPolicy::Template { id, vars } => ReplyPolicy::Template { id: id.clone(), vars: vars.clone() },
            ReplyPolicy::Generate => ReplyPolicy::Generate,
        }
    }
}

/// What a tool reported.
#[derive(Debug)]
pub struct ToolOutput {
    pub summary: String,
    pub artifact: Option<ArtifactId>,
    pub trust: Trust,
}

pub struct ToolOutputV {
    pub summary: Seq<char>,
    pub artifact: Option<ArtifactId>,
    pub trust: Trust,
}

impl DeepView for ToolOutput {
    type V = ToolOutputV;

    open spec fn deep_view(&self) -> ToolOutputV {
        ToolOutputV {
            summary: self.summary.deep_view(),
            artifact: self.artifact,
            trust: self.trust,
        }
    }
}

impl Clone for ToolOutput {
    fn clone(&self) -> (r: Self)
        ensures
            r.deep_view() == self.deep_view(),
    {
        let r: ToolOutput = ToolOutput {
            summary: self.summary.clone(),
            artifact: self.artifact,
            trust: self.trust,
        };
        r
    }
}

/// How a call ended.
#[derive(Debug)]
pub enum ToolOutcome {
    Done { output: ToolOutput },
    Failed { kind: String, detail: String },
}

pub enum ToolOutcomeV {
    Done { output: ToolOutputV },
    Failed { kind: Seq<char>, detail: Seq<char> },
}

impl DeepView for ToolOutcome {
    type V = ToolOutcomeV;

    open spec fn deep_view(&self) -> ToolOutcomeV {
        match self {
            ToolOutcome::Done { output } => ToolOutcomeV::Done { output: output.deep_view() },
            ToolOutcome::Failed { kind, detail } => ToolOutcomeV::Failed { kind: kind.deep_view(), detail: detail.deep_view() },
        }
    }
}

impl Clone for ToolOutcome {
    fn clone(&self) -> (r: Self)
        ensures
            r.deep_view() == self.deep_view(),
    {
        match self {
            ToolOutcome::Done { output } => ToolOutcome::Done { output: output.clone() },
            ToolOutcome::Failed { kind, detail } => ToolOutcome::Failed { kind: kind.clone(), detail: detail.clone() },
        }
    }
}

/// The rolling summary of a session.
#[derive(Debug)]
pub struct SessionSummary {
    /// Last turn the summary covers.
    pub through_turn: u32,
    pub topic: String,
    pub established: Vec<String>,
    pub open: Vec<String>,
    pub trust: Trust,
    /// First turn whose record the summary was written from.
    pub rebuilt_from: u32,
}

pub struct SessionSummaryV {
    pub through_turn: u32,
    pub topic: Seq<char>,
    pub established: Seq<Seq<char>>,
    pub open: Seq<Seq<char>>,
    pub trust: Trust,
    pub rebuilt_from: u32,
}

impl DeepView for SessionSummary {
    type V = SessionSummaryV;

    open spec fn deep_view(&self) -> SessionSummaryV {
        SessionSummaryV {
            through_turn: self.through_turn,
            topic: self.topic.deep_view(),
            established: self.established.deep_view(),
            open: self.open.deep_view(),
            trust: self.trust,
            rebuilt_from: self.rebuilt_from,
        }
    }
}

impl Clone for SessionSummary {
    fn clone(&self) -> (r: Self)
        ensures
            r.deep_view() == self.deep_view(),
    {
        let r: SessionSummary = SessionSummary {
            through_turn: self.through_turn,
            topic: self.topic.clone(),
            established: clone_texts(&self.established),
            open: clone_texts(&self.open),
            trust: self.trust,
            rebuilt_from: self.rebuilt_from,
        };
        r
    }
}

/// One completed turn as the models are shown it.
#[derive(Debug)]
pub struct TurnRecord {
    pub turn: u32,
    pub user: String,
    pub did: Vec<String>,
    pub reply: String,
    pub trust: Trust,
}

pub struct TurnRecordV {
    pub turn: u32,
    pub user: Seq<char>,
    pub did: Seq<Seq<char>>,
    pub reply: Seq<char>,
    pub trust: Trust,
}

impl DeepView for TurnRecord {
    type V = TurnRecordV;

    open spec fn deep_view(&self) -> TurnRecordV {
        TurnRecordV {
            turn: self.turn,
            user: self.user.deep_view(),
            did: self.did.deep_view(),
            reply: self.reply.deep_view(),
            trust: self.trust,
        }
    }
}

impl Clone for TurnRecord {
    fn clone(&self) -> (r: Self)
        ensures
            r.deep_view() == self.deep_view(),
    {
        let r: TurnRecord = TurnRecord {
            turn: self.turn,
            user: self.user.clone(),
            did: clone_texts(&self.did),
            reply: self.reply.clone(),
            trust: self.trust,
        };
        r
    }
}

/// What one model call cost.
#[derive(Debug)]
pub struct Usage {
    pub role: String,
    pub model: String,
    pub prompt_tokens: u32,
    pub completion_tokens: u32,
    pub estimated: bool,
    pub attempts: u32,
    pub latency_ms: u64,
    pub tools_tokens: u32,
}

pub struct UsageV {
    pub role: Seq<char>,
    pub model: Seq<char>,
    pub prompt_tokens: u32,
    pub completion_tokens: u32,
    pub estimated: bool,
    pub attempts: u32,
    pub latency_ms: u64,
    pub tools_tokens: u32,
}

impl DeepView for Usage {
    type V = UsageV;

    open spec fn deep_view(&self) -> UsageV {
        UsageV {
            role: self.role.deep_view(),
            model: self.model.deep_view(),
            prompt_tokens: self.prompt_tokens,
            completion_tokens: self.completion_tokens,
            estimated: self.estimated,
            attempts: self.attempts,
            latency_ms: self.latency_ms,
            tools_tokens: self.tools_tokens,
        }
    }
}

impl Clone for Usage {
    fn clone(&self) -> (r: Self)
        ensures
            r.deep_view() == self.deep_view(),
    {
        let r: Usage = Usage {
            role: self.role.clone(),
            model: self.model.clone(),
            prompt_tokens: self.prompt_tokens,
            completion_tokens: self.completion_tokens,
            estimated: self.estimated,
            attempts: self.attempts,
            latency_ms: self.latency_ms,
            tools_tokens: self.tools_tokens,
        };
        r
    }
}

/// What one model call was shown, in keys and counts.
#[derive(Debug)]
pub struct Manifest {
    pub scope: Option<String>,
    pub fact_keys: Vec<String>,
    pub summary_through: Option<u32>,
    pub window: Option<(u32, u32)>,
    pub trace_lines: usize,
    pub trace_chars: usize,
    pub clipped_chars: usize,
    pub tool_names: Vec<String>,
    pub guidance: usize,
    pub note_hashes: Vec<String>,
    pub tier: Option<Tier>,
    pub route_cues: Vec<String>,
    /// The blocks that the budget dropped, or would have; absent where no budget was measured.
    pub budget: Option<Vec<String>>,
    pub ablated: Option<Ablate>,
}

pub struct ManifestV {
    pub scope: Option<Seq<char>>,
    pub fact_keys: Seq<Seq<char>>,
    pub summary_through: Option<u32>,
    pub window: Option<(u32, u32)>,
    pub trace_lines: usize,
    pub trace_chars: usize,
    pub clipped_chars: usize,
    pub tool_names: Seq<Seq<char>>,
    pub guidance: usize,
    pub note_hashes: Seq<Seq<char>>,
    pub tier: Option<Tier>,
    pub route_cues: Seq<Seq<char>>,
    pub budget: Option<Seq<Seq<char>>>,
    pub ablated: Option<Ablate>,
}

impl DeepView for Manifest {
    type V = ManifestV;

    open spec fn deep_view(&self) -> ManifestV {
        ManifestV {
            scope: self.scope.deep_view(),
            fact_keys: self.fact_keys.deep_view(),
            summary_through: self.summary_through,
            window: self.window,
            trace_lines: self.trace_lines,
            trace_chars: self.trace_chars,
            clipped_chars: self.clipped_chars,
            tool_names: self.tool_names.deep_view(),
            guidance: self.guidance,
            note_hashes: self.note_hashes.deep_view(),
            tier: self.tier,
            route_cues: self.route_cues.deep_view(),
            budget: self.budget.deep_view(),
            ablated: self.ablated,
        }
    }
}

impl Clone for Manifest {
    fn clone(&self) -> (r: Self)
        ensures
            r.deep_view() == self.deep_view(),
    {
        let r: Manifest = Manifest {
            scope: self.scope.clone(),
            fact_keys: clone_texts(&self.fact_keys),
            summary_through: self.summary_through,
            window: self.window,
            trace_lines: self.trace_lines,
            trace_chars: self.trace_chars,
            clipped_chars: self.clipped_chars,
            tool_names: clone_texts(&self.tool_names),
            guidance: self.guidance,
            note_hashes: clone_texts(&self.note_hashes),
            tier: self.tier,
            route_cues: clone_texts(&self.route_cues),
            budget: self.budget.clone(),
            ablated: self.ablated,
        };
        proof {
            assert(r.scope.deep_view() =~= self.scope.deep_view());
            assert(r.budget.deep_view() =~= self.budget.deep_view());
        }
        r
    }
}

/// One thing that happened.
#[derive(Debug)]
pub enum EventKind {
    UserSaid { text: String },
    Proposed { proposal: Proposal },
    Rejected { proposal_of: EventId, reason: RejectReason },
    ToolCalled { action: String, args: Tagged },
    ToolReturned { call: EventId, outcome: ToolOutcome },
    PendingConfirmation { proposal_of: EventId, staged: Option<StagedEffect> },
    Confirmed { pending: EventId },
    Corrected { of: EventId, text: String },
    Settled { policy: ReplyPolicy },
    Said { text: String },
    ReplyFailed { detail: String },
    ReplyFlagged { draft: String, spans: Vec<String> },
    ReplyEchoed { draft: String, span: String, copied: usize, words: usize },
    ReplyCited { sources: Vec<String> },
    Summarized { summary: SessionSummary },
    ModelCall { usage: Usage, manifest: Manifest },
    Replied { text: String },
}

pub enum EventKindV {
    UserSaid { text: Seq<char> },
    Proposed { proposal: ProposalV },
    Rejected { proposal_of: EventId, reason: RejectReasonV },
    ToolCalled { action: Seq<char>, args: TaggedV },
    ToolReturned { call: EventId, outcome: ToolOutcomeV },
    PendingConfirmation { proposal_of: EventId, staged: Option<StagedEffectV> },
    Confirmed { pending: EventId },
    Corrected { of: EventId, text: Seq<char> },
    Settled { policy: ReplyPolicyV },
    Said { text: Seq<char> },
    ReplyFailed { detail: Seq<char> },
    ReplyFlagged { draft: Seq<char>, spans: Seq<Seq<char>> },
    ReplyEchoed { draft: Seq<char>, span: Seq<char>, copied: usize, words: usize },
    ReplyCited { sources: Seq<Seq<char>> },
    Summarized { summary: SessionSummaryV },
    ModelCall { usage: UsageV, manifest: ManifestV },
    Replied { text: Seq<char> },
}

impl DeepView for EventKind {
    type V = EventKindV;

    open spec fn deep_view(&self) -> EventKindV {
        match self {
            EventKind::UserSaid { text } => EventKindV::UserSaid { text: text.deep_view() },
            EventKind::Proposed { proposal } => EventKindV::Proposed { proposal: proposal.deep_view() },
            EventKind::Rejected { proposal_of, reason } => EventKindV::Rejected { proposal_of: *proposal_of, reason: reason.deep_view() },
            EventKind::ToolCalled { action, args } => EventKindV::ToolCalled { action: action.deep_view(), args: args.deep_view() },
            EventKind::ToolReturned { call, outcome } => EventKindV::ToolReturned { call: *call, outcome: outcome.deep_view() },
            EventKind::PendingConfirmation { proposal_of, staged } => EventKindV::PendingConfirmation { proposal_of: *proposal_of, staged: staged.deep_view() },
            EventKind::Confirmed { pending } => EventKindV::Confirmed { pending: *pending },
            EventKind::Corrected { of, text } => EventKindV::Corrected { of: *of, text: text.deep_view() },
            EventKind::Settled { policy } => EventKindV::Settled { policy: policy.deep_view() },
            EventKind::Said { text } => EventKindV::Said { text: text.deep_view() },
            EventKind::ReplyFailed { detail } => EventKindV::ReplyFailed { detail: detail.deep_view() },
            EventKind::ReplyFlagged { draft, spans } => EventKindV::ReplyFlagged { draft: draft.deep_view(), spans: spans.deep_view() },
            EventKind::ReplyEchoed { draft, span, copied, words } => EventKindV::ReplyEchoed { draft: draft.deep_view(), span: span.deep_view(), copied: *copied, words: *words },
            EventKind::ReplyCited { sources } => EventKindV::ReplyCited { sources: sources.deep_view() },
            EventKind::Summarized { summary } => EventKindV::Summarized { summary: summary.deep_view() },
            EventKind::ModelCall { usage, manifest } => EventKindV::ModelCall { usage: usage.deep_view(), manifest: manifest.deep_view() },
            EventKind::Replied { text } => EventKindV::Replied { text: text.deep_view() },
        }
    }
}

impl Clone for EventKind {
    fn clone(&self) -> (r: Self)
        ensures
            r.deep_view() == self.deep_view(),
    {
        match self {
            EventKind::UserSaid { text } => EventKind::UserSaid { text: text.clone() },
            EventKind::Proposed { proposal } => EventKind::Proposed { proposal: proposal.clone() },
            EventKind::Rejected { proposal_of, reason } => EventKind::Rejected { proposal_of: *proposal_of, reason: reason.clone() },
            EventKind::ToolCalled { action, args } => EventKind::ToolCalled { action: action.clone(), args: clone_tagged(args) },
            EventKind::ToolReturned { call, outcome } => EventKind::ToolReturned { call: *call, outcome: outcome.clone() },
            EventKind::PendingConfirmation { proposal_of, staged } => {
                let staged_copy: Option<StagedEffect> = staged.clone();
                proof {
                    assert(staged_copy.deep_view() =~= staged.deep_view());
                }
                EventKind::PendingConfirmation { proposal_of: *proposal_of, staged: staged_copy }
            },
            EventKind::Confirmed { pending } => EventKind::Confirmed { pending: *pending },
            EventKind::Corrected { of, text } => EventKind::Corrected { of: *of, text: text.clone() },
            EventKind::Settled { policy } => EventKind::Settled { policy: policy.clone() },
            EventKind::Said { text } => EventKind::Said { text: text.clone() },
            EventKind::ReplyFailed { detail } => EventKind::ReplyFailed { detail: detail.clone() },
            EventKind::ReplyFlagged { draft, spans } => EventKind::ReplyFlagged { draft: draft.clone(), spans: clone_texts(spans) },
            EventKind::ReplyEchoed { draft, span, copied, words } => EventKind::ReplyEchoed { draft: draft.clone(), span: span.clone(), copied: *copied, words: *words },
            EventKind::ReplyCited { sources } => EventKind::ReplyCited { sources: clone_texts(sources) },
            EventKind::Summarized { summary } => EventKind::Summarized { summary: summary.clone() },
            EventKind::ModelCall { usage, manifest } => EventKind::ModelCall { usage: usage.clone(), manifest: manifest.clone() },
            EventKind::Replied { text } => EventKind::Replied { text: text.clone() },
        }
    }
}

/// An entry of a session's log.
#[derive(Debug)]
pub struct Event {
    pub id: EventId,
    pub turn: u32,
    pub at: Timestamp,
    pub kind: EventKind,
}

pub struct EventV {
    pub id: EventId,
    pub turn: u32,
    pub at: Timestamp,
    pub kind: EventKindV,
}

impl DeepView for Event {
    type V = EventV;

    open spec fn deep_view(&self) -> EventV {
        EventV {
            id: self.id,
            turn: self.turn,
            at: self.at,
            kind: self.kind.deep_view(),
        }
    }
}

impl Clone for Event {
    fn clone(&self) -> (r: Self)
        ensures
            r.deep_view() == self.deep_view(),
    {
        let r: Event = Event {
            id: self.id,
            turn: self.turn,
            at: self.at,
            kind: self.kind.clone(),
        };
        r
    }
}

// ---------------------------------------------------------------------------
// The log
// ---------------------------------------------------------------------------

/// A session's events in the order they happened.
#[derive(Debug)]
pub struct EventLog {
    pub session: SessionId,
    pub events: Vec<Event>,
}

/// The number of the event that comes after `events`.
pub open spec fn next_id(events: Seq<EventV>) -> int {
    if events.len() == 0 {
        1
    } else {
        events.last().id.0 + 1
    }
}

/// `events` with one more thing that happened.
pub open spec fn appended(events: Seq<EventV>, turn: u32, at: Timestamp, kind: EventKindV) -> Seq<EventV> {
    events.push(EventV { id: EventId(next_id(events) as u64), turn, at, kind })
}

pub struct EventLogV {
    pub session: Seq<char>,
    pub events: Seq<EventV>,
}

impl DeepView for EventLog {
    type V = EventLogV;

    open spec fn deep_view(&self) -> EventLogV {
        EventLogV { session: self.session.deep_view(), events: self.events.deep_view() }
    }
}

impl EventLog {
    pub fn new(session: SessionId) -> (r: Self)
        ensures
            r.deep_view() == (EventLogV { session: session.deep_view(), events: seq![] }),
    {
        let r: EventLog = EventLog { session, events: Vec::new() };
        proof {
            assert(r.events.deep_view() =~= seq![]);
        }
        r
    }

    pub fn from_events(session: SessionId, events: Vec<Event>) -> (r: Self)
        ensures
            r.deep_view() == (EventLogV { session: session.deep_view(), events: events.deep_view() }),
    {
        EventLog { session, events }
    }

    /// Record what happened; the event gets the next number.
    pub fn append(&mut self, turn: u32, at: Timestamp, kind: EventKind) -> (id: EventId)
        requires
            next_id(old(self).deep_view().events) <= u64::MAX,
        ensures
            final(self).deep_view() == (EventLogV {
                events: appended(old(self).deep_view().events, turn, at, kind.deep_view()),
                ..old(self).deep_view()
            }),
            id.0 == next_id(old(self).deep_view().events),
    {
        let ghost before = self.deep_view().events;
        let n: usize = self.events.len();
        proof {
            if n > 0 {
                assert(before.last() == self.events@[n - 1].deep_view());
            }
        }
        let id: EventId = if n == 0 { EventId(1) } else { EventId(self.events[n - 1].id.0 + 1) };
        self.events.push(Event { id, turn, at, kind });
        proof {
            assert(self.events.deep_view() =~= appended(before, turn, at, kind.deep_view()));
        }
        id
    }
}

/// Numbers rise along the log, so an event's number names one event.
pub open spec fn rising(events: Seq<EventV>) -> bool {
    forall|i: int, j: int| 0 <= i < j < events.len() ==> (#[trigger] events[i]).id.0 < (#[trigger] events[j]).id.0
}

/// Appending keeps the numbers rising and changes nothing that was there.
pub proof fn appending_keeps_the_past(events: Seq<EventV>, turn: u32, at: Timestamp, kind: EventKindV)
    requires
        rising(events),
        next_id(events) <= u64::MAX,
    ensures
        rising(appended(events, turn, at, kind)),
        appended(events, turn, at, kind).drop_last() == events,
{
    let after = appended(events, turn, at, kind);
    assert(after.drop_last() =~= events);
    assert forall|i: int, j: int| 0 <= i < j < after.len() implies (#[trigger] after[i]).id.0 < (
    #[trigger] after[j]).id.0 by {
        if j == events.len() {
            if i < events.len() - 1 {
                assert(events[i].id.0 < events[events.len() - 1].id.0);
            }
        } else {
            assert(events[i].id.0 < events[j].id.0);
        }
    }
}

/// An event is recorded last, with what happened, when and on which turn, under the number
/// after the last; the first is one.
pub proof fn an_event_is_recorded_as_it_happened(events: Seq<EventV>, turn: u32, at: Timestamp, kind: EventKindV)
    requires
        events.len() > 0 ==> events.last().id.0 < u64::MAX,
    ensures
        ({
            let after = appended(events, turn, at, kind);
            &&& after.len() == events.len() + 1
            &&& after.last().turn == turn && after.last().at == at && after.last().kind == kind
            &&& events.len() == 0 ==> after.last().id == EventId(1)
            &&& events.len() > 0 ==> after.last().id.0 == events.last().id.0 + 1
            &&& next_id(after) == after.last().id.0 + 1
        }),
{
}

} // verus!
