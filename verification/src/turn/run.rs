//! The turn loop, move by move.
//!
//! One pass of the loop is one model decision: project the log, offer the legal
//! actions, ask for a proposal, and either settle the turn or run the action and
//! go round again. The moves are here in the order in which they happen; whoever
//! drives the turn makes the calls between them.

use vstd::prelude::*;

use crate::events;
use crate::events::{
    ActionSpec, ActionSpecV, Event, EventKind, EventKindV, EventLog, EventV, Proposal, ProposalV, RejectReason,
    RejectReasonV, ReplyPolicy, ReplyPolicyV,
};
use crate::facts::{SessionDigest, SessionDigestV};
use crate::json;
use crate::json::{members, object, value_text};
use crate::router::Route;
use crate::state;
use crate::state::{fold, SessionState, SessionStateV};
use crate::text;
use crate::text::{cat2, cat3, cat4, listed, number, replace, same};
use crate::turn::accounting;
use crate::turn::accounting::last_proposal_ran;
use crate::turn::config;
use crate::turn::config::{EngineConfig, EngineConfigV};
use crate::turn::diagnostics;
use crate::turn::diagnostics::explain_error;
use crate::turn::legal;
use crate::turn::legal::is_offered;
use crate::turn::progress;
use crate::turn::progress::{call_key, Turn, TurnV};
use crate::turn::retrieval;
use crate::turn::specs::{CONFIRM_PENDING, FALLBACK_REPLY, INSPECT_RESULT, RESPOND_DIRECTLY};
use crate::types::{EventId, Json, SessionId, Tagged, Tier, Timestamp};

verus! {

// ---------------------------------------------------------------------------
// The beginning
// ---------------------------------------------------------------------------

/// A turn that has just begun: what was stored, and the message.
pub open spec fn opened(
    session: Seq<char>,
    stored: Seq<EventV>,
    scope: Seq<char>,
    user_text: Seq<char>,
    at: Timestamp,
) -> TurnV {
    let turn = (state::folded(stored).turn + 1) as u32;
    TurnV {
        session,
        log: events::appended(stored, turn, at, EventKindV::UserSaid { text: user_text }),
        turn,
        loaded: stored.len() as usize,
        scope,
        user_text,
        tier: Tier::Task,
        selected: None,
        cues: seq![],
        book: progress::clean_book(),
        iterations: 0,
        emit_failures: 0,
        last_error: None,
        proposed: false,
        draft: None,
        held: None,
        settled: None,
    }
}

/// The number of the turn that follows a session, where there is room for one.
pub fn next_turn(stored: &Vec<Event>) -> (r: Option<u32>)
    requires
        stored@.len() <= u32::MAX,
    ensures
        r == (if state::folded(stored.deep_view()).turn < u32::MAX {
            Some((state::folded(stored.deep_view()).turn + 1) as u32)
        } else {
            None
        }),
{
    let s: SessionState = fold(stored);
    if s.turn < u32::MAX {
        Some(s.turn + 1)
    } else {
        None
    }
}

impl Turn {
    /// Begin a turn with the user's message.
    pub fn open(session: SessionId, stored: Vec<Event>, scope: String, user_text: String, at: Timestamp) -> (r: Self)
        requires
            accounting::room(stored.deep_view(), 1),
            state::folded(stored.deep_view()).turn < u32::MAX,
        ensures
            r.deep_view() == opened(session.deep_view(), stored.deep_view(), scope@, user_text@, at),
    {
        let s: SessionState = fold(&stored);
        let turn: u32 = s.turn + 1;
        let loaded: usize = stored.len();
        let mut log: EventLog = EventLog::from_events(session, stored);
        log.append(turn, at, EventKind::UserSaid { text: user_text.clone() });
        let cues: Vec<String> = Vec::new();
        proof {
            assert(cues.deep_view() =~= seq![]);
        }
        Turn {
            log,
            turn,
            loaded,
            scope,
            user_text,
            tier: Tier::Task,
            selected: None,
            cues,
            book: Default::default(),
            iterations: 0,
            emit_failures: 0,
            last_error: None,
            proposed: false,
            draft: None,
            held: None,
            settled: None,
        }
    }

    /// Take the route that was decided for the turn.
    pub fn take_route(&mut self, route: Route)
        ensures
            final(self).deep_view() == (TurnV {
                tier: route.tier,
                selected: route.tools.deep_view(),
                cues: route.cues.deep_view(),
                ..old(self).deep_view()
            }),
    {
        self.tier = route.tier;
        self.selected = route.tools;
        self.cues = route.cues;
    }

    /// Whether the engine searches memory of its own accord.
    pub fn wants_recall(&self) -> (r: bool)
        ensures
            r == (self.tier == Tier::Deep),
    {
        self.tier == Tier::Deep
    }

    /// Whether it also looks for similar conversations.
    pub fn wants_exemplars(&self, cfg: &EngineConfig) -> (r: bool)
        ensures
            r == (self.tier == Tier::Deep && cfg.exemplars_max > 0),
    {
        self.tier == Tier::Deep && cfg.exemplars_max > 0
    }

    /// Record a search that no proposal asked for.
    pub fn call_unasked(&mut self, at: Timestamp, action: &str, args: Tagged) -> (id: EventId)
        requires
            accounting::room(old(self).deep_view().log, 1),
        ensures
            final(self).deep_view() == progress::logged(
                old(self).deep_view(),
                at,
                EventKindV::ToolCalled { action: action@, args: args.deep_view() },
            ),
            id == progress::next(old(self).deep_view()),
    {
        self.record(at, EventKind::ToolCalled { action: action.to_owned(), args })
    }
}

/// Whether the scope holds a fact, as far as the offer goes. `found` is how many
/// the store gave, none where it failed: a failing store keeps the action.
pub fn scope_holds_facts(prune: bool, found: Option<usize>) -> (r: bool)
    ensures
        r == (!prune || (match found {
            Some(n) => n > 0,
            None => true,
        })),
{
    !prune || (match found {
        Some(n) => n > 0,
        None => true,
    })
}

/// Whether there is anything out of sight: turns that have left the window, or
/// an earlier conversation. A failing store keeps the action.
pub open spec fn something_out_of_sight(
    cfg: EngineConfigV,
    turn: u32,
    session: Seq<char>,
    digests: Option<Seq<SessionDigestV>>,
) -> bool {
    !cfg.prune_inapplicable || turn > cfg.window_turns || (cfg.recall_sessions > 0 && (match digests {
        Some(ds) => retrieval::others(ds, session).len() > 0,
        None => true,
    }))
}

/// Whether a recall can find anything. `digests` are those of the scope, absent
/// where the store failed.
pub fn recall_applies(cfg: &EngineConfig, turn: u32, session: &SessionId, digests: Option<&Vec<SessionDigest>>) -> (r: bool)
    ensures
        r == something_out_of_sight(
            cfg.deep_view(),
            turn,
            session.deep_view(),
            match digests {
                Some(ds) => Some(ds.deep_view()),
                None => None,
            },
        ),
{
    if !cfg.prune_inapplicable || turn as u64 > cfg.window_turns as u64 {
        return true;
    }
    if cfg.recall_sessions == 0 {
        return false;
    }
    match digests {
        None => true,
        Some(ds) => {
            let ghost all = ds.deep_view();
            let ghost sv = session.deep_view();
            let ghost keep = |d: SessionDigestV| d.session != sv;
            let mut i: usize = 0;
            proof {
                reveal(Seq::filter);
                assert(all.take(0).filter(keep) =~= seq![]);
            }
            while i < ds.len()
                invariant
                    i <= ds@.len(),
                    all == ds.deep_view(),
                    sv == session.deep_view(),
                    keep == (|d: SessionDigestV| d.session != sv),
                    all.take(i as int).filter(keep).len() == 0,
                    digests == Some(ds),
                    cfg.recall_sessions > 0,
                decreases ds@.len() - i,
            {
                proof {
                    reveal(Seq::filter);
                    assert(all.take(i + 1).drop_last() =~= all.take(i as int));
                    assert(all.take(i + 1).last() == ds@[i as int].deep_view());
                }
                if !same(ds[i].session.0.as_str(), session.0.as_str()) {
                    proof {
                        assert(keep(all[i as int]));
                        all.lemma_filter_contains(keep, i as int);
                    }
                    return true;
                }
                i = i + 1;
            }
            proof {
                assert(all.take(all.len() as int) =~= all);
            }
            false
        },
    }
}

// ---------------------------------------------------------------------------
// One iteration
// ---------------------------------------------------------------------------

/// An answer that was held back until its action ran: it settles the turn where
/// the action did run, and is dropped where it did not.
pub open spec fn collected(t: TurnV, at: Timestamp) -> TurnV {
    let u = TurnV { held: None, ..t };
    if t.held is Some && accounting::last_ran(t.log, t.turn) {
        progress::settles(TurnV { draft: t.held, ..u }, at, ReplyPolicyV::Generate)
    } else {
        u
    }
}

/// The turn at the start of an iteration.
pub open spec fn begun(t: TurnV, at: Timestamp) -> TurnV {
    collected(TurnV { iterations: (t.iterations + 1) as u32, ..t }, at)
}

/// What is staged and can still be confirmed: on the turn that staged it and on
/// the next one.
pub open spec fn active_pending(s: SessionStateV, turn: u32) -> Option<EventId> {
    match s.pending_turn {
        Some(pt) => if pt == turn || pt + 1 == turn {
            s.pending_confirmation
        } else {
            None
        },
        None => None,
    }
}

/// What is staged and can still be confirmed on the turn.
pub fn still_pending(s: &SessionState, turn: u32) -> (r: Option<EventId>)
    ensures
        r == active_pending(s.deep_view(), turn),
{
    match s.pending_turn {
        Some(pt) => if pt == turn || (turn > 0 && pt == turn - 1) {
            s.pending_confirmation
        } else {
            None
        },
        None => None,
    }
}

impl Turn {
    /// Collect an answer that waited for its action.
    pub fn collect(&mut self, at: Timestamp)
        requires
            accounting::room(old(self).deep_view().log, 1),
        ensures
            final(self).deep_view() == collected(old(self).deep_view(), at),
    {
        if let Some(text) = self.held.take() {
            if last_proposal_ran(&self.log.events, self.turn) {
                self.draft = Some(text);
                self.settle(at, ReplyPolicy::Generate);
            }
        }
    }

    /// Begin an iteration.
    pub fn begin(&mut self, at: Timestamp)
        requires
            accounting::room(old(self).deep_view().log, 1),
            old(self).iterations < u32::MAX,
        ensures
            final(self).deep_view() == begun(old(self).deep_view(), at),
    {
        self.iterations = self.iterations + 1;
        self.collect(at);
    }

    /// Whether the loop goes round again.
    pub fn goes_on(&self, cfg: &EngineConfig) -> (r: bool)
        ensures
            r == (self.settled is None && self.iterations < cfg.max_iterations),
    {
        self.settled.is_none() && self.iterations < cfg.max_iterations
    }

    /// Project the log.
    pub fn project(&self) -> (r: SessionState)
        requires
            self.log.events@.len() <= u32::MAX,
        ensures
            r.deep_view() == state::folded(self.deep_view().log),
    {
        fold(&self.log.events)
    }
}

/// Why a call to the emitter gave no proposal.
#[derive(Debug)]
pub enum EmitFailure {
    Provider { status: u32, detail: String },
    Other,
}

pub enum EmitFailureV {
    Provider { status: u32, detail: Seq<char> },
    Other,
}

impl DeepView for EmitFailure {
    type V = EmitFailureV;

    open spec fn deep_view(&self) -> EmitFailureV {
        match self {
            EmitFailure::Provider { status, detail } => EmitFailureV::Provider { status: *status, detail: detail.deep_view() },
            EmitFailure::Other => EmitFailureV::Other,
        }
    }
}

impl Clone for EmitFailure {
    fn clone(&self) -> (r: Self)
        ensures
            r.deep_view() == self.deep_view(),
    {
        match self {
            EmitFailure::Provider { status, detail } => EmitFailure::Provider { status: *status, detail: detail.clone() },
            EmitFailure::Other => EmitFailure::Other,
        }
    }
}

/// The turn after a call to the emitter failed; `said` is the failure in words.
pub open spec fn emit_fails(t: TurnV, at: Timestamp, failure: EmitFailureV, said: Seq<char>) -> TurnV {
    let reason = match failure {
        EmitFailureV::Provider { status, detail } => RejectReasonV::ProviderUnavailable { status, detail },
        EmitFailureV::Other => RejectReasonV::Malformed { detail: said },
    };
    let line = match failure {
        EmitFailureV::Provider { status, .. } => "provider unavailable: HTTP "@ + text::decimal(status as nat),
        EmitFailureV::Other => "emitter failure: "@ + said,
    };
    let u = progress::refused(t, at, EventId(0), reason, line);
    TurnV { last_error: Some(said), emit_failures: (u.emit_failures + 1) as u32, ..u }
}

impl Turn {
    /// Record that the emitter gave no proposal; whether to stop asking. What
    /// asking again cannot mend ends the loop at once.
    pub fn emit_failed(
        &mut self,
        cfg: &EngineConfig,
        failure: EmitFailure,
        said: String,
        retryable: bool,
        at: Timestamp,
    ) -> (stop: bool)
        requires
            accounting::room(old(self).deep_view().log, 1),
            old(self).emit_failures < u32::MAX,
        ensures
            final(self).deep_view() == emit_fails(old(self).deep_view(), at, failure.deep_view(), said@),
            stop == (!retryable || old(self).emit_failures + 1 >= cfg.max_emit_retries),
    {
        let (reason, line): (RejectReason, String) = match failure {
            EmitFailure::Provider { status, detail } => {
                let code: String = number(status as u64);
                (
                    RejectReason::ProviderUnavailable { status, detail },
                    cat2("provider unavailable: HTTP ", code.as_str()),
                )
            },
            EmitFailure::Other => (
                RejectReason::Malformed { detail: said.clone() },
                cat2("emitter failure: ", said.as_str()),
            ),
        };
        self.refuse(at, EventId(0), reason, line);
        self.last_error = Some(said);
        self.emit_failures = self.emit_failures + 1;
        !retryable || self.emit_failures >= cfg.max_emit_retries
    }
}

/// Whether a call may answer instead of acting.
pub open spec fn may_answer(cfg: EngineConfigV, tier: Tier) -> bool {
    cfg.chat_act_or_answer && (cfg.act_or_answer_every_tier || tier == Tier::Chat)
}

pub fn offers_answer(cfg: &EngineConfig, tier: Tier) -> (r: bool)
    ensures
        r == may_answer(cfg.deep_view(), tier),
{
    cfg.chat_act_or_answer && (cfg.act_or_answer_every_tier || tier.is_chat())
}

/// A text that came with a proposal counts only where it was asked for.
pub fn taken(offered: bool, text: Option<String>) -> (r: Option<String>)
    ensures
        r == (if offered {
            text
        } else {
            None
        }),
{
    if offered {
        text
    } else {
        None
    }
}

/// The turn after a proposal came.
pub open spec fn proposes(t: TurnV, at: Timestamp, raw: ProposalV) -> TurnV {
    TurnV { proposed: true, ..progress::logged(t, at, EventKindV::Proposed { proposal: raw }) }
}

/// The turn after it is known whether the proposal is the reply. An answer beside
/// an action is held until the action has run.
pub open spec fn answers(t: TurnV, cfg: EngineConfigV, action: Seq<char>, answer: Option<Seq<char>>, at: Timestamp) -> TurnV {
    if action == RESPOND_DIRECTLY@ {
        progress::settles(TurnV { draft: answer, ..t }, at, ReplyPolicyV::Generate)
    } else if cfg.act_and_answer {
        TurnV { held: answer, ..t }
    } else {
        t
    }
}

/// The turn after a line that came beside an action was told to the user. It goes
/// out before the action runs, so nothing that follows takes it back.
pub open spec fn tells(t: TurnV, line: Option<Seq<char>>, at: Timestamp) -> TurnV {
    match line {
        Some(text) => progress::logged(t, at, EventKindV::Said { text }),
        None => t,
    }
}

impl Turn {
    /// Record a proposal as the model made it.
    pub fn proposed(&mut self, raw: &Proposal, at: Timestamp) -> (pid: EventId)
        requires
            accounting::room(old(self).deep_view().log, 1),
        ensures
            final(self).deep_view() == proposes(old(self).deep_view(), at, raw.deep_view()),
            pid == progress::next(old(self).deep_view()),
    {
        let pid: EventId = self.record(at, EventKind::Proposed { proposal: raw.clone() });
        self.proposed = true;
        pid
    }

    /// Reply, where the proposal says so; `answer` is the text that came with it,
    /// where one was asked for.
    pub fn answer_or_act(&mut self, cfg: &EngineConfig, action: &str, answer: Option<String>, at: Timestamp)
        requires
            accounting::room(old(self).deep_view().log, 1),
        ensures
            final(self).deep_view() == answers(
                old(self).deep_view(),
                cfg.deep_view(),
                action@,
                answer.deep_view(),
                at,
            ),
    {
        if same(action, RESPOND_DIRECTLY) {
            self.draft = answer;
            self.settle(at, ReplyPolicy::Generate);
        } else if cfg.act_and_answer {
            self.held = answer;
        }
    }

    /// Record a line that the user is told before the action runs.
    pub fn tell(&mut self, line: &Option<String>, at: Timestamp)
        requires
            accounting::room(old(self).deep_view().log, 1),
        ensures
            final(self).deep_view() == tells(old(self).deep_view(), line.deep_view(), at),
    {
        if let Some(text) = line {
            self.record(at, EventKind::Said { text: text.clone() });
        }
    }
}

// ---------------------------------------------------------------------------
// Admission
// ---------------------------------------------------------------------------

/// Whether a proposal goes on to be run, and as which.
#[derive(Debug)]
pub enum Admission {
    Refused,
    Admitted { proposal: Proposal, confirmed_now: bool },
}

pub enum AdmissionV {
    Refused,
    Admitted { proposal: ProposalV, confirmed_now: bool },
}

impl DeepView for Admission {
    type V = AdmissionV;

    open spec fn deep_view(&self) -> AdmissionV {
        match self {
            Admission::Refused => AdmissionV::Refused,
            Admission::Admitted { proposal, confirmed_now } => AdmissionV::Admitted { proposal: proposal.deep_view(), confirmed_now: *confirmed_now },
        }
    }
}

impl Clone for Admission {
    fn clone(&self) -> (r: Self)
        ensures
            r.deep_view() == self.deep_view(),
    {
        match self {
            Admission::Refused => Admission::Refused,
            Admission::Admitted { proposal, confirmed_now } => Admission::Admitted { proposal: proposal.clone(), confirmed_now: *confirmed_now },
        }
    }
}

/// A registered tool that only the tier keeps from the turn.
pub open spec fn tiered_out(t: TurnV, registered: bool) -> bool {
    t.tier == Tier::Chat && registered
}

/// A registered tool that only the route's selection keeps from the turn.
pub open spec fn withheld(t: TurnV, registered: bool, action: Seq<char>) -> bool {
    registered && !t.book.denied.contains(action) && (match t.selected {
        Some(sel) => !sel.contains(action),
        None => false,
    })
}

/// The turn after an action that exists was proposed and only the route hid it:
/// it widens, once, and the tool is not taken off the list.
pub open spec fn escalated(t: TurnV, at: Timestamp, pid: EventId, registered: bool, action: Seq<char>) -> TurnV {
    let u = if tiered_out(t, registered) {
        TurnV { tier: Tier::Task, ..t }
    } else {
        t
    };
    if withheld(t, registered, action) {
        progress::logged(
            TurnV { selected: None, ..u },
            at,
            EventKindV::Rejected { proposal_of: pid, reason: RejectReasonV::IllegalAction { action } },
        )
    } else {
        u
    }
}

/// The turn after an action that is not on offer was proposed.
pub open spec fn not_offered(t: TurnV, at: Timestamp, pid: EventId, registered: bool, action: Seq<char>) -> TurnV {
    if tiered_out(t, registered) || withheld(t, registered, action) {
        escalated(t, at, pid, registered, action)
    } else {
        progress::barred(
            progress::refused(
                t,
                at,
                pid,
                RejectReasonV::IllegalAction { action },
                "illegal action: "@ + action,
            ),
            action,
        )
    }
}

/// The turn after a call was proposed that already ran.
pub open spec fn repeated(t: TurnV, at: Timestamp, pid: EventId, action: Seq<char>) -> TurnV {
    let reason = "identical call to '"@ + action + "' already executed this turn"@;
    progress::barred(
        progress::refused(
            t,
            at,
            pid,
            RejectReasonV::GuardDenied { guard: "repeat_gate"@, reason },
            "guard repeat_gate: "@ + reason,
        ),
        action,
    )
}

/// The first event with the number.
pub open spec fn event_with(log: Seq<EventV>, id: EventId) -> Option<EventV>
    decreases log.len(),
{
    if log.len() == 0 {
        None
    } else if log[0].id == id {
        Some(log[0])
    } else {
        event_with(log.drop_first(), id)
    }
}

/// The proposal behind something that was staged.
pub open spec fn staged_proposal(log: Seq<EventV>, pending: EventId) -> Option<ProposalV> {
    match event_with(log, pending) {
        Some(e) => match e.kind {
            EventKindV::PendingConfirmation { proposal_of, .. } => match event_with(log, proposal_of) {
                Some(p) => match p.kind {
                    EventKindV::Proposed { proposal } => Some(proposal),
                    _ => None,
                },
                None => None,
            },
            _ => None,
        },
        None => None,
    }
}

/// A confirmation: it is recorded, and the proposal that was staged takes its
/// place.
pub open spec fn confirms(t: TurnV, at: Timestamp, pid: EventId, pending: EventId) -> (TurnV, AdmissionV) {
    let u = progress::logged(t, at, EventKindV::Confirmed { pending });
    match staged_proposal(u.log, pending) {
        Some(proposal) => (u, AdmissionV::Admitted { proposal, confirmed_now: true }),
        None => (
            progress::refused(
                u,
                at,
                pid,
                RejectReasonV::Malformed { detail: "pending confirmation chain is broken"@ },
                "broken confirmation chain"@,
            ),
            AdmissionV::Refused,
        ),
    }
}

/// Whether a proposal goes on to be run: it must be on offer, not a call that
/// already ran, and where it confirms something that becomes the proposal. Asking
/// for the next page of a result is never a repetition.
pub open spec fn considered(
    t: TurnV,
    at: Timestamp,
    pid: EventId,
    p: ProposalV,
    actions: Seq<ActionSpecV>,
    registered: bool,
    pending: Option<EventId>,
) -> (TurnV, AdmissionV) {
    if !legal::offers(actions, p.action) {
        (not_offered(t, at, pid, registered, p.action), AdmissionV::Refused)
    } else if p.action != INSPECT_RESULT@ && t.book.calls.contains(progress::key_of(p)) {
        (repeated(t, at, pid, p.action), AdmissionV::Refused)
    } else if p.action == CONFIRM_PENDING@ && pending is Some {
        confirms(t, at, pid, pending->0)
    } else {
        (t, AdmissionV::Admitted { proposal: p, confirmed_now: false })
    }
}

fn find_event(events: &Vec<Event>, id: EventId) -> (r: Option<usize>)
    ensures
        match r {
            Some(i) => i < events@.len() && event_with(events.deep_view(), id) == Some(events@[i as int].deep_view()),
            None => event_with(events.deep_view(), id) is None,
        },
{
    let ghost all = events.deep_view();
    let mut i: usize = 0;
    proof {
        assert(all.skip(0) =~= all);
    }
    while i < events.len()
        invariant
            i <= events@.len(),
            all == events.deep_view(),
            event_with(all, id) == event_with(all.skip(i as int), id),
        decreases events@.len() - i,
    {
        proof {
            assert(all.skip(i as int)[0] == events@[i as int].deep_view());
            assert(all.skip(i as int).drop_first() =~= all.skip(i + 1));
        }
        if events[i].id == id {
            return Some(i);
        }
        i = i + 1;
    }
    None
}

fn find_staged(events: &Vec<Event>, pending: EventId) -> (r: Option<Proposal>)
    ensures
        r.deep_view() == staged_proposal(events.deep_view(), pending),
{
    let of: EventId = match find_event(events, pending) {
        Some(i) => match &events[i].kind {
            EventKind::PendingConfirmation { proposal_of, .. } => *proposal_of,
            _ => return None,
        },
        None => return None,
    };
    match find_event(events, of) {
        Some(i) => match &events[i].kind {
            EventKind::Proposed { proposal } => Some(proposal.clone()),
            _ => None,
        },
        None => None,
    }
}

impl Turn {
    /// Decide whether a proposal goes on to be run. `actions` is what was on
    /// offer, `registered` whether a registered tool has the action's name, and
    /// `pending` what can still be confirmed.
    pub fn consider(
        &mut self,
        p: Proposal,
        pid: EventId,
        actions: &Vec<ActionSpec>,
        registered: bool,
        pending: Option<EventId>,
        at: Timestamp,
    ) -> (r: Admission)
        requires
            accounting::room(old(self).deep_view().log, 2),
            legal::offers(actions.deep_view(), CONFIRM_PENDING@) ==> pending is Some,
        ensures
            (final(self).deep_view(), r.deep_view()) == considered(
                old(self).deep_view(),
                at,
                pid,
                p.deep_view(),
                actions.deep_view(),
                registered,
                pending,
            ),
    {
        let action: String = p.action.clone();
        if !is_offered(actions, action.as_str()) {
            let lifted: bool = self.tier.is_chat() && registered;
            let hidden: bool = registered && !listed(&self.book.denied, action.as_str()) && (match &self.selected {
                Some(sel) => !listed(sel, action.as_str()),
                None => false,
            });
            if lifted || hidden {
                if lifted {
                    self.tier = Tier::Task;
                }
                if hidden {
                    self.selected = None;
                    let reason: RejectReason = RejectReason::IllegalAction { action };
                    self.record(at, EventKind::Rejected { proposal_of: pid, reason });
                }
                return Admission::Refused;
            }
            let line: String = cat2("illegal action: ", action.as_str());
            self.refuse(at, pid, RejectReason::IllegalAction { action: action.clone() }, line);
            self.bar(action.as_str());
            return Admission::Refused;
        }
        let key: String = call_key(&p);
        if !same(action.as_str(), INSPECT_RESULT) && listed(&self.book.calls, key.as_str()) {
            let reason: String = cat3("identical call to '", action.as_str(), "' already executed this turn");
            let line: String = cat2("guard repeat_gate: ", reason.as_str());
            self.refuse(at, pid, RejectReason::GuardDenied { guard: "repeat_gate".to_owned(), reason }, line);
            self.bar(action.as_str());
            return Admission::Refused;
        }
        if same(action.as_str(), CONFIRM_PENDING) {
            if let Some(id) = pending {
                self.record(at, EventKind::Confirmed { pending: id });
                return match find_staged(&self.log.events, id) {
                    Some(proposal) => Admission::Admitted { proposal, confirmed_now: true },
                    None => {
                        self.malformed(
                            at,
                            pid,
                            "pending confirmation chain is broken".to_owned(),
                            "broken confirmation chain".to_owned(),
                        );
                        Admission::Refused
                    },
                };
            }
        }
        Admission::Admitted { proposal: p, confirmed_now: false }
    }
}

// ---------------------------------------------------------------------------
// The end
// ---------------------------------------------------------------------------

/// Why a turn that nothing settled came to nothing.
pub open spec fn why(t: TurnV, cfg: EngineConfigV) -> Seq<char> {
    if t.emit_failures > 0 && !t.proposed {
        match t.last_error {
            Some(e) => diagnostics::explained(e),
            None => "the model was unavailable"@,
        }
    } else {
        let r = "ran out of steps after "@ + text::decimal(cfg.max_iterations as nat)
            + " actions without reaching an answer"@;
        if t.book.rejections.len() > 0 {
            r + "; last problem: "@ + t.book.rejections.last()
        } else {
            r
        }
    }
}

/// How such a turn ends: with the template for it, or with an apology that names
/// the cause.
pub open spec fn fallback(cfg: EngineConfigV, reason: Seq<char>) -> ReplyPolicyV {
    if config::template_of(cfg.templates, "cant_help"@) is Some {
        ReplyPolicyV::Template { id: "cant_help"@, vars: json::object_of("reason"@, reason) }
    } else {
        ReplyPolicyV::Verbatim { text: FALLBACK_REPLY@ + " Reason: "@ + reason + "."@ }
    }
}

/// The turn with its end decided, whatever came before.
pub open spec fn concluded(t: TurnV, cfg: EngineConfigV, at: Timestamp) -> TurnV {
    let u = if t.settled is None {
        collected(t, at)
    } else {
        t
    };
    if u.settled is None {
        progress::settles(u, at, fallback(cfg, why(u, cfg)))
    } else {
        u
    }
}

/// How a turn ends that came to nothing, for that reason.
pub fn fall_back(cfg: &EngineConfig, reason: &str) -> (r: ReplyPolicy)
    ensures
        r.deep_view() == fallback(cfg.deep_view(), reason@),
{
    match cfg.template("cant_help") {
        Some(_) => ReplyPolicy::Template { id: "cant_help".to_owned(), vars: object("reason", reason) },
        None => ReplyPolicy::Verbatim { text: cat4(FALLBACK_REPLY, " Reason: ", reason, ".") },
    }
}

impl Turn {
    fn reason(&self, cfg: &EngineConfig) -> (r: String)
        ensures
            r@ == why(self.deep_view(), cfg.deep_view()),
    {
        if self.emit_failures > 0 && !self.proposed {
            match &self.last_error {
                Some(e) => explain_error(e.as_str()),
                None => "the model was unavailable".to_owned(),
            }
        } else {
            let n: String = number(cfg.max_iterations as u64);
            let r: String = cat3("ran out of steps after ", n.as_str(), " actions without reaching an answer");
            let k: usize = self.book.rejections.len();
            if k > 0 {
                proof {
                    assert(self.book.rejections.deep_view().last() == self.book.rejections@[k - 1]@);
                }
                cat3(r.as_str(), "; last problem: ", self.book.rejections[k - 1].as_str())
            } else {
                r
            }
        }
    }

    /// Decide how the turn ends, where nothing has.
    pub fn conclude(&mut self, cfg: &EngineConfig, at: Timestamp) -> (policy: ReplyPolicy)
        requires
            accounting::room(old(self).deep_view().log, 1),
        ensures
            final(self).deep_view() == concluded(old(self).deep_view(), cfg.deep_view(), at),
            final(self).deep_view().settled == Some(policy.deep_view()),
    {
        if self.settled.is_none() {
            self.collect(at);
        }
        match &self.settled {
            Some(policy) => policy.clone(),
            None => {
                let reason: String = self.reason(cfg);
                let policy: ReplyPolicy = fall_back(cfg, reason.as_str());
                self.settle(at, policy.clone());
                policy
            },
        }
    }

    /// Record the reply.
    pub fn replied(&mut self, text: &str, at: Timestamp)
        requires
            accounting::room(old(self).deep_view().log, 1),
        ensures
            final(self).deep_view() == progress::logged(
                old(self).deep_view(),
                at,
                EventKindV::Replied { text: text@ },
            ),
    {
        self.record(at, EventKind::Replied { text: text.to_owned() });
    }
}

/// A template with its placeholders filled, one variable after the other; a
/// placeholder without a variable stays as it is.
pub open spec fn filled(template: Seq<char>, vars: Seq<(Seq<char>, Seq<char>)>) -> Seq<char>
    decreases vars.len(),
{
    if vars.len() == 0 {
        template
    } else {
        text::replaced(
            filled(template, vars.drop_last()),
            "{"@ + vars.last().0 + "}"@,
            json::prose(vars.last().1),
        )
    }
}

/// Fill a template with variables, each a name and a JSON value.
pub fn fill(template: &str, vars: &Vec<(String, String)>) -> (r: String)
    ensures
        r@ == filled(template@, vars.deep_view()),
{
    let ghost all = vars.deep_view();
    let mut out: String = template.to_owned();
    let mut i: usize = 0;
    proof {
        assert(all.take(0) =~= seq![]);
    }
    while i < vars.len()
        invariant
            i <= vars@.len(),
            all == vars.deep_view(),
            out@ == filled(template@, all.take(i as int)),
        decreases vars@.len() - i,
    {
        proof {
            assert(all.take(i + 1).drop_last() =~= all.take(i as int));
            assert(all.take(i + 1).last() == vars@[i as int].deep_view());
        }
        let place: String = cat3("{", vars[i].0.as_str(), "}");
        let value: Json = Json { text: vars[i].1.clone() };
        let shown: String = value_text(&value);
        proof {
            reveal_strlit("{");
        }
        out = replace(out.as_str(), place.as_str(), shown.as_str());
        i = i + 1;
    }
    proof {
        assert(all.take(all.len() as int) =~= all);
    }
    out
}

/// Replace each `{name}` by the variable of that name, strings without quotes.
pub fn render_template(template: &str, vars: &Json) -> (r: String)
    ensures
        r@ == filled(template@, json::json_members(vars.deep_view())),
{
    let ms: Vec<(String, String)> = members(vars.text.as_str());
    fill(template, &ms)
}

/// The reply of a turn whose end says what it is; none where it is still to be
/// written.
pub open spec fn set_reply(policy: ReplyPolicyV, cfg: EngineConfigV) -> Option<Seq<char>> {
    match policy {
        ReplyPolicyV::Verbatim { text } => Some(text),
        ReplyPolicyV::Template { id, vars } => Some(
            match config::template_of(cfg.templates, id) {
                Some(template) => filled(template, json::json_members(vars)),
                None => "["@ + id + "] "@ + vars,
            },
        ),
        ReplyPolicyV::Generate => None,
    }
}

/// The reply that a turn's end prescribes.
pub fn reply_text(policy: &ReplyPolicy, cfg: &EngineConfig) -> (r: Option<String>)
    ensures
        r.deep_view() == set_reply(policy.deep_view(), cfg.deep_view()),
{
    match policy {
        ReplyPolicy::Verbatim { text } => Some(text.clone()),
        ReplyPolicy::Template { id, vars } => Some(
            match cfg.template(id.as_str()) {
                Some(template) => render_template(template.as_str(), vars),
                None => cat4("[", id.as_str(), "] ", vars.text.as_str()),
            },
        ),
        ReplyPolicy::Generate => None,
    }
}

} // verus!
