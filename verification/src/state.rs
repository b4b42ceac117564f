//! The session's state: what the log folds to.

use vstd::prelude::*;

use crate::events::{
    Event, EventKind, EventKindV, EventV, RejectReason, RejectReasonV, ReplyPolicy, ReplyPolicyV,
    SessionSummary, SessionSummaryV, StagedEffect, StagedEffectV, ToolOutcome, ToolOutcomeV, TurnRecord,
    TurnRecordV,
};
use crate::json;
use crate::json::value_text;
use crate::text;
use crate::text::{cat2, cat3, cat4, cat5, cat6, listed, number, same, starts_with, strip_prefix};
use crate::turn::specs::{ASK_CLARIFICATION, FALLBACK_REPLY, REMEMBER_FACT};
use crate::types;
use crate::types::{clone_texts, min_trust, EventId, Tagged, TaggedV, Trust};

verus! {

/// One message of the conversation.
#[derive(Debug)]
pub struct HistoryLine {
    pub speaker: String,
    pub text: String,
}

pub struct HistoryLineV {
    pub speaker: Seq<char>,
    pub text: Seq<char>,
}

impl DeepView for HistoryLine {
    type V = HistoryLineV;

    open spec fn deep_view(&self) -> HistoryLineV {
        HistoryLineV {
            speaker: self.speaker.deep_view(),
            text: self.text.deep_view(),
        }
    }
}

impl Clone for HistoryLine {
    fn clone(&self) -> (r: Self)
        ensures
            r.deep_view() == self.deep_view(),
    {
        let r: HistoryLine = HistoryLine {
            speaker: self.speaker.clone(),
            text: self.text.clone(),
        };
        r
    }
}

/// What a session's events add up to.
#[derive(Debug)]
pub struct SessionState {
    /// Highest turn seen.
    pub turn: u32,
    pub history: Vec<HistoryLine>,
    /// One record per completed turn. The turn in progress has none until its
    /// `Replied` lands, and a turn that got no reply never has one.
    pub records: Vec<TurnRecord>,
    /// Latest rolling summary.
    pub summary: Option<SessionSummary>,
    /// Number of summaries so far.
    pub summaries: u32,
    /// Last staged action that was not confirmed.
    pub pending_confirmation: Option<EventId>,
    /// Turn on which it was staged.
    pub pending_turn: Option<u32>,
    /// Turn of the most recent confirmation.
    pub confirmed_this_turn_of: Option<u32>,
    /// Actions that were called in this session, each once.
    pub fired_tags: Vec<String>,
}

pub struct SessionStateV {
    pub turn: u32,
    pub history: Seq<HistoryLineV>,
    pub records: Seq<TurnRecordV>,
    pub summary: Option<SessionSummaryV>,
    pub summaries: u32,
    pub pending_confirmation: Option<EventId>,
    pub pending_turn: Option<u32>,
    pub confirmed_this_turn_of: Option<u32>,
    pub fired_tags: Seq<Seq<char>>,
}

impl DeepView for SessionState {
    type V = SessionStateV;

    open spec fn deep_view(&self) -> SessionStateV {
        SessionStateV {
            turn: self.turn,
            history: self.history.deep_view(),
            records: self.records.deep_view(),
            summary: self.summary.deep_view(),
            summaries: self.summaries,
            pending_confirmation: self.pending_confirmation,
            pending_turn: self.pending_turn,
            confirmed_this_turn_of: self.confirmed_this_turn_of,
            fired_tags: self.fired_tags.deep_view(),
        }
    }
}

impl Clone for SessionState {
    fn clone(&self) -> (r: Self)
        ensures
            r.deep_view() == self.deep_view(),
    {
        let r: SessionState = SessionState {
            turn: self.turn,
            history: self.history.clone(),
            records: self.records.clone(),
            summary: self.summary.clone(),
            summaries: self.summaries,
            pending_confirmation: self.pending_confirmation,
            pending_turn: self.pending_turn,
            confirmed_this_turn_of: self.confirmed_this_turn_of,
            fired_tags: clone_texts(&self.fired_tags),
        };
        proof {
            assert(r.history.deep_view() =~= self.history.deep_view());
            assert(r.records.deep_view() =~= self.records.deep_view());
            assert(r.summary.deep_view() =~= self.summary.deep_view());
        }
        r
    }
}

// ---------------------------------------------------------------------------
// What the fold says of one event
// ---------------------------------------------------------------------------

/// The action proposed in event `id`, as far as `events` goes.
pub open spec fn action_proposed(events: Seq<EventV>, id: EventId) -> Seq<char>
    decreases events.len(),
{
    if events.len() == 0 {
        "?"@
    } else {
        match events.last().kind {
            EventKindV::Proposed { proposal } => if events.last().id == id {
                proposal.action
            } else {
                action_proposed(events.drop_last(), id)
            },
            _ => action_proposed(events.drop_last(), id),
        }
    }
}

/// The argument `name` of a call, as prose.
pub open spec fn arg_prose(args: TaggedV, name: Seq<char>) -> Option<Seq<char>>
    decreases args.len(),
{
    if args.len() == 0 {
        None
    } else if args[0].0 == name {
        Some(json::prose(args[0].1.value))
    } else {
        arg_prose(args.drop_first(), name)
    }
}

/// How a call is named in a record: a stored fact by its key and value, any
/// other call by its action.
pub open spec fn label(action: Seq<char>, args: TaggedV) -> Seq<char> {
    if action != REMEMBER_FACT@ {
        action
    } else {
        match (arg_prose(args, "key"@), arg_prose(args, "value"@)) {
            (Some(k), Some(v)) => action + " "@ + k + "="@ + v,
            _ => action,
        }
    }
}

/// The name of the call made in event `id`, as far as `events` goes.
pub open spec fn call_named(events: Seq<EventV>, id: EventId) -> Seq<char>
    decreases events.len(),
{
    if events.len() == 0 {
        "?"@
    } else {
        match events.last().kind {
            EventKindV::ToolCalled { action, args } => if events.last().id == id {
                label(action, args)
            } else {
                call_named(events.drop_last(), id)
            },
            _ => call_named(events.drop_last(), id),
        }
    }
}

/// The record line of a refusal.
pub open spec fn refusal_line(events: Seq<EventV>, of: EventId, reason: RejectReasonV) -> Seq<char> {
    match reason {
        RejectReasonV::Malformed { detail } => if of.0 == 0 {
            "model failed: "@ + detail
        } else {
            action_proposed(events, of) + " -> malformed: "@ + detail
        },
        RejectReasonV::ProviderUnavailable { status, detail } => "provider unavailable: HTTP "@ + text::decimal(
            status as nat,
        ) + ": "@ + detail,
        RejectReasonV::IllegalAction { action } => action + " -> illegal"@,
        RejectReasonV::GuardDenied { guard, reason } => action_proposed(events, of) + " -> denied ("@ + guard
            + ": "@ + reason + ")"@,
    }
}

/// The record line of an outcome.
pub open spec fn outcome_line(name: Seq<char>, outcome: ToolOutcomeV) -> Seq<char> {
    match outcome {
        ToolOutcomeV::Done { output } => if text::starts(name, REMEMBER_FACT@) {
            name + " -> ok"@
        } else {
            name + " -> ok: "@ + output.summary
        },
        ToolOutcomeV::Failed { kind, detail } => name + " -> err "@ + kind + ": "@ + detail,
    }
}

/// The record line of a staged action.
pub open spec fn staged_line(action: Seq<char>, staged: Option<StagedEffectV>) -> Seq<char> {
    let line = "staged: '"@ + action + "' awaits confirmation"@;
    match staged {
        Some(effect) => line + ": "@ + effect.description,
        None => line,
    }
}

/// `s` without the prefix `p`, however often it is repeated in front.
pub open spec fn without_leading(s: Seq<char>, p: Seq<char>) -> Seq<char>
    decreases s.len(),
{
    if p.len() > 0 && text::starts(s, p) {
        without_leading(s.skip(p.len() as int), p)
    } else {
        s
    }
}

/// The record line of a settled turn, where it is worth one.
pub open spec fn settled_line(policy: ReplyPolicyV, last_proposal: Option<Seq<char>>) -> Option<
    Seq<char>,
> {
    match policy {
        ReplyPolicyV::Verbatim { text } => if last_proposal == Some(ASK_CLARIFICATION@) {
            Some("asked a clarification"@)
        } else if text::starts(text, FALLBACK_REPLY@) {
            Some("fallback:"@ + without_leading(text, FALLBACK_REPLY@))
        } else {
            None
        },
        ReplyPolicyV::Template { id, vars } => Some("fallback template "@ + id),
        ReplyPolicyV::Generate => None,
    }
}

/// The line that an event adds to the record of its turn.
pub open spec fn line_of(f: FoldV, past: Seq<EventV>, kind: EventKindV) -> Option<Seq<char>> {
    match kind {
        EventKindV::Rejected { proposal_of, reason } => Some(refusal_line(past, proposal_of, reason)),
        EventKindV::ToolReturned { call, outcome } => Some(outcome_line(call_named(past, call), outcome)),
        EventKindV::PendingConfirmation { proposal_of, staged } => Some(
            staged_line(action_proposed(past, proposal_of), staged),
        ),
        EventKindV::Confirmed { pending } => Some("confirmed"@),
        EventKindV::Corrected { of, text } => Some("corrected: "@ + text),
        EventKindV::Settled { policy } => settled_line(policy, f.last_proposal),
        EventKindV::ReplyFailed { detail } => Some("reply failed: "@ + detail),
        _ => None,
    }
}

// ---------------------------------------------------------------------------
// The fold
// ---------------------------------------------------------------------------

/// The state so far, with the record of the turn in progress.
#[derive(Debug)]
pub struct Fold {
    pub state: SessionState,
    pub current: Option<TurnRecord>,
    /// Trusts of the outputs of the turn in progress.
    pub trusts: Vec<Trust>,
    /// Action last proposed on it.
    pub last_proposal: Option<String>,
}

pub struct FoldV {
    pub state: SessionStateV,
    pub current: Option<TurnRecordV>,
    pub trusts: Seq<Trust>,
    pub last_proposal: Option<Seq<char>>,
}

impl DeepView for Fold {
    type V = FoldV;

    open spec fn deep_view(&self) -> FoldV {
        FoldV {
            state: self.state.deep_view(),
            current: self.current.deep_view(),
            trusts: self.trusts.deep_view(),
            last_proposal: self.last_proposal.deep_view(),
        }
    }
}

impl Clone for Fold {
    fn clone(&self) -> (r: Self)
        ensures
            r.deep_view() == self.deep_view(),
    {
        let r: Fold = Fold {
            state: self.state.clone(),
            current: self.current.clone(),
            trusts: self.trusts.clone(),
            last_proposal: self.last_proposal.clone(),
        };
        proof {
            assert(r.current.deep_view() =~= self.current.deep_view());
            assert(r.trusts.deep_view() =~= self.trusts.deep_view());
            assert(r.last_proposal.deep_view() =~= self.last_proposal.deep_view());
        }
        r
    }
}

pub open spec fn empty_state() -> SessionStateV {
    SessionStateV {
        turn: 0,
        history: seq![],
        records: seq![],
        summary: None,
        summaries: 0,
        pending_confirmation: None,
        pending_turn: None,
        confirmed_this_turn_of: None,
        fired_tags: seq![],
    }
}

pub open spec fn empty_fold() -> FoldV {
    FoldV { state: empty_state(), current: None, trusts: seq![], last_proposal: None }
}

/// A reply finishes the open record: it carries the reply, and the lowest trust
/// of what its turn was told.
pub open spec fn closed_records(f: FoldV, reply: Seq<char>) -> Seq<TurnRecordV> {
    match f.current {
        Some(r) => f.state.records.push(TurnRecordV { trust: types::lowest(f.trusts), reply, ..r }),
        None => f.state.records,
    }
}

pub open spec fn with_line(current: Option<TurnRecordV>, line: Option<Seq<char>>) -> Option<TurnRecordV> {
    match (current, line) {
        (Some(r), Some(l)) => Some(TurnRecordV { did: r.did.push(l), ..r }),
        _ => current,
    }
}

/// One event more.
pub open spec fn step(f: FoldV, past: Seq<EventV>, e: EventV) -> FoldV {
    let s = SessionStateV { turn: if e.turn > f.state.turn { e.turn } else { f.state.turn }, ..f.state };
    let g = FoldV { state: s, current: with_line(f.current, line_of(f, past, e.kind)), ..f };
    match e.kind {
        EventKindV::UserSaid { text } => FoldV {
            state: SessionStateV {
                history: s.history.push(HistoryLineV { speaker: "user"@, text }),
                ..s
            },
            current: Some(TurnRecordV { turn: e.turn, user: text, did: seq![], reply: seq![], trust: Trust::User }),
            trusts: seq![],
            last_proposal: None,
        },
        EventKindV::Proposed { proposal } => FoldV { last_proposal: Some(proposal.action), ..g },
        EventKindV::ToolCalled { action, args } => FoldV {
            state: SessionStateV {
                fired_tags: if s.fired_tags.contains(action) {
                    s.fired_tags
                } else {
                    s.fired_tags.push(action)
                },
                ..s
            },
            ..g
        },
        EventKindV::ToolReturned { call, outcome } => FoldV {
            trusts: match outcome {
                ToolOutcomeV::Done { output } => f.trusts.push(output.trust),
                _ => f.trusts,
            },
            ..g
        },
        EventKindV::PendingConfirmation { proposal_of, staged } => FoldV {
            state: SessionStateV { pending_confirmation: Some(e.id), pending_turn: Some(e.turn), ..s },
            ..g
        },
        EventKindV::Confirmed { pending } => if s.pending_confirmation == Some(pending) {
            FoldV {
                state: SessionStateV {
                    pending_confirmation: None,
                    pending_turn: None,
                    confirmed_this_turn_of: Some(e.turn),
                    ..s
                },
                ..g
            }
        } else {
            g
        },
        EventKindV::Summarized { summary } => FoldV {
            state: SessionStateV { summary: Some(summary), summaries: (s.summaries + 1) as u32, ..s },
            ..g
        },
        EventKindV::Replied { text } => FoldV {
            state: SessionStateV {
                history: s.history.push(HistoryLineV { speaker: "assistant"@, text }),
                records: closed_records(f, text),
                ..s
            },
            current: None,
            trusts: seq![],
            ..g
        },
        _ => g,
    }
}

pub open spec fn folding(events: Seq<EventV>) -> FoldV
    decreases events.len(),
{
    if events.len() == 0 {
        empty_fold()
    } else {
        step(folding(events.drop_last()), events.drop_last(), events.last())
    }
}

/// What a session's events add up to.
pub open spec fn folded(events: Seq<EventV>) -> SessionStateV {
    folding(events).state
}

// ---------------------------------------------------------------------------
// Running it
// ---------------------------------------------------------------------------

fn find_action(events: &Vec<Event>, upto: usize, id: EventId) -> (r: String)
    requires
        upto <= events@.len(),
    ensures
        r@ == action_proposed(events.deep_view().take(upto as int), id),
{
    let ghost all = events.deep_view();
    let mut i: usize = upto;
    while i > 0
        invariant
            i <= upto <= events@.len(),
            all == events.deep_view(),
            action_proposed(all.take(upto as int), id) == action_proposed(all.take(i as int), id),
        decreases i,
    {
        i = i - 1;
        let e: &Event = &events[i];
        proof {
            assert(all.take(i + 1).drop_last() =~= all.take(i as int));
            assert(all.take(i + 1).last() == e.deep_view());
        }
        if let EventKind::Proposed { proposal } = &e.kind {
            if e.id == id {
                return proposal.action.clone();
            }
        }
    }
    "?".to_owned()
}

fn find_arg(args: &Tagged, name: &str) -> (r: Option<String>)
    ensures
        r.deep_view() == arg_prose(args.deep_view(), name@),
{
    let ghost all = args.deep_view();
    let mut i: usize = 0;
    proof {
        assert(all.skip(0) =~= all);
    }
    while i < args.len()
        invariant
            i <= args@.len(),
            all == args.deep_view(),
            arg_prose(all, name@) == arg_prose(all.skip(i as int), name@),
        decreases args@.len() - i,
    {
        proof {
            assert(all.skip(i as int)[0] == args@[i as int].deep_view());
            assert(all.skip(i as int).drop_first() =~= all.skip(i + 1));
        }
        if same(args[i].0.as_str(), name) {
            return Some(value_text(&args[i].1.value));
        }
        i = i + 1;
    }
    None
}

fn call_label(action: &str, args: &Tagged) -> (r: String)
    ensures
        r@ == label(action@, args.deep_view()),
{
    if !same(action, REMEMBER_FACT) {
        return action.to_owned();
    }
    let key: Option<String> = find_arg(args, "key");
    let value: Option<String> = find_arg(args, "value");
    match (key, value) {
        (Some(k), Some(v)) => cat5(action, " ", k.as_str(), "=", v.as_str()),
        _ => action.to_owned(),
    }
}

fn find_call(events: &Vec<Event>, upto: usize, id: EventId) -> (r: String)
    requires
        upto <= events@.len(),
    ensures
        r@ == call_named(events.deep_view().take(upto as int), id),
{
    let ghost all = events.deep_view();
    let mut i: usize = upto;
    while i > 0
        invariant
            i <= upto <= events@.len(),
            all == events.deep_view(),
            call_named(all.take(upto as int), id) == call_named(all.take(i as int), id),
        decreases i,
    {
        i = i - 1;
        let e: &Event = &events[i];
        proof {
            assert(all.take(i + 1).drop_last() =~= all.take(i as int));
            assert(all.take(i + 1).last() == e.deep_view());
        }
        if let EventKind::ToolCalled { action, args } = &e.kind {
            if e.id == id {
                return call_label(action.as_str(), args);
            }
        }
    }
    "?".to_owned()
}

fn write_refusal(events: &Vec<Event>, upto: usize, of: EventId, reason: &RejectReason) -> (r: String)
    requires
        upto <= events@.len(),
    ensures
        r@ == refusal_line(events.deep_view().take(upto as int), of, reason.deep_view()),
{
    match reason {
        RejectReason::Malformed { detail } => if of.0 == 0 {
            cat2("model failed: ", detail.as_str())
        } else {
            let action: String = find_action(events, upto, of);
            cat3(action.as_str(), " -> malformed: ", detail.as_str())
        },
        RejectReason::ProviderUnavailable { status, detail } => {
            let code: String = number(*status as u64);
            cat4("provider unavailable: HTTP ", code.as_str(), ": ", detail.as_str())
        },
        RejectReason::IllegalAction { action } => cat2(action.as_str(), " -> illegal"),
        RejectReason::GuardDenied { guard, reason } => {
            let action: String = find_action(events, upto, of);
            cat6(action.as_str(), " -> denied (", guard.as_str(), ": ", reason.as_str(), ")")
        },
    }
}

fn write_outcome(name: &str, outcome: &ToolOutcome) -> (r: String)
    ensures
        r@ == outcome_line(name@, outcome.deep_view()),
{
    match outcome {
        ToolOutcome::Done { output } => if starts_with(name, REMEMBER_FACT) {
            cat2(name, " -> ok")
        } else {
            cat3(name, " -> ok: ", output.summary.as_str())
        },
        ToolOutcome::Failed { kind, detail } => cat5(
            name,
            " -> err ",
            kind.as_str(),
            ": ",
            detail.as_str(),
        ),
    }
}

fn write_staged(action: &str, staged: &Option<StagedEffect>) -> (r: String)
    ensures
        r@ == staged_line(action@, staged.deep_view()),
{
    let mut line: String = cat3("staged: '", action, "' awaits confirmation");
    if let Some(effect) = staged {
        line.append(": ");
        line.append(effect.description.as_str());
    }
    line
}

fn trim_start_matches(s: &str, p: &str) -> (r: String)
    requires
        p@.len() > 0,
    ensures
        r@ == without_leading(s@, p@),
{
    let mut rest: String = s.to_owned();
    loop
        invariant
            p@.len() > 0,
            without_leading(rest@, p@) == without_leading(s@, p@),
        decreases rest@.len(),
    {
        match strip_prefix(rest.as_str(), p) {
            Some(t) => {
                rest = t;
            },
            None => return rest,
        }
    }
}

fn write_settled(policy: &ReplyPolicy, last_proposal: &Option<String>) -> (r: Option<String>)
    ensures
        r.deep_view() == settled_line(policy.deep_view(), last_proposal.deep_view()),
{
    match policy {
        ReplyPolicy::Verbatim { text } => {
            if let Some(last) = last_proposal {
                if same(last.as_str(), ASK_CLARIFICATION) {
                    return Some("asked a clarification".to_owned());
                }
            }
            if starts_with(text.as_str(), FALLBACK_REPLY) {
                proof {
                    reveal_strlit("Sorry, I couldn't complete that.");
                }
                let rest: String = trim_start_matches(text.as_str(), FALLBACK_REPLY);
                Some(cat2("fallback:", rest.as_str()))
            } else {
                None
            }
        },
        ReplyPolicy::Template { id, vars } => Some(cat2("fallback template ", id.as_str())),
        ReplyPolicy::Generate => None,
    }
}

fn write_line(f: &Fold, events: &Vec<Event>, upto: usize, kind: &EventKind) -> (r: Option<String>)
    requires
        upto <= events@.len(),
    ensures
        r.deep_view() == line_of(f.deep_view(), events.deep_view().take(upto as int), kind.deep_view()),
{
    match kind {
        EventKind::Rejected { proposal_of, reason } => Some(
            write_refusal(events, upto, *proposal_of, reason),
        ),
        EventKind::ToolReturned { call, outcome } => {
            let name: String = find_call(events, upto, *call);
            Some(write_outcome(name.as_str(), outcome))
        },
        EventKind::PendingConfirmation { proposal_of, staged } => {
            let action: String = find_action(events, upto, *proposal_of);
            Some(write_staged(action.as_str(), staged))
        },
        EventKind::Confirmed { pending } => Some("confirmed".to_owned()),
        EventKind::Corrected { of, text } => Some(cat2("corrected: ", text.as_str())),
        EventKind::Settled { policy } => write_settled(policy, &f.last_proposal),
        EventKind::ReplyFailed { detail } => Some(cat2("reply failed: ", detail.as_str())),
        _ => None,
    }
}

fn close_records(f: &mut Fold, reply: String)
    ensures
        final(f).deep_view() == (FoldV {
            state: SessionStateV {
                records: closed_records(old(f).deep_view(), reply@),
                ..old(f).deep_view().state
            },
            current: None,
            ..old(f).deep_view()
        }),
{
    let ghost before = f.deep_view();
    let ghost held = f.current;
    match f.current.take() {
        Some(mut r) => {
            r.trust = min_trust(&f.trusts);
            r.reply = reply;
            let ghost rec = r.deep_view();
            f.state.records.push(r);
            proof {
                assert(f.trusts.deep_view() =~= f.trusts@);
                assert(f.deep_view().state.records =~= before.state.records.push(rec));
            }
        },
        None => {},
    }
}

fn push_line(f: &mut Fold, line: Option<String>)
    ensures
        final(f).deep_view() == (FoldV {
            current: with_line(old(f).deep_view().current, line.deep_view()),
            ..old(f).deep_view()
        }),
{
    if let Some(l) = line {
        match f.current.take() {
            Some(mut r) => {
                let ghost did = r.did.deep_view();
                r.did.push(l);
                proof {
                    assert(r.did.deep_view() =~= did.push(l@));
                }
                f.current = Some(r);
            },
            None => {},
        }
    }
}

fn push_history(f: &mut Fold, speaker: &str, text: &String)
    ensures
        final(f).deep_view() == (FoldV {
            state: SessionStateV {
                history: old(f).deep_view().state.history.push(HistoryLineV { speaker: speaker@, text: text@ }),
                ..old(f).deep_view().state
            },
            ..old(f).deep_view()
        }),
{
    let ghost before = f.deep_view().state.history;
    let line: HistoryLine = HistoryLine { speaker: speaker.to_owned(), text: text.clone() };
    f.state.history.push(line);
    proof {
        assert(f.state.history.deep_view() =~= before.push(line.deep_view()));
    }
}

fn fold_event(f: &mut Fold, events: &Vec<Event>, i: usize)
    requires
        i < events@.len(),
        old(f).state.summaries < u32::MAX,
    ensures
        final(f).deep_view() == step(
            old(f).deep_view(),
            events.deep_view().take(i as int),
            events.deep_view()[i as int],
        ),
        final(f).state.summaries <= old(f).state.summaries + 1,
{
    let e: &Event = &events[i];
    let ghost f0 = f.deep_view();
    let line: Option<String> = write_line(f, events, i, &e.kind);
    if e.turn > f.state.turn {
        f.state.turn = e.turn;
    }
    match &e.kind {
        EventKind::UserSaid { text } => {
            push_history(f, "user", text);
            f.trusts = Vec::new();
            f.last_proposal = None;
            let r: TurnRecord = TurnRecord {
                turn: e.turn,
                user: text.clone(),
                did: Vec::new(),
                reply: String::new(),
                trust: Trust::User,
            };
            proof {
                assert(r.did.deep_view() =~= seq![]);
                assert(r.reply@ =~= seq![]);
                assert(f.trusts.deep_view() =~= seq![]);
            }
            f.current = Some(r);
        },
        EventKind::Replied { text } => {
            push_history(f, "assistant", text);
            close_records(f, text.clone());
            f.trusts = Vec::new();
            proof {
                assert(f.trusts.deep_view() =~= seq![]);
            }
        },
        EventKind::Proposed { proposal } => {
            f.last_proposal = Some(proposal.action.clone());
        },
        EventKind::ToolCalled { action, args } => {
            if !listed(&f.state.fired_tags, action.as_str()) {
                let ghost before = f.state.fired_tags.deep_view();
                f.state.fired_tags.push(action.clone());
                proof {
                    assert(f.state.fired_tags.deep_view() =~= before.push(action@));
                }
            }
        },
        EventKind::ToolReturned { call, outcome } => {
            push_line(f, line);
            if let ToolOutcome::Done { output } = outcome {
                let ghost before = f.trusts.deep_view();
                f.trusts.push(output.trust);
                proof {
                    assert(f.trusts.deep_view() =~= before.push(output.trust));
                }
            }
        },
        EventKind::PendingConfirmation { proposal_of, staged } => {
            push_line(f, line);
            f.state.pending_confirmation = Some(e.id);
            f.state.pending_turn = Some(e.turn);
        },
        EventKind::Confirmed { pending } => {
            push_line(f, line);
            let answered: bool = match f.state.pending_confirmation {
                Some(id) => id == *pending,
                None => false,
            };
            if answered {
                f.state.pending_confirmation = None;
                f.state.pending_turn = None;
                f.state.confirmed_this_turn_of = Some(e.turn);
            }
        },
        EventKind::Summarized { summary } => {
            f.state.summary = Some(summary.clone());
            f.state.summaries = f.state.summaries + 1;
        },
        _ => {
            push_line(f, line);
        },
    }
}

/// Fold a session's events into its state.
pub fn fold(events: &Vec<Event>) -> (r: SessionState)
    requires
        events@.len() <= u32::MAX,
    ensures
        r.deep_view() == folded(events.deep_view()),
{
    let ghost all = events.deep_view();
    let mut f: Fold = Fold {
        state: SessionState {
            turn: 0,
            history: Vec::new(),
            records: Vec::new(),
            summary: None,
            summaries: 0,
            pending_confirmation: None,
            pending_turn: None,
            confirmed_this_turn_of: None,
            fired_tags: Vec::new(),
        },
        current: None,
        trusts: Vec::new(),
        last_proposal: None,
    };
    proof {
        assert(f.state.history.deep_view() =~= seq![]);
        assert(f.state.records.deep_view() =~= seq![]);
        assert(f.state.fired_tags.deep_view() =~= seq![]);
        assert(f.trusts.deep_view() =~= seq![]);
        assert(all.take(0) =~= seq![]);
    }
    let mut i: usize = 0;
    while i < events.len()
        invariant
            i <= events@.len() <= u32::MAX,
            all == events.deep_view(),
            f.deep_view() == folding(all.take(i as int)),
            f.state.summaries <= i,
        decreases events@.len() - i,
    {
        proof {
            assert(all.take(i + 1).drop_last() =~= all.take(i as int));
            assert(all.take(i + 1).last() == all[i as int]);
        }
        fold_event(&mut f, events, i);
        i = i + 1;
    }
    proof {
        assert(all.take(all.len() as int) =~= all);
    }
    f.state
}

/// The last `k` of a list, or all of it where it is shorter.
pub open spec fn last_of(records: Seq<TurnRecordV>, k: nat) -> Seq<TurnRecordV> {
    if records.len() <= k {
        records
    } else {
        records.skip(records.len() - k)
    }
}

/// The records of the turns from `from` to `to`.
pub open spec fn in_turns(records: Seq<TurnRecordV>, from: u32, to: u32) -> Seq<TurnRecordV> {
    records.filter(|r: TurnRecordV| from <= r.turn <= to)
}

impl SessionState {
    /// The last `k` completed turns, oldest first.
    pub fn window(&self, k: usize) -> (r: Vec<TurnRecord>)
        ensures
            r.deep_view() == last_of(self.records.deep_view(), k as nat),
    {
        let ghost all = self.records.deep_view();
        let start: usize = if self.records.len() > k { self.records.len() - k } else { 0 };
        let mut out: Vec<TurnRecord> = Vec::new();
        let mut i: usize = start;
        while i < self.records.len()
            invariant
                start <= i <= self.records@.len(),
                all == self.records.deep_view(),
                out.deep_view() == all.subrange(start as int, i as int),
            decreases self.records@.len() - i,
        {
            let ghost before = out.deep_view();
            let one: TurnRecord = self.records[i].clone();
            out.push(one);
            proof {
                assert(out.deep_view() =~= before.push(one.deep_view()));
                assert(all.subrange(start as int, i + 1) =~= all.subrange(start as int, i as int).push(
                    all[i as int],
                ));
            }
            i = i + 1;
        }
        proof {
            assert(out.deep_view() =~= last_of(all, k as nat));
        }
        out
    }

    /// Completed turns with `from <= turn <= to`, oldest first.
    pub fn records_in(&self, from: u32, to: u32) -> (r: Vec<TurnRecord>)
        ensures
            r.deep_view() == in_turns(self.records.deep_view(), from, to),
    {
        let ghost all = self.records.deep_view();
        let ghost keep = |r: TurnRecordV| from <= r.turn <= to;
        let mut out: Vec<TurnRecord> = Vec::new();
        let mut i: usize = 0;
        proof {
            reveal(Seq::filter);
            assert(all.take(0).filter(keep) =~= seq![]);
            assert(out.deep_view() =~= seq![]);
        }
        while i < self.records.len()
            invariant
                i <= self.records@.len(),
                all == self.records.deep_view(),
                keep == (|r: TurnRecordV| from <= r.turn <= to),
                out.deep_view() == all.take(i as int).filter(keep),
            decreases self.records@.len() - i,
        {
            let ghost before = out.deep_view();
            proof {
                reveal(Seq::filter);
                assert(all.take(i + 1).drop_last() =~= all.take(i as int));
                assert(all.take(i + 1).last() == self.records@[i as int].deep_view());
            }
            let turn: u32 = self.records[i].turn;
            if from <= turn && turn <= to {
                let one: TurnRecord = self.records[i].clone();
                out.push(one);
                proof {
                    assert(out.deep_view() =~= before.push(one.deep_view()));
                }
            }
            i = i + 1;
        }
        proof {
            assert(all.take(all.len() as int) =~= all);
        }
        out
    }
}

/// The state in one line: the turn and how many messages there were.
pub fn state_summary(s: &SessionState) -> (r: String)
    ensures
        r@ == "turn "@ + text::decimal(s.turn as nat) + ", "@ + text::decimal(s.history@.len()) + " messages"@,
{
    let turn: String = number(s.turn as u64);
    let messages: String = number(s.history.len() as u64);
    cat5("turn ", turn.as_str(), ", ", messages.as_str(), " messages")
}

// ---------------------------------------------------------------------------
// Laws
// ---------------------------------------------------------------------------

/// An action is among the fired ones exactly when the session called it.
pub proof fn fired_is_called(events: Seq<EventV>, action: Seq<char>)
    ensures
        folded(events).fired_tags.contains(action) <==> exists|i: int|
            0 <= i < events.len() && ((#[trigger] events[i]).kind matches EventKindV::ToolCalled {
                action: a,
                args,
            } && a == action),
    decreases events.len(),
{
    if events.len() > 0 {
        let past = events.drop_last();
        fired_is_called(past, action);
        let tags = folded(past).fired_tags;
        let now = folded(events).fired_tags;
        if let EventKindV::ToolCalled { action: a, args } = events.last().kind {
            if !tags.contains(a) {
                assert(now == tags.push(a));
                assert(now.contains(a)) by {
                    assert(now[tags.len() as int] == a);
                }
                if tags.contains(action) {
                    let j = choose|j: int| 0 <= j < tags.len() && tags[j] == action;
                    assert(now[j] == action);
                }
            } else {
                assert(now == tags);
            }
            if now.contains(action) && !tags.contains(action) {
                let j = choose|j: int| 0 <= j < now.len() && now[j] == action;
                assert(j == tags.len());
                assert(events[events.len() - 1].kind == events.last().kind);
            }
        } else {
            assert(now == tags);
        }
        if tags.contains(action) {
            let i = choose|i: int|
                0 <= i < past.len() && ((#[trigger] past[i]).kind matches EventKindV::ToolCalled {
                    action: a,
                    args,
                } && a == action);
            assert(events[i] == past[i]);
        }
        if exists|i: int|
            0 <= i < events.len() && ((#[trigger] events[i]).kind matches EventKindV::ToolCalled {
                action: a,
                args,
            } && a == action) {
            let i = choose|i: int|
                0 <= i < events.len() && ((#[trigger] events[i]).kind matches EventKindV::ToolCalled {
                    action: a,
                    args,
                } && a == action);
            if i < past.len() {
                assert(past[i] == events[i]);
            }
        }
    }
}

/// How many of the events are summaries.
pub open spec fn summaries_in(events: Seq<EventV>) -> nat
    decreases events.len(),
{
    if events.len() == 0 {
        0
    } else {
        summaries_in(events.drop_last()) + if events.last().kind is Summarized { 1nat } else { 0nat }
    }
}

/// The state counts every summary and keeps the latest one.
pub proof fn summaries_are_counted(events: Seq<EventV>)
    requires
        events.len() <= u32::MAX,
    ensures
        folded(events).summaries == summaries_in(events),
        summaries_in(events) <= events.len(),
        folded(events).summary is Some <==> summaries_in(events) > 0,
        events.len() > 0 ==> (events.last().kind matches EventKindV::Summarized { summary } ==> folded(
            events,
        ).summary == Some(summary)),
        events.len() > 0 && !(events.last().kind is Summarized) ==> folded(events).summary == folded(
            events.drop_last(),
        ).summary,
    decreases events.len(),
{
    if events.len() > 0 {
        summaries_are_counted(events.drop_last());
    }
}

/// The state's turn is the highest that any event was on.
pub proof fn turn_is_the_highest(events: Seq<EventV>)
    ensures
        forall|i: int| 0 <= i < events.len() ==> (#[trigger] events[i]).turn <= folded(events).turn,
        folded(events).turn == 0 || exists|i: int|
            0 <= i < events.len() && (#[trigger] events[i]).turn == folded(events).turn,
    decreases events.len(),
{
    if events.len() > 0 {
        let past = events.drop_last();
        turn_is_the_highest(past);
        assert forall|i: int| 0 <= i < events.len() implies (#[trigger] events[i]).turn <= folded(events).turn by {
            if i < past.len() {
                assert(past[i] == events[i]);
            }
        }
        if folded(events).turn != 0 {
            if events.last().turn == folded(events).turn {
                assert(events[events.len() - 1].turn == folded(events).turn);
            } else {
                let i = choose|i: int| 0 <= i < past.len() && (#[trigger] past[i]).turn == folded(past).turn;
                assert(events[i] == past[i]);
            }
        }
    }
}

/// Only a reply completes a record: whatever else happens, a message on top of a
/// turn without a reply among it, leaves the records alone.
pub proof fn records_close_on_replies_only(events: Seq<EventV>, e: EventV)
    ensures
        !(e.kind is Replied) ==> folded(events.push(e)).records == folded(events).records,
        folded(events).records == folded(events.push(e)).records.take(
            folded(events).records.len() as int,
        ),
        folded(events.push(e)).records.len() <= folded(events).records.len() + 1,
{
    assert(events.push(e).drop_last() =~= events);
    let was = folded(events).records;
    let now = folded(events.push(e)).records;
    assert(now.take(was.len() as int) =~= was);
}

/// A reply on a turn that a message opened leaves exactly one record more: the
/// message, what was done, the reply, and the lowest trust of what the turn was
/// told.
pub proof fn a_reply_completes_one_record(events: Seq<EventV>, e: EventV)
    requires
        e.kind is Replied,
        folding(events).current is Some,
    ensures
        folded(events.push(e)).records == folded(events).records.push(
            TurnRecordV {
                reply: e.kind->Replied_text,
                trust: types::lowest(folding(events).trusts),
                ..folding(events).current->0
            },
        ),
        folding(events.push(e)).current is None,
{
    assert(events.push(e).drop_last() =~= events);
}

/// A staged action is the pending one until it is confirmed, and a confirmation
/// of it clears it and marks the turn.
pub proof fn confirmation_clears_what_it_names(events: Seq<EventV>, e: EventV)
    ensures
        e.kind is PendingConfirmation ==> folded(events.push(e)).pending_confirmation == Some(e.id) && folded(
            events.push(e),
        ).pending_turn == Some(e.turn),
        (e.kind matches EventKindV::Confirmed { pending } && folded(events).pending_confirmation == Some(
            pending,
        )) ==> folded(events.push(e)).pending_confirmation is None && folded(events.push(e)).pending_turn is None
            && folded(events.push(e)).confirmed_this_turn_of == Some(e.turn),
        (e.kind matches EventKindV::Confirmed { pending } && folded(events).pending_confirmation != Some(
            pending,
        )) ==> folded(events.push(e)).pending_confirmation == folded(events).pending_confirmation && folded(
            events.push(e),
        ).confirmed_this_turn_of == folded(events).confirmed_this_turn_of,
        !(e.kind is PendingConfirmation) && !(e.kind is Confirmed) ==> folded(
            events.push(e),
        ).pending_confirmation == folded(events).pending_confirmation && folded(events.push(e)).pending_turn
            == folded(events).pending_turn && folded(events.push(e)).confirmed_this_turn_of == folded(
            events,
        ).confirmed_this_turn_of,
{
    assert(events.push(e).drop_last() =~= events);
}

/// The staged action at `k` still waits at the end of the log: nothing was staged
/// after it, and no later confirmation names it.
pub open spec fn still_waits(events: Seq<EventV>, k: int) -> bool {
    &&& 0 <= k < events.len()
    &&& events[k].kind is PendingConfirmation
    &&& forall|j: int|
        k < j < events.len() ==> !((#[trigger] events[j]).kind is PendingConfirmation) && events[j].kind
            != (EventKindV::Confirmed { pending: events[k].id })
}

/// What a whole log leaves pending: the last staged action, with its turn, where
/// no later confirmation names it; else nothing.
pub proof fn the_last_staged_action_is_pending(events: Seq<EventV>)
    ensures
        forall|k: int| #[trigger]
            still_waits(events, k) ==> folded(events).pending_confirmation == Some(events[k].id) && folded(
                events,
            ).pending_turn == Some(events[k].turn),
        (forall|k: int| !(#[trigger] still_waits(events, k))) ==> folded(events).pending_confirmation is None
            && folded(events).pending_turn is None,
    decreases events.len(),
{
    if events.len() > 0 {
        let past = events.drop_last();
        let last = events.len() - 1;
        let e = events.last();
        the_last_staged_action_is_pending(past);
        assert(events[last] == e);
        assert forall|k: int| 0 <= k < last implies (#[trigger] still_waits(events, k) <==> still_waits(past, k)
            && !(e.kind is PendingConfirmation) && e.kind != (EventKindV::Confirmed { pending: events[k].id })) by {
            assert(past[k] == events[k]);
            if still_waits(events, k) {
                assert forall|j: int| k < j < past.len() implies !((#[trigger] past[j]).kind is PendingConfirmation)
                    && past[j].kind != (EventKindV::Confirmed { pending: past[k].id }) by {
                    assert(events[j] == past[j]);
                }
                assert(!(events[last].kind is PendingConfirmation));
            }
            if still_waits(past, k) && !(e.kind is PendingConfirmation) && e.kind != (EventKindV::Confirmed {
                pending: events[k].id,
            }) {
                assert forall|j: int|
                    k < j < events.len() implies !((#[trigger] events[j]).kind is PendingConfirmation)
                    && events[j].kind != (EventKindV::Confirmed { pending: events[k].id }) by {
                    if j < last {
                        assert(events[j] == past[j]);
                    }
                }
            }
        }
        if e.kind is PendingConfirmation {
            assert(still_waits(events, last));
        } else {
            assert(!still_waits(events, last));
            if exists|k: int| #[trigger] still_waits(past, k) {
                let k = choose|k: int| #[trigger] still_waits(past, k);
                assert(past[k] == events[k]);
                assert(still_waits(events, k) || e.kind == (EventKindV::Confirmed { pending: events[k].id }));
            }
            assert forall|k: int| #[trigger] still_waits(events, k) implies folded(events).pending_confirmation
                == Some(events[k].id) && folded(events).pending_turn == Some(events[k].turn) by {
                assert(still_waits(past, k));
                assert(past[k] == events[k]);
            }
        }
    }
}

// ---------------------------------------------------------------------------
// What a record says, by what happened
// ---------------------------------------------------------------------------

/// The event at `c` is the last call under the number.
pub open spec fn calls_last(events: Seq<EventV>, id: EventId, c: int) -> bool {
    &&& 0 <= c < events.len()
    &&& events[c].id == id && events[c].kind is ToolCalled
    &&& forall|j: int| c < j < events.len() ==> !((#[trigger] events[j]).id == id && events[j].kind is ToolCalled)
}

/// The event at `p` is the last proposal under the number.
pub open spec fn proposes_last(events: Seq<EventV>, id: EventId, p: int) -> bool {
    &&& 0 <= p < events.len()
    &&& events[p].id == id && events[p].kind is Proposed
    &&& forall|j: int| p < j < events.len() ==> !((#[trigger] events[j]).id == id && events[j].kind is Proposed)
}

/// The first argument of the name is at `i`.
pub open spec fn first_arg(args: TaggedV, name: Seq<char>, i: int) -> bool {
    &&& 0 <= i < args.len()
    &&& args[i].0 == name
    &&& forall|j: int| 0 <= j < i ==> (#[trigger] args[j]).0 != name
}

proof fn lemma_first_arg(args: TaggedV, name: Seq<char>, i: int)
    requires
        first_arg(args, name, i),
    ensures
        arg_prose(args, name) == Some(json::prose(args[i].1.value)),
    decreases args.len(),
{
    if i > 0 {
        assert(args[0].0 != name);
        let rest = args.drop_first();
        assert forall|j: int| 0 <= j < i - 1 implies (#[trigger] rest[j]).0 != name by {
            assert(rest[j] == args[j + 1]);
        }
        lemma_first_arg(rest, name, i - 1);
    }
}

proof fn lemma_calls_last(events: Seq<EventV>, id: EventId, c: int)
    requires
        calls_last(events, id, c),
    ensures
        call_named(events, id) == label(events[c].kind->ToolCalled_action, events[c].kind->ToolCalled_args),
    decreases events.len(),
{
    let n = events.len() - 1;
    if c < n {
        let past = events.drop_last();
        assert(!(events[n].id == id && events[n].kind is ToolCalled));
        assert(past[c] == events[c]);
        assert forall|j: int| c < j < past.len() implies !((#[trigger] past[j]).id == id && past[j].kind is ToolCalled) by {
            assert(past[j] == events[j]);
        }
        lemma_calls_last(past, id, c);
    }
}

proof fn lemma_proposes_last(events: Seq<EventV>, id: EventId, p: int)
    requires
        proposes_last(events, id, p),
    ensures
        action_proposed(events, id) == events[p].kind->Proposed_proposal.action,
    decreases events.len(),
{
    let n = events.len() - 1;
    if p < n {
        let past = events.drop_last();
        assert(!(events[n].id == id && events[n].kind is Proposed));
        assert(past[p] == events[p]);
        assert forall|j: int| p < j < past.len() implies !((#[trigger] past[j]).id == id && past[j].kind is Proposed) by {
            assert(past[j] == events[j]);
        }
        lemma_proposes_last(past, id, p);
    }
}

/// What the record of the turn in progress says was done.
pub open spec fn done_so_far(events: Seq<EventV>) -> Seq<Seq<char>> {
    folding(events).current->0.did
}

/// What came of a call reads by the name of the action that was called: `ok`, with the
/// summary of the output, where it was done, and `err`, with the kind and the detail,
/// where it failed.
pub proof fn a_call_is_recorded_as_it_came_out(events: Seq<EventV>, e: EventV, c: int)
    requires
        e.kind is ToolReturned,
        folding(events).current is Some,
        calls_last(events, e.kind->ToolReturned_call, c),
        events[c].kind->ToolCalled_action != "remember_fact"@,
    ensures
        ({
            let action = events[c].kind->ToolCalled_action;
            match e.kind->ToolReturned_outcome {
                ToolOutcomeV::Failed { kind, detail } => done_so_far(events.push(e)) == done_so_far(events).push(
                    action + " -> err "@ + kind + ": "@ + detail,
                ),
                ToolOutcomeV::Done { output } => !text::starts(action, "remember_fact"@) ==> done_so_far(events.push(e))
                    == done_so_far(events).push(action + " -> ok: "@ + output.summary),
            }
        }),
{
    assert(events.push(e).drop_last() =~= events);
    lemma_calls_last(events, e.kind->ToolReturned_call, c);
}

/// A fact that was stored reads by its key and value, in place of what the store said.
pub proof fn a_stored_fact_is_recorded_by_key_and_value(events: Seq<EventV>, e: EventV, c: int, k: int, v: int)
    requires
        e.kind is ToolReturned,
        folding(events).current is Some,
        calls_last(events, e.kind->ToolReturned_call, c),
        events[c].kind->ToolCalled_action == "remember_fact"@,
        first_arg(events[c].kind->ToolCalled_args, "key"@, k),
        first_arg(events[c].kind->ToolCalled_args, "value"@, v),
    ensures
        ({
            let args = events[c].kind->ToolCalled_args;
            let name = "remember_fact"@ + " "@ + json::prose(args[k].1.value) + "="@ + json::prose(args[v].1.value);
            done_so_far(events.push(e)) == done_so_far(events).push(
                match e.kind->ToolReturned_outcome {
                    ToolOutcomeV::Failed { kind, detail } => name + " -> err "@ + kind + ": "@ + detail,
                    ToolOutcomeV::Done { output } => name + " -> ok"@,
                },
            )
        }),
{
    let args = events[c].kind->ToolCalled_args;
    assert(events.push(e).drop_last() =~= events);
    lemma_calls_last(events, e.kind->ToolReturned_call, c);
    lemma_first_arg(args, "key"@, k);
    lemma_first_arg(args, "value"@, v);
    let name = "remember_fact"@ + " "@ + json::prose(args[k].1.value) + "="@ + json::prose(args[v].1.value);
    assert(name.take("remember_fact"@.len() as int) =~= "remember_fact"@);
}

/// A call that failed never reads as one that was done, nor the other way round.
pub proof fn failures_and_results_read_apart(name: Seq<char>, done: ToolOutcomeV, failed: ToolOutcomeV)
    requires
        done is Done,
        failed is Failed,
    ensures
        text::starts(outcome_line(name, done), name + " -> ok"@),
        text::starts(outcome_line(name, failed), name + " -> err "@),
        outcome_line(name, done) != outcome_line(name, failed),
{
    reveal_strlit(" -> ok");
    reveal_strlit(" -> ok: ");
    reveal_strlit(" -> err ");
    let n = name.len() as int;
    let (d, f) = (outcome_line(name, done), outcome_line(name, failed));
    assert(d.take(n + 6) =~= name + " -> ok"@);
    assert(f.take(n + 8) =~= name + " -> err "@);
    assert(d[n + 4] == 'o' && f[n + 4] == 'e');
}

/// A refusal reads by what was refused and why.
pub proof fn a_refusal_is_recorded_with_its_reason(events: Seq<EventV>, e: EventV, p: int)
    requires
        e.kind is Rejected,
        folding(events).current is Some,
    ensures
        ({
            let of = e.kind->Rejected_proposal_of;
            let line = done_so_far(events.push(e)).last();
            let action = events[p].kind->Proposed_proposal.action;
            &&& done_so_far(events.push(e)) == done_so_far(events).push(line)
            &&& match e.kind->Rejected_reason {
                RejectReasonV::Malformed { detail } => {
                    &&& of.0 == 0 ==> line == "model failed: "@ + detail
                    &&& of.0 != 0 && proposes_last(events, of, p) ==> line == action + " -> malformed: "@ + detail
                },
                RejectReasonV::ProviderUnavailable { status, detail } => line == "provider unavailable: HTTP "@
                    + text::decimal(status as nat) + ": "@ + detail,
                RejectReasonV::IllegalAction { action: refused } => line == refused + " -> illegal"@,
                RejectReasonV::GuardDenied { guard, reason } => proposes_last(events, of, p) ==> line == action
                    + " -> denied ("@ + guard + ": "@ + reason + ")"@,
            }
        }),
{
    assert(events.push(e).drop_last() =~= events);
    if proposes_last(events, e.kind->Rejected_proposal_of, p) {
        lemma_proposes_last(events, e.kind->Rejected_proposal_of, p);
    }
}

/// What was staged, confirmed and put right reads as that; nothing else but what came
/// of calls, refusals, how the turn was settled and a reply that failed adds a line.
pub proof fn what_else_is_recorded(events: Seq<EventV>, e: EventV, p: int)
    requires
        folding(events).current is Some,
    ensures
        ({
            let was = done_so_far(events);
            let now = done_so_far(events.push(e));
            match e.kind {
                EventKindV::PendingConfirmation { proposal_of, staged } => proposes_last(events, proposal_of, p)
                    ==> now == was.push(
                    "staged: '"@ + events[p].kind->Proposed_proposal.action + "' awaits confirmation"@ + match staged {
                        Some(effect) => ": "@ + effect.description,
                        None => seq![],
                    },
                ),
                EventKindV::Confirmed { .. } => now == was.push("confirmed"@),
                EventKindV::Corrected { text, .. } => now == was.push("corrected: "@ + text),
                EventKindV::ReplyFailed { detail } => now == was.push("reply failed: "@ + detail),
                EventKindV::Settled { policy: ReplyPolicyV::Template { id, .. } } => now == was.push(
                    "fallback template "@ + id,
                ),
                EventKindV::Settled { policy: ReplyPolicyV::Generate } => now == was,
                EventKindV::Settled { policy: ReplyPolicyV::Verbatim { text } } => now == was || now == was.push(
                    "asked a clarification"@,
                ) || text::starts(text, FALLBACK_REPLY@),
                EventKindV::Rejected { .. } | EventKindV::ToolReturned { .. } => now.len() == was.len() + 1,
                EventKindV::UserSaid { .. } => now.len() == 0,
                EventKindV::Replied { .. } => true,
                _ => now == was,
            }
        }),
{
    assert(events.push(e).drop_last() =~= events);
    if let EventKindV::PendingConfirmation { proposal_of, staged } = e.kind {
        if proposes_last(events, proposal_of, p) {
            lemma_proposes_last(events, proposal_of, p);
            let line = "staged: '"@ + events[p].kind->Proposed_proposal.action + "' awaits confirmation"@;
            match staged {
                Some(effect) => {
                    assert(line + ": "@ + effect.description =~= line + (": "@ + effect.description));
                },
                None => {
                    assert(line + seq![] =~= line);
                },
            }
        }
    }
}

/// The message at `u` is the last, and has no reply yet.
pub open spec fn on_turn_of(events: Seq<EventV>, u: int) -> bool {
    &&& 0 <= u < events.len()
    &&& events[u].kind is UserSaid
    &&& forall|j: int|
        u < j < events.len() ==> !((#[trigger] events[j]).kind is UserSaid) && !(events[j].kind is Replied)
}

/// The event gave an output of the trust.
pub open spec fn gave_trust(e: EventV, t: Trust) -> bool {
    e.kind matches EventKindV::ToolReturned { outcome, .. } && (outcome matches ToolOutcomeV::Done { output }
        && output.trust == t)
}

/// The last proposal of the turn is at `p`.
pub open spec fn last_proposal_at(events: Seq<EventV>, u: int, p: int) -> bool {
    &&& u < p < events.len()
    &&& events[p].kind is Proposed
    &&& forall|j: int| p < j < events.len() ==> !((#[trigger] events[j]).kind is Proposed)
}

proof fn lemma_on_turn(events: Seq<EventV>, u: int)
    requires
        on_turn_of(events, u),
    ensures
        folding(events).current matches Some(r) && r.turn == events[u].turn && r.user
            == events[u].kind->UserSaid_text && r.did.len() <= events.len(),
        forall|t: Trust|
            #![trigger folding(events).trusts.contains(t)]
            folding(events).trusts.contains(t) <==> exists|j: int| u < j < events.len() && gave_trust(#[trigger] events[j], t),
        forall|p: int| #[trigger]
            last_proposal_at(events, u, p) ==> folding(events).last_proposal == Some(
                events[p].kind->Proposed_proposal.action,
            ),
        (forall|j: int| u < j < events.len() ==> !((#[trigger] events[j]).kind is Proposed)) ==> folding(
            events,
        ).last_proposal is None,
    decreases events.len(),
{
    let n = events.len() - 1;
    let e = events[n];
    let past = events.drop_last();
    if u == n {
        assert forall|t: Trust| #![trigger folding(events).trusts.contains(t)] folding(events).trusts.contains(t)
            <==> exists|j: int| u < j < events.len() && gave_trust(#[trigger] events[j], t) by {
        }
    } else {
        assert(!(events[n].kind is UserSaid) && !(events[n].kind is Replied));
        assert(past[u] == events[u]);
        assert forall|j: int| u < j < past.len() implies !((#[trigger] past[j]).kind is UserSaid) && !(past[j].kind
            is Replied) by {
            assert(past[j] == events[j]);
        }
        lemma_on_turn(past, u);
        let (was, now) = (folding(past).trusts, folding(events).trusts);
        assert forall|t: Trust| #![trigger now.contains(t)] now.contains(t) <==> exists|j: int|
            u < j < events.len() && gave_trust(#[trigger] events[j], t) by {
            if was.contains(t) {
                let j = choose|j: int| u < j < past.len() && gave_trust(#[trigger] past[j], t);
                assert(events[j] == past[j]);
                let k = choose|k: int| 0 <= k < was.len() && was[k] == t;
                assert(now[k] == t);
            }
            if gave_trust(e, t) {
                assert(now[was.len() as int] == t);
                assert(gave_trust(events[n], t));
            }
            if exists|j: int| u < j < events.len() && gave_trust(#[trigger] events[j], t) {
                let j = choose|j: int| u < j < events.len() && gave_trust(#[trigger] events[j], t);
                if j < n {
                    assert(gave_trust(past[j], t));
                }
            }
            if now.contains(t) && !was.contains(t) {
                let k = choose|k: int| 0 <= k < now.len() && now[k] == t;
                if k < was.len() {
                    assert(was[k] == t);
                }
            }
        }
        assert forall|p: int| #[trigger] last_proposal_at(events, u, p) implies folding(events).last_proposal == Some(
            events[p].kind->Proposed_proposal.action,
        ) by {
            if p < n {
                assert(!(events[n].kind is Proposed));
                assert(past[p] == events[p]);
                assert forall|j: int| p < j < past.len() implies !((#[trigger] past[j]).kind is Proposed) by {
                    assert(past[j] == events[j]);
                }
                assert(last_proposal_at(past, u, p));
            }
        }
        if forall|j: int| u < j < events.len() ==> !((#[trigger] events[j]).kind is Proposed) {
            assert(!(events[n].kind is Proposed));
            assert forall|j: int| u < j < past.len() implies !((#[trigger] past[j]).kind is Proposed) by {
                assert(past[j] == events[j]);
            }
        }
    }
}

/// From a message to its reply makes one record, the last: it has the turn and the text
/// of the message, the reply, what was done until then, and the trust of the least
/// trusted output of that turn, the user's own where there was none lower.
pub proof fn a_turn_is_recorded_from_message_to_reply(events: Seq<EventV>, e: EventV, u: int)
    requires
        on_turn_of(events, u),
        e.kind is Replied,
    ensures
        ({
            let r = folded(events.push(e)).records.last();
            let gave = |t: Trust| exists|j: int| u < j < events.len() && gave_trust(#[trigger] events[j], t);
            &&& folded(events.push(e)).records == folded(events).records.push(r)
            &&& r.turn == events[u].turn
            &&& r.user == events[u].kind->UserSaid_text
            &&& r.reply == e.kind->Replied_text
            &&& r.did == done_so_far(events)
            &&& r.trust == Trust::External <==> gave(Trust::External)
            &&& r.trust == Trust::System <==> gave(Trust::System) && !gave(Trust::External)
        }),
{
    assert(events.push(e).drop_last() =~= events);
    lemma_on_turn(events, u);
    let trusts = folding(events).trusts;
    types::lemma_lowest(trusts);
    let gave = |t: Trust| exists|j: int| u < j < events.len() && gave_trust(#[trigger] events[j], t);
    assert(trusts.contains(Trust::External) <==> gave(Trust::External));
    assert(trusts.contains(Trust::System) <==> gave(Trust::System));
}

/// A turn that was settled in fixed words reads as a clarification where that was what
/// was proposed last, as a fallback where it begins as one, and adds nothing else.
pub proof fn fixed_words_are_recorded_by_what_led_to_them(events: Seq<EventV>, e: EventV, u: int, words: Seq<char>)
    requires
        on_turn_of(events, u),
        e.kind == (EventKindV::Settled { policy: ReplyPolicyV::Verbatim { text: words } }),
    ensures
        ({
            let asked = exists|p: int| #[trigger]
                last_proposal_at(events, u, p) && events[p].kind->Proposed_proposal.action == "ask_clarification"@;
            let fallback = "Sorry, I couldn't complete that."@;
            let was = done_so_far(events);
            let now = done_so_far(events.push(e));
            &&& asked ==> now == was.push("asked a clarification"@)
            &&& !asked && !text::starts(words, fallback) ==> now == was
            &&& !asked && text::starts(words, fallback) && !text::starts(words.skip(fallback.len() as int), fallback)
                ==> now == was.push("fallback:"@ + words.skip(fallback.len() as int))
            &&& !asked && text::starts(words, fallback) ==> exists|why: Seq<char>|
                now == #[trigger] was.push("fallback:"@ + why) && text::ends(words, why) && !text::starts(why, fallback)
        }),
{
    assert(events.push(e).drop_last() =~= events);
    reveal_strlit("Sorry, I couldn't complete that.");
    reveal_with_fuel(without_leading, 2);
    lemma_on_turn(events, u);
    let why = without_leading(words, "Sorry, I couldn't complete that."@);
    lemma_without_leading(words, "Sorry, I couldn't complete that."@);
    assert(done_so_far(events).push("fallback:"@ + why).len() > 0);
    if exists|p: int| #[trigger]
        last_proposal_at(events, u, p) && events[p].kind->Proposed_proposal.action == "ask_clarification"@ {
        let p = choose|p: int| #[trigger]
            last_proposal_at(events, u, p) && events[p].kind->Proposed_proposal.action == "ask_clarification"@;
        assert(folding(events).last_proposal == Some(events[p].kind->Proposed_proposal.action));
    } else if folding(events).last_proposal == Some("ask_clarification"@) {
        lemma_some_last(events, u, events.len() as int);
    }
}

proof fn lemma_without_leading(s: Seq<char>, p: Seq<char>)
    requires
        p.len() > 0,
    ensures
        text::ends(s, without_leading(s, p)),
        !text::starts(without_leading(s, p), p),
    decreases s.len(),
{
    if text::starts(s, p) {
        let rest = s.skip(p.len() as int);
        lemma_without_leading(rest, p);
        let w = without_leading(rest, p);
        assert(s.skip(s.len() - w.len()) =~= rest.skip(rest.len() - w.len()));
    } else {
        assert(s.skip(0) =~= s);
    }
}

/// Either nothing was proposed on the turn, or something was proposed last.
proof fn lemma_some_last(events: Seq<EventV>, u: int, n: int)
    requires
        0 <= u < n <= events.len(),
        forall|j: int| n <= j < events.len() ==> !((#[trigger] events[j]).kind is Proposed),
    ensures
        (forall|j: int| u < j < events.len() ==> !((#[trigger] events[j]).kind is Proposed)) || exists|p: int| #[trigger]
            last_proposal_at(events, u, p),
    decreases n,
{
    if n - 1 > u {
        if events[n - 1].kind is Proposed {
            assert(last_proposal_at(events, u, n - 1));
        } else {
            lemma_some_last(events, u, n - 1);
        }
    }
}

/// The conversation is what the user and the assistant said, all of it and in order.
pub proof fn the_history_is_what_was_said(events: Seq<EventV>)
    ensures
        ({
            let said = events.filter(|e: EventV| e.kind is UserSaid || e.kind is Replied);
            let h = folded(events).history;
            &&& h.len() == said.len()
            &&& forall|i: int|
                0 <= i < said.len() ==> match (#[trigger] said[i]).kind {
                    EventKindV::UserSaid { text } => h[i].speaker == "user"@ && h[i].text == text,
                    EventKindV::Replied { text } => h[i].speaker == "assistant"@ && h[i].text == text,
                    _ => false,
                }
        }),
    decreases events.len(),
{
    reveal(Seq::filter);
    if events.len() > 0 {
        the_history_is_what_was_said(events.drop_last());
    }
}

/// A window is the end of the list: as many records as asked for, or all there are, and
/// none older than one that is left out.
pub proof fn a_window_is_the_latest(records: Seq<TurnRecordV>, k: nat)
    ensures
        last_of(records, k).len() == if records.len() < k {
            records.len()
        } else {
            k
        },
        forall|i: int|
            0 <= i < last_of(records, k).len() ==> #[trigger] last_of(records, k)[i] == records[records.len() - last_of(
                records,
                k,
            ).len() + i],
{
}

/// The records between two turns are all that lie there, both ends among them.
pub proof fn turns_between_are_all_found(records: Seq<TurnRecordV>, from: u32, to: u32, r: TurnRecordV)
    ensures
        in_turns(records, from, to).contains(r) <==> records.contains(r) && r.turn >= from && r.turn <= to,
{
    let keep = |r: TurnRecordV| from <= r.turn <= to;
    if in_turns(records, from, to).contains(r) {
        records.lemma_filter_contains_rev(keep, r);
        let i = choose|i: int| 0 <= i < in_turns(records, from, to).len() && in_turns(records, from, to)[i] == r;
        records.lemma_filter_pred(keep, i);
    }
    if records.contains(r) && keep(r) {
        let i = choose|i: int| 0 <= i < records.len() && records[i] == r;
        records.lemma_filter_contains(keep, i);
    }
}

} // verus!
