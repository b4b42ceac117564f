//! What each move of a turn leaves behind: the events it records, what it tells the
//! next prompt, what it takes off the offer, and how it ends the turn.

use vstd::prelude::*;

use crate::events::{
    ActionSpecV, EventKindV, EventV, ProposalV, RejectReasonV, ReplyPolicyV, StagedEffectV, ToolOutcomeV, ToolOutputV,
};
use crate::facts::{FactV, SessionDigestV};
use crate::guards::{ClassifiedProposalV, VerdictV};
use crate::json;
use crate::state;
use crate::state::SessionStateV;
use crate::text;
use crate::text::Sort;
use crate::trace;
use crate::turn::accounting;
use crate::turn::builtins;
use crate::turn::builtins::{FactWriteV, ForgettingV, LookupV};
use crate::turn::config;
use crate::turn::config::{EngineConfigV, RememberResidual};
use crate::turn::diagnostics;
use crate::turn::gate;
use crate::turn::gate::ObjectionV;
use crate::turn::progress;
use crate::turn::progress::{BookkeepingV, CtxV, TurnV};
use crate::turn::legal;
use crate::turn::routing;
use crate::turn::run;
use crate::turn::run::{AdmissionV, EmitFailureV};
use crate::turn::steer;
use crate::turn::steer::{ArgumentsV, AroundV, NeedV};
use crate::turn::tools;
use crate::turn::tools::ToolStepV;
use crate::types;
use crate::types::{EventId, FactState, ProvenanceV, TaggedV, Tier, Timestamp, Trust};
use crate::unicode;

verus! {

// ---------------------------------------------------------------------------
// Events and lines
// ---------------------------------------------------------------------------

/// The turn with one more event behind: on the turn itself, numbered on.
pub open spec fn plus(t: TurnV, at: Timestamp, kind: EventKindV) -> TurnV {
    let id = if t.log.len() == 0 {
        1
    } else {
        t.log.last().id.0 + 1
    };
    TurnV { log: t.log.push(EventV { id: EventId(id as u64), turn: t.turn, at, kind }), ..t }
}

/// The turn with one more line on what went wrong, for the next prompt.
pub open spec fn noted(t: TurnV, line: Seq<char>) -> TurnV {
    TurnV { book: BookkeepingV { rejections: t.book.rejections.push(line), ..t.book }, ..t }
}

/// The turn without the action on offer.
pub open spec fn off(t: TurnV, action: Seq<char>) -> TurnV {
    if t.book.denied.contains(action) {
        t
    } else {
        TurnV { book: BookkeepingV { denied: t.book.denied.push(action), ..t.book }, ..t }
    }
}

/// The turn after it was refused for the reason.
pub open spec fn rejects(t: TurnV, at: Timestamp, of: EventId, reason: RejectReasonV, line: Seq<char>) -> TurnV {
    noted(plus(t, at, EventKindV::Rejected { proposal_of: of, reason }), line)
}

/// The turn with its end decided.
pub open spec fn ends(t: TurnV, at: Timestamp, policy: ReplyPolicyV) -> TurnV {
    TurnV { settled: Some(policy), ..plus(t, at, EventKindV::Settled { policy }) }
}

/// The turn after the proposal was called, under its action and arguments.
pub open spec fn runs(t: TurnV, at: Timestamp, p: ProposalV, action: Seq<char>, args: TaggedV) -> TurnV {
    let key = p.action + "\u{0}"@ + p.args;
    let u = plus(t, at, EventKindV::ToolCalled { action, args });
    if t.book.calls.contains(key) {
        u
    } else {
        TurnV { book: BookkeepingV { calls: t.book.calls.push(key), ..t.book }, ..u }
    }
}

/// What an elementary move does: it records one event, numbered on, and changes nothing
/// else but what it is for.
pub proof fn what_an_elementary_move_does(
    t: TurnV,
    at: Timestamp,
    kind: EventKindV,
    of: EventId,
    reason: RejectReasonV,
    line: Seq<char>,
    action: Seq<char>,
    policy: ReplyPolicyV,
    p: ProposalV,
    args: TaggedV,
    outcome: ToolOutcomeV,
)
    ensures
        progress::logged(t, at, kind) == plus(t, at, kind),
        progress::refused(t, at, of, reason, line) == rejects(t, at, of, reason, line),
        progress::barred(t, action) == off(t, action),
        progress::settles(t, at, policy) == ends(t, at, policy),
        progress::calls_for(t, at, p, action, args) == runs(t, at, p, action, args),
        progress::returns_with(t, at, of, outcome) == plus(t, at, EventKindV::ToolReturned { call: of, outcome }),
        progress::step_of(t) is Again <==> t.settled is None,
        t.settled matches Some(s) ==> progress::step_of(t)->policy == s,
{
}

// ---------------------------------------------------------------------------
// Answers, failures, refusals
// ---------------------------------------------------------------------------

/// What the turn did with its last proposal was decided at `k`.
pub open spec fn decided_at(log: Seq<EventV>, turn: u32, k: int) -> bool {
    &&& 0 <= k < log.len()
    &&& log[k].kind is ToolReturned || log[k].kind is Rejected
    &&& forall|j: int| k <= j < log.len() ==> (#[trigger] log[j]).turn == turn
    &&& forall|j: int| k < j < log.len() ==> !((#[trigger] log[j]).kind is ToolReturned) && !(log[j].kind is Rejected)
}

proof fn lemma_decided(log: Seq<EventV>, turn: u32, k: int)
    requires
        decided_at(log, turn, k),
    ensures
        accounting::last_ran(log, turn) == log[k].kind is ToolReturned,
    decreases log.len(),
{
    let n = log.len() - 1;
    assert(log[n].turn == turn);
    if k < n {
        assert(!(log[n].kind is ToolReturned) && !(log[n].kind is Rejected));
        let past = log.drop_last();
        assert(past[k] == log[k]);
        assert forall|j: int| k <= j < past.len() implies (#[trigger] past[j]).turn == turn by {
            assert(past[j] == log[j]);
        }
        assert forall|j: int| k < j < past.len() implies !((#[trigger] past[j]).kind is ToolReturned) && !(past[j].kind
            is Rejected) by {
            assert(past[j] == log[j]);
        }
        lemma_decided(past, turn, k);
    }
}

/// An answer that was held back becomes the reply where the action that it came with ran,
/// and is dropped where that was refused; nothing else changes.
pub proof fn a_held_answer_waits_for_its_action(t: TurnV, at: Timestamp, k: int)
    requires
        decided_at(t.log, t.turn, k),
    ensures
        ({
            let dropped = TurnV { held: None, ..t };
            &&& t.held is None ==> run::collected(t, at) == t
            &&& t.held is Some && t.log[k].kind is Rejected ==> run::collected(t, at) == dropped
            &&& t.held is Some && t.log[k].kind is ToolReturned ==> run::collected(t, at) == ends(
                TurnV { draft: t.held, ..dropped },
                at,
                ReplyPolicyV::Generate,
            )
        }),
{
    lemma_decided(t.log, t.turn, k);
}

/// A request that gave no proposal is refused as what it was: by its status where the
/// provider answered, and by what was said where it did not.
pub proof fn a_failed_request_is_recorded(t: TurnV, at: Timestamp, failure: EmitFailureV, said: Seq<char>)
    requires
        t.emit_failures < u32::MAX,
    ensures
        ({
            let u = match failure {
                EmitFailureV::Provider { status, detail } => rejects(
                    t,
                    at,
                    EventId(0),
                    RejectReasonV::ProviderUnavailable { status, detail },
                    "provider unavailable: HTTP "@ + text::decimal(status as nat),
                ),
                EmitFailureV::Other => rejects(
                    t,
                    at,
                    EventId(0),
                    RejectReasonV::Malformed { detail: said },
                    "emitter failure: "@ + said,
                ),
            };
            run::emit_fails(t, at, failure, said) == (TurnV {
                last_error: Some(said),
                emit_failures: (t.emit_failures + 1) as u32,
                ..u
            })
        }),
{
}

/// Where a proposal may come as an answer: where answering is on, on chat turns, and on
/// others where every tier may.
pub proof fn when_a_call_may_answer(cfg: EngineConfigV, tier: Tier)
    ensures
        tier == Tier::Chat ==> run::may_answer(cfg, tier) == cfg.chat_act_or_answer,
        tier != Tier::Chat ==> run::may_answer(cfg, tier) == (cfg.chat_act_or_answer && cfg.act_or_answer_every_tier),
{
}

/// A direct answer ends the turn with it; beside an action an answer is held where both
/// may come, and nothing of it is kept where they may not.
pub proof fn what_an_answer_does(t: TurnV, cfg: EngineConfigV, action: Seq<char>, answer: Option<Seq<char>>, at: Timestamp)
    ensures
        action == "respond_directly"@ ==> run::answers(t, cfg, action, answer, at) == ends(
            TurnV { draft: answer, ..t },
            at,
            ReplyPolicyV::Generate,
        ),
        action != "respond_directly"@ && cfg.act_and_answer ==> run::answers(t, cfg, action, answer, at) == (TurnV {
            held: answer,
            ..t
        }),
        action != "respond_directly"@ && !cfg.act_and_answer ==> run::answers(t, cfg, action, answer, at) == t,
{
}

/// What becomes of an action that is not on offer. A registered tool on a chat turn lifts
/// the turn to a task; one that only the route's choice hides lifts the choice, and that
/// is recorded; neither is taken off the offer. Anything else is refused and taken off.
pub proof fn what_is_not_on_offer_is_refused(
    t: TurnV,
    at: Timestamp,
    pid: EventId,
    p: ProposalV,
    actions: Seq<ActionSpecV>,
    registered: bool,
    pending: Option<EventId>,
)
    requires
        forall|i: int| 0 <= i < actions.len() ==> (#[trigger] actions[i]).name != p.action,
    ensures
        ({
            let (u, verdict) = run::considered(t, at, pid, p, actions, registered, pending);
            let chat = registered && t.tier == Tier::Chat;
            let hidden = registered && !t.book.denied.contains(p.action) && t.selected is Some
                && !t.selected->0.contains(p.action);
            let why = RejectReasonV::IllegalAction { action: p.action };
            let lifted = TurnV { tier: Tier::Task, ..t };
            let said = EventKindV::Rejected { proposal_of: pid, reason: why };
            &&& verdict is Refused
            &&& chat && !hidden ==> u == lifted
            &&& chat && hidden ==> u == plus(TurnV { selected: None, ..lifted }, at, said)
            &&& !chat && hidden ==> u == plus(TurnV { selected: None, ..t }, at, said)
            &&& !chat && !hidden ==> u == off(rejects(t, at, pid, why, "illegal action: "@ + p.action), p.action)
        }),
{
}

/// A call that ran before on the turn, by the same action and the same arguments, is
/// refused and taken off; the next page of a result may always be asked for.
pub proof fn a_call_is_not_repeated(
    t: TurnV,
    at: Timestamp,
    pid: EventId,
    p: ProposalV,
    actions: Seq<ActionSpecV>,
    registered: bool,
    pending: Option<EventId>,
    i: int,
)
    requires
        0 <= i < actions.len(),
        actions[i].name == p.action,
    ensures
        ({
            let (u, verdict) = run::considered(t, at, pid, p, actions, registered, pending);
            let again = t.book.calls.contains(p.action + "\u{0}"@ + p.args);
            let reason = "identical call to '"@ + p.action + "' already executed this turn"@;
            &&& again && p.action != "inspect_result"@ ==> verdict is Refused && u == off(
                rejects(
                    t,
                    at,
                    pid,
                    RejectReasonV::GuardDenied { guard: "repeat_gate"@, reason },
                    "guard repeat_gate: "@ + reason,
                ),
                p.action,
            )
            &&& (!again || p.action == "inspect_result"@) && p.action != "confirm_pending"@ ==> u == t && verdict
                == (AdmissionV::Admitted { proposal: p, confirmed_now: false })
        }),
{
}

proof fn lemma_event_with(log: Seq<EventV>, id: EventId, k: int)
    requires
        0 <= k < log.len(),
        log[k].id == id,
        forall|j: int| 0 <= j < k ==> (#[trigger] log[j]).id != id,
    ensures
        run::event_with(log, id) == Some(log[k]),
    decreases log.len(),
{
    if k > 0 {
        let rest = log.drop_first();
        assert(log[0].id != id);
        assert forall|j: int| 0 <= j < k - 1 implies (#[trigger] rest[j]).id != id by {
            assert(rest[j] == log[j + 1]);
        }
        lemma_event_with(rest, id, k - 1);
    }
}

/// The first event of the number is at `k`.
pub open spec fn first_with(log: Seq<EventV>, id: EventId, k: int) -> bool {
    &&& 0 <= k < log.len()
    &&& log[k].id == id
    &&& forall|j: int| 0 <= j < k ==> (#[trigger] log[j]).id != id
}

/// A confirmation is recorded, and what goes on is the proposal behind what was staged.
pub proof fn a_confirmation_brings_back_what_was_staged(
    t: TurnV,
    at: Timestamp,
    pid: EventId,
    pending: EventId,
    k: int,
    j: int,
)
    requires
        first_with(t.log, pending, k),
        t.log[k].kind is PendingConfirmation,
        first_with(t.log, t.log[k].kind->PendingConfirmation_proposal_of, j),
        t.log[j].kind is Proposed,
    ensures
        run::confirms(t, at, pid, pending) == (
            plus(t, at, EventKindV::Confirmed { pending }),
            AdmissionV::Admitted { proposal: t.log[j].kind->Proposed_proposal, confirmed_now: true },
        ),
{
    let u = progress::logged(t, at, EventKindV::Confirmed { pending });
    assert(u.log[k] == t.log[k] && u.log[j] == t.log[j]);
    lemma_event_with(u.log, pending, k);
    lemma_event_with(u.log, t.log[k].kind->PendingConfirmation_proposal_of, j);
}

// ---------------------------------------------------------------------------
// The end of a turn
// ---------------------------------------------------------------------------

/// The first template of the name is at `k`.
pub open spec fn first_template(cfg: EngineConfigV, id: Seq<char>, k: int) -> bool {
    &&& 0 <= k < cfg.templates.len()
    &&& cfg.templates[k].id == id
    &&& forall|j: int| 0 <= j < k ==> (#[trigger] cfg.templates[j]).id != id
}

proof fn lemma_template(ts: Seq<config::TemplateV>, id: Seq<char>, k: int)
    ensures
        0 <= k < ts.len() && ts[k].id == id && (forall|j: int| 0 <= j < k ==> (#[trigger] ts[j]).id != id)
            ==> config::template_of(ts, id) == Some(ts[k].text),
        (forall|j: int| 0 <= j < ts.len() ==> (#[trigger] ts[j]).id != id) ==> config::template_of(ts, id) is None,
    decreases ts.len(),
{
    if ts.len() > 0 {
        let rest = ts.drop_first();
        lemma_template(rest, id, k - 1);
        assert forall|j: int| 0 <= j < rest.len() implies rest[j] == ts[j + 1] by {}
        if forall|j: int| 0 <= j < ts.len() ==> (#[trigger] ts[j]).id != id {
            assert(ts[0].id != id);
            assert forall|j: int| 0 <= j < rest.len() implies (#[trigger] rest[j]).id != id by {
                assert(ts[j + 1].id != id);
            }
        }
        if 0 < k < ts.len() && ts[k].id == id && (forall|j: int| 0 <= j < k ==> (#[trigger] ts[j]).id != id) {
            assert(ts[0].id != id);
            assert(rest[k - 1] == ts[k]);
            assert forall|j: int| 0 <= j < k - 1 implies (#[trigger] rest[j]).id != id by {
                assert(ts[j + 1].id != id);
            }
        }
    }
}

/// Why a turn came to nothing is what the model's provider said where no proposal ever
/// came, and else that it ran out of steps, with the last thing that went wrong.
pub proof fn a_turn_that_came_to_nothing_says_why(t: TurnV, cfg: EngineConfigV)
    ensures
        t.emit_failures > 0 && !t.proposed && t.last_error is Some ==> run::why(t, cfg) == diagnostics::explained(
            t.last_error->0,
        ),
        t.emit_failures > 0 && !t.proposed && t.last_error is None ==> run::why(t, cfg) == "the model was unavailable"@,
        (t.emit_failures == 0 || t.proposed) && t.book.rejections.len() == 0 ==> run::why(t, cfg)
            == "ran out of steps after "@ + text::decimal(cfg.max_iterations as nat)
            + " actions without reaching an answer"@,
        (t.emit_failures == 0 || t.proposed) && t.book.rejections.len() > 0 ==> run::why(t, cfg)
            == "ran out of steps after "@ + text::decimal(cfg.max_iterations as nat)
            + " actions without reaching an answer"@ + "; last problem: "@ + t.book.rejections[t.book.rejections.len() - 1],
{
}

/// A turn that nothing settled ends with an apology that gives the reason, or with the
/// template for it where one is registered.
pub proof fn a_turn_that_came_to_nothing_apologises(t: TurnV, cfg: EngineConfigV, at: Timestamp, k: int)
    requires
        t.settled is None,
        t.held is None,
    ensures
        (forall|j: int| 0 <= j < cfg.templates.len() ==> (#[trigger] cfg.templates[j]).id != "cant_help"@)
            ==> run::concluded(t, cfg, at) == ends(
            t,
            at,
            ReplyPolicyV::Verbatim {
                text: "Sorry, I couldn't complete that."@ + " Reason: "@ + run::why(t, cfg) + "."@,
            },
        ),
        first_template(cfg, "cant_help"@, k) ==> run::concluded(t, cfg, at) == ends(
            t,
            at,
            ReplyPolicyV::Template { id: "cant_help"@, vars: json::object_of("reason"@, run::why(t, cfg)) },
        ),
{
    lemma_template(cfg.templates, "cant_help"@, k);
    assert(TurnV { held: None, ..t } == t);
}

/// What the end of a turn makes of the reply: fixed words are the reply, a template is
/// filled with its variables, one that is not registered is shown by name, and the rest is
/// still to be written.
pub proof fn an_end_says_what_the_reply_is(policy: ReplyPolicyV, cfg: EngineConfigV, k: int)
    ensures
        match policy {
            ReplyPolicyV::Verbatim { text } => run::set_reply(policy, cfg) == Some(text),
            ReplyPolicyV::Generate => run::set_reply(policy, cfg) is None,
            ReplyPolicyV::Template { id, vars } => {
                &&& first_template(cfg, id, k) ==> run::set_reply(policy, cfg) == Some(
                    run::filled(cfg.templates[k].text, json::json_members(vars)),
                )
                &&& (forall|j: int| 0 <= j < cfg.templates.len() ==> (#[trigger] cfg.templates[j]).id != id)
                    ==> run::set_reply(policy, cfg) == Some("["@ + id + "] "@ + vars)
            },
        },
{
    if let ReplyPolicyV::Template { id, .. } = policy {
        lemma_template(cfg.templates, id, k);
    }
}

/// A placeholder is replaced by its variable, and everything around it stays.
pub proof fn a_template_is_filled_in_place(before: Seq<char>, name: Seq<char>, after: Seq<char>, value: Seq<char>)
    requires
        !text::contains(before + "{"@ + name, "{"@ + name + "}"@),
        !text::contains(after, "{"@ + name + "}"@),
    ensures
        run::filled(before + ("{"@ + name + "}"@) + after, seq![(name, value)]) == before + json::prose(value) + after,
{
    let place = "{"@ + name + "}"@;
    let s = before + place + after;
    let vars = seq![(name, value)];
    reveal_strlit("{");
    reveal_strlit("}");
    reveal_with_fuel(run::filled, 2);
    assert(vars.drop_last() =~= seq![]);
    text::lemma_found_from(s, place, 0);
    let n = before.len() as int;
    let head = before + "{"@ + name;
    assert(s.subrange(n, n + place.len()) =~= place);
    assert(text::occurs_at(s, place, n));
    assert(text::found(s, place) == Some(n)) by {
        let i = text::found(s, place)->0;
        if i < n {
            assert(s.subrange(i, i + place.len()) == place);
            assert(head.subrange(i, i + place.len()) =~= s.subrange(i, i + place.len()));
            assert(text::occurs_at(head, place, i));
        }
    }
    assert(s.take(n) =~= before);
    assert(s.skip(n + place.len()) =~= after);
    text::lemma_found(after, place);
    assert(text::replaced(after, place, json::prose(value)) == after);
    assert(text::replaced(s, place, json::prose(value)) == before + json::prose(value) + after);
}

/// Variables that a template does not mention change nothing.
pub proof fn a_template_without_places_stays(template: Seq<char>, vars: Seq<(Seq<char>, Seq<char>)>)
    requires
        forall|i: int| 0 <= i < vars.len() ==> !text::contains(template, "{"@ + (#[trigger] vars[i]).0 + "}"@),
    ensures
        run::filled(template, vars) == template,
    decreases vars.len(),
{
    if vars.len() > 0 {
        let rest = vars.drop_last();
        assert forall|i: int| 0 <= i < rest.len() implies !text::contains(template, "{"@ + (#[trigger] rest[i]).0 + "}"@) by {
            assert(rest[i] == vars[i]);
        }
        a_template_without_places_stays(template, rest);
        assert(vars[vars.len() - 1] == vars.last());
        text::lemma_found(template, "{"@ + vars.last().0 + "}"@);
    }
}

// ---------------------------------------------------------------------------
// What the turn is told
// ---------------------------------------------------------------------------

/// There is something to recall where pruning is off, where turns have left the window,
/// or where searching other conversations is on and there is one, or the store failed.
pub proof fn when_there_is_something_to_recall(
    cfg: EngineConfigV,
    turn: u32,
    session: Seq<char>,
    digests: Option<Seq<SessionDigestV>>,
)
    ensures
        run::something_out_of_sight(cfg, turn, session, digests) <==> ({
            ||| !cfg.prune_inapplicable
            ||| turn > cfg.window_turns
            ||| cfg.recall_sessions > 0 && (digests matches Some(ds) ==> exists|i: int|
                0 <= i < ds.len() && (#[trigger] ds[i]).session != session)
        }),
{
    if let Some(ds) = digests {
        let keep = |d: SessionDigestV| d.session != session;
        let others = ds.filter(keep);
        assert(crate::turn::retrieval::others(ds, session) == others);
        if others.len() > 0 {
            ds.lemma_filter_pred(keep, 0);
            ds.lemma_filter_contains_rev(keep, others[0]);
            let i = choose|i: int| 0 <= i < ds.len() && ds[i] == others[0];
            assert(ds[i].session != session);
        }
        if exists|i: int| 0 <= i < ds.len() && (#[trigger] ds[i]).session != session {
            let i = choose|i: int| 0 <= i < ds.len() && (#[trigger] ds[i]).session != session;
            ds.lemma_filter_contains(keep, i);
        }
    }
}

/// What the router is told: the message and the tools as they are, whether something was
/// staged on the turn before and waits, and whether that turn called a tool.
pub proof fn what_the_router_is_told(user_text: Seq<char>, events: Seq<EventV>, turn: u32, names: Seq<Seq<char>>)
    ensures
        ({
            let r = routing::routing_input(user_text, events, turn, names);
            &&& r.user_text == user_text
            &&& r.tool_names == names
            &&& r.previous_turn_used_tools <==> exists|i: int|
                0 <= i < events.len() && (#[trigger] events[i]).kind is ToolCalled && turn == events[i].turn + 1
            &&& r.pending_confirmation <==> exists|k: int| #[trigger]
                state::still_waits(events, k) && turn == events[k].turn + 1
        }),
{
    state::the_last_staged_action_is_pending(events);
    if exists|k: int| #[trigger] state::still_waits(events, k) {
        let k = choose|k: int| #[trigger] state::still_waits(events, k);
        assert(state::folded(events).pending_turn == Some(events[k].turn));
    }
}

// ---------------------------------------------------------------------------
// Registered tools
// ---------------------------------------------------------------------------

/// What the guards are shown of a tool, and what is done about it: arguments that its
/// schema does not take are refused, but the tool stays on offer; a guard's refusal takes
/// it off, and leaves only the question where it says that nothing grounds an argument; a
/// guard that waits for the user changes nothing yet; and with no objection it is called
/// with the arguments as classified.
pub proof fn what_is_done_about_a_tool(
    t: TurnV,
    cx: CtxV,
    cfg: EngineConfigV,
    spec: ActionSpecV,
    invalid: Option<Seq<char>>,
    args: TaggedV,
    plugins: Seq<ObjectionV>,
)
    ensures
        ({
            let shown = tools::tool_ctx(t, cx, spec);
            &&& shown.spec == spec && shown.turn == t.turn && shown.fired_actions == cx.state.fired_tags
            &&& shown.confirmed_this_turn <==> cx.confirmed_now || cx.state.confirmed_this_turn_of == Some(t.turn)
            &&& shown.pending_confirmation == cx.active_pending
        }),
        ({
            let (u, step) = tools::judged(t, cx, cfg, spec, invalid, args, plugins);
            let action = cx.proposal.action;
            let heard = gate::objection(
                gate::builtins(cfg.confirm_irreversible),
                ClassifiedProposalV { proposal: cx.proposal, args },
                tools::tool_ctx(t, cx, spec),
                plugins,
            );
            match invalid {
                Some(detail) => step is Refused && u == rejects(
                    t,
                    cx.at,
                    cx.pid,
                    RejectReasonV::Malformed { detail: action + ": "@ + detail },
                    "malformed args for "@ + action + ": "@ + detail,
                ),
                None => match heard {
                    None => u == runs(t, cx.at, cx.proposal, action, args) && step == (ToolStepV::Call {
                        call: u.log.last().id,
                    }),
                    Some(o) => match o.verdict {
                        VerdictV::NeedsConfirmation { prompt } => u == t && step == (ToolStepV::Stage { prompt }),
                        VerdictV::Deny { reason } => {
                            let marked = BookkeepingV {
                                never_residual: t.book.never_residual || text::contains(reason, "NeverResidual"@),
                                ..t.book
                            };
                            step is Refused && u == rejects(
                                off(TurnV { book: marked, ..t }, action),
                                cx.at,
                                cx.pid,
                                RejectReasonV::GuardDenied { guard: o.guard, reason },
                                "guard "@ + o.guard + ": "@ + reason,
                            )
                        },
                        VerdictV::Allow => step is Refused,
                    },
                },
            }
        }),
{
}

/// What was staged ends the turn on the question, with what would happen where the tool
/// could say it.
pub proof fn staging_asks_the_user(t: TurnV, cx: CtxV, prompt: Seq<char>, staged: Option<StagedEffectV>)
    ensures
        tools::stages(t, cx, prompt, staged) == ends(
            plus(t, cx.at, EventKindV::PendingConfirmation { proposal_of: cx.pid, staged }),
            cx.at,
            ReplyPolicyV::Verbatim {
                text: match staged {
                    Some(effect) => prompt + "\nPlanned: "@ + effect.description,
                    None => prompt,
                },
            },
        ),
{
}

// ---------------------------------------------------------------------------
// The engine's own actions
// ---------------------------------------------------------------------------

/// A question is the reply where no guard objects; without one, or against an objection,
/// it is refused, and against an objection taken off.
pub proof fn what_asking_does(
    t: TurnV,
    cx: CtxV,
    cfg: EngineConfigV,
    question: Option<Seq<char>>,
    args: TaggedV,
    plugins: Seq<ObjectionV>,
)
    ensures
        ({
            let u = builtins::asks(t, cx, cfg, question, args, plugins);
            let shown = builtins::question_ctx(t, cx, cfg);
            let heard = gate::objection(
                gate::builtins(cfg.confirm_irreversible),
                ClassifiedProposalV { proposal: cx.proposal, args },
                shown,
                plugins,
            );
            &&& shown.confirmed_this_turn <==> cx.state.confirmed_this_turn_of == Some(t.turn)
            &&& shown.turn == t.turn && shown.fired_actions == cx.state.fired_tags
            &&& shown.pending_confirmation is None
            &&& question is None ==> u == rejects(
                t,
                cx.at,
                cx.pid,
                RejectReasonV::Malformed { detail: "ask_clarification without question"@ },
                "ask_clarification missing question"@,
            )
            &&& question is Some && heard is None ==> u == ends(
                t,
                cx.at,
                ReplyPolicyV::Verbatim { text: question->0 },
            )
            &&& question is Some && heard is Some ==> ({
                let words = match heard->0.verdict {
                    VerdictV::Deny { reason } => reason,
                    VerdictV::NeedsConfirmation { prompt } => prompt,
                    VerdictV::Allow => seq![],
                };
                u == off(
                    rejects(
                        t,
                        cx.at,
                        cx.pid,
                        RejectReasonV::GuardDenied { guard: heard->0.guard, reason: words },
                        "guard "@ + heard->0.guard + ": "@ + words,
                    ),
                    "ask_clarification"@,
                )
            })
        }),
{
}

/// The harness's guards look at registered tools and at questions, and at nothing else.
pub proof fn what_the_harness_may_object_to(t: TurnV, cx: CtxV, spec: ActionSpecV, registered: bool)
    ensures
        builtins::guarded(t, cx, spec, registered) is Some <==> registered || cx.proposal.action
            == "ask_clarification"@,
        registered ==> builtins::guarded(t, cx, spec, registered) == Some(tools::tool_ctx(t, cx, spec)),
        !registered && cx.proposal.action == "ask_clarification"@ ==> builtins::guarded(t, cx, spec, registered)->0
            == (crate::guards::GuardCtxV {
            spec,
            turn: t.turn,
            confirmed_this_turn: cx.state.confirmed_this_turn_of == Some(t.turn),
            fired_actions: cx.state.fired_tags,
            pending_confirmation: None,
        }),
{
}

/// The character may stand in a key.
pub open spec fn in_a_key(c: char) -> bool {
    ||| 'a' <= c && c <= 'z'
    ||| 'A' <= c && c <= 'Z'
    ||| '0' <= c && c <= '9'
    ||| c == '.' || c == '-' || c == '_'
}

/// The character may begin or end a key.
pub open spec fn edges_a_key(c: char) -> bool {
    in_a_key(c) && c != '.' && c != '-'
}

/// The key is the stretch of what was written from its first to its last letter, digit or
/// underscore.
pub open spec fn key_in(raw: Seq<char>, from: int, to: int) -> bool {
    &&& 0 <= from <= to <= raw.len()
    &&& forall|i: int| 0 <= i < from ==> !edges_a_key(#[trigger] raw[i])
    &&& forall|i: int| to <= i < raw.len() ==> !edges_a_key(#[trigger] raw[i])
    &&& from < to ==> edges_a_key(raw[from]) && edges_a_key(raw[to - 1])
}

/// Stray characters around a key are taken off, and nothing within it.
pub proof fn a_key_is_freed_of_its_edges(raw: Seq<char>)
    ensures
        exists|from: int, to: int| #[trigger]
            key_in(raw, from, to) && builtins::clean_key(raw) == raw.subrange(from, to),
{
    text::edges_are_all_that_is_taken_off(raw, Sort::Ident, false);
    let (from, to) = choose|from: int, to: int| #[trigger]
        text::stays(raw, Sort::Ident, false, from, to) && text::without_edges(raw, Sort::Ident, false) == raw.subrange(
            from,
            to,
        );
    assert(key_in(raw, from, to)) by {
        assert forall|i: int| 0 <= i < from implies !edges_a_key(#[trigger] raw[i]) by {
            assert(text::of_sort(raw[i], Sort::Ident) == false);
        }
        assert forall|i: int| to <= i < raw.len() implies !edges_a_key(#[trigger] raw[i]) by {
            assert(text::of_sort(raw[i], Sort::Ident) == false);
        }
    }
}

/// Which key a fact goes under, with the key cleaned: itself where a fact has it, else the
/// key of the first fact that is spelled alike, else itself.
pub open spec fn goes_under(
    current: Seq<FactV>,
    squashed: Seq<Seq<char>>,
    key: Seq<char>,
    squashed_key: Seq<char>,
    k: Seq<char>,
) -> bool {
    let known = exists|i: int| 0 <= i < current.len() && (#[trigger] current[i]).key == key;
    &&& known ==> k == key
    &&& !known && (forall|i: int| 0 <= i < current.len() ==> #[trigger] squashed[i] != squashed_key) ==> k == key
    &&& forall|i: int|
        !known && 0 <= i < current.len() && squashed[i] == squashed_key && (forall|j: int|
            0 <= j < i ==> #[trigger] squashed[j] != squashed_key) ==> k == (#[trigger] current[i]).key
}

proof fn lemma_alike(current: Seq<FactV>, squashed: Seq<Seq<char>>, wanted: Seq<char>, i: int)
    requires
        current.len() == squashed.len(),
        0 <= i <= current.len(),
        forall|j: int| 0 <= j < i ==> #[trigger] squashed[j] != wanted,
    ensures
        i == current.len() ==> builtins::spelled_alike(current, squashed, wanted) is None,
        i < current.len() && squashed[i] == wanted ==> builtins::spelled_alike(current, squashed, wanted) == Some(
            current[i].key,
        ),
    decreases current.len(),
{
    if i > 0 {
        assert(squashed[0] != wanted);
        let (a, b) = (current.drop_first(), squashed.drop_first());
        assert forall|j: int| 0 <= j < i - 1 implies #[trigger] b[j] != wanted by {
            assert(b[j] == squashed[j + 1]);
        }
        lemma_alike(a, b, wanted, i - 1);
    }
}

/// A fact goes under the key that the scope already knows it by.
pub proof fn a_fact_goes_under_the_key_it_is_known_by(
    current: Seq<FactV>,
    squashed: Seq<Seq<char>>,
    key: Seq<char>,
    squashed_key: Seq<char>,
)
    requires
        current.len() == squashed.len(),
    ensures
        goes_under(current, squashed, key, squashed_key, builtins::canonical_key(current, squashed, key, squashed_key)),
{
    let k = builtins::canonical_key(current, squashed, key, squashed_key);
    let known = exists|i: int| 0 <= i < current.len() && (#[trigger] current[i]).key == key;
    assert(crate::turn::memory::has_key(current, key) == known);
    if forall|i: int| 0 <= i < current.len() ==> #[trigger] squashed[i] != squashed_key {
        lemma_alike(current, squashed, squashed_key, current.len() as int);
    }
    assert forall|i: int|
        !known && 0 <= i < current.len() && squashed[i] == squashed_key && (forall|j: int|
            0 <= j < i ==> #[trigger] squashed[j] != squashed_key) implies k == (#[trigger] current[i]).key by {
        lemma_alike(current, squashed, squashed_key, i);
    }
}

/// What remembering does: a key or a value that is missing, a key that is none, a blank
/// value, and a value that nothing grounds where that is off, are refused, the last of
/// them for good; else the call is recorded and the fact is written, under the key that
/// the scope knows it by, in the scope of the turn, with the value as it was said.
pub proof fn what_remembering_does(
    t: TurnV,
    cx: CtxV,
    cfg: EngineConfigV,
    raw_key: Option<Seq<char>>,
    value: Option<Seq<char>>,
    args: TaggedV,
    current: Seq<FactV>,
    squashed: Seq<Seq<char>>,
    squashed_key: Seq<char>,
)
    ensures
        ({
            let (u, w) = builtins::remembers(t, cx, cfg, raw_key, value, args, current, squashed, squashed_key);
            let key = builtins::clean_key(raw_key->0);
            let whole = key.len() > 0 && forall|i: int| 0 <= i < key.len() ==> in_a_key(#[trigger] key[i]);
            let blank = forall|i: int| 0 <= i < value->0.len() ==> unicode::whitespace(#[trigger] value->0[i]);
            let prov = builtins::origin(args, "value"@);
            let barred = types::residual(prov) && cfg.remember_residual == RememberResidual::Never;
            let shown = unicode::quoted(key);
            &&& raw_key is None || value is None ==> w is None && u == rejects(
                t,
                cx.at,
                cx.pid,
                RejectReasonV::Malformed { detail: "remember_fact needs string key and value"@ },
                "remember_fact missing key/value"@,
            )
            &&& raw_key is Some && value is Some && (!whole || blank) ==> w is None && u == rejects(
                t,
                cx.at,
                cx.pid,
                RejectReasonV::Malformed {
                    detail: "remember_fact key must be a dotted identifier and value non-empty (got key "@ + shown + ")"@,
                },
                "remember_fact rejected malformed key "@ + shown,
            )
            &&& raw_key is Some && value is Some && whole && !blank && barred ==> {
                let reason = "NeverResidual: arg 'value' has no grounding in this session"@;
                let r = rejects(
                    t,
                    cx.at,
                    cx.pid,
                    RejectReasonV::GuardDenied { guard: "residual_policy"@, reason },
                    "guard residual_policy: "@ + reason,
                );
                w is None && u == off(TurnV { book: BookkeepingV { never_residual: true, ..r.book }, ..r }, "remember_fact"@)
            }
            &&& raw_key is Some && value is Some && whole && !blank && !barred ==> {
                let k = builtins::canonical_key(current, squashed, key, squashed_key);
                &&& u == runs(t, cx.at, cx.proposal, "remember_fact"@, args)
                &&& w matches Some(f) && f.key == k && f.call == u.log.last().id && f.fact == builtins::fact_to_write(
                    builtins::fact_under(current, k),
                    k,
                    json::json_string(value->0),
                    prov,
                    builtins::trust_in(args, "value"@),
                    t.scope,
                    cx.at,
                )
            }
        }),
{
    if raw_key is Some && value is Some {
        let key = builtins::clean_key(raw_key->0);
        let v = value->0;
        text::lemma_without_edges_is_empty(v, Sort::White, true);
        assert(builtins::good_key(key) <==> key.len() > 0 && forall|i: int| 0 <= i < key.len() ==> in_a_key(#[trigger] key[i])) by {
            if key.len() > 0 && forall|i: int| 0 <= i < key.len() ==> in_a_key(#[trigger] key[i]) {
                assert forall|i: int| 0 <= i < key.len() implies builtins::key_char(#[trigger] key[i]) by {
                    assert(in_a_key(key[i]));
                }
            }
            if builtins::good_key(key) {
                assert forall|i: int| 0 <= i < key.len() implies in_a_key(#[trigger] key[i]) by {
                    assert(builtins::key_char(key[i]));
                }
            }
        }
        let blank = forall|i: int| 0 <= i < v.len() ==> unicode::whitespace(#[trigger] v[i]);
        assert(text::trimmed(v).len() == 0 <==> blank) by {
            if text::trimmed(v).len() > 0 {
                let k = choose|k: int| 0 <= k < v.len() && text::of_sort(#[trigger] v[k], Sort::White) != true;
                assert(!unicode::whitespace(v[k]));
            }
            if !blank {
                let k = choose|k: int| 0 <= k < v.len() && !unicode::whitespace(#[trigger] v[k]);
                assert(text::of_sort(v[k], Sort::White) != true);
            }
        }
    }
}

/// What is written of a value where the key is new or had another value: the value now
/// holds, from now on or from just after the one it replaces, sure where something grounds
/// it and half sure else; the uses of the key go on.
pub proof fn a_new_value_begins_a_version(
    prev: Option<FactV>,
    key: Seq<char>,
    value: Seq<char>,
    prov: ProvenanceV,
    trust: Trust,
    scope: Seq<char>,
    at: Timestamp,
)
    requires
        prev matches Some(p) ==> p.value != value && p.valid_from.0 < u64::MAX,
    ensures
        ({
            let f = builtins::fact_to_write(prev, key, value, prov, trust, scope, at);
            &&& f.key == key && f.value == value && f.scope == scope && f.prov == prov && f.trust == trust
            &&& f.confidence_pct == if types::residual(prov) {
                50u32
            } else {
                100u32
            }
            &&& f.last_validated == at && f.valid_to is None && f.state == FactState::Current
            &&& f.exposures == 0 && f.credits == 0
            &&& prev is None ==> f.valid_from == at && f.uses == 0 && f.last_used.0 == 0
            &&& prev matches Some(p) ==> f.uses == p.uses && f.last_used == p.last_used && f.valid_from.0 == if at.0
                > p.valid_from.0 {
                at.0 as int
            } else {
                p.valid_from.0 + 1
            }
        }),
{
}

/// What is written of a value that is held already: the same version, validated now, with
/// where it came from this time; sure where something grounds it.
pub proof fn a_restated_value_is_validated(
    p: FactV,
    key: Seq<char>,
    prov: ProvenanceV,
    trust: Trust,
    scope: Seq<char>,
    at: Timestamp,
)
    ensures
        ({
            let f = builtins::fact_to_write(Some(p), key, p.value, prov, trust, scope, at);
            &&& f == (FactV {
                confidence_pct: f.confidence_pct,
                last_validated: at,
                prov,
                trust,
                state: FactState::Current,
                ..p
            })
            &&& !types::residual(prov) ==> f.confidence_pct == 100
            &&& types::residual(prov) && p.confidence_pct <= 90 ==> f.confidence_pct == p.confidence_pct + 10
            &&& types::residual(prov) && p.confidence_pct > 90 ==> f.confidence_pct == 100
        }),
{
}

/// Where a value came from and how far it is trusted is what the first argument of the
/// name says, and it is the model's own where there is none.
pub proof fn a_value_is_traced_by_its_argument(args: TaggedV, name: Seq<char>, i: int)
    ensures
        state::first_arg(args, name, i) ==> builtins::origin(args, name) == args[i].1.prov && builtins::trust_in(args, name)
            == args[i].1.trust,
        (forall|j: int| 0 <= j < args.len() ==> (#[trigger] args[j]).0 != name) ==> builtins::origin(args, name)
            is Residual && builtins::trust_in(args, name) == Trust::System,
    decreases args.len(),
{
    if args.len() > 0 {
        let rest = args.drop_first();
        a_value_is_traced_by_its_argument(rest, name, i - 1);
        assert forall|j: int| 0 <= j < rest.len() implies rest[j] == args[j + 1] by {}
        if forall|j: int| 0 <= j < args.len() ==> (#[trigger] args[j]).0 != name {
            assert(args[0].0 != name);
            assert forall|j: int| 0 <= j < rest.len() implies (#[trigger] rest[j]).0 != name by {
                assert(args[j + 1].0 != name);
            }
        }
        if state::first_arg(args, name, i) && i > 0 {
            assert(args[0].0 != name);
            assert forall|j: int| 0 <= j < i - 1 implies (#[trigger] rest[j]).0 != name by {
                assert(args[j + 1].0 != name);
            }
            assert(state::first_arg(rest, name, i - 1));
        }
    }
}

/// What the store said of a write is what is reported: the summary where it was done, at
/// the system's trust, and its failure else.
pub proof fn what_the_store_said_is_reported(summary: Seq<char>, failure: Option<Seq<char>>, purged: Result<usize, String>)
    ensures
        failure is None ==> builtins::stored(summary, failure) == (ToolOutcomeV::Done {
            output: ToolOutputV { summary, artifact: None, trust: Trust::System },
        }),
        failure matches Some(detail) ==> builtins::stored(summary, failure) == (ToolOutcomeV::Failed {
            kind: "store"@,
            detail,
        }),
        purged matches Ok(n) ==> builtins::purge_outcome(purged) == (ToolOutcomeV::Done {
            output: ToolOutputV {
                summary: "forgot "@ + text::decimal(n as nat) + " facts"@,
                artifact: None,
                trust: Trust::System,
            },
        }),
        purged matches Err(e) ==> builtins::purge_outcome(purged) == (ToolOutcomeV::Failed {
            kind: "store"@,
            detail: e@,
        }),
{
}

/// A recall looks for what was asked without the space around it; a blank query is
/// refused.
pub proof fn what_recalling_does(t: TurnV, cx: CtxV, raw: Option<Seq<char>>, args: TaggedV)
    ensures
        ({
            let (u, l) = builtins::recalls(t, cx, raw, args);
            let blank = raw is None || forall|i: int| 0 <= i < raw->0.len() ==> unicode::whitespace(#[trigger] raw->0[i]);
            &&& blank ==> l is None && u == rejects(
                t,
                cx.at,
                cx.pid,
                RejectReasonV::Malformed { detail: "recall needs a non-empty query"@ },
                "recall missing query"@,
            )
            &&& !blank ==> u == runs(t, cx.at, cx.proposal, "recall"@, args) && l == Some(
                LookupV { query: text::trimmed(raw->0), call: u.log.last().id },
            )
        }),
{
    if let Some(q) = raw {
        lemma_blank(q);
    }
}

proof fn lemma_blank(s: Seq<char>)
    ensures
        text::trimmed(s).len() == 0 <==> forall|i: int| 0 <= i < s.len() ==> unicode::whitespace(#[trigger] s[i]),
{
    text::lemma_without_edges_is_empty(s, Sort::White, true);
    if text::trimmed(s).len() > 0 {
        let k = choose|k: int| 0 <= k < s.len() && text::of_sort(#[trigger] s[k], Sort::White) != true;
        assert(!unicode::whitespace(s[k]));
    }
    if !(forall|i: int| 0 <= i < s.len() ==> unicode::whitespace(#[trigger] s[i])) {
        let k = choose|k: int| 0 <= k < s.len() && !unicode::whitespace(#[trigger] s[k]);
        assert(text::of_sort(s[k], Sort::White) != true);
    }
}

/// What looking into a result says: where in it the stretch stands and how long it is, the
/// stretch itself, or that there is no match, or no more.
pub proof fn what_an_inspection_says(id: EventId, s: Seq<char>, query: Option<Seq<char>>, page: nat, max: nat)
    ensures
        ({
            let w = trace::window(s, query, page, max);
            let name = "r"@ + text::decimal(id.0 as nat);
            let said = builtins::inspection(id, s, query, page, max);
            &&& w.0.len() > 0 ==> said == name + " chars "@ + text::decimal(w.1) + "-"@ + text::decimal(w.2) + " of "@
                + text::decimal(s.len()) + ": "@ + w.0
            &&& w.0.len() == 0 && query is None ==> said == "no more of "@ + name
            &&& w.0.len() == 0 && query is Some ==> said == name + " has no match for "@ + unicode::quoted(query->0)
        }),
{
}

/// Which fact is meant by a key: the first that has it or is spelled alike.
pub proof fn which_fact_is_meant(
    current: Seq<FactV>,
    squashed: Seq<Seq<char>>,
    key: Seq<char>,
    squashed_key: Seq<char>,
    i: int,
)
    requires
        current.len() == squashed.len(),
        0 <= i <= current.len(),
        forall|j: int| 0 <= j < i ==> (#[trigger] current[j]).key != key && squashed[j] != squashed_key,
    ensures
        i < current.len() && (current[i].key == key || squashed[i] == squashed_key) ==> builtins::meant(
            current,
            squashed,
            key,
            squashed_key,
        ) == Some(current[i].key),
        i == current.len() ==> builtins::meant(current, squashed, key, squashed_key) is None,
    decreases current.len(),
{
    if i > 0 {
        assert(current[0].key != key && squashed[0] != squashed_key);
        let (a, b) = (current.drop_first(), squashed.drop_first());
        assert forall|j: int| 0 <= j < i - 1 implies (#[trigger] a[j]).key != key && b[j] != squashed_key by {
            assert(a[j] == current[j + 1] && b[j] == squashed[j + 1]);
        }
        which_fact_is_meant(a, b, key, squashed_key, i - 1);
    }
}

/// What forgetting does: the fact that is meant is forgotten, under its own key; a key
/// that means none is refused, the second time for good; and so is one that is missing.
pub proof fn what_forgetting_does(
    t: TurnV,
    cx: CtxV,
    raw_key: Option<Seq<char>>,
    args: TaggedV,
    current: Seq<FactV>,
    squashed: Seq<Seq<char>>,
    squashed_key: Seq<char>,
)
    requires
        current.len() == squashed.len(),
        t.book.forget_misses < u32::MAX,
    ensures
        ({
            let (u, f) = builtins::forgets(t, cx, raw_key, args, current, squashed, squashed_key);
            let key = builtins::clean_key(raw_key->0);
            let meant = builtins::meant(current, squashed, key, squashed_key);
            let none = raw_key is None || key.len() == 0;
            &&& none ==> f is None && u == rejects(
                t,
                cx.at,
                cx.pid,
                RejectReasonV::Malformed { detail: "forget_fact needs a string key"@ },
                "forget_fact missing key"@,
            )
            &&& !none && meant is Some ==> u == runs(t, cx.at, cx.proposal, "forget_fact"@, args) && f == Some(
                ForgettingV { key: meant->0, call: u.log.last().id },
            )
            &&& !none && meant is None ==> {
                let detail = "forget_fact: no current fact named "@ + key;
                let r = rejects(t, cx.at, cx.pid, RejectReasonV::Malformed { detail }, detail);
                let counted = TurnV {
                    book: BookkeepingV { forget_misses: (t.book.forget_misses + 1) as u32, ..r.book },
                    ..r
                };
                f is None && u == if t.book.forget_misses == 0 {
                    counted
                } else {
                    off(counted, "forget_fact"@)
                }
            }
        }),
{
    if raw_key is Some {
        let key = builtins::clean_key(raw_key->0);
        lemma_meant(current, squashed, key, squashed_key);
    }
}

proof fn lemma_meant(current: Seq<FactV>, squashed: Seq<Seq<char>>, key: Seq<char>, squashed_key: Seq<char>)
    requires
        current.len() == squashed.len(),
    ensures
        builtins::meant(current, squashed, key, squashed_key) matches Some(k) ==> crate::turn::memory::has_key(current, k),
        builtins::meant(current, squashed, key, squashed_key) is None ==> !crate::turn::memory::has_key(current, key),
    decreases current.len(),
{
    if current.len() > 0 {
        let (a, b) = (current.drop_first(), squashed.drop_first());
        lemma_meant(a, b, key, squashed_key);
        if current[0].key == key || squashed[0] == squashed_key {
            assert(current[0].key == current[0].key);
        } else {
            match builtins::meant(a, b, key, squashed_key) {
                Some(k) => {
                    let i = choose|i: int| 0 <= i < a.len() && (#[trigger] a[i]).key == k;
                    assert(current[i + 1].key == k);
                },
                None => {
                    if crate::turn::memory::has_key(current, key) {
                        let i = choose|i: int| 0 <= i < current.len() && (#[trigger] current[i]).key == key;
                        assert(a[i - 1].key == key);
                    }
                },
            }
        }
    }
}

/// Forgetting everything is put to the user first, with what it would do, and done once
/// the user confirmed.
pub proof fn what_forgetting_everything_does(t: TurnV, cx: CtxV)
    ensures
        ({
            let plan = "This will forget every stored fact in scope "@ + t.scope + "."@;
            let confirmed = cx.confirmed_now || cx.state.confirmed_this_turn_of == Some(t.turn);
            &&& confirmed ==> builtins::purges(t, cx) == runs(t, cx.at, cx.proposal, "forget_all"@, seq![])
            &&& !confirmed ==> builtins::purges(t, cx) == ends(
                plus(
                    t,
                    cx.at,
                    EventKindV::PendingConfirmation {
                        proposal_of: cx.pid,
                        staged: Some(StagedEffectV { description: plan }),
                    },
                ),
                cx.at,
                ReplyPolicyV::Verbatim {
                    text: "'"@ + "forget_all"@ + "' is irreversible. Confirm to proceed.\nPlanned: "@ + plan,
                },
            )
        }),
{
}

/// Which actions are the engine's own.
pub proof fn the_engine_runs_its_own_actions(action: Seq<char>)
    ensures
        builtins::builtin_named(action) is Some <==> action == "ask_clarification"@ || action == "remember_fact"@ || action
            == "recall"@ || action == "inspect_result"@ || action == "forget_fact"@ || action == "forget_all"@,
        builtins::builtin_named("ask_clarification"@) == Some(builtins::Builtin::AskClarification),
        builtins::builtin_named("remember_fact"@) == Some(builtins::Builtin::RememberFact),
        builtins::builtin_named("recall"@) == Some(builtins::Builtin::Recall),
        builtins::builtin_named("inspect_result"@) == Some(builtins::Builtin::InspectResult),
        builtins::builtin_named("forget_fact"@) == Some(builtins::Builtin::ForgetFact),
        builtins::builtin_named("forget_all"@) == Some(builtins::Builtin::ForgetAll),
{
    reveal_strlit("ask_clarification");
    reveal_strlit("remember_fact");
    reveal_strlit("recall");
    reveal_strlit("inspect_result");
    reveal_strlit("forget_fact");
    reveal_strlit("forget_all");
    assert("ask_clarification"@.len() == 17 && "remember_fact"@.len() == 13 && "recall"@.len() == 6);
    assert("inspect_result"@.len() == 14 && "forget_fact"@.len() == 11 && "forget_all"@.len() == 10);
}

// ---------------------------------------------------------------------------
// Causes in words
// ---------------------------------------------------------------------------

/// A model's error is told by what it was: an answer that could not be used, a status with
/// the provider's own message where it has one, or that nothing was reached.
pub proof fn an_error_is_told_by_what_it_was(detail: Seq<char>, code: Seq<char>, body: Seq<char>)
    requires
        !text::starts(detail, "transport: "@),
        !text::contains(code, ":"@),
    ensures
        diagnostics::explained("transport: "@ + detail) == diagnostics::explained(detail),
        diagnostics::explained("malformed: "@ + detail) == "the model's answer was unusable ("@ + text::clipped(detail, 120)
            + ")"@,
        diagnostics::explained("status "@ + code + ":"@ + body) == ({
            let head = "the model provider answered HTTP "@ + text::trimmed(code);
            let own = json::json_str_at(text::trimmed(body), "/error/message"@);
            let plain = json::json_str_at(text::trimmed(body), "/message"@);
            if own is Some {
                head + ": "@ + text::clipped(own->0, 160)
            } else if plain is Some {
                head + ": "@ + text::clipped(plain->0, 160)
            } else {
                head
            }
        }),
        !text::starts(detail, "malformed: "@) && !text::starts(detail, "status "@) ==> diagnostics::explained(detail)
            == "couldn't reach the model provider ("@ + text::clipped(detail, 120) + ")"@,
{
    reveal_strlit("transport: ");
    reveal_strlit("malformed: ");
    reveal_strlit("status ");
    reveal_strlit(":");
    let a = "transport: "@ + detail;
    assert(a.take(11) =~= "transport: "@);
    assert(a.skip(11) =~= detail);
    let b = "malformed: "@ + detail;
    assert(b.take(11) =~= "malformed: "@);
    assert(b.skip(11) =~= detail);
    assert(b[0] == 'm');
    assert(!text::starts(b, "transport: "@)) by {
        if text::starts(b, "transport: "@) {
            assert(b.take(11)[0] == 't');
        }
    }
    let c = "status "@ + code + ":"@ + body;
    let rest = code + ":"@ + body;
    assert(c.take(7) =~= "status "@);
    assert(c.skip(7) =~= rest);
    assert(c[0] == 's');
    assert(!text::starts(c, "transport: "@)) by {
        if text::starts(c, "transport: "@) {
            assert(c.take(11)[0] == 't');
        }
    }
    assert(!text::starts(c, "malformed: "@)) by {
        if text::starts(c, "malformed: "@) {
            assert(c.take(11)[0] == 'm');
        }
    }
    let n = code.len() as int;
    text::lemma_found_from(rest, ":"@, 0);
    assert(rest.subrange(n, n + 1) =~= ":"@);
    assert(text::occurs_at(rest, ":"@, n));
    assert(text::found(rest, ":"@) == Some(n)) by {
        let i = text::found(rest, ":"@)->0;
        if i < n {
            assert(rest.subrange(i, i + 1) == ":"@);
            assert(code.subrange(i, i + 1) =~= rest.subrange(i, i + 1));
            assert(text::occurs_at(code, ":"@, i));
        }
    }
    assert(rest.take(n) =~= code);
    assert(rest.skip(n + 1) =~= body);
}

// ---------------------------------------------------------------------------
// From one need to the next
// ---------------------------------------------------------------------------

/// Going round: a turn that is settled, or has made as many iterations as it may, ends;
/// else it counts one more, takes up an answer that waited, and where that does not settle
/// it needs a proposal, for the session as it stands and from what is on offer now.
pub proof fn what_going_round_does(t: TurnV, w: AroundV, at: Timestamp)
    requires
        t.iterations < u32::MAX,
    ensures
        ({
            let (u, need) = steer::goes_round(t, w, at);
            let next = run::collected(TurnV { iterations: (t.iterations + 1) as u32, ..t }, at);
            let over = t.settled is Some || t.iterations >= w.cfg.max_iterations;
            &&& over ==> u == run::concluded(t, w.cfg, at) && need == (NeedV::Nothing { policy: u.settled->0 })
            &&& !over && next.settled is Some ==> u == next && need == (NeedV::Nothing { policy: next.settled->0 })
            &&& !over && next.settled is None ==> u == next && need == (NeedV::Proposal {
                state: state::folded(u.log),
                actions: legal::on_offer(
                    legal::OfferV {
                        book: u.book,
                        events: u.log,
                        turn: u.turn,
                        tier: u.tier,
                        selected_tools: u.selected,
                        recall_applies: w.recall_applies,
                        scope_holds_facts: w.scope_holds_facts,
                        active_pending: run::active_pending(state::folded(u.log), u.turn) is Some,
                    },
                    w.cfg,
                    w.tools,
                ),
                pending: run::active_pending(state::folded(u.log), u.turn),
            })
        }),
{
}

/// After a request that gave no proposal the turn ends where asking again cannot mend it or
/// as many failed as may, and else goes round.
pub proof fn when_asking_stops(t: TurnV, w: AroundV, failure: EmitFailureV, said: Seq<char>, retryable: bool, at: Timestamp)
    requires
        t.emit_failures < u32::MAX,
        t.iterations < u32::MAX,
    ensures
        ({
            let failed = run::emit_fails(t, at, failure, said);
            let (u, need) = steer::unproposed(t, w, failure, said, retryable, at);
            let stop = !retryable || failed.emit_failures >= w.cfg.max_emit_retries;
            &&& stop ==> u == run::concluded(failed, w.cfg, at) && need is Nothing
            &&& !stop ==> (u, need) == steer::goes_round(failed, w, at)
        }),
{
}

/// What a proposal leads to: it is recorded as the model made it; a direct answer ends the
/// turn with the text that came with it, where one was asked for; else what the user is to
/// be told is told first, and what is admitted goes on under the number of the proposal,
/// read once more where it was confirmed just now; what is refused goes round.
pub proof fn what_a_proposal_leads_to(
    t: TurnV,
    w: AroundV,
    raw: ProposalV,
    said: ProposalV,
    answer: Option<Seq<char>>,
    line: Option<Seq<char>>,
    held: SessionStateV,
    actions: Seq<ActionSpecV>,
    pending: Option<EventId>,
    at: Timestamp,
)
    requires
        t.settled is None,
    ensures
        ({
            let (u, need) = steer::weighed(t, w, raw, said, answer, line, held, actions, pending, at);
            let may = run::may_answer(w.cfg, t.tier);
            let text = if may {
                answer
            } else {
                None
            };
            let p = TurnV { proposed: true, ..plus(t, at, EventKindV::Proposed { proposal: raw }) };
            let pid = p.log.last().id;
            let beside = if w.cfg.act_and_answer {
                TurnV { held: text, ..p }
            } else {
                p
            };
            let s = if may && line is Some {
                plus(beside, at, EventKindV::Said { text: line->0 })
            } else {
                beside
            };
            let registered = exists|i: int| 0 <= i < w.tools.len() && (#[trigger] w.tools[i]).name == said.action;
            let (v, verdict) = run::considered(s, at, pid, said, actions, registered, pending);
            &&& said.action == "respond_directly"@ ==> u == ends(TurnV { draft: text, ..p }, at, ReplyPolicyV::Generate)
                && need == (NeedV::Nothing { policy: ReplyPolicyV::Generate })
            &&& said.action != "respond_directly"@ && verdict is Refused ==> (u, need) == steer::goes_round(v, w, at)
            &&& said.action != "respond_directly"@ ==> (verdict matches AdmissionV::Admitted { proposal, confirmed_now } ==> {
                let cx = CtxV { state: held, proposal, pid, confirmed_now, active_pending: pending, at };
                &&& u == v
                &&& confirmed_now ==> need == (NeedV::Repair { cx })
                &&& !confirmed_now ==> need == (NeedV::Arguments { cx })
            })
        }),
{
}

/// What was confirmed goes on as it is read now, under the number that it was confirmed
/// under; where nothing runs it any more it is refused and taken off.
pub proof fn what_reading_again_leads_to(t: TurnV, w: AroundV, cx: CtxV, said: ProposalV)
    ensures
        ({
            let (u, need) = steer::repaired(t, w, cx, said);
            let known = builtins::builtin_named(said.action) is Some || exists|i: int|
                0 <= i < w.tools.len() && (#[trigger] w.tools[i]).name == said.action;
            &&& known ==> u == t && need == (NeedV::Arguments { cx: CtxV { proposal: said, ..cx } })
            &&& !known ==> (u, need) == steer::goes_round(
                off(
                    rejects(
                        t,
                        cx.at,
                        cx.pid,
                        RejectReasonV::IllegalAction { action: said.action },
                        "illegal action: "@ + said.action,
                    ),
                    said.action,
                ),
                w,
                cx.at,
            )
        }),
{
    lemma_tool(w.tools, said.action);
}

proof fn lemma_tool(tools: Seq<ActionSpecV>, name: Seq<char>)
    ensures
        steer::tool_named(tools, name) is Some <==> exists|i: int| 0 <= i < tools.len() && (#[trigger] tools[i]).name == name,
    decreases tools.len(),
{
    if tools.len() > 0 {
        let rest = tools.drop_first();
        lemma_tool(rest, name);
        if tools[0].name != name {
            if exists|i: int| 0 <= i < rest.len() && (#[trigger] rest[i]).name == name {
                let i = choose|i: int| 0 <= i < rest.len() && (#[trigger] rest[i]).name == name;
                assert(tools[i + 1].name == name);
            }
            if exists|i: int| 0 <= i < tools.len() && (#[trigger] tools[i]).name == name {
                let i = choose|i: int| 0 <= i < tools.len() && (#[trigger] tools[i]).name == name;
                assert(rest[i - 1].name == name);
            }
        }
    }
}

/// The tool that runs is the first that is registered under the name.
pub proof fn the_first_tool_of_a_name_runs(tools: Seq<ActionSpecV>, k: int)
    requires
        0 <= k < tools.len(),
        forall|j: int| 0 <= j < k ==> (#[trigger] tools[j]).name != tools[k].name,
    ensures
        steer::tool_named(tools, tools[k].name) == Some(tools[k]),
    decreases tools.len(),
{
    if k > 0 {
        let rest = tools.drop_first();
        assert(tools[0].name != tools[k].name);
        assert(rest[k - 1] == tools[k]);
        assert forall|j: int| 0 <= j < k - 1 implies (#[trigger] rest[j]).name != rest[k - 1].name by {
            assert(rest[j] == tools[j + 1]);
        }
        the_first_tool_of_a_name_runs(rest, k - 1);
    }
}

/// Which action does what with a proposal whose arguments were looked at, and what the turn
/// needs next: a write, a search, the forgetting of one fact or of all, a tool's answer or
/// its plan; where an action needs nothing from outside, or was refused, the turn goes
/// round.
pub proof fn what_an_action_leads_to(t: TurnV, w: AroundV, cx: CtxV, h: ArgumentsV)
    ensures
        ({
            let r = steer::tried(t, w, cx, h);
            let at = cx.at;
            let json = cx.proposal.args;
            let action = cx.proposal.action;
            &&& action == "ask_clarification"@ ==> r == steer::goes_round(
                builtins::asks(t, cx, w.cfg, json::json_str_at(json, "/question"@), h.args, h.plugins),
                w,
                at,
            )
            &&& action == "remember_fact"@ ==> {
                let (u, write) = builtins::remembers(
                    t,
                    cx,
                    w.cfg,
                    json::json_str_at(json, "/key"@),
                    json::json_str_at(json, "/value"@),
                    h.args,
                    h.current,
                    h.squashed,
                    h.squashed_key,
                );
                &&& write matches Some(f) ==> r == (u, NeedV::Write { write: f })
                &&& write is None ==> r == steer::goes_round(u, w, at)
            }
            &&& action == "recall"@ ==> {
                let (u, lookup) = builtins::recalls(t, cx, json::json_str_at(json, "/query"@), h.args);
                &&& lookup matches Some(l) ==> r == (u, NeedV::Search { lookup: l })
                &&& lookup is None ==> r == steer::goes_round(u, w, at)
            }
            &&& action == "inspect_result"@ ==> r == steer::goes_round(
                builtins::inspects(
                    t,
                    cx,
                    w.cfg.tool_result_max_chars as nat,
                    json::json_str_at(json, "/id"@),
                    json::json_str_at(json, "/query"@),
                    h.args,
                ),
                w,
                at,
            )
            &&& action == "forget_fact"@ ==> {
                let (u, it) = builtins::forgets(
                    t,
                    cx,
                    json::json_str_at(json, "/key"@),
                    h.args,
                    h.current,
                    h.squashed,
                    h.squashed_key,
                );
                &&& it matches Some(f) ==> r == (u, NeedV::Forget { it: f })
                &&& it is None ==> r == steer::goes_round(u, w, at)
            }
            &&& action == "forget_all"@ ==> {
                let u = builtins::purges(t, cx);
                let confirmed = cx.confirmed_now || cx.state.confirmed_this_turn_of == Some(t.turn);
                &&& confirmed ==> r == (u, NeedV::Purge { call: u.log.last().id })
                &&& !confirmed ==> r == steer::goes_round(u, w, at)
            }
        }),
        builtins::builtin_named(cx.proposal.action) is None ==> (steer::tool_named(w.tools, cx.proposal.action) matches Some(
            spec,
        ) ==> {
            let (u, step) = tools::judged(t, cx, w.cfg, spec, h.invalid, h.args, h.plugins);
            match step {
                ToolStepV::Refused => steer::tried(t, w, cx, h) == steer::goes_round(u, w, cx.at),
                ToolStepV::Stage { prompt } => steer::tried(t, w, cx, h) == (u, NeedV::DryRun { cx, prompt }),
                ToolStepV::Call { call } => steer::tried(t, w, cx, h) == (u, NeedV::Call { cx, call }),
            }
        }),
{
    the_engine_runs_its_own_actions(cx.proposal.action);
}

/// What came of a call is recorded under its number, and the turn goes round.
pub proof fn what_coming_back_does(t: TurnV, w: AroundV, call: EventId, outcome: ToolOutcomeV, at: Timestamp)
    ensures
        steer::came_back(t, w, call, outcome, at) == steer::goes_round(
            plus(t, at, EventKindV::ToolReturned { call, outcome }),
            w,
            at,
        ),
{
}

/// What looking into a result does: a handle that names nothing worth it is refused and ends
/// the offer; else the call is recorded with what it shows, the next page or the place of
/// the query, at the trust of the result, and the offer ends where there was nothing more.
pub proof fn what_inspecting_does(
    t: TurnV,
    cx: CtxV,
    max: nat,
    raw_id: Option<Seq<char>>,
    raw_query: Option<Seq<char>>,
    args: TaggedV,
)
    ensures
        ({
            let u = builtins::inspects(t, cx, max, raw_id, raw_query, args);
            let open = trace::inspectable(t.log, t.turn, max);
            let named = raw_id is Some && trace::handle_of(raw_id->0) is Some && open.contains(trace::handle_of(raw_id->0)->0);
            let blank = raw_query is None || forall|i: int|
                0 <= i < raw_query->0.len() ==> unicode::whitespace(#[trigger] raw_query->0[i]);
            let query = if blank {
                None
            } else {
                Some(text::trimmed(raw_query->0))
            };
            &&& !named ==> {
                let shown = match raw_id {
                    Some(s) => s,
                    None => ""@,
                };
                let detail = "inspect_result"@ + ": no clipped result named "@ + unicode::quoted(shown)
                    + " this turn; available: "@ + (if open.len() == 0 {
                    "none"@
                } else {
                    text::joined(builtins::handles(open), ", "@)
                });
                u == rejects(off(t, "inspect_result"@), cx.at, cx.pid, RejectReasonV::Malformed { detail }, detail)
            }
            &&& named ==> {
                let id = trace::handle_of(raw_id->0)->0;
                let page = trace::pages_seen(t.log, t.turn, id);
                let called = runs(t, cx.at, cx.proposal, "inspect_result"@, args);
                let found = trace::output_of(trace::event_at(called.log, t.turn, id));
                let (s, trust) = match found {
                    Some(o) => o,
                    None => (Seq::<char>::empty(), Trust::System),
                };
                let empty = trace::window(s, query, page, max).0.len() == 0;
                let left = if empty {
                    off(called, "inspect_result"@)
                } else {
                    called
                };
                u == plus(
                    left,
                    cx.at,
                    EventKindV::ToolReturned {
                        call: called.log.last().id,
                        outcome: ToolOutcomeV::Done {
                            output: ToolOutputV {
                                summary: builtins::inspection(id, s, query, page, max),
                                artifact: None,
                                trust,
                            },
                        },
                    },
                )
            }
        }),
{
    if let Some(q) = raw_query {
        lemma_blank(q);
    }
}

/// The handles that are named are those of the results, in order.
pub proof fn handles_name_results(ids: Seq<EventId>)
    ensures
        builtins::handles(ids).len() == ids.len(),
        forall|i: int| 0 <= i < ids.len() ==> #[trigger] builtins::handles(ids)[i] == "r"@ + text::decimal(ids[i].0 as nat),
{
}

/// A confirmation of what is not staged any more is recorded, and refused as a broken chain.
pub proof fn a_broken_chain_is_refused(t: TurnV, at: Timestamp, pid: EventId, pending: EventId)
    requires
        run::staged_proposal(t.log.push(plus(t, at, EventKindV::Confirmed { pending }).log.last()), pending) is None,
    ensures
        ({
            let out = run::confirms(t, at, pid, pending);
            let u = plus(
                plus(t, at, EventKindV::Confirmed { pending }),
                at,
                EventKindV::Rejected {
                    proposal_of: pid,
                    reason: RejectReasonV::Malformed { detail: "pending confirmation chain is broken"@ },
                },
            );
            &&& out.1 is Refused
            &&& out.0.log == u.log
            &&& out.0.book.rejections == t.book.rejections.push("broken confirmation chain"@)
        }),
{
}

} // verus!
