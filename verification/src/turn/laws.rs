//! What holds of a turn whatever happens on it.

use vstd::prelude::*;

use crate::events;
use crate::events::{
    ActionSpecV, EventKindV, EventV, ManifestV, ProposalV, RejectReasonV, ReplyPolicyV, StagedEffectV, ToolOutcomeV,
};
use crate::contexts::ReplyContextV;
use crate::facts::FactV;
use crate::turn::builtins;
use crate::turn::builtins::Builtin;
use crate::turn::config::EngineConfigV;
use crate::guards::ClassifiedProposalV;
use crate::json;
use crate::turn::gate;
use crate::turn::gate::ObjectionV;
use crate::turn::legal;
use crate::turn::progress;
use crate::turn::progress::{BookkeepingV, CtxV, TurnV};
use crate::turn::reply;
use crate::turn::run;
use crate::turn::run::{AdmissionV, EmitFailureV};
use crate::turn::specs::{CONFIRM_PENDING, FORGET_ALL, INSPECT_RESULT};
use crate::turn::steer;
use crate::turn::steer::{ArgumentsV, AroundV, NeedV};
use crate::turn::tools;
use crate::state;
use crate::state::SessionStateV;
use crate::turn::accounting::BookedCallV;
use crate::types::{EventId, FactState, ProvenanceV, TaggedV, Tier, Timestamp, Trust};

verus! {

/// The event at `i` has the number after the one before it.
pub open spec fn follows(log: Seq<EventV>, i: int) -> bool {
    log[i].id.0 == (if i == 0 {
        1
    } else {
        log[i - 1].id.0 + 1
    }) as u64
}

/// A turn as it may have become: the same message on the same turn, with events
/// added behind, each under the next number, and none changed, nothing offered again that was taken off the
/// list, no call forgotten, and a route that only widens.
pub open spec fn advances(t: TurnV, u: TurnV) -> bool {
    &&& u.session == t.session
    &&& u.turn == t.turn
    &&& u.loaded == t.loaded
    &&& u.scope == t.scope
    &&& u.user_text == t.user_text
    &&& t.log.len() <= u.log.len()
    &&& forall|i: int| 0 <= i < t.log.len() ==> u.log[i] == t.log[i]
    &&& forall|i: int| t.log.len() <= i < u.log.len() ==> (#[trigger] u.log[i]).turn == t.turn
    &&& forall|i: int| t.log.len() <= i < u.log.len() ==> #[trigger] follows(u.log, i)
    &&& forall|a: Seq<char>| t.book.denied.contains(a) ==> #[trigger] u.book.denied.contains(a)
    &&& forall|c: Seq<char>| t.book.calls.contains(c) ==> #[trigger] u.book.calls.contains(c)
    &&& t.book.never_residual ==> u.book.never_residual
    &&& t.tier.rank() <= u.tier.rank()
    &&& u.selected == t.selected || u.selected is None
    &&& t.proposed ==> u.proposed
    &&& t.settled is Some ==> u.settled is Some
}

proof fn lemma_chain(t: TurnV, u: TurnV, w: TurnV)
    requires
        advances(t, u),
        advances(u, w),
    ensures
        advances(t, w),
{
    assert forall|i: int| t.log.len() <= i < w.log.len() implies #[trigger] follows(w.log, i) by {
        if i < u.log.len() {
            assert(follows(u.log, i));
            assert(w.log[i] == u.log[i]);
            if i > 0 {
                assert(w.log[i - 1] == u.log[i - 1]);
            }
        }
    }
    assert forall|i: int| t.log.len() <= i < w.log.len() implies (#[trigger] w.log[i]).turn == t.turn by {
        if i < u.log.len() {
            assert(w.log[i] == u.log[i]);
        }
    }
    assert forall|a: Seq<char>| t.book.denied.contains(a) implies #[trigger] w.book.denied.contains(a) by {
        assert(u.book.denied.contains(a));
    }
    assert forall|c: Seq<char>| t.book.calls.contains(c) implies #[trigger] w.book.calls.contains(c) by {
        assert(u.book.calls.contains(c));
    }
}

proof fn lemma_with_text(list: Seq<Seq<char>>, s: Seq<char>)
    ensures
        progress::with_text(list, s).contains(s),
        forall|a: Seq<char>| list.contains(a) ==> #[trigger] progress::with_text(list, s).contains(a),
{
    let more = progress::with_text(list, s);
    if !list.contains(s) {
        assert(more[list.len() as int] == s);
    }
    assert forall|a: Seq<char>| list.contains(a) implies #[trigger] more.contains(a) by {
        let i = choose|i: int| 0 <= i < list.len() && list[i] == a;
        assert(more[i] == a);
    }
}

/// Every elementary move advances a turn.
pub proof fn every_move_advances(
    t: TurnV,
    at: Timestamp,
    kind: EventKindV,
    of: EventId,
    reason: RejectReasonV,
    line: Seq<char>,
    action: Seq<char>,
    p: ProposalV,
    args: TaggedV,
    policy: ReplyPolicyV,
    outcome: ToolOutcomeV,
)
    ensures
        advances(t, progress::logged(t, at, kind)),
        advances(t, progress::refused(t, at, of, reason, line)),
        advances(t, progress::barred(t, action)),
        advances(t, progress::settles(t, at, policy)),
        advances(t, progress::calls_for(t, at, p, action, args)),
        advances(t, progress::returns_with(t, at, of, outcome)),
        progress::barred(t, action).book.denied.contains(action),
        progress::calls_for(t, at, p, action, args).book.calls.contains(progress::key_of(p)),
{
    lemma_with_text(t.book.denied, action);
    lemma_with_text(t.book.calls, progress::key_of(p));
}

/// The moves once more, for the one that is needed.
proof fn lemma_logged(t: TurnV, at: Timestamp, kind: EventKindV)
    ensures
        advances(t, progress::logged(t, at, kind)),
{
}

proof fn lemma_tells(t: TurnV, line: Option<Seq<char>>, at: Timestamp)
    ensures
        advances(t, run::tells(t, line, at)),
{
}

proof fn lemma_refused(t: TurnV, at: Timestamp, of: EventId, reason: RejectReasonV, line: Seq<char>)
    ensures
        advances(t, progress::refused(t, at, of, reason, line)),
{
}

proof fn lemma_barred(t: TurnV, action: Seq<char>)
    ensures
        advances(t, progress::barred(t, action)),
{
    lemma_with_text(t.book.denied, action);
}

proof fn lemma_settles(t: TurnV, at: Timestamp, policy: ReplyPolicyV)
    ensures
        advances(t, progress::settles(t, at, policy)),
{
}

proof fn lemma_calls(t: TurnV, at: Timestamp, p: ProposalV, action: Seq<char>, args: TaggedV)
    ensures
        advances(t, progress::calls_for(t, at, p, action, args)),
{
    lemma_with_text(t.book.calls, progress::key_of(p));
}

proof fn lemma_refused_and_barred(
    t: TurnV,
    at: Timestamp,
    of: EventId,
    reason: RejectReasonV,
    line: Seq<char>,
    action: Seq<char>,
)
    ensures
        advances(t, progress::barred(progress::refused(t, at, of, reason, line), action)),
        advances(t, progress::refused(progress::barred(t, action), at, of, reason, line)),
{
    let u = progress::refused(t, at, of, reason, line);
    lemma_refused(t, at, of, reason, line);
    lemma_barred(u, action);
    lemma_chain(t, u, progress::barred(u, action));
    let w = progress::barred(t, action);
    lemma_barred(t, action);
    lemma_refused(w, at, of, reason, line);
    lemma_chain(t, w, progress::refused(w, at, of, reason, line));
}

// ---------------------------------------------------------------------------
// The loop
// ---------------------------------------------------------------------------

/// Every move of the loop advances a turn.
pub proof fn every_step_of_the_loop_advances(
    t: TurnV,
    cfg: EngineConfigV,
    at: Timestamp,
    failure: EmitFailureV,
    said: Seq<char>,
    p: ProposalV,
    answer: Option<Seq<char>>,
    pid: EventId,
    actions: Seq<ActionSpecV>,
    registered: bool,
    pending: Option<EventId>,
)
    ensures
        advances(t, run::collected(t, at)),
        advances(t, run::begun(t, at)),
        advances(t, run::emit_fails(t, at, failure, said)),
        advances(t, run::proposes(t, at, p)),
        advances(t, run::answers(t, cfg, p.action, answer, at)),
        advances(t, run::considered(t, at, pid, p, actions, registered, pending).0),
        advances(t, run::concluded(t, cfg, at)),
{
    lemma_collected(t, at);
    let begun = TurnV { iterations: (t.iterations + 1) as u32, ..t };
    lemma_collected(begun, at);
    lemma_chain(t, begun, run::begun(t, at));
    let reason = match failure {
        EmitFailureV::Provider { status, detail } => RejectReasonV::ProviderUnavailable { status, detail },
        EmitFailureV::Other => RejectReasonV::Malformed { detail: said },
    };
    let line = match failure {
        EmitFailureV::Provider { status, .. } => "provider unavailable: HTTP "@ + crate::text::decimal(status as nat),
        EmitFailureV::Other => "emitter failure: "@ + said,
    };
    lemma_refused(t, at, EventId(0), reason, line);
    lemma_logged(t, at, EventKindV::Proposed { proposal: p });
    lemma_settles(TurnV { draft: answer, ..t }, at, ReplyPolicyV::Generate);
    lemma_considered(t, at, pid, p, actions, registered, pending);
    let u = if t.settled is None {
        run::collected(t, at)
    } else {
        t
    };
    assert(advances(t, u));
    lemma_settles(u, at, run::fallback(cfg, run::why(u, cfg)));
    lemma_chain(t, u, run::concluded(t, cfg, at));
}

proof fn lemma_collected(t: TurnV, at: Timestamp)
    ensures
        advances(t, run::collected(t, at)),
{
    let u = TurnV { held: None, ..t };
    lemma_settles(TurnV { draft: t.held, ..u }, at, ReplyPolicyV::Generate);
}

proof fn lemma_considered(
    t: TurnV,
    at: Timestamp,
    pid: EventId,
    p: ProposalV,
    actions: Seq<ActionSpecV>,
    registered: bool,
    pending: Option<EventId>,
)
    ensures
        advances(t, run::considered(t, at, pid, p, actions, registered, pending).0),
{
    let action = p.action;
    if !legal::offers(actions, action) {
        lemma_refused_and_barred(
            t,
            at,
            pid,
            RejectReasonV::IllegalAction { action },
            "illegal action: "@ + action,
            action,
        );
        let u = if run::tiered_out(t, registered) {
            TurnV { tier: Tier::Task, ..t }
        } else {
            t
        };
        lemma_logged(
            TurnV { selected: None, ..u },
            at,
            EventKindV::Rejected { proposal_of: pid, reason: RejectReasonV::IllegalAction { action } },
        );
    } else {
        let reason = "identical call to '"@ + action + "' already executed this turn"@;
        lemma_refused_and_barred(
            t,
            at,
            pid,
            RejectReasonV::GuardDenied { guard: "repeat_gate"@, reason },
            "guard repeat_gate: "@ + reason,
            action,
        );
        if pending is Some {
            let u = progress::logged(t, at, EventKindV::Confirmed { pending: pending->0 });
            lemma_logged(t, at, EventKindV::Confirmed { pending: pending->0 });
            let detail = RejectReasonV::Malformed { detail: "pending confirmation chain is broken"@ };
            lemma_refused(u, at, pid, detail, "broken confirmation chain"@);
            lemma_chain(t, u, progress::refused(u, at, pid, detail, "broken confirmation chain"@));
        }
    }
}

// ---------------------------------------------------------------------------
// The actions
// ---------------------------------------------------------------------------

/// Every action of the engine's own advances a turn.
pub proof fn every_builtin_advances(
    t: TurnV,
    cx: CtxV,
    cfg: EngineConfigV,
    first: Option<Seq<char>>,
    second: Option<Seq<char>>,
    args: TaggedV,
    plugins: Seq<ObjectionV>,
    current: Seq<FactV>,
    squashed: Seq<Seq<char>>,
    squashed_key: Seq<char>,
    max: nat,
)
    ensures
        advances(t, builtins::asks(t, cx, cfg, first, args, plugins)),
        advances(t, builtins::remembers(t, cx, cfg, first, second, args, current, squashed, squashed_key).0),
        advances(t, builtins::recalls(t, cx, first, args).0),
        advances(t, builtins::inspects(t, cx, max, first, second, args)),
        advances(t, builtins::forgets(t, cx, first, args, current, squashed, squashed_key).0),
        advances(t, builtins::purges(t, cx)),
{
    lemma_asks(t, cx, cfg, first, args, plugins);
    lemma_remembers(t, cx, cfg, first, second, args, current, squashed, squashed_key);
    lemma_recalls(t, cx, first, args);
    lemma_inspects(t, cx, max, first, second, args);
    lemma_forgets(t, cx, first, args, current, squashed, squashed_key);
    lemma_purges(t, cx);
}

proof fn lemma_asks(
    t: TurnV,
    cx: CtxV,
    cfg: EngineConfigV,
    question: Option<Seq<char>>,
    args: TaggedV,
    plugins: Seq<ObjectionV>,
)
    ensures
        advances(t, builtins::asks(t, cx, cfg, question, args, plugins)),
{
    lemma_refused(
        t,
        cx.at,
        cx.pid,
        RejectReasonV::Malformed { detail: "ask_clarification without question"@ },
        "ask_clarification missing question"@,
    );
    if question is Some {
        lemma_settles(t, cx.at, ReplyPolicyV::Verbatim { text: question->0 });
        let o = crate::turn::gate::objection(
            crate::turn::gate::builtins(cfg.confirm_irreversible),
            crate::guards::ClassifiedProposalV { proposal: cx.proposal, args },
            builtins::question_ctx(t, cx, cfg),
            plugins,
        );
        if o is Some {
            let words = builtins::words_of(o->0.verdict);
            lemma_refused_and_barred(
                t,
                cx.at,
                cx.pid,
                RejectReasonV::GuardDenied { guard: o->0.guard, reason: words },
                "guard "@ + o->0.guard + ": "@ + words,
                crate::turn::specs::ASK_CLARIFICATION@,
            );
        }
    }
}

proof fn lemma_remembers(
    t: TurnV,
    cx: CtxV,
    cfg: EngineConfigV,
    raw_key: Option<Seq<char>>,
    value: Option<Seq<char>>,
    args: TaggedV,
    current: Seq<FactV>,
    squashed: Seq<Seq<char>>,
    squashed_key: Seq<char>,
)
    ensures
        advances(t, builtins::remembers(t, cx, cfg, raw_key, value, args, current, squashed, squashed_key).0),
{
    lemma_calls(t, cx.at, cx.proposal, crate::turn::specs::REMEMBER_FACT@, args);
    let reason = "NeverResidual: arg 'value' has no grounding in this session"@;
    let u = progress::refused(
        t,
        cx.at,
        cx.pid,
        RejectReasonV::GuardDenied { guard: "residual_policy"@, reason },
        "guard residual_policy: "@ + reason,
    );
    let w = TurnV { book: BookkeepingV { never_residual: true, ..u.book }, ..u };
    assert(advances(t, w));
    lemma_barred(w, crate::turn::specs::REMEMBER_FACT@);
    lemma_chain(t, w, progress::barred(w, crate::turn::specs::REMEMBER_FACT@));
}

proof fn lemma_recalls(t: TurnV, cx: CtxV, raw_query: Option<Seq<char>>, args: TaggedV)
    ensures
        advances(t, builtins::recalls(t, cx, raw_query, args).0),
{
    lemma_calls(t, cx.at, cx.proposal, crate::turn::specs::RECALL@, args);
}

proof fn lemma_inspects(
    t: TurnV,
    cx: CtxV,
    max: nat,
    raw_id: Option<Seq<char>>,
    raw_query: Option<Seq<char>>,
    args: TaggedV,
)
    ensures
        advances(t, builtins::inspects(t, cx, max, raw_id, raw_query, args)),
{
    let available = crate::trace::inspectable(t.log, t.turn, max);
    let detail = builtins::no_such_result(raw_id, available);
    lemma_refused_and_barred(t, cx.at, cx.pid, RejectReasonV::Malformed { detail }, detail, INSPECT_RESULT@);
    let u = progress::calls_for(t, cx.at, cx.proposal, INSPECT_RESULT@, args);
    lemma_calls(t, cx.at, cx.proposal, INSPECT_RESULT@, args);
    lemma_barred(u, INSPECT_RESULT@);
    let b = progress::barred(u, INSPECT_RESULT@);
    lemma_chain(t, u, b);
    let out = builtins::inspects(t, cx, max, raw_id, raw_query, args);
    if builtins::inspected(raw_id, available) is Some {
        let kind = out.log.last().kind;
        let id = builtins::inspected(raw_id, available)->0;
        let query = builtins::real_query(raw_query);
        let page = crate::trace::pages_seen(t.log, t.turn, id);
        let found = crate::trace::output_of(crate::trace::event_at(u.log, u.turn, id));
        let s = match found {
            Some(o) => o.0,
            None => seq![],
        };
        let w = if crate::trace::window(s, query, page, max).0.len() == 0 {
            b
        } else {
            u
        };
        assert(advances(t, w));
        lemma_logged(w, cx.at, kind);
        lemma_chain(t, w, progress::logged(w, cx.at, kind));
        assert(out == progress::logged(w, cx.at, kind));
    }
}

proof fn lemma_forgets(
    t: TurnV,
    cx: CtxV,
    raw_key: Option<Seq<char>>,
    args: TaggedV,
    current: Seq<FactV>,
    squashed: Seq<Seq<char>>,
    squashed_key: Seq<char>,
)
    ensures
        advances(t, builtins::forgets(t, cx, raw_key, args, current, squashed, squashed_key).0),
{
    lemma_calls(t, cx.at, cx.proposal, crate::turn::specs::FORGET_FACT@, args);
    if raw_key is Some {
        let key = match builtins::meant(current, squashed, builtins::clean_key(raw_key->0), squashed_key) {
            Some(k) => k,
            None => builtins::clean_key(raw_key->0),
        };
        let detail = "forget_fact: no current fact named "@ + key;
        let u = progress::refused(t, cx.at, cx.pid, RejectReasonV::Malformed { detail }, detail);
        let w = TurnV { book: BookkeepingV { forget_misses: (u.book.forget_misses + 1) as u32, ..u.book }, ..u };
        assert(advances(t, w));
        lemma_barred(w, crate::turn::specs::FORGET_FACT@);
        lemma_chain(t, w, progress::barred(w, crate::turn::specs::FORGET_FACT@));
    }
}

proof fn lemma_purges(t: TurnV, cx: CtxV)
    ensures
        advances(t, builtins::purges(t, cx)),
{
    lemma_calls(t, cx.at, cx.proposal, FORGET_ALL@, seq![]);
    let kind = EventKindV::PendingConfirmation {
        proposal_of: cx.pid,
        staged: Some(StagedEffectV { description: builtins::purge_plan(t.scope) }),
    };
    let u = progress::logged(t, cx.at, kind);
    lemma_logged(t, cx.at, kind);
    let policy = ReplyPolicyV::Verbatim {
        text: "'"@ + FORGET_ALL@ + "' is irreversible. Confirm to proceed.\nPlanned: "@ + builtins::purge_plan(t.scope),
    };
    lemma_settles(u, cx.at, policy);
    lemma_chain(t, u, progress::settles(u, cx.at, policy));
}

/// Running a registered tool, and staging one, advance a turn.
pub proof fn every_tool_step_advances(
    t: TurnV,
    cx: CtxV,
    cfg: EngineConfigV,
    spec: ActionSpecV,
    invalid: Option<Seq<char>>,
    args: TaggedV,
    plugins: Seq<ObjectionV>,
    prompt: Seq<char>,
    staged: Option<StagedEffectV>,
)
    ensures
        advances(t, tools::judged(t, cx, cfg, spec, invalid, args, plugins).0),
        advances(t, tools::stages(t, cx, prompt, staged)),
{
    let action = cx.proposal.action;
    lemma_calls(t, cx.at, cx.proposal, action, args);
    let o = crate::turn::gate::objection(
        crate::turn::gate::builtins(cfg.confirm_irreversible),
        crate::guards::ClassifiedProposalV { proposal: cx.proposal, args },
        tools::tool_ctx(t, cx, spec),
        plugins,
    );
    if invalid is None && o is Some {
        match o->0.verdict {
            crate::guards::VerdictV::Deny { reason } => {
                let guard = o->0.guard;
                let marked = TurnV {
                    book: BookkeepingV {
                        never_residual: t.book.never_residual || crate::text::contains(reason, "NeverResidual"@),
                        ..t.book
                    },
                    ..t
                };
                assert(advances(t, marked));
                lemma_refused_and_barred(
                    marked,
                    cx.at,
                    cx.pid,
                    RejectReasonV::GuardDenied { guard, reason },
                    "guard "@ + guard + ": "@ + reason,
                    action,
                );
                lemma_chain(t, marked, tools::denied_by(t, cx, guard, reason));
            },
            _ => {},
        }
    }
    let kind = EventKindV::PendingConfirmation { proposal_of: cx.pid, staged };
    let u = progress::logged(t, cx.at, kind);
    lemma_logged(t, cx.at, kind);
    let policy = ReplyPolicyV::Verbatim { text: tools::confirmation(prompt, staged) };
    lemma_settles(u, cx.at, policy);
    lemma_chain(t, u, progress::settles(u, cx.at, policy));
}

/// Writing the reply advances a turn.
pub proof fn every_reply_step_advances(
    t: TurnV,
    ctx: ReplyContextV,
    draft: Seq<char>,
    spans: Seq<Seq<char>>,
    at: Timestamp,
)
    ensures
        advances(t, reply::flags(t, draft, spans, at)),
        advances(t, reply::cites(t, ctx, draft, at)),
{
}

// ---------------------------------------------------------------------------
// Promises
// ---------------------------------------------------------------------------

/// However many moves a turn makes, it has moved on from where it began: moves
/// compose.
pub proof fn moves_compose(t: TurnV, u: TurnV, w: TurnV)
    requires
        advances(t, u),
        advances(u, w),
    ensures
        advances(t, t),
        advances(t, w),
{
    lemma_chain(t, u, w);
}

/// An identical call never runs twice on a turn; only a result may be paged
/// through by the same words.
pub proof fn a_call_runs_once_on_a_turn(
    t: TurnV,
    at: Timestamp,
    pid: EventId,
    p: ProposalV,
    actions: Seq<ActionSpecV>,
    registered: bool,
    pending: Option<EventId>,
)
    requires
        t.book.calls.contains(progress::key_of(p)),
        p.action != INSPECT_RESULT@,
    ensures
        run::considered(t, at, pid, p, actions, registered, pending).1 is Refused,
{
}

/// What is not on offer is not run.
pub proof fn only_what_is_offered_runs(
    t: TurnV,
    at: Timestamp,
    pid: EventId,
    p: ProposalV,
    actions: Seq<ActionSpecV>,
    registered: bool,
    pending: Option<EventId>,
)
    ensures
        run::considered(t, at, pid, p, actions, registered, pending).1 is Admitted ==> legal::offers(actions, p.action),
{
}

/// What is staged can be confirmed on the turn that staged it and on the next
/// one, and then no more.
pub proof fn a_confirmation_expires(s: SessionStateV, turn: u32)
    ensures
        run::active_pending(s, turn) is Some <==> s.pending_confirmation is Some && (s.pending_turn matches Some(pt)
            && (turn == pt || turn == pt + 1)),
        run::active_pending(s, turn) is Some ==> run::active_pending(s, turn) == s.pending_confirmation,
{
}

/// A confirmation runs the proposal that was staged, and nothing else.
pub proof fn confirming_runs_what_was_staged(
    t: TurnV,
    at: Timestamp,
    pid: EventId,
    p: ProposalV,
    actions: Seq<ActionSpecV>,
    registered: bool,
    pending: EventId,
)
    requires
        p.action == CONFIRM_PENDING@,
    ensures
        run::considered(t, at, pid, p, actions, registered, Some(pending)).1 matches AdmissionV::Admitted {
            proposal,
            confirmed_now,
        } ==> confirmed_now && run::staged_proposal(
            progress::logged(t, at, EventKindV::Confirmed { pending }).log,
            pending,
        ) == Some(proposal),
{
    reveal_strlit("confirm_pending");
    reveal_strlit("inspect_result");
    assert(CONFIRM_PENDING@.len() != INSPECT_RESULT@.len());
}

/// A misroute costs one iteration: after the turn widened, the same proposal is
/// hidden by neither the tier nor the selection.
pub proof fn widening_happens_once(
    t: TurnV,
    at: Timestamp,
    pid: EventId,
    registered: bool,
    action: Seq<char>,
)
    requires
        run::tiered_out(t, registered) || run::withheld(t, registered, action),
    ensures
        ({
            let u = run::not_offered(t, at, pid, registered, action);
            &&& !run::tiered_out(u, registered)
            &&& run::withheld(t, registered, action) ==> !run::withheld(u, registered, action)
            &&& u.book.denied == t.book.denied
        }),
{
}

/// Forgetting everything is never done on a turn on which the user confirmed
/// nothing: the turn ends on the question instead.
pub proof fn forgetting_everything_waits_for_the_user(t: TurnV, cx: CtxV)
    requires
        !cx.confirmed(t.turn),
    ensures
        builtins::purges(t, cx).settled is Some,
        builtins::purges(t, cx).book.calls == t.book.calls,
        forall|i: int|
            t.log.len() <= i < builtins::purges(t, cx).log.len() ==> !((#[trigger] builtins::purges(
                t,
                cx,
            ).log[i]).kind is ToolCalled),
{
}

/// Every turn ends: once it is concluded its end is decided, and whatever was
/// decided before stays.
pub proof fn every_turn_is_settled(t: TurnV, cfg: EngineConfigV, at: Timestamp)
    ensures
        run::concluded(t, cfg, at).settled is Some,
        t.settled is Some ==> run::concluded(t, cfg, at) == t,
{
}

/// Restating a value keeps the version that holds it; a new value begins a
/// version that comes after the one it replaces, with no exposure of its own.
pub proof fn a_restatement_is_no_new_version(
    prev: FactV,
    key: Seq<char>,
    value: Seq<char>,
    prov: ProvenanceV,
    trust: Trust,
    scope: Seq<char>,
    at: Timestamp,
)
    requires
        prev.valid_from.0 < u64::MAX,
    ensures
        ({
            let f = builtins::fact_to_write(Some(prev), key, value, prov, trust, scope, at);
            &&& f.state == FactState::Current
            &&& f.uses == prev.uses
            &&& prev.value == value ==> f.valid_from == prev.valid_from && f.value == prev.value && f.exposures
                == prev.exposures && f.credits == prev.credits
            &&& prev.value != value ==> f.valid_from.0 > prev.valid_from.0 && f.value == value && f.exposures == 0
                && f.credits == 0
        }),
{
}

/// A value that nothing grounds is stored half sure where it is new, and a tenth
/// surer each time it is stated again.
pub proof fn an_ungrounded_value_is_not_sure(
    key: Seq<char>,
    value: Seq<char>,
    prov: ProvenanceV,
    trust: Trust,
    scope: Seq<char>,
    at: Timestamp,
    prev: Option<FactV>,
)
    requires
        crate::types::residual(prov),
    ensures
        builtins::fact_to_write(prev, key, value, prov, trust, scope, at).confidence_pct == (match prev {
            Some(p) => if p.value != value {
                50
            } else if p.confidence_pct >= 90 {
                100
            } else {
                (p.confidence_pct + 10) as u32
            },
            None => 50,
        }),
{
}

/// What a refusal records is in the log and in the next prompt alike.
pub proof fn refusals_are_said_twice(
    t: TurnV,
    at: Timestamp,
    of: EventId,
    reason: RejectReasonV,
    line: Seq<char>,
)
    ensures
        progress::refused(t, at, of, reason, line).log.last().kind == (EventKindV::Rejected { proposal_of: of, reason }),
        progress::refused(t, at, of, reason, line).book.rejections == t.book.rejections.push(line),
{
}

// ---------------------------------------------------------------------------
// Steering
// ---------------------------------------------------------------------------

/// Going round the loop advances a turn; a further proposal is asked for at most
/// as often as the settings say, and never on a settled turn; and where nothing
/// more is needed the turn is settled.
pub proof fn going_round_is_bounded(t: TurnV, w: AroundV, at: Timestamp)
    ensures
        advances(t, steer::goes_round(t, w, at).0),
        steer::goes_round(t, w, at).1 is Proposal ==> {
            &&& t.settled is None
            &&& steer::goes_round(t, w, at).0.iterations == t.iterations + 1
            &&& steer::goes_round(t, w, at).0.iterations <= w.cfg.max_iterations
        },
        steer::goes_round(t, w, at).1 is Proposal || steer::goes_round(t, w, at).1 is Nothing,
        steer::goes_round(t, w, at).1 matches NeedV::Nothing { policy } ==> steer::goes_round(t, w, at).0.settled
            == Some(policy),
        t.settled is Some ==> steer::goes_round(t, w, at).0 == t,
{
    let u = run::begun(t, at);
    lemma_collected(TurnV { iterations: (t.iterations + 1) as u32, ..t }, at);
    assert(advances(t, TurnV { iterations: (t.iterations + 1) as u32, ..t }));
    lemma_chain(t, TurnV { iterations: (t.iterations + 1) as u32, ..t }, u);
    lemma_ends(t, w.cfg, at);
    lemma_ends(u, w.cfg, at);
    lemma_chain(t, u, steer::ends(u, w.cfg, at).0);
}

proof fn lemma_ends(t: TurnV, cfg: EngineConfigV, at: Timestamp)
    ensures
        advances(t, steer::ends(t, cfg, at).0),
        steer::ends(t, cfg, at).0.settled is Some,
{
    lemma_collected(t, at);
    let u = run::collected(t, at);
    lemma_settles(u, at, run::fallback(cfg, run::why(u, cfg)));
    lemma_chain(t, u, progress::settles(u, at, run::fallback(cfg, run::why(u, cfg))));
}

/// Whatever comes of asking for a proposal advances the turn. What goes on to be
/// run was on offer, or is what the user confirmed.
pub proof fn weighing_advances(
    t: TurnV,
    w: AroundV,
    failure: EmitFailureV,
    said: Seq<char>,
    retryable: bool,
    raw: ProposalV,
    p: ProposalV,
    answer: Option<Seq<char>>,
    line: Option<Seq<char>>,
    state: SessionStateV,
    actions: Seq<ActionSpecV>,
    pending: Option<EventId>,
    at: Timestamp,
)
    ensures
        advances(t, steer::unproposed(t, w, failure, said, retryable, at).0),
        advances(t, steer::weighed(t, w, raw, p, answer, line, state, actions, pending, at).0),
        steer::weighed(t, w, raw, p, answer, line, state, actions, pending, at).1 matches NeedV::Arguments { cx } ==> {
            &&& legal::offers(actions, p.action)
            &&& cx.proposal == p
            &&& !cx.confirmed_now
        },
        steer::weighed(t, w, raw, p, answer, line, state, actions, pending, at).1 matches NeedV::Repair { cx } ==> {
            &&& legal::offers(actions, p.action)
            &&& p.action == CONFIRM_PENDING@
            &&& cx.confirmed_now
        },
{
    let f = run::emit_fails(t, at, failure, said);
    let text = steer::asked_for(t, w, answer);
    every_step_of_the_loop_advances(t, w.cfg, at, failure, said, raw, text, EventId(0), actions, true, pending);
    lemma_ends(f, w.cfg, at);
    lemma_chain(t, f, steer::ends(f, w.cfg, at).0);
    going_round_is_bounded(f, w, at);
    lemma_chain(t, f, steer::goes_round(f, w, at).0);
    let pid = progress::next(t);
    let a = run::proposes(t, at, raw);
    let u = run::answers(a, w.cfg, p.action, text, at);
    every_step_of_the_loop_advances(a, w.cfg, at, failure, said, p, text, pid, actions, true, pending);
    lemma_chain(t, a, u);
    lemma_ends(u, w.cfg, at);
    lemma_chain(t, u, steer::ends(u, w.cfg, at).0);
    let registered = legal::offers(w.tools, p.action);
    let s = run::tells(u, steer::asked_for(t, w, line), at);
    lemma_tells(u, steer::asked_for(t, w, line), at);
    lemma_chain(t, u, s);
    every_step_of_the_loop_advances(s, w.cfg, at, failure, said, p, text, pid, actions, registered, pending);
    let v = run::considered(s, at, pid, p, actions, registered, pending).0;
    lemma_chain(t, s, v);
    going_round_is_bounded(v, w, at);
    lemma_chain(t, v, steer::goes_round(v, w, at).0);
}

/// What the user is told before an action runs stands in the log, whatever
/// becomes of the action.
pub proof fn what_the_user_is_told_is_recorded(
    t: TurnV,
    w: AroundV,
    raw: ProposalV,
    p: ProposalV,
    answer: Option<Seq<char>>,
    line: Option<Seq<char>>,
    state: SessionStateV,
    actions: Seq<ActionSpecV>,
    pending: Option<EventId>,
    at: Timestamp,
)
    requires
        steer::told(t, w, p, line) is Some,
    ensures
        exists|i: int|
            t.log.len() <= i < steer::weighed(t, w, raw, p, answer, line, state, actions, pending, at).0.log.len()
                && (#[trigger] steer::weighed(t, w, raw, p, answer, line, state, actions, pending, at).0.log[i]).kind
                == (EventKindV::Said { text: steer::told(t, w, p, line)->0 }),
{
    let end = steer::weighed(t, w, raw, p, answer, line, state, actions, pending, at).0;
    let pid = progress::next(t);
    let a = run::proposes(t, at, raw);
    let u = run::answers(a, w.cfg, p.action, steer::asked_for(t, w, answer), at);
    let s = run::tells(u, steer::asked_for(t, w, line), at);
    let registered = legal::offers(w.tools, p.action);
    lemma_considered(s, at, pid, p, actions, registered, pending);
    let v = run::considered(s, at, pid, p, actions, registered, pending).0;
    going_round_is_bounded(v, w, at);
    lemma_chain(s, v, steer::goes_round(v, w, at).0);
    let i = s.log.len() - 1;
    assert(s.log[i].kind == (EventKindV::Said { text: steer::told(t, w, p, line)->0 }));
    assert(end.log[i] == s.log[i]);
}

/// Reading a confirmed proposal with the learned repairs advances the turn. What
/// goes on is the repaired proposal, still confirmed, and something runs it.
pub proof fn repairing_advances(t: TurnV, w: AroundV, cx: CtxV, said: ProposalV)
    ensures
        advances(t, steer::repaired(t, w, cx, said).0),
        steer::runs(w, said.action) ==> steer::repaired(t, w, cx, said) == (
            t,
            NeedV::Arguments { cx: CtxV { proposal: said, ..cx } },
        ),
        !steer::runs(w, said.action) ==> steer::repaired(t, w, cx, said).1 is Proposal || steer::repaired(
            t,
            w,
            cx,
            said,
        ).1 is Nothing,
{
    let line = "illegal action: "@ + said.action;
    let reason = RejectReasonV::IllegalAction { action: said.action };
    lemma_refused_and_barred(t, cx.at, cx.pid, reason, line, said.action);
    lemma_round(t, progress::barred(progress::refused(t, cx.at, cx.pid, reason, line), said.action), w, cx.at);
}

/// Running a proposal advances the turn. A tool is called only where its schema
/// takes the arguments and no guard objects, and everything is forgotten only
/// where the user confirmed it.
pub proof fn trying_advances(t: TurnV, w: AroundV, cx: CtxV, h: ArgumentsV)
    ensures
        advances(t, steer::tried(t, w, cx, h).0),
        steer::tried(t, w, cx, h).1 is Call ==> {
            &&& h.invalid is None
            &&& steer::tool_named(w.tools, cx.proposal.action) matches Some(spec) && gate::objection(
                gate::builtins(w.cfg.confirm_irreversible),
                ClassifiedProposalV { proposal: cx.proposal, args: h.args },
                tools::tool_ctx(t, cx, spec),
                h.plugins,
            ) is None
        },
        steer::tried(t, w, cx, h).1 is Purge ==> cx.confirmed(t.turn),
{
    let args = cx.proposal.args;
    let key = json::json_str_at(args, "/key"@);
    let value = json::json_str_at(args, "/value"@);
    let query = json::json_str_at(args, "/query"@);
    let id = json::json_str_at(args, "/id"@);
    let question = json::json_str_at(args, "/question"@);
    let max = w.cfg.tool_result_max_chars as nat;
    let (c, q, k) = (h.current, h.squashed, h.squashed_key);
    match builtins::builtin_named(cx.proposal.action) {
        Some(Builtin::AskClarification) => {
            every_builtin_advances(t, cx, w.cfg, question, value, h.args, h.plugins, c, q, k, max);
            lemma_round(t, builtins::asks(t, cx, w.cfg, question, h.args, h.plugins), w, cx.at);
        },
        Some(Builtin::RememberFact) => {
            every_builtin_advances(t, cx, w.cfg, key, value, h.args, h.plugins, c, q, k, max);
            lemma_round(t, builtins::remembers(t, cx, w.cfg, key, value, h.args, c, q, k).0, w, cx.at);
        },
        Some(Builtin::Recall) => {
            every_builtin_advances(t, cx, w.cfg, query, value, h.args, h.plugins, c, q, k, max);
            lemma_round(t, builtins::recalls(t, cx, query, h.args).0, w, cx.at);
        },
        Some(Builtin::InspectResult) => {
            every_builtin_advances(t, cx, w.cfg, id, query, h.args, h.plugins, c, q, k, max);
            lemma_round(t, builtins::inspects(t, cx, max, id, query, h.args), w, cx.at);
        },
        Some(Builtin::ForgetFact) => {
            every_builtin_advances(t, cx, w.cfg, key, value, h.args, h.plugins, c, q, k, max);
            lemma_round(t, builtins::forgets(t, cx, key, h.args, c, q, k).0, w, cx.at);
        },
        Some(Builtin::ForgetAll) => {
            every_builtin_advances(t, cx, w.cfg, key, value, h.args, h.plugins, c, q, k, max);
            lemma_round(t, builtins::purges(t, cx), w, cx.at);
        },
        None => {
            going_round_is_bounded(t, w, cx.at);
            if let Some(spec) = steer::tool_named(w.tools, cx.proposal.action) {
                every_tool_step_advances(t, cx, w.cfg, spec, h.invalid, h.args, h.plugins, seq![], None);
                lemma_round(t, tools::judged(t, cx, w.cfg, spec, h.invalid, h.args, h.plugins).0, w, cx.at);
            }
        },
    }
}

proof fn lemma_round(t: TurnV, u: TurnV, w: AroundV, at: Timestamp)
    requires
        advances(t, u),
    ensures
        advances(t, steer::goes_round(u, w, at).0),
        steer::goes_round(u, w, at).1 is Proposal || steer::goes_round(u, w, at).1 is Nothing,
{
    going_round_is_bounded(u, w, at);
    lemma_chain(t, u, steer::goes_round(u, w, at).0);
}

/// What comes of a call advances the turn, and what came is the next event.
pub proof fn coming_back_advances(t: TurnV, w: AroundV, call: EventId, outcome: ToolOutcomeV, at: Timestamp)
    ensures
        advances(t, steer::came_back(t, w, call, outcome, at).0),
        steer::came_back(t, w, call, outcome, at).0.log[t.log.len() as int].kind == (EventKindV::ToolReturned {
            call,
            outcome,
        }),
{
    let u = progress::returns_with(t, at, call, outcome);
    lemma_logged(t, at, EventKindV::ToolReturned { call, outcome });
    lemma_round(t, u, w, at);
    going_round_is_bounded(u, w, at);
    assert(u.log[t.log.len() as int].kind == (EventKindV::ToolReturned { call, outcome }));
}

/// Looking at a draft advances the turn. A draft that is not checked leaves no
/// trace, and one is asked for again without its claims only where it states
/// something that nothing supports.
pub proof fn looking_advances(
    t: TurnV,
    cfg: EngineConfigV,
    ctx: ReplyContextV,
    draft: Seq<char>,
    copies: bool,
    addressed: Seq<bool>,
    at: Timestamp,
)
    ensures
        advances(t, steer::looked_at(t, cfg, ctx, draft, copies, addressed, at).0),
        !cfg.reply_grounding_check ==> steer::looked_at(t, cfg, ctx, draft, copies, addressed, at).0 == t,
        steer::looked_at(t, cfg, ctx, draft, copies, addressed, at).1 is WithoutClaims ==> reply::unsupported_in(
            ctx,
            draft,
        ).len() > 0,
{
    let spans = reply::unsupported_in(ctx, draft);
    if let Some(e) = reply::echo_in(ctx, draft) {
        let kind = EventKindV::ReplyEchoed { draft, span: e.span, copied: e.copied, words: e.words };
        let u = progress::logged(t, at, kind);
        lemma_logged(t, at, kind);
        every_reply_step_advances(u, ctx, draft, spans, at);
        let v = reply::flags(u, draft, spans, at);
        lemma_chain(t, u, v);
        every_reply_step_advances(v, ctx, draft, spans, at);
        lemma_chain(t, v, reply::cites(v, ctx, draft, at));
    }
    every_reply_step_advances(t, ctx, draft, spans, at);
    let v = reply::flags(t, draft, spans, at);
    every_reply_step_advances(v, ctx, draft, spans, at);
    lemma_chain(t, v, reply::cites(v, ctx, draft, at));
}

// ---------------------------------------------------------------------------
// Whole turns
// ---------------------------------------------------------------------------

/// A turn advances to itself.
pub proof fn every_turn_follows_itself(t: TurnV)
    ensures
        advances(t, t),
{
}

/// Recording anything advances a turn.
pub proof fn recording_advances(t: TurnV, at: Timestamp, kind: EventKindV)
    ensures
        advances(t, progress::logged(t, at, kind)),
{
    lemma_logged(t, at, kind);
}

/// Ending a turn on the question whether to go on advances it.
pub proof fn staging_advances(
    t: TurnV,
    cx: CtxV,
    cfg: EngineConfigV,
    prompt: Seq<char>,
    staged: Option<StagedEffectV>,
    at: Timestamp,
)
    ensures
        advances(t, steer::ends(tools::stages(t, cx, prompt, staged), cfg, at).0),
{
    let pending = EventKindV::PendingConfirmation { proposal_of: cx.pid, staged };
    let u = progress::logged(t, cx.at, pending);
    let policy = ReplyPolicyV::Verbatim { text: tools::confirmation(prompt, staged) };
    lemma_logged(t, cx.at, pending);
    lemma_settles(u, cx.at, policy);
    let v = tools::stages(t, cx, prompt, staged);
    lemma_chain(t, u, v);
    lemma_ends(v, cfg, at);
    lemma_chain(t, v, steer::ends(v, cfg, at).0);
}

/// Booking model calls advances a turn.
pub proof fn booking_advances(t: TurnV, calls: Seq<BookedCallV>, manifest: ManifestV)
    ensures
        advances(t, steer::with_calls(t, calls, manifest)),
    decreases calls.len(),
{
    if calls.len() > 0 {
        let rest = calls.drop_last();
        booking_advances(t, rest, manifest);
        let u = steer::with_calls(t, rest, manifest);
        let v = steer::with_calls(t, calls, manifest);
        lemma_logged(u, calls.last().at, EventKindV::ModelCall { usage: calls.last().usage, manifest });
        assert(v == progress::logged(
            u,
            calls.last().at,
            EventKindV::ModelCall { usage: calls.last().usage, manifest },
        ));
        lemma_chain(t, u, v);
    }
}

proof fn lemma_numbers(stored: Seq<EventV>, log: Seq<EventV>, j: int)
    requires
        stored.is_prefix_of(log),
        stored.len() <= j < log.len(),
        forall|i: int| stored.len() <= i < log.len() ==> #[trigger] follows(log, i),
        events::next_id(stored) + log.len() - stored.len() <= u64::MAX,
    ensures
        log[j].id.0 == events::next_id(stored) + j - stored.len(),
    decreases j,
{
    assert(follows(log, j));
    if j > stored.len() {
        lemma_numbers(stored, log, j - 1);
    } else if j > 0 {
        assert(log[j - 1] == stored[j - 1]);
    }
}

/// What any run of moves adds to the log that a turn began from, once the reply is
/// recorded: its own events behind, all on the turn after the last one and numbered
/// on, the message first and the reply last. `first` is the turn once it was routed.
pub proof fn what_a_run_of_moves_adds(
    session: Seq<char>,
    stored: Seq<EventV>,
    scope: Seq<char>,
    user_text: Seq<char>,
    at: Timestamp,
    first: TurnV,
    end: TurnV,
    reply: Seq<char>,
    then: Timestamp,
)
    requires
        events::rising(stored),
        stored.len() > 0 ==> stored[0].id.0 > 0,
        state::folded(stored).turn < u32::MAX,
        first == (TurnV {
            tier: first.tier,
            selected: first.selected,
            cues: first.cues,
            ..run::opened(session, stored, scope, user_text, at)
        }),
        advances(first, end),
        events::next_id(stored) + end.log.len() + 1 - stored.len() <= u64::MAX,
    ensures
        ({
            let done = progress::logged(end, then, EventKindV::Replied { text: reply });
            &&& stored.is_prefix_of(done.log)
            &&& done.log.len() >= stored.len() + 2
            &&& done.log[stored.len() as int].kind == (EventKindV::UserSaid { text: user_text })
            &&& done.log.last().kind == (EventKindV::Replied { text: reply })
            &&& forall|i: int|
                stored.len() <= i < done.log.len() ==> (#[trigger] done.log[i]).turn == state::folded(stored).turn + 1
                    && done.log[i].id.0 == events::next_id(stored) + i - stored.len()
            &&& events::rising(done.log)
            &&& done.log[0].id.0 > 0
        }),
{
    let n = stored.len() as int;
    let done = progress::logged(end, then, EventKindV::Replied { text: reply });
    lemma_logged(end, then, EventKindV::Replied { text: reply });
    lemma_chain(first, end, done);
    assert(first.log[n].kind == (EventKindV::UserSaid { text: user_text }));
    assert(first.log.take(n) =~= stored);
    assert(stored.is_prefix_of(done.log)) by {
        assert forall|i: int| 0 <= i < n implies done.log[i] == stored[i] by {
            assert(done.log[i] == first.log[i]);
        }
        assert(done.log.take(n) =~= stored);
    }
    assert forall|i: int| n <= i < done.log.len() implies #[trigger] follows(done.log, i) by {
        if i == n {
            assert(done.log[n] == first.log[n]);
            if n > 0 {
                assert(done.log[n - 1] == first.log[n - 1]);
            }
        }
    }
    assert forall|i: int| n <= i < done.log.len() implies (#[trigger] done.log[i]).turn == state::folded(stored).turn + 1
        && done.log[i].id.0 == events::next_id(stored) + i - n by {
        lemma_numbers(stored, done.log, i);
        if i == n {
            assert(done.log[n] == first.log[n]);
        }
    }
    assert(events::rising(done.log)) by {
        assert forall|i: int, j: int| 0 <= i < j < done.log.len() implies (#[trigger] done.log[i]).id.0 < (
        #[trigger] done.log[j]).id.0 by {
            if i < n {
                assert(done.log[i] == stored[i]);
                assert(stored[i].id.0 <= stored[n - 1].id.0);
            }
            if j < n {
                assert(done.log[j] == stored[j]);
            }
        }
    }
    assert(done.log[0].id.0 > 0) by {
        if n > 0 {
            assert(done.log[0] == stored[0]);
        }
    }
}

/// What was staged is found in a longer log as it was.
pub proof fn what_was_staged_stays(log: Seq<EventV>, more: Seq<EventV>, id: EventId)
    requires
        log.len() <= more.len(),
        forall|i: int| 0 <= i < log.len() ==> more[i] == log[i],
        run::staged_proposal(log, id) is Some,
    ensures
        run::staged_proposal(more, id) == run::staged_proposal(log, id),
{
    lemma_event_stays(log, more, id);
    if let EventKindV::PendingConfirmation { proposal_of, .. } = run::event_with(log, id)->0.kind {
        lemma_event_stays(log, more, proposal_of);
    }
}

proof fn lemma_event_stays(log: Seq<EventV>, more: Seq<EventV>, id: EventId)
    requires
        log.len() <= more.len(),
        forall|i: int| 0 <= i < log.len() ==> more[i] == log[i],
        run::event_with(log, id) is Some,
    ensures
        run::event_with(more, id) == run::event_with(log, id),
    decreases log.len(),
{
    if log.len() > 0 {
        assert(more[0] == log[0]);
        if log[0].id != id {
            assert forall|i: int| 0 <= i < log.drop_first().len() implies more.drop_first()[i] == log.drop_first()[i] by {
                assert(more[i + 1] == log[i + 1]);
            }
            lemma_event_stays(log.drop_first(), more.drop_first(), id);
        }
    }
}

} // verus!
