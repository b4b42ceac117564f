use ns_engine::events::{
    EventKind, EventLog, Proposal, RejectReason, ReplyPolicy, SessionSummary, StagedEffect, ToolOutcome, ToolOutput,
};
use ns_engine::state::{fold, state_summary};
use ns_engine::turn::specs::FALLBACK_REPLY;
use ns_engine::types::{EventId, Json, Provenance, SessionId, TaggedValue, Timestamp, Trust};

fn session(name: &str) -> SessionId {
    SessionId(name.to_string())
}

fn said(text: &str) -> EventKind {
    EventKind::UserSaid { text: text.to_string() }
}

fn replied(text: &str) -> EventKind {
    EventKind::Replied { text: text.to_string() }
}

fn proposed(action: &str, args: &str) -> EventKind {
    EventKind::Proposed {
        proposal: Proposal {
            rationale: String::new(),
            action: action.to_string(),
            args: Json { text: args.to_string() },
        },
    }
}

fn called(action: &str) -> EventKind {
    EventKind::ToolCalled { action: action.to_string(), args: vec![] }
}

#[test]
fn fold_builds_history_and_tracks_confirmation() {
    let mut log = EventLog::new(session("s"));
    log.append(1, Timestamp(1), said("hi"));
    log.append(1, Timestamp(2), replied("hello"));
    log.append(2, Timestamp(3), said("delete it"));
    let pending_id = log.append(
        2,
        Timestamp(4),
        EventKind::PendingConfirmation { proposal_of: EventId(3), staged: None },
    );
    let s = fold(&log.events);
    assert_eq!(s.turn, 2);
    assert_eq!(s.history.len(), 3);
    assert_eq!(s.pending_confirmation, Some(pending_id));

    let mut log2 = EventLog::from_events(session("s"), log.events.clone());
    log2.append(3, Timestamp(5), EventKind::Confirmed { pending: pending_id });
    let s2 = fold(&log2.events);
    assert_eq!(s2.pending_confirmation, None);
}

#[test]
fn fold_tracks_fired_actions_pending_turn_and_confirmation_turn() {
    let mut log = EventLog::new(session("s"));
    log.append(1, Timestamp(1), said("go"));
    log.append(1, Timestamp(2), called("echo"));
    let pending = log.append(
        1,
        Timestamp(3),
        EventKind::PendingConfirmation { proposal_of: EventId(1), staged: None },
    );
    let s = fold(&log.events);
    assert!(s.fired_tags.contains(&"echo".to_string()));
    assert_eq!(s.pending_confirmation, Some(pending));
    assert_eq!(s.pending_turn, Some(1));
    assert_eq!(s.confirmed_this_turn_of, None);

    log.append(2, Timestamp(4), said("yes"));
    log.append(2, Timestamp(5), EventKind::Confirmed { pending });
    let s2 = fold(&log.events);
    assert_eq!(s2.pending_confirmation, None);
    assert_eq!(s2.pending_turn, None);
    assert_eq!(s2.confirmed_this_turn_of, Some(2));
}

fn tv(json: &str) -> TaggedValue {
    TaggedValue { value: Json { text: json.to_string() }, prov: Provenance::Residual, trust: Trust::System }
}

fn ok(summary: &str, trust: Trust) -> ToolOutcome {
    ToolOutcome::Done { output: ToolOutput { summary: summary.to_string(), artifact: None, trust } }
}

#[test]
fn fold_builds_one_verbatim_record_per_completed_turn() {
    let mut log = EventLog::new(session("r"));
    let t = Timestamp(1);
    // turn 1: a tool call with an external result, a guard denial, a fact
    log.append(1, t, said("check stock\nplease"));
    log.append(1, t, proposed("check_stock", "{}"));
    let c = log.append(1, t, called("check_stock"));
    log.append(1, t, EventKind::ToolReturned { call: c, outcome: ok("12 in stock", Trust::External) });
    let p2 = log.append(1, t, proposed("wipe", "{}"));
    log.append(
        1,
        t,
        EventKind::Rejected {
            proposal_of: p2,
            reason: RejectReason::GuardDenied { guard: "taint_policy".to_string(), reason: "external".to_string() },
        },
    );
    let c2 = log.append(
        1,
        t,
        EventKind::ToolCalled {
            action: "remember_fact".to_string(),
            args: vec![("key".to_string(), tv("\"user.age\"")), ("value".to_string(), tv("\"17\""))],
        },
    );
    log.append(1, t, EventKind::ToolReturned { call: c2, outcome: ok("remembered user.age", Trust::System) });
    log.append(1, t, EventKind::Settled { policy: ReplyPolicy::Generate });
    log.append(1, t, replied("Twelve."));
    // turn 2: clarification
    log.append(2, t, said("text"));
    log.append(2, t, proposed("ask_clarification", "{\"question\":\"To whom?\"}"));
    log.append(2, t, EventKind::Settled { policy: ReplyPolicy::Verbatim { text: "To whom?".to_string() } });
    log.append(2, t, replied("To whom?"));
    // turn 3: staged, then turn 4 confirmed and run; turn 5 in progress
    log.append(3, t, said("wipe it"));
    let p3 = log.append(3, t, proposed("wipe", "{}"));
    let pend = log.append(
        3,
        t,
        EventKind::PendingConfirmation {
            proposal_of: p3,
            staged: Some(StagedEffect { description: "would delete 3 rows".to_string() }),
        },
    );
    log.append(
        3,
        t,
        EventKind::Settled {
            policy: ReplyPolicy::Verbatim { text: "'wipe' is irreversible. Confirm to proceed.".to_string() },
        },
    );
    log.append(3, t, replied("'wipe' is irreversible. Confirm to proceed."));
    log.append(4, t, said("yes"));
    log.append(4, t, EventKind::Confirmed { pending: pend });
    let c3 = log.append(4, t, called("wipe"));
    log.append(4, t, EventKind::ToolReturned { call: c3, outcome: ok("wiped", Trust::System) });
    log.append(4, t, EventKind::ReplyFailed { detail: "status 402".to_string() });
    log.append(4, t, replied("Sorry, I couldn't complete that."));
    log.append(5, t, said("in progress"));

    let s = fold(&log.events);
    assert_eq!(s.records.len(), 4, "the turn in progress is not a record");
    let r1 = &s.records[0];
    assert_eq!(r1.turn, 1);
    assert_eq!(r1.user, "check stock\nplease", "verbatim, newline kept in the record");
    assert_eq!(
        r1.did,
        vec![
            "check_stock -> ok: 12 in stock",
            "wipe -> denied (taint_policy: external)",
            "remember_fact user.age=17 -> ok",
        ]
    );
    assert_eq!(r1.reply, "Twelve.");
    assert_eq!(r1.trust, Trust::External, "min trust over the turn's outputs");
    assert_eq!(s.records[1].did, vec!["asked a clarification"]);
    assert_eq!(s.records[1].trust, Trust::User, "no tool ran");
    assert_eq!(s.records[2].did, vec!["staged: 'wipe' awaits confirmation: would delete 3 rows"]);
    assert_eq!(s.records[3].did, vec!["confirmed", "wipe -> ok: wiped", "reply failed: status 402"]);
    assert_eq!(s.turn, 5);
    assert_eq!(state_summary(&s), "turn 5, 9 messages");
}

#[test]
fn fold_keeps_the_latest_summary_and_counts_them() {
    let mut log = EventLog::new(session("sum"));
    let t = Timestamp(1);
    let sum = |through: u32| SessionSummary {
        through_turn: through,
        topic: format!("through {through}"),
        established: vec![],
        open: vec![],
        trust: Trust::User,
        rebuilt_from: 1,
    };
    for turn in 1..=6 {
        log.append(turn, t, said("x"));
        log.append(turn, t, replied("y"));
        if turn == 4 {
            log.append(turn, t, EventKind::Summarized { summary: sum(2) });
        }
        if turn == 6 {
            log.append(turn, t, EventKind::Summarized { summary: sum(4) });
        }
    }
    let s = fold(&log.events);
    assert_eq!(s.summary.as_ref().map(|x| x.through_turn), Some(4));
    assert_eq!(s.summaries, 2);
    assert_eq!(s.records.len(), 6, "summaries are not turn records");
    let r = s.records_in(3, 4);
    assert_eq!(r.iter().map(|r| r.turn).collect::<Vec<_>>(), vec![3, 4]);
    let w = s.window(2);
    assert_eq!(w.iter().map(|r| r.turn).collect::<Vec<_>>(), vec![5, 6]);
    assert_eq!(s.window(100).len(), 6);
    assert!(s.window(0).is_empty());
}

#[test]
fn fold_labels_emitter_failures_and_fallbacks() {
    let mut log = EventLog::new(session("f"));
    let t = Timestamp(1);
    log.append(1, t, said("hi"));
    log.append(
        1,
        t,
        EventKind::Rejected {
            proposal_of: EventId(0),
            reason: RejectReason::Malformed { detail: "transport: status 429".to_string() },
        },
    );
    log.append(
        1,
        t,
        EventKind::Settled {
            policy: ReplyPolicy::Verbatim { text: format!("{} Reason: HTTP 429.", FALLBACK_REPLY) },
        },
    );
    log.append(1, t, replied(&format!("{} Reason: HTTP 429.", FALLBACK_REPLY)));
    let s = fold(&log.events);
    assert_eq!(
        s.records[0].did,
        vec![
            "model failed: transport: status 429",
            "fallback: Reason: HTTP 429."
        ]
    );
}

#[test]
fn numbers_rise_along_a_log() {
    let mut log = EventLog::new(session("n"));
    assert_eq!(log.append(1, Timestamp(1), said("a")), EventId(1));
    assert_eq!(log.append(1, Timestamp(1), said("b")), EventId(2));
    let mut rest = EventLog::from_events(session("n"), log.events.clone());
    assert_eq!(rest.append(2, Timestamp(2), said("c")), EventId(3));
    assert_eq!(rest.events.len(), 3);
    assert_eq!(fold(&Vec::new()).turn, 0);
}

#[test]
fn a_turn_without_a_reply_leaves_no_record() {
    let mut log = EventLog::new(session("s"));
    log.append(1, Timestamp(1), said("a"));
    log.append(2, Timestamp(2), said("b"));
    log.append(2, Timestamp(3), replied("c"));
    let s = fold(&log.events);
    assert_eq!(s.records.len(), 1);
    let r = &s.records[0];
    assert_eq!((r.turn, r.user.as_str(), r.reply.as_str()), (2, "b", "c"));
    assert!(r.did.is_empty());
    assert_eq!(s.turn, 2);
    assert_eq!(s.history.len(), 3, "the history keeps every line");
}

#[test]
fn the_last_staged_action_is_the_pending_one() {
    let staged = |of: u64| EventKind::PendingConfirmation {
        proposal_of: EventId(of),
        staged: Some(StagedEffect { description: "d".to_string() }),
    };
    let mut log = EventLog::new(session("s"));
    let first = log.append(1, Timestamp(1), staged(9));
    let second = log.append(2, Timestamp(2), staged(9));
    let s = fold(&log.events);
    assert_eq!((s.pending_confirmation, s.pending_turn), (Some(second), Some(2)));
    log.append(3, Timestamp(3), EventKind::Confirmed { pending: first });
    let s = fold(&log.events);
    assert_eq!((s.pending_confirmation, s.pending_turn), (Some(second), Some(2)), "another was confirmed");
    log.append(3, Timestamp(4), EventKind::Confirmed { pending: second });
    let s = fold(&log.events);
    assert_eq!((s.pending_confirmation, s.pending_turn), (None, None));
}
