use ns_engine::events::{
    Event, EventKind, EventLog, Proposal, RejectReason, ReplyPolicy, SessionSummary, ToolOutcome, ToolOutput,
    TurnRecord,
};
use ns_engine::facts::{Fact, SessionDigest, TurnHit};
use ns_engine::replay::{diff, ReplayError, ReplayTool};
use ns_engine::state::{fold, SessionState};
use ns_engine::turn::accounting::{
    cap_reached, has_room, last_proposal_ran, record_model_calls, unsaved, BookedCall, EngineError,
};
use ns_engine::turn::config::EngineConfig;
use ns_engine::turn::diagnostics::{describe_status, explain_error};
use ns_engine::turn::gate::builtin_guards;
use ns_engine::turn::memory::{
    blank_manifest, cut_plan, cut_records, finish_summary, pinned_facts, plan_summary, select_facts, summary_manifest,
    summary_of, use_fact, view_of, SummaryDraft,
};
use ns_engine::turn::retrieval::{
    earlier_sessions, exemplars_outcome, plan_recall, recall_outcome, searches_hybrid, sessions_to_search, Findings,
};
use ns_engine::turn::run::{fill, next_turn, recall_applies, render_template, reply_text};
use ns_engine::types::{EventId, FactState, Json, SessionId, Tier, Timestamp, Trust};

fn sid(name: &str) -> SessionId {
    SessionId(name.to_string())
}

fn json(text: &str) -> Json {
    Json { text: text.to_string() }
}

fn as_text<A: std::fmt::Debug>(a: &A) -> String {
    format!("{a:?}")
}

#[test]
fn turn_irreversible_actions_are_confirmed_unless_asked_otherwise() {
    assert!(EngineConfig::default().confirm_irreversible);
}

#[test]
fn turn_the_side_effect_gate_is_absent_when_confirmation_is_off() {
    fn names(confirm: bool) -> Vec<String> {
        builtin_guards(confirm)
            .iter()
            .map(|g| g.name().to_string())
            .collect()
    }
    assert!(names(true).contains(&"side_effect_gate".to_string()));
    assert!(!names(false).contains(&"side_effect_gate".to_string()));
    assert_eq!(
        names(false).len() + 1,
        names(true).len(),
        "only the one guard differs"
    );
}

#[test]
fn gate_irreversible_actions_are_confirmed_unless_asked_otherwise() {
    assert!(EngineConfig::default().confirm_irreversible);
}

#[test]
fn gate_the_side_effect_gate_is_absent_when_confirmation_is_off() {
    fn names(confirm: bool) -> Vec<String> {
        builtin_guards(confirm)
            .iter()
            .map(|g| g.name().to_string())
            .collect()
    }
    assert!(names(true).contains(&"side_effect_gate".to_string()));
    assert!(!names(false).contains(&"side_effect_gate".to_string()));
    assert_eq!(
        names(false).len() + 1,
        names(true).len(),
        "only the one guard differs"
    );
}

#[test]
fn turn_render_substitutes_known_placeholders_only() {
    let vars = json("{\"n\":3,\"name\":\"Martin\"}");
    assert_eq!(
        render_template("Hi {name}, {n} items, {missing} stays", &vars),
        "Hi Martin, 3 items, {missing} stays"
    );
}

#[test]
fn reply_render_substitutes_known_placeholders_only() {
    let vars = json("{\"n\":3,\"name\":\"Martin\"}");
    assert_eq!(
        render_template("Hi {name}, {n} items, {missing} stays", &vars),
        "Hi Martin, 3 items, {missing} stays"
    );
}

#[test]
fn a_template_takes_its_variables_from_an_object_only() {
    assert_eq!(render_template("{a}", &json("[1]")), "{a}");
    assert_eq!(render_template("{a}", &json("no json")), "{a}");
    assert_eq!(render_template("{a}{a}", &json("{\"a\":{\"b\":[1, 2]}}")), "{\"b\":[1,2]}{\"b\":[1,2]}");
    let vars = vec![("a".to_string(), "\"x\"".to_string()), ("b".to_string(), "true".to_string())];
    assert_eq!(fill("{a}{b}", &vars), "xtrue");
}

#[test]
fn an_unknown_template_is_named_with_its_variables() {
    let cfg = EngineConfig::default();
    let named = ReplyPolicy::Template { id: "no_such".to_string(), vars: json("{\"a\":1}") };
    assert_eq!(reply_text(&named, &cfg).as_deref(), Some("[no_such] {\"a\":1}"));
    assert_eq!(reply_text(&ReplyPolicy::Verbatim { text: "v".to_string() }, &cfg).as_deref(), Some("v"));
    assert_eq!(reply_text(&ReplyPolicy::Generate, &cfg), None);
}

// ---------------------------------------------------------------------------
// What a turn spends
// ---------------------------------------------------------------------------

fn event(id: u64, turn: u32, kind: EventKind) -> Event {
    Event { id: EventId(id), turn, at: Timestamp(id), kind }
}

fn said(text: &str) -> EventKind {
    EventKind::UserSaid { text: text.to_string() }
}

fn returned() -> EventKind {
    EventKind::ToolReturned {
        call: EventId(0),
        outcome: ToolOutcome::Done {
            output: ToolOutput { summary: "ok".to_string(), artifact: None, trust: Trust::System },
        },
    }
}

fn rejected() -> EventKind {
    EventKind::Rejected { proposal_of: EventId(0), reason: RejectReason::Malformed { detail: "x".to_string() } }
}

fn proposed() -> EventKind {
    EventKind::Proposed {
        proposal: Proposal { rationale: String::new(), action: "echo".to_string(), args: json("{}") },
    }
}

#[test]
fn the_last_decision_of_the_turn_counts() {
    let ran = vec![event(0, 1, rejected()), event(1, 1, returned()), event(2, 1, proposed())];
    assert!(last_proposal_ran(&ran, 1));
    let refused = vec![event(0, 1, returned()), event(1, 1, rejected())];
    assert!(!last_proposal_ran(&refused, 1));
    assert!(!last_proposal_ran(&ran, 2), "another turn's result is no answer");
    assert!(!last_proposal_ran(&vec![], 1));
}

#[test]
fn every_model_call_is_booked_with_what_it_was_shown() {
    let mut log = EventLog::new(sid("s"));
    log.append(1, Timestamp(1), said("x"));
    assert!(has_room(&log, 2));
    let calls = vec![
        BookedCall { usage: ns_engine::eval::shown::spent("emitter"), at: Timestamp(2) },
        BookedCall { usage: ns_engine::eval::shown::spent("replier"), at: Timestamp(3) },
    ];
    assert_eq!(record_model_calls(&mut log, 1, &calls, &blank_manifest(), 40), 42);
    assert_eq!(log.events.len(), 3);
    assert!(matches!(&log.events[2].kind, EventKind::ModelCall { usage, .. } if usage.role == "replier"));
    assert_eq!(log.events[2].at, Timestamp(3));
    let added = unsaved(&log, 1);
    assert_eq!(added.iter().map(|e| e.id).collect::<Vec<_>>(), vec![EventId(2), EventId(3)]);
    assert_eq!(record_model_calls(&mut log, 1, &calls, &blank_manifest(), u32::MAX), 1, "the counter wraps");
}

#[test]
fn a_log_at_its_end_has_no_room() {
    let log = EventLog::from_events(sid("s"), vec![event(u64::MAX - 2, 1, said("x"))]);
    assert!(has_room(&log, 1) && !has_room(&log, 2));
    assert!(has_room(&EventLog::new(sid("s")), u32::MAX));
}

#[test]
fn a_spent_budget_starts_no_turn() {
    assert!(cap_reached(None, u32::MAX).is_ok());
    assert!(cap_reached(Some(5), 4).is_ok());
    assert!(matches!(cap_reached(Some(5), 5), Err(EngineError::RequestCap { spent: 5, cap: 5 })));
}

#[test]
fn a_turn_is_numbered_after_the_last_one() {
    assert_eq!(next_turn(&vec![]), Some(1));
    assert_eq!(next_turn(&vec![event(0, 4, said("x"))]), Some(5));
    assert_eq!(next_turn(&vec![event(0, u32::MAX, said("x"))]), None);
}

// ---------------------------------------------------------------------------
// What is said of a failure
// ---------------------------------------------------------------------------

#[test]
fn a_provider_error_is_said_in_words() {
    assert_eq!(
        explain_error("transport: status 429: {\"error\":{\"message\":\"slow down\"}}"),
        "the model provider answered HTTP 429: slow down"
    );
    assert_eq!(
        explain_error("status 500 Internal: {\"message\":\"oops\"}"),
        "the model provider answered HTTP 500 Internal: oops"
    );
    assert_eq!(explain_error("status 503: <html>"), "the model provider answered HTTP 503");
    assert_eq!(explain_error("status 503"), "the model provider answered HTTP 503");
    assert_eq!(explain_error("transport: malformed: no json"), "the model's answer was unusable (no json)");
    assert_eq!(explain_error("dns"), "couldn't reach the model provider (dns)");
    assert_eq!(describe_status("401", Some("no key")), "the model provider answered HTTP 401: no key");
    assert_eq!(describe_status("401", None), "the model provider answered HTTP 401");
    let long = "x".repeat(300);
    assert_eq!(explain_error(&long).chars().filter(|c| *c == 'x').count(), 120);
}

// ---------------------------------------------------------------------------
// What is shown of what is stored
// ---------------------------------------------------------------------------

fn fact(key: &str, value: &str, validated: u64) -> Fact {
    Fact {
        key: key.to_string(),
        value: json(value),
        last_validated: Timestamp(validated),
        ..Fact::default()
    }
}

fn keys(facts: &[Fact]) -> Vec<String> {
    facts.iter().map(|f| f.key.clone()).collect()
}

#[test]
fn the_pinned_facts_are_shown_before_the_relevant_ones() {
    let cfg = EngineConfig {
        pinned_prefixes: vec!["user.".to_string()],
        pinned_max: 2,
        relevant_max: 2,
        facts_in_context: 3,
        ..EngineConfig::default()
    };
    let live = vec![
        fact("user.a", "1", 1),
        fact("user.b", "2", 3),
        fact("user.c", "3", 2),
        fact("order.1", "4", 9),
        fact("order.2", "5", 8),
    ];
    assert_eq!(keys(&pinned_facts(&live, &cfg.pinned_prefixes, 2)), vec!["user.b", "user.c"]);
    let relevant = vec![fact("user.b", "2", 3), fact("order.2", "5", 8), fact("order.1", "4", 9)];
    let shown = select_facts(&cfg, &live, &relevant);
    assert_eq!(keys(&shown), vec!["user.b", "user.c", "order.2"]);
}

#[test]
fn a_replaced_value_is_shown_beside_the_current_one() {
    let prefixes = vec!["user.".to_string()];
    let now = fact("user.age", "18", 1);
    let old = Fact { state: FactState::Superseded, valid_to: Some(Timestamp(7)), ..fact("user.age", "17", 0) };
    let same = Fact { state: FactState::Superseded, valid_to: Some(Timestamp(9)), ..fact("user.age", "18", 0) };
    let v = view_of(&prefixes, &now, &vec![now.clone(), same, old.clone()]);
    let p = v.previous.expect("the other value");
    assert_eq!((p.value.text.as_str(), p.until), ("17", Timestamp(7)));
    let other = Fact { key: "order.1".to_string(), ..now.clone() };
    assert!(view_of(&prefixes, &other, &vec![old]).previous.is_none(), "only what is pinned has a past");
    let mut f = now;
    use_fact(&mut f, Timestamp(42));
    assert_eq!((f.uses, f.last_used), (1, Timestamp(42)));
}

fn record(turn: u32, trust: Trust) -> TurnRecord {
    TurnRecord { turn, user: format!("u{turn}"), did: vec![], reply: format!("r{turn}"), trust }
}

fn state(turn: u32, summary: Option<SessionSummary>, summaries: u32) -> SessionState {
    let mut s = fold(&vec![]);
    s.turn = turn;
    s.records = (1..=turn).map(|t| record(t, Trust::User)).collect();
    s.summary = summary;
    s.summaries = summaries;
    s
}

fn summary(through: u32) -> SessionSummary {
    SessionSummary {
        through_turn: through,
        topic: "t".to_string(),
        established: vec![],
        open: vec![],
        trust: Trust::User,
        rebuilt_from: 1,
    }
}

#[test]
fn a_summary_is_due_once_enough_turns_are_out_of_sight() {
    let cfg = EngineConfig {
        window_turns: 4,
        summary_every_turns: 3,
        summary_rebuild_every: 3,
        ..EngineConfig::default()
    };
    assert!(plan_summary(&state(6, None, 0), &cfg).is_none());
    let plan = plan_summary(&state(7, None, 0), &cfg).expect("three turns are out of sight");
    assert_eq!((plan.through, plan.rebuild), (3, false));
    assert_eq!(plan.records.iter().map(|r| r.turn).collect::<Vec<_>>(), vec![1, 2, 3]);
    let plan = plan_summary(&state(10, Some(summary(3)), 1), &cfg).expect("and three more");
    assert_eq!(plan.records.iter().map(|r| r.turn).collect::<Vec<_>>(), vec![4, 5, 6]);
    assert_eq!(plan.previous.map(|p| p.through_turn), Some(3));
    let plan = plan_summary(&state(13, Some(summary(6)), 2), &cfg).expect("the third is written anew");
    assert!(plan.rebuild && plan.previous.is_none());
    assert_eq!(plan.records.len(), 9);
    let cut = cut_plan(plan, &vec![99, 88, 77, 66, 55, 44, 33, 22, 11], 30).expect("two records fit");
    assert_eq!(cut.records.iter().map(|r| r.turn).collect::<Vec<_>>(), vec![8, 9]);
    let mut empty = plan_summary(&state(7, None, 0), &cfg).unwrap();
    empty.records.clear();
    assert!(cut_plan(empty, &vec![], 30).is_none());
    let off = EngineConfig { summary_every_turns: 0, ..cfg };
    assert!(plan_summary(&state(50, None, 0), &off).is_none());
}

#[test]
fn a_summary_is_no_more_trusted_than_what_it_is_made_of() {
    let records = vec![record(4, Trust::User), record(5, Trust::External), record(6, Trust::System)];
    let cut = cut_records(&records, &vec![900, 600, 300], 600);
    assert_eq!(cut.iter().map(|r| r.turn).collect::<Vec<_>>(), vec![5, 6]);
    assert_eq!(cut_records(&records, &vec![900, 800, 700], 600).len(), 1, "one record always stays");
    assert!(cut_records(&vec![], &vec![], 600).is_empty());
    let draft = SummaryDraft { topic: "t".to_string(), established: vec!["e".to_string()], open: vec![] };
    let s = summary_of(draft, 6, &None, &cut);
    assert_eq!((s.through_turn, s.rebuilt_from, s.trust), (6, 5, Trust::External));
    let m = summary_manifest("global", &vec!["user.a".to_string()], &Some(summary(3)), &cut);
    assert_eq!((m.scope.as_deref(), m.summary_through, m.window), (Some("global"), Some(3), Some((5, 6))));
    let mut log = EventLog::new(sid("s"));
    let calls = vec![BookedCall { usage: ns_engine::eval::shown::spent("summarizer"), at: Timestamp(1) }];
    assert_eq!(finish_summary(&mut log, 9, Timestamp(2), &calls, &m, 4, None), 5);
    assert_eq!(log.events.len(), 1, "a request that bought nothing is still booked");
    assert_eq!(finish_summary(&mut log, 9, Timestamp(3), &calls, &m, 5, Some(s)), 6);
    assert!(matches!(&log.events[2].kind, EventKind::Summarized { summary } if summary.through_turn == 6));
}

// ---------------------------------------------------------------------------
// Searching
// ---------------------------------------------------------------------------

fn hit(session: &str, turn: u32, text: &str) -> TurnHit {
    TurnHit { session: sid(session), turn, speaker: "user".to_string(), text: text.to_string(), score: 1 }
}

fn digest(session: &str, topic: &str) -> SessionDigest {
    SessionDigest {
        session: sid(session),
        scope: "global".to_string(),
        summary: SessionSummary { topic: topic.to_string(), ..summary(3) },
        last_turn: 3,
        at: Timestamp(1),
    }
}

fn summary_text(o: &ToolOutcome) -> String {
    match o {
        ToolOutcome::Done { output } => output.summary.clone(),
        ToolOutcome::Failed { kind, detail } => format!("{kind}/{detail}"),
    }
}

#[test]
fn a_recall_brings_back_what_is_out_of_sight() {
    let f = Findings {
        within: Ok(vec![hit("s", 9, "new"), hit("s", 2, "old")]),
        across: Ok(vec![hit("p", 4, "past")]),
        facts: Ok(vec![fact("user.name", "\"Petr\"", 0)]),
        digests: Ok(vec![digest("s", "this"), digest("p", "that")]),
    };
    let alone = summary_text(&recall_outcome(&f, &sid("s"), 10, 4, 5, false));
    assert!(alone.contains("old") && !alone.contains("new") && !alone.contains("past"), "{alone}");
    assert!(alone.contains("user.name"), "{alone}");
    let wide = summary_text(&recall_outcome(&f, &sid("s"), 10, 4, 5, true));
    assert!(wide.contains("in an earlier conversation, ") && wide.contains("past"), "{wide}");
    assert!(wide.contains("that") && !wide.contains("this"), "{wide}");
}

#[test]
fn a_recall_that_finds_nothing_says_so_and_a_failed_one_fails() {
    let none = Findings { within: Ok(vec![]), across: Ok(vec![]), facts: Ok(vec![]), digests: Ok(vec![]) };
    assert_eq!(summary_text(&recall_outcome(&none, &sid("s"), 10, 4, 5, true)), "no matches");
    let broken = Findings { across: Err("disk".to_string()), ..none };
    assert_eq!(summary_text(&recall_outcome(&broken, &sid("s"), 10, 4, 5, true)), "store/disk");
    assert_eq!(summary_text(&recall_outcome(&broken, &sid("s"), 10, 4, 5, false)), "no matches");
}

#[test]
fn a_conversation_is_no_exemplar_of_itself() {
    let ds = vec![digest("s", "this"), digest("p", "that"), digest("q", "other")];
    let found = summary_text(&exemplars_outcome(&Ok(ds.clone()), &sid("s"), 1));
    assert!(found.contains("that") && !found.contains("this") && !found.contains("other"), "{found}");
    assert_eq!(summary_text(&exemplars_outcome(&Ok(vec![]), &sid("s"), 1)), "no similar conversations");
    assert_eq!(summary_text(&exemplars_outcome(&Err("disk".to_string()), &sid("s"), 1)), "store/disk");
    let ids: Vec<String> = earlier_sessions(&ds, &sid("s"), 5).into_iter().map(|s| s.0).collect();
    assert_eq!(ids, vec!["p", "q"]);
    assert!(searches_hybrid(true, Tier::Deep) && !searches_hybrid(true, Tier::Chat) && !searches_hybrid(false, Tier::Deep));
}

#[test]
fn recall_is_offered_once_there_is_something_to_find() {
    let cfg = EngineConfig { prune_inapplicable: true, window_turns: 4, recall_sessions: 3, ..EngineConfig::default() };
    let mine = vec![digest("s", "this")];
    let others = vec![digest("s", "this"), digest("p", "that")];
    assert!(!recall_applies(&cfg, 2, &sid("s"), Some(&mine)));
    assert!(recall_applies(&cfg, 2, &sid("s"), Some(&others)));
    assert!(recall_applies(&cfg, 40, &sid("s"), Some(&mine)), "turns have left the window");
    let always = EngineConfig { prune_inapplicable: false, ..cfg };
    assert!(recall_applies(&always, 1, &sid("s"), Some(&mine)));
}

// ---------------------------------------------------------------------------
// Replays
// ---------------------------------------------------------------------------

#[test]
fn a_replay_error_says_where_it_failed() {
    let broken = ReplayError::ChainBroken { detail: "hash".to_string() };
    assert_eq!(broken.message(), "recorded chain broken: hash");
    let other = ReplayError::Divergence { at: 3, expected: "a".to_string(), got: "b".to_string() };
    assert_eq!(other.message(), "divergence at line 3: expected `a`, got `b`");
    let short = ReplayError::LengthMismatch { expected: 5, got: 4 };
    assert_eq!(short.message(), "replay produced 4 lines, recording has 5");
    let engine = ReplayError::Engine { detail: "store: x".to_string() };
    assert_eq!(engine.message(), "engine error during replay: store: x");
}

#[test]
fn a_difference_is_found_at_its_first_line() {
    let a = vec![event(0, 1, said("x")), event(1, 1, said("y"))];
    let b = vec![event(0, 1, said("x")), event(1, 1, said("z"))];
    assert!(diff(&a, &a).is_ok());
    assert!(matches!(diff(&a, &b), Err(ReplayError::Divergence { at: 1, .. })));
    assert!(matches!(diff(&a, &vec![event(0, 1, said("x"))]), Err(ReplayError::LengthMismatch { expected: 2, got: 1 })));
}

#[test]
fn a_stand_in_gives_its_outcomes_in_order() {
    let outcome = ToolOutcome::Failed { kind: "k".to_string(), detail: "d".to_string() };
    let spec = ns_engine::replay::dummy_spec("echo");
    assert_eq!(spec.description, "replay double for echo");
    let mut t = ReplayTool::new(spec, vec![outcome], false);
    assert_eq!(t.call().unwrap_err().kind, "k");
    let e = t.call().unwrap_err();
    assert_eq!((e.kind.as_str(), e.detail.as_str()), ("replay", "outcome queue exhausted"));
    let mut s = ReplayTool::new(ns_engine::replay::dummy_spec("echo"), vec![], true);
    assert_eq!(s.call().unwrap().summary, "(verified: synthetic ok)");
    assert_eq!(as_text(&s.outcomes), "[]");
}

#[test]
fn a_summary_keeps_the_trust_of_the_one_before_it() {
    let draft = || SummaryDraft { topic: "t".to_string(), established: vec![], open: vec![] };
    let records = vec![record(4, Trust::User), record(5, Trust::User)];
    let before = SessionSummary { trust: Trust::External, ..summary(3) };
    let s = summary_of(draft(), 5, &Some(before), &records);
    assert_eq!((s.trust, s.through_turn, s.rebuilt_from), (Trust::External, 5, 4));
    assert_eq!(summary_of(draft(), 5, &None, &records).trust, Trust::User);
}

#[test]
fn a_recall_asks_for_more_than_it_shows() {
    let cfg = EngineConfig { recall_top_k: 4, recall_sessions: 2, recall_hybrid: true, ..EngineConfig::default() };
    let plan = plan_recall(&cfg, Tier::Deep);
    assert_eq!((plan.hybrid, plan.within, plan.listed, plan.each), (true, 12, Some(3), 4));
    assert!(!plan_recall(&cfg, Tier::Chat).hybrid);
    let alone = EngineConfig { recall_sessions: 0, ..cfg };
    assert_eq!(plan_recall(&alone, Tier::Task).listed, None);
    assert!(sessions_to_search(&vec![], &sid("s"), 2).is_none());
}
