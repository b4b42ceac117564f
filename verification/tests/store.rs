use ns_engine::events::{ArtifactId, Event, EventKind, EventLog, SessionSummary};
use ns_engine::facts::{Fact, SessionDigest, TurnHit};
use ns_engine::store::conformance::{
    counters_kept, fact_conformance, fitness_conformance, forgetting_kept, purge_kept, scopes_kept, search_kept, told,
    versions_kept,
};
use ns_engine::store::{rank_hits, InMemoryStore, StoreError};
use ns_engine::types::{FactState, Json, SessionId, Timestamp, Trust};

fn sid(name: &str) -> SessionId {
    SessionId(name.to_string())
}

fn words(list: &[&str]) -> Vec<String> {
    list.iter().map(|w| w.to_string()).collect()
}

fn as_text<A: std::fmt::Debug>(a: &A) -> String {
    format!("{a:?}")
}

fn said(text: &str) -> EventKind {
    EventKind::UserSaid { text: text.to_string() }
}

fn replied(text: &str) -> EventKind {
    EventKind::Replied { text: text.to_string() }
}

#[test]
fn append_then_load_round_trips() {
    let mut store = InMemoryStore::new();
    let s = sid("s");
    let mut log = EventLog::new(sid("s"));
    log.append(1, Timestamp(1), said("x"));
    store.append(&s, &log.events);
    let loaded = store.load(&s);
    assert_eq!(as_text(&loaded), as_text(&log.events));
    assert!(store.load(&sid("other")).is_empty());
}

#[test]
fn appending_the_same_events_again_adds_nothing() {
    let mut store = InMemoryStore::new();
    let s = sid("s");
    let mut log = EventLog::new(sid("s"));
    log.append(1, Timestamp(1), said("x"));
    store.append(&s, &log.events);
    log.append(1, Timestamp(2), replied("y"));
    store.append(&s, &log.events);
    store.append(&s, &log.events);
    assert_eq!(as_text(&store.load(&s)), as_text(&log.events));
}

fn corpus() -> (InMemoryStore, SessionId) {
    let mut store = InMemoryStore::new();
    let mut log = EventLog::new(sid("s"));
    for (turn, user, bot) in [
        (1u32, "what time is it", "It is noon."),
        (2, "remember my name is Martin", "Got it."),
        (3, "and the time again?", "Still noon."),
    ] {
        log.append(turn, Timestamp(turn as u64), said(user));
        log.append(turn, Timestamp(turn as u64), replied(bot));
    }
    store.append(&sid("s"), &log.events);
    (store, sid("s"))
}

#[test]
fn search_turns_ranks_by_token_hits_newest_first() {
    let (store, s) = corpus();
    let hits = store.search_turns(&s, &words(&["what", "time"]), 5);
    assert_eq!(hits[0].turn, 1, "both tokens hit turn 1's user text");
    assert_eq!(hits[0].speaker, "user");
    assert_eq!(hits[1].turn, 3, "one token, newer first");
    assert!(store.search_turns(&s, &words(&[]), 5).is_empty());
    assert!(store.search_turns(&sid("other"), &words(&["time"]), 5).is_empty());
    assert_eq!(store.search_turns(&s, &words(&["noon"]), 1).len(), 1);
}

fn digest(session: &str, scope: &str, topic: &str, at: u64) -> SessionDigest {
    SessionDigest {
        session: sid(session),
        scope: scope.to_string(),
        summary: SessionSummary {
            through_turn: 9,
            topic: topic.to_string(),
            established: vec!["the invoice was sent".to_string()],
            open: vec![],
            trust: Trust::External,
            rebuilt_from: 1,
        },
        last_turn: 11,
        at: Timestamp(at),
    }
}

#[test]
fn session_digests_replace_by_session_and_stay_in_scope() {
    let mut store = InMemoryStore::new();
    store.put_session_digest(digest("s1", "global", "renewing the domain", 100));
    store.put_session_digest(digest("s1", "global", "booking the flight", 200));
    store.put_session_digest(digest("s2", "chat42", "renewing the domain", 300));
    let global = store.session_digests("global", 5);
    assert_eq!(global.len(), 1, "one digest per session");
    assert_eq!(global[0].summary.topic, "booking the flight");
    assert_eq!(global[0].summary.trust, Trust::External, "trust survives");
    assert_eq!(store.session_digests("chat42", 5).len(), 1);
    assert!(store.session_digests("other", 5).is_empty());
}

#[test]
fn search_digests_matches_summary_text_within_one_scope() {
    let mut store = InMemoryStore::new();
    store.put_session_digest(digest("s1", "global", "renewing the domain", 100));
    store.put_session_digest(digest("s2", "chat42", "renewing the domain", 200));
    let hits = store.search_digests("global", &words(&["domain"]), 5);
    assert_eq!(hits.len(), 1);
    assert_eq!(hits[0].session.0, "s1");
    // `established` is searched too, not just the topic.
    assert_eq!(store.search_digests("global", &words(&["invoice"]), 5).len(), 1);
    assert!(store.search_digests("global", &words(&["unrelated"]), 5).is_empty());
}

#[test]
fn search_turns_in_merges_two_sessions_by_score() {
    let mut store = InMemoryStore::new();
    for (name, user) in [
        ("s1", "where is the blue invoice folder"),
        ("s2", "print the invoice"),
        ("s3", "the blue invoice is late"),
    ] {
        let mut log = EventLog::new(sid(name));
        log.append(1, Timestamp(1), said(user));
        store.append(&sid(name), &log.events);
    }
    let sessions = vec![sid("s2"), sid("s1")];
    let hits = store.search_turns_in(&sessions, &words(&["blue", "invoice"]), 5);
    assert_eq!(hits.len(), 2);
    assert_eq!(
        hits[0].session.0, "s1",
        "two tokens beat one, whatever order the sessions came in: {hits:?}"
    );
    assert_eq!(hits[1].session.0, "s2");
    assert!(!hits.iter().any(|h| h.session.0 == "s3"));
    // k caps the merged list, not each session.
    assert_eq!(store.search_turns_in(&sessions, &words(&["blue", "invoice"]), 1).len(), 1);
}

#[test]
fn artifacts_are_read_back_under_their_digest() {
    let mut store = InMemoryStore::new();
    let id = ArtifactId([7u8; 32]);
    store.put_artifact(id, b"payload".to_vec());
    assert_eq!(store.artifact(&id), Ok(b"payload".to_vec()));
    assert!(matches!(store.artifact(&ArtifactId([9u8; 32])), Err(StoreError::NotFound)));
    store.put_artifact(id, b"payload".to_vec());
    assert_eq!(store.artifacts.len(), 1, "the same content is kept once");
}

#[test]
fn facts_prefix_query() {
    let mut store = InMemoryStore::new();
    let f = Fact {
        key: "user.prefs.lang".to_string(),
        value: Json { text: "\"cs\"".to_string() },
        ..Fact::default()
    };
    store.put_fact(f.clone());
    assert_eq!(as_text(&store.facts("global", "user.prefs")), as_text(&vec![f]));
    assert!(store.facts("global", "orders").is_empty());
}

#[test]
fn fact_versions_scopes_search_forget_and_purge() {
    let mut store = InMemoryStore::new();
    assert!(fact_conformance(&mut store));
    assert_eq!(store.scopes(), vec!["chat42"], "what it leaves");
    // lexical search over current facts only
    let mut store = InMemoryStore::new();
    store.put_fact(told("user.name", "\"Martin\"", 10));
    store.put_fact(told("user.name", "\"Peter\"", 20));
    store.put_fact(told("user.city", "\"Brno\"", 40));
    let hits = found(&store, "global", "which city");
    assert_eq!(hits.len(), 1);
    assert_eq!(hits[0].key, "user.city");
    let old = found(&store, "global", "martin");
    assert!(old.is_empty(), "superseded values are not searched");
    assert!(search_kept(&hits, &old));
}

#[test]
fn setting_fitness_updates_the_current_version_in_place_without_superseding() {
    let mut store = InMemoryStore::new();
    assert!(fitness_conformance(&mut store));
    assert_eq!(store.fact_history("global", "user.name").len(), 2);
}

#[test]
fn a_store_that_already_holds_the_name_does_not_conform() {
    let mut store = InMemoryStore::new();
    store.put_fact(Fact { key: "user.other".to_string(), ..Fact::default() });
    assert!(!fact_conformance(&mut store), "one more fact of the scope is one too many");
}

#[test]
fn sessions_lists_newest_first() {
    let mut store = InMemoryStore::new();
    for (name, at) in [("old", 1u64), ("new", 9), ("mid", 5)] {
        let mut log = EventLog::new(sid(name));
        log.append(1, Timestamp(at), said("x"));
        store.append(&sid(name), &log.events);
    }
    let names: Vec<String> = store.sessions().into_iter().map(|s| s.0).collect();
    assert_eq!(names, vec!["new", "mid", "old"]);
}

#[test]
fn facts_come_in_the_order_of_their_keys() {
    let mut store = InMemoryStore::new();
    for key in ["user.b", "user.a", "user.c"] {
        store.put_fact(Fact { key: key.to_string(), ..Fact::default() });
    }
    let keys: Vec<String> = store.facts("global", "user.").into_iter().map(|f| f.key).collect();
    assert_eq!(keys, vec!["user.a", "user.b", "user.c"]);
}

#[test]
fn forgetting_keeps_the_version_and_purging_does_not() {
    let mut store = InMemoryStore::new();
    store.put_fact(Fact { key: "k".to_string(), valid_from: Timestamp(5), ..Fact::default() });
    assert!(store.forget_fact("global", "k", Timestamp(9)));
    assert!(!store.forget_fact("global", "k", Timestamp(10)), "once");
    let h = store.fact_history("global", "k");
    assert_eq!((h[0].state, h[0].valid_to), (FactState::Forgotten, Some(Timestamp(9))));
    assert_eq!(store.purge_facts("global"), 1);
    assert!(store.fact_history("global", "k").is_empty());
}

#[test]
fn hits_are_ranked_by_score_and_then_by_turn() {
    let hit = |turn: u32, score: usize| TurnHit {
        session: sid("s"),
        turn,
        speaker: "user".to_string(),
        text: String::new(),
        score,
    };
    let ranked = rank_hits(&vec![hit(1, 1), hit(2, 2), hit(3, 1)], 2);
    assert_eq!(ranked.iter().map(|h| h.turn).collect::<Vec<_>>(), vec![2, 3]);
}

#[test]
fn one_sessions_events_are_not_anothers() {
    let mut store = InMemoryStore::new();
    let events: Vec<Event> = {
        let mut log = EventLog::new(sid("a"));
        log.append(1, Timestamp(1), said("x"));
        log.events
    };
    store.append(&sid("a"), &events);
    assert!(store.load(&sid("b")).is_empty());
    assert_eq!(store.load(&sid("a")).len(), 1);
}

/// The live facts of a scope with a word of the query in them.
fn found(store: &InMemoryStore, scope: &str, query: &str) -> Vec<Fact> {
    store
        .facts(scope, "")
        .into_iter()
        .filter(|f| {
            let hay = format!("{} {}", f.key, f.value.text).to_lowercase();
            query.split(' ').any(|w| hay.contains(w))
        })
        .collect()
}

#[test]
fn every_judgement_asks_for_all_of_its_answers() {
    let f = |value: &str| told("user.name", value, 20);
    let bumped = Fact { uses: 3, ..f("\"Martin\"") };
    let older = Fact { state: FactState::Superseded, valid_to: Some(Timestamp(20)), ..f("\"Martin\"") };
    let new = f("\"Peter\"");
    let one = vec![new.clone()];
    assert!(versions_kept(&vec![bumped.clone()], &one, &vec![new.clone(), older.clone()]));
    assert!(!versions_kept(&one, &one, &vec![new.clone(), older.clone()]), "the restatement was lost");
    assert!(!versions_kept(&vec![bumped], &one, &vec![older.clone(), new.clone()]), "the older came first");
    let jana = vec![f("\"Jana\"")];
    assert!(scopes_kept(&one, &jana, &words(&["chat42", "global"])));
    assert!(!scopes_kept(&one, &jana, &words(&["global"])));
    let city = vec![told("user.city", "\"Brno\"", 40)];
    assert!(search_kept(&city, &vec![]));
    assert!(!search_kept(&city, &vec![older]), "a superseded value was found");
    assert!(!search_kept(&one, &vec![]));
    let gone = Fact { state: FactState::Forgotten, valid_to: Some(Timestamp(50)), ..new.clone() };
    let three = vec![new.clone(), gone.clone(), new.clone()];
    assert!(forgetting_kept(true, &vec![], &vec![gone.clone()], false, false, &one, &three));
    assert!(!forgetting_kept(true, &vec![], &vec![gone.clone()], true, false, &one, &three), "forgotten twice");
    assert!(!forgetting_kept(false, &vec![], &vec![gone], false, false, &one, &three));
    assert!(purge_kept(4, &vec![], &vec![], &one));
    assert!(!purge_kept(3, &vec![], &vec![], &one));
    let born = Fact { exposures: 4, credits: 1, ..f("\"Martin\"") };
    let set = Fact { exposures: 9, credits: 3, ..new.clone() };
    let reset = Fact { exposures: 2, credits: 0, ..new.clone() };
    let before = vec![new.clone(), born.clone()];
    assert!(counters_kept(&vec![born.clone()], &before, &vec![set.clone(), born.clone()], &vec![reset.clone()]));
    assert!(!counters_kept(&vec![born.clone()], &before, &vec![set, new, born], &vec![reset]), "a version was added");
}

#[test]
fn a_write_shows_in_the_history_where_it_belongs() {
    let mut store = InMemoryStore::new();
    for at in [10u64, 30, 20] {
        store.put_fact(told("k", "\"v\"", at));
    }
    let ages = |s: &InMemoryStore| s.fact_history("global", "k").iter().map(|f| f.valid_from.0).collect::<Vec<u64>>();
    assert_eq!(ages(&store), vec![30, 20, 10], "newest first");
    let h = store.fact_history("global", "k");
    assert_eq!((h[1].state, h[0].state), (FactState::Current, FactState::Superseded));
    assert_eq!(h[0].valid_to, Some(Timestamp(20)), "closed where the new one begins");
    store.put_fact(Fact { uses: 7, ..told("k", "\"w\"", 30) });
    let h = store.fact_history("global", "k");
    assert_eq!(ages(&store), vec![30, 20, 10], "the same beginning takes the place");
    assert_eq!((h[0].uses, h[0].value.text.as_str()), (7, "\"w\""));
}
