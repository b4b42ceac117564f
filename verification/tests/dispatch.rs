use ns_engine::dispatch::{
    may_consolidate, panic_message, requeue, slots_for, wait, Cost, Failure, Incoming, Mailboxes, Next, PanicPayload,
    Received, SessionLoop, SessionStep, Stopped, TurnFailure,
};
use ns_engine::turn::accounting::EngineError;
use ns_engine::types::SessionId;

fn sid(name: &str) -> SessionId {
    SessionId(name.to_string())
}

fn message(session: &str, text: &str) -> Incoming {
    Incoming { session: sid(session), text: text.to_string() }
}

fn store() -> EngineError {
    EngineError::Store { detail: "disk".to_string() }
}

fn channel() -> EngineError {
    EngineError::Channel { detail: "gone".to_string() }
}

fn cap() -> EngineError {
    EngineError::RequestCap { spent: 7, cap: 5 }
}

#[test]
fn an_engine_error_says_what_failed() {
    assert_eq!(store().message(), "store: disk");
    assert_eq!(channel().message(), "channel: gone");
    assert_eq!(cap().message(), "request cap 5 reached after 7 requests");
}

#[test]
fn only_a_lost_connection_is_one_sessions_affair() {
    assert_eq!(TurnFailure::default(), TurnFailure::Fatal);
    for e in [store(), channel(), cap()] {
        assert_eq!(TurnFailure::Fatal.verdict(&e), Cost::Run);
    }
    assert_eq!(TurnFailure::Isolate.verdict(&channel()), Cost::Session);
    assert_eq!(TurnFailure::Isolate.verdict(&store()), Cost::Run);
    assert_eq!(TurnFailure::Isolate.verdict(&cap()), Cost::Run);
}

#[test]
fn a_panic_is_quoted_as_far_as_it_can_be_read() {
    assert_eq!(panic_message(&PanicPayload::Owned { text: "boom 7".to_string() }), "boom 7");
    assert_eq!(panic_message(&PanicPayload::Borrowed { literal: "boom" }), "boom");
    assert_eq!(panic_message(&PanicPayload::Other), "a panic payload of neither String nor &str");
}

#[test]
fn there_is_always_a_slot() {
    assert_eq!((slots_for(0), slots_for(1), slots_for(4)), (1, 1, 4));
    assert!(may_consolidate(1, 4, 4));
    assert!(!may_consolidate(0, 4, 4), "nothing has ended since the last pass");
    assert!(!may_consolidate(3, 3, 4), "a turn is running");
}

#[test]
fn a_session_has_one_mailbox_at_a_time() {
    let mut m = Mailboxes::new();
    let a = m.mailbox(&sid("a"));
    let b = m.mailbox(&sid("b"));
    assert!(a.fresh && b.fresh && a.generation != b.generation);
    let again = m.mailbox(&sid("a"));
    assert_eq!((again.fresh, again.generation), (false, a.generation));
    m.forget(&sid("a"));
    let fresh = m.mailbox(&sid("a"));
    assert!(fresh.fresh && fresh.generation > b.generation, "a task is never numbered twice");
    // The first task reports late; the mailbox of the second stays.
    m.evict(&sid("a"), a.generation);
    assert_eq!(m.mailbox(&sid("a")), ns_engine::dispatch::Opened { generation: fresh.generation, fresh: false });
    m.evict(&sid("a"), fresh.generation);
    assert_eq!(m.open.len(), 1);
    m.forget(&sid("nobody"));
    assert_eq!(m.open.len(), 1);
    m.clear();
    assert!(m.open.is_empty());
    assert_eq!(m.generations, 3);
}

fn stopped(generation: u64, failure: Option<Failure>) -> Stopped {
    Stopped { session: sid("a"), generation, leftovers: vec![message("a", "late")], failure }
}

#[test]
fn a_stopped_task_leaves_its_messages_and_its_notice() {
    let mut m = Mailboxes::new();
    let a = m.mailbox(&sid("a")).generation;
    let r = m.reap(TurnFailure::Isolate, stopped(a, None)).unwrap();
    assert_eq!((r.leftovers.len(), r.notice), (1, None));
    assert!(m.open.is_empty());

    let a = m.mailbox(&sid("a")).generation;
    let r = m.reap(TurnFailure::Isolate, stopped(a, Some(Failure::Turn { error: channel() }))).unwrap();
    assert_eq!(r.notice.as_deref(), Some("session a: channel: gone"));
    assert_eq!(r.leftovers[0].text, "late");

    // A contained panic never ends the run.
    let a = m.mailbox(&sid("a")).generation;
    let panicked = Some(Failure::Panic { message: "boom".to_string() });
    let r = m.reap(TurnFailure::Fatal, stopped(a, panicked)).unwrap();
    assert_eq!(r.notice.as_deref(), Some("session a: the turn panicked: boom"));
    assert!(m.open.is_empty());
}

#[test]
fn a_failure_that_ends_the_run_is_handed_on() {
    let mut m = Mailboxes::new();
    let a = m.mailbox(&sid("a")).generation;
    let e = m.reap(TurnFailure::Fatal, stopped(a, Some(Failure::Turn { error: channel() }))).unwrap_err();
    assert_eq!(e.message(), "channel: gone");
    let e = m.reap(TurnFailure::Isolate, stopped(a, Some(Failure::Turn { error: store() }))).unwrap_err();
    assert_eq!(e.message(), "store: disk");
    assert_eq!(m.open.len(), 1);
}

#[test]
fn a_refused_message_comes_after_what_the_task_left() {
    let mut rest = vec![message("b", "4")];
    requeue(vec![message("a", "1"), message("a", "2")], message("a", "3"), &mut rest);
    let texts: Vec<String> = rest.into_iter().map(|i| i.text).collect();
    assert_eq!(texts, vec!["1", "2", "3", "4"]);
}

#[test]
fn a_wait_ends_in_one_of_four_ways() {
    assert!(matches!(
        wait(Received::Message { incoming: message("a", "x") }),
        Ok(Next::Message { incoming }) if incoming.text == "x"
    ));
    assert!(matches!(wait(Received::Closed), Ok(Next::Closed)));
    assert!(matches!(wait(Received::Elapsed), Ok(Next::Idle)));
    let e = wait(Received::Failed { detail: "eof".to_string() }).unwrap_err();
    assert_eq!(e.message(), "channel: eof");
}

#[test]
fn a_session_owes_a_summary_after_each_turn() {
    let mut s = SessionLoop::new();
    assert!(!s.owes_summary());
    let step = s.on_next(Next::Message { incoming: message("a", "hi") });
    assert!(matches!(step, SessionStep::RunTurn { incoming } if incoming.text == "hi"));
    assert!(matches!(s.on_turn(Ok("hello".to_string())), SessionStep::Send { text } if text == "hello"));
    assert!(!s.owes_summary(), "the reply has not gone out yet");
    assert!(matches!(s.on_sent(Ok(())), SessionStep::Wait));
    assert!(s.owes_summary());
    assert!(matches!(s.on_next(Next::Idle), SessionStep::Stop { failure: None }));
    assert!(matches!(s.on_next(Next::Closed), SessionStep::Stop { failure: None }));
}

#[test]
fn a_failed_turn_stops_its_session() {
    let mut s = SessionLoop::new();
    let step = s.on_turn(Err(cap()));
    assert!(matches!(
        step,
        SessionStep::Stop { failure: Some(Failure::Turn { error: EngineError::RequestCap { spent: 7, cap: 5 } }) }
    ));
    let step = s.on_sent(Err("gone".to_string()));
    assert!(matches!(
        step,
        SessionStep::Stop { failure: Some(Failure::Turn { error: EngineError::Channel { detail } }) } if detail == "gone"
    ));
    assert!(!s.owes_summary());
}
