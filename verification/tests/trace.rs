use ns_engine::events::{Event, EventKind, EventLog, Proposal, RejectReason, ToolOutcome, ToolOutput};
use ns_engine::trace::{
    clip_trace_line, clipped_results, fold_older_steps, inspect_page, parse_result_handle, result_handle, result_text,
    result_trust, result_window, trace_entries, trace_for_prompt, turn_trace, TraceEntry,
    DEFAULT_TOOL_RESULT_MAX_CHARS,
};
use ns_engine::turn::specs::INSPECT_RESULT;
use ns_engine::types::{EventId, Json, Provenance, SessionId, TaggedValue, Timestamp, Trust};

#[test]
fn a_short_trace_line_is_left_alone() {
    let line = "ToolReturned(ok: moved to (960, 540))";
    let handle = Some(EventId(7));
    assert_eq!(clip_trace_line(line, DEFAULT_TOOL_RESULT_MAX_CHARS, handle), line);
    assert_eq!(clip_trace_line("exactly ten", 11, handle), "exactly ten");
}

#[test]
fn a_long_trace_line_keeps_its_head_and_says_what_was_dropped() {
    let line = format!("ToolReturned(ok: {})", "node ".repeat(500));
    let clipped = clip_trace_line(&line, 100, Some(EventId(42)));
    assert!(
        clipped.starts_with("ToolReturned(ok: node node"),
        "{clipped}"
    );
    // The drop is visible, and addressable: the handle names the event
    // the rest is still sitting in.
    assert!(
        clipped.contains(&format!(
            "[r42: {} chars, 100 shown — inspect_result to see more]",
            line.chars().count()
        )),
        "{clipped}"
    );
    // 100 kept, plus the note.
    assert_eq!(clipped.chars().take(100).count(), 100);
    assert!(clipped.chars().count() < line.chars().count());
    // A line with no result behind it — a guard denial — still says what
    // it dropped, but promises nothing that can be fetched.
    let denial = clip_trace_line(&line, 100, None);
    assert!(denial.contains("more characters]"), "{denial}");
    assert!(!denial.contains(INSPECT_RESULT), "{denial}");
}

fn outcome(action: &str, id: u64, text: &str) -> TraceEntry {
    TraceEntry {
        handle: Some(EventId(id)),
        action: Some(action.to_string()),
        rejection: false,
        foldable: true,
        line: format!("ToolReturned(ok: {text})"),
    }
}

fn proposed(action: &str) -> TraceEntry {
    TraceEntry {
        handle: None,
        action: Some(action.to_string()),
        rejection: false,
        foldable: false,
        line: format!("Proposed({action})"),
    }
}

fn refusal(text: &str) -> TraceEntry {
    TraceEntry {
        handle: None,
        action: None,
        rejection: true,
        foldable: false,
        line: format!("Rejected({text})"),
    }
}

fn folded(entries: Vec<TraceEntry>, verbatim: usize) -> Vec<String> {
    fold_older_steps(entries, verbatim, DEFAULT_TOOL_RESULT_MAX_CHARS)
        .into_iter()
        .map(|e| e.line)
        .collect()
}

#[test]
fn the_fold_never_swallows_the_only_outcome() {
    let entries = vec![
        proposed("echo"),
        outcome("echo", 4, "echo: hi"),
        proposed("echo"),
        refusal("guard repeat_gate: identical call to 'echo'"),
        proposed("echo"),
        refusal("illegal action: echo"),
    ];
    let lines = folded(entries, 5);
    assert!(
        lines.iter().any(|l| l.contains("echo: hi")),
        "the result must survive: {lines:?}"
    );
}

#[test]
fn the_fold_keeps_recent_outcomes_and_every_refusal_and_counts_the_rest() {
    let mut entries = vec![refusal("guard taint_policy: external")];
    for i in 0..4 {
        entries.push(proposed("pointer_move"));
        entries.push(outcome("pointer_move", 10 + i, "moved"));
    }
    entries.push(outcome("pointer_click", 20, "clicked (389, 1056)"));
    let lines = folded(entries, 2);

    assert!(
        lines[0].starts_with("earlier this turn ("),
        "the fold leads: {lines:?}"
    );
    assert!(
        lines[0].contains("pointer_move ok ×3"),
        "equal steps are counted, not repeated: {}",
        lines[0]
    );
    assert!(
        lines.iter().any(|l| l.contains("taint_policy")),
        "a refusal is never folded — it is what steers the next proposal: {lines:?}"
    );
    assert!(
        lines.iter().any(|l| l.contains("clicked (389, 1056)")),
        "the last outcomes stay verbatim: {lines:?}"
    );
    assert_eq!(
        lines.iter().filter(|l| l.contains("moved")).count(),
        1,
        "one of the four moves is recent enough to keep: {lines:?}"
    );
}

#[test]
fn a_folded_clipped_result_still_names_its_handle() {
    let big = outcome("pointer_ui_read", 42, &"node ".repeat(400));
    let entries = vec![big, outcome("a", 1, "x"), outcome("b", 2, "y")];
    let lines = folded(entries, 2);
    assert!(
        lines[0].contains("pointer_ui_read ok (r42, clipped)"),
        "{}",
        lines[0]
    );
}

#[test]
fn the_fold_is_off_below_the_budget_and_at_zero() {
    let entries = || vec![outcome("a", 1, "x"), outcome("b", 2, "y")];
    assert_eq!(folded(entries(), 5).len(), 2, "nothing to fold");
    let many = || {
        vec![
            outcome("a", 1, "x"),
            outcome("b", 2, "y"),
            outcome("c", 3, "z"),
        ]
    };
    assert_eq!(folded(many(), 0).len(), 3, "0 disables the fold");
    assert_eq!(folded(many(), 1).len(), 2, "fold line plus the last one");
}

#[test]
fn a_handle_round_trips_and_tolerates_a_bare_number() {
    let id = EventId(42);
    assert_eq!(result_handle(id), "r42");
    assert_eq!(parse_result_handle("r42"), Some(id));
    assert_eq!(parse_result_handle(" R42 "), Some(id));
    assert_eq!(parse_result_handle("42"), Some(id), "a bare number is one");
    assert_eq!(parse_result_handle("rubbish"), None);
}

#[test]
fn a_result_window_pages_and_anchors_on_a_query() {
    let text: String = (0..50)
        .map(|i| format!("button \"item{i}\" ({i},{i}) | "))
        .collect();
    let total = text.chars().count();

    let (first, start, end) = result_window(&text, None, 0, 100);
    assert_eq!((start, end), (0, 100));
    assert!(first.starts_with("button \"item0\""));
    let (second, start, _) = result_window(&text, None, 1, 100);
    assert_eq!(start, 100);
    assert_ne!(first, second, "page 1 is not page 0");

    // Past the end is empty rather than an error: "no more" is an answer.
    assert!(result_window(&text, None, 999, 100).0.is_empty());

    let (hit, start, _) = result_window(&text, Some("item47"), 0, 100);
    assert!(hit.contains("item47"), "{hit}");
    assert!(start > 0, "anchored at the match, not at the top");
    assert!(
        hit.contains("button"),
        "the match arrives with its context: {hit}"
    );
    assert!(result_window(&text, Some("nothing here"), 0, 100)
        .0
        .is_empty());
    assert_eq!(total, text.chars().count());
}

#[test]
fn a_result_window_never_splits_a_character() {
    let text = "Průzkumník souborů 🐎 Zrušit Tlačítko Systémové hodiny".repeat(4);
    for max in 1..40 {
        let (window, _, _) = result_window(&text, None, 0, max);
        assert_eq!(window.chars().count(), max);
    }
    let (window, _, _) = result_window(&text, Some("Zrušit"), 0, 20);
    assert!(window.contains("Zrušit"), "{window}");
}

#[test]
fn clipping_never_splits_a_character() {
    let line = "Průzkumník souborů 🐎 Zrušit Tlačítko Systémové hodiny";
    for max in 1..line.chars().count() {
        let clipped = clip_trace_line(line, max, Some(EventId(1)));
        assert!(clipped.chars().count() >= max, "max {max}: {clipped}");
    }
}

fn asked(action: &str) -> EventKind {
    EventKind::Proposed {
        proposal: Proposal {
            rationale: String::new(),
            action: action.to_string(),
            args: Json { text: "{}".to_string() },
        },
    }
}

fn call(log: &mut EventLog, turn: u32, action: &str, args: Vec<(String, TaggedValue)>, summary: &str, trust: Trust) -> EventId {
    let id = log.append(turn, Timestamp(1), EventKind::ToolCalled { action: action.to_string(), args });
    log.append(
        turn,
        Timestamp(1),
        EventKind::ToolReturned {
            call: id,
            outcome: ToolOutcome::Done { output: ToolOutput { summary: summary.to_string(), artifact: None, trust } },
        },
    )
}

/// A turn with a refusal, a failure and a wide result, after one of another.
fn recorded() -> (Vec<Event>, EventId) {
    let mut log = EventLog::new(SessionId("t".to_string()));
    log.append(1, Timestamp(1), asked("other"));
    log.append(2, Timestamp(1), asked("wipe"));
    log.append(
        2,
        Timestamp(1),
        EventKind::Rejected {
            proposal_of: EventId(2),
            reason: RejectReason::GuardDenied { guard: "taint_policy".to_string(), reason: "external".to_string() },
        },
    );
    let failed = log.append(2, Timestamp(1), EventKind::ToolCalled { action: "ping".to_string(), args: vec![] });
    log.append(
        2,
        Timestamp(1),
        EventKind::ToolReturned {
            call: failed,
            outcome: ToolOutcome::Failed { kind: "net".to_string(), detail: "down".to_string() },
        },
    );
    let wide = call(&mut log, 2, "read", vec![], &"x".repeat(300), Trust::External);
    (log.events, wide)
}

#[test]
fn the_trace_of_a_turn_is_its_proposals_refusals_and_outcomes() {
    let (events, wide) = recorded();
    let lines: Vec<String> = trace_entries(&events, 2).into_iter().map(|e| e.line).collect();
    assert_eq!(lines.len(), 4, "{lines:?}");
    assert_eq!(lines[0], "Proposed(wipe)");
    assert_eq!(lines[1], "Rejected(guard taint_policy: external)");
    assert_eq!(lines[2], "ToolReturned(err net: down)");
    assert_eq!(turn_trace(&events, 2), lines.join("\n"));
    assert_eq!(clipped_results(&events, 2, 100), vec![wide]);
    assert!(clipped_results(&events, 2, 1_000).is_empty());
    let (shown, dropped) = trace_for_prompt(&events, 2, 5, 100);
    assert_eq!(shown.len(), 4);
    assert_eq!(dropped, lines[3].chars().count() - 100);
    assert!(shown[3].contains(&result_handle(wide)), "{}", shown[3]);
}

#[test]
fn a_result_is_found_by_its_handle_on_its_own_turn() {
    let (events, wide) = recorded();
    assert_eq!(result_text(&events, 2, wide), Some("x".repeat(300)));
    assert_eq!(result_trust(&events, 2, wide), Trust::External);
    assert_eq!(result_text(&events, 1, wide), None);
    assert_eq!(result_text(&events, 2, EventId(1)), None);
}

#[test]
fn a_second_look_at_a_result_is_its_next_page() {
    let mut log = EventLog::new(SessionId("p".to_string()));
    let wide = call(&mut log, 1, "read", vec![], "text", Trust::System);
    assert_eq!(inspect_page(&log.events, 1, wide), 0);
    let handle = TaggedValue {
        value: Json { text: format!("\"{}\"", result_handle(wide)) },
        prov: Provenance::Residual,
        trust: Trust::System,
    };
    call(&mut log, 1, INSPECT_RESULT, vec![("id".to_string(), handle)], "page", Trust::System);
    assert_eq!(inspect_page(&log.events, 1, wide), 1);
    assert_eq!(inspect_page(&log.events, 2, wide), 0, "another turn starts over");
}

#[test]
fn a_query_is_found_by_the_texts_own_characters() {
    // Each of the first two letters is two in lowercase.
    assert_eq!(result_window("\u{130}\u{130}a", Some("a"), 0, 4), ("a".to_string(), 2, 3));
    assert_eq!(result_window("\u{130}\u{130}a", Some("A"), 0, 4), ("a".to_string(), 2, 3));
    assert_eq!(result_window("abc", Some("d"), 0, 4), (String::new(), 0, 3));
    assert_eq!(result_window("xxabab", Some(" AB "), 0, 2), ("ab".to_string(), 2, 4), "the first match");
    // At the end of a word a capital sigma has a lowercase of its own.
    assert_eq!(result_window("ΑΣ", Some("ς"), 0, 4), ("Σ".to_string(), 1, 2));
    assert_eq!(result_window("ΑΣ", Some("ας"), 0, 4), ("ΑΣ".to_string(), 0, 2));
    assert_eq!(result_window("xİy", Some("y"), 0, 4), ("y".to_string(), 2, 3));
    assert_eq!(result_window("xİy", Some("i"), 0, 4), ("İy".to_string(), 1, 3));
    // A query looks past the pages, and a blank one is none.
    assert_eq!(result_window("xxabab", Some("ab"), 7, 2), result_window("xxabab", Some("ab"), 0, 2));
    assert_eq!(result_window("xxabab", Some("  "), 1, 2), result_window("xxabab", None, 1, 2));
    assert_eq!(result_window("abc", Some("d"), 3, 4), (String::new(), 0, 3));
}

#[test]
fn with_the_fold_off_a_trace_has_every_line() {
    let mut log = EventLog::new(SessionId("s".to_string()));
    let at = Timestamp(1);
    log.append(1, at, EventKind::UserSaid { text: "hi".to_string() });
    let proposal = Proposal {
        rationale: String::new(),
        action: "echo".to_string(),
        args: Json { text: "{}".to_string() },
    };
    let pid = log.append(1, at, EventKind::Proposed { proposal });
    let reason = RejectReason::Malformed { detail: "bad".to_string() };
    log.append(1, at, EventKind::Rejected { proposal_of: pid, reason });
    let call = log.append(1, at, EventKind::ToolCalled { action: "echo".to_string(), args: vec![] });
    let output = ToolOutput { summary: "0123456789".to_string(), artifact: None, trust: Trust::System };
    log.append(1, at, EventKind::ToolReturned { call, outcome: ToolOutcome::Done { output } });
    let (lines, dropped) = trace_for_prompt(&log.events, 1, 0, 100);
    assert_eq!(lines, vec!["Proposed(echo)", "Rejected(malformed: bad)", "ToolReturned(ok: 0123456789)"]);
    assert_eq!(dropped, 0);
    assert_eq!(lines.join("\n"), turn_trace(&log.events, 1));
    let (clipped, dropped) = trace_for_prompt(&log.events, 1, 0, 20);
    assert_eq!(clipped.len(), 3);
    assert_eq!(dropped, 4 + 8, "what each line is longer than the cap");
}
