use ns_engine::contexts::{ReplyContext, ShownFact, ShownNote, ShownRecord};
use ns_engine::eval::desk::{
    answer, control_at, control_tree, handle_in, outcomes_in, point_of, reached, Desk, DeskTool, DesktopEmitter, Step,
    HEAD_CONTROL, RECORDED_CHARS, RESULT_CONTROL, SEARCH_CONTROL, TAIL_CONTROL, TAIL_X, TAIL_Y,
};
use ns_engine::eval::grade;
use ns_engine::eval::report::{render_table, require, Ability, Harness};
use ns_engine::eval::shown::{draft, render_prompt, spent, Shown, INERT};
use ns_engine::events::{
    EventKind, EventLog, Manifest, Proposal, ToolOutcome, ToolOutput,
};
use ns_engine::facts::Fact;
use ns_engine::turn::memory::blank_manifest;
use ns_engine::types::{EventId, Json, SessionId, SideEffect, Tier, Timestamp, Trust};

#[test]
fn the_report_names_the_ability_that_broke_and_its_numbers() {
    let row = |ability, passed, detail: &str| Ability {
        ability,
        passed,
        turns: 9,
        requests: 19,
        prompt_chars: 512,
        prompt_tokens: 128,
        peak_chars: 700,
        tool_calls: 3,
        recall_fired: false,
        recall_hits: 0,
        flags: 0,
        clipped_chars: 13_225,
        inspections: 2,
        budget_drops: 1,
        escalations: 1,
        detail: detail.to_string(),
    };
    let table = render_table(&vec![
        row("information extraction", true, ""),
        row("temporal reasoning", false, "superseded value not rendered"),
    ]);
    assert!(table.contains("ability                   pass"), "{table}");
    assert!(table.contains("information extraction    ok"), "{table}");
    assert!(table.contains("1/2 abilities pass."), "{table}");
    assert!(
        table.contains("temporal reasoning FAILED: superseded value not rendered"),
        "a failing row must name the condition, not just the ability:\n{table}"
    );
    // The numbers are the row, so every one of them has to be in it.
    for n in ["9", "19", "512", "128", "700", "13225"] {
        assert!(table.contains(n), "{n} missing from:\n{table}");
    }
    // Including the four the desktop half is about, by heading as well as
    // by value: a column nobody can name in the printed table is a column
    // nobody reads.
    for heading in ["clipped", "insp", "drops", "esc"] {
        assert!(table.contains(heading), "{heading} missing from:\n{table}");
    }
}

#[test]
fn the_columns_of_the_table_stand_under_their_headings() {
    let table = render_table(&vec![]);
    let lines: Vec<&str> = table.lines().collect();
    assert_eq!(lines[1], "M7 T5.1 — memory and desktop abilities, scripted model");
    assert_eq!(
        lines[3],
        "  ability                   pass  turns  reqs  prompt  ~tok  peak  tools  recall  hits  flags  clipped   insp  drops   esc"
    );
    assert_eq!(
        lines[4],
        "  ------------------------  ----  -----  ----  ------  ----  ----  -----  ------  ----  -----  -------  -----  -----  ----"
    );
    assert_eq!(lines[6], "  0/0 abilities pass.");
}

#[test]
fn the_control_tree_is_the_recorded_size_and_its_tail_is_past_the_cap() {
    let tree = control_tree();
    let chars = tree.chars().count();
    // To within one control line: the tree is filled a whole row at a
    // time, so it lands within about forty characters of the record.
    assert!(
        (RECORDED_CHARS - 60..=RECORDED_CHARS + 60).contains(&chars),
        "{chars} characters, want about the recorded {RECORDED_CHARS}"
    );
    let head: String = tree.chars().take(1_200).collect();
    assert!(
        head.starts_with("MODAL"),
        "the real tool puts what is blocking the screen first:\n{head}"
    );
    assert!(
        head.contains(HEAD_CONTROL) && head.contains(SEARCH_CONTROL),
        "find-and-click reaches its controls out of the shown head"
    );
    assert!(
        !head.contains(TAIL_CONTROL),
        "the third task's control must not be in the part the cap keeps"
    );
    let at = tree
        .find(TAIL_CONTROL)
        .expect("the tail control is in the tree");
    assert!(
        tree[..at].chars().count() > 13_000,
        "the tail sits {} characters in; it has to be far past the cap",
        tree[..at].chars().count()
    );
    assert_eq!(
        tree.matches(TAIL_CONTROL).count(),
        1,
        "and only once, or an inspect_result query would anchor on the wrong one"
    );
    // The world's answer to a click, which is what a task is graded on.
    assert_eq!(
        control_at(TAIL_X, TAIL_Y).as_deref(),
        Some("button \"Sloučit buňky\"")
    );
    assert_eq!(control_at(1, 1), None, "a click that hit nothing says so");
}

#[test]
fn the_desktop_double_reads_points_and_handles_out_of_what_it_was_shown() {
    let shown = "ToolReturned(ok: MODAL (handle this before anything behind it):\n  \
                 button \"Uložit jako…\" (872,604)";
    assert_eq!(point_of(shown, HEAD_CONTROL), Some((872, 604)));
    assert_eq!(point_of(shown, TAIL_CONTROL), None);
    let clipped = "ToolReturned(ok: MODAL…) [r42: 14425 chars, 1200 shown — \
                   inspect_result to see more]";
    assert_eq!(handle_in(clipped).as_deref(), Some("r42"));
    assert_eq!(handle_in(shown), None, "nothing was clipped");
    // A line the cap cut mid-coordinate reads as absent, not as a wrong
    // point: a click on a half-read coordinate would land somewhere.
    assert_eq!(point_of("button \"Uložit jako…\" (872", HEAD_CONTROL), None);
}

#[test]
fn every_control_of_the_tasks_is_where_the_screen_shows_it() {
    let tree = control_tree();
    for name in [HEAD_CONTROL, SEARCH_CONTROL, RESULT_CONTROL, TAIL_CONTROL] {
        let (x, y) = point_of(&tree, name).unwrap();
        assert_eq!(control_at(x, y), Some(format!("button \"{name}\"")));
    }
    assert_eq!(point_of("\"a\" ( -5 , +7 )", "a"), Some((-5, 7)));
    assert_eq!(point_of("\"a\" (1;2)", "a"), None);
    assert_eq!(point_of("\"a\" (99999999999999999999,2)", "a"), None);
    assert_eq!(handle_in("[r]"), None);
    assert_eq!(handle_in("[rr7x").as_deref(), Some("rr7"));
}

#[test]
fn the_desktop_answers_what_is_under_the_pointer() {
    let click = DeskTool::click();
    assert_eq!(click.spec().name, "pointer_click");
    assert_eq!(click.spec().side_effect, SideEffect::Irreversible);
    let args = |text: &str| Json { text: text.to_string() };
    let hit = click.call(&args("{\"x\":872,\"y\":604}")).unwrap();
    assert_eq!(hit.summary, "clicked button \"Uložit jako…\" at (872,604)");
    assert_eq!(hit.trust, Trust::System);
    let miss = click.call(&args("{\"x\":1,\"y\":-1}")).unwrap_err();
    assert_eq!((miss.kind.as_str(), miss.detail.as_str()), ("miss", "no control at (1,-1)"));
    let bad = click.call(&args("{\"x\":\"872\"}")).unwrap_err();
    assert_eq!((bad.kind.as_str(), bad.detail.as_str()), ("args", "needs numeric x and y"));
    assert_eq!(DeskTool::read().call(&args("{}")).unwrap().summary, control_tree());
    assert_eq!(DeskTool::typing().call(&args("{\"text\":\"a\\\"b\"}")).unwrap().summary, "typed \"a\\\"b\"");
    assert_eq!(answer(Desk::Type, None, None, None).unwrap().summary, "typed \"\"");
    assert_eq!(DeskTool::read().spec().side_effect, SideEffect::Pure);
}

#[test]
fn a_step_is_over_when_its_effect_is_in_sight() {
    let lines = vec![
        "Proposed(pointer_click)".to_string(),
        "ToolReturned(ok: clicked button \"Najít v listu\" at (1240,96))".to_string(),
        "earlier this turn (2 steps)".to_string(),
    ];
    let outcomes = outcomes_in(&lines);
    assert_eq!(outcomes, format!("{}\n{}", lines[1], lines[2]));
    assert!(reached(&outcomes, SEARCH_CONTROL));
    assert!(!reached(&outcomes, HEAD_CONTROL));
    assert!(!reached("ok: clicked x\nNajít v listu", SEARCH_CONTROL), "both halves on one line");
}

#[test]
fn the_double_looks_behind_a_handle_only_where_it_may() {
    let legal = vec![ns_engine::turn::specs::inspect_result_spec(ns_engine::turn::specs::SchemaProfile::Full)];
    let trace = vec!["ToolReturned(ok: MODAL…) [r42: 14425 chars, 1200 shown]".to_string()];
    let plan = || vec![Step::Reach { name: TAIL_CONTROL.to_string() }];
    let mut e = DesktopEmitter::new(plan());
    let p = e.propose(&trace, &legal);
    assert_eq!(p.action, "inspect_result");
    assert_eq!(p.args.text, "{\"id\":\"r42\",\"query\":\"Sloučit buňky\"}");
    let mut barred = DesktopEmitter::new(plan());
    assert_eq!(barred.propose(&trace, &vec![]).action, "respond_directly");
    assert_eq!(barred.propose(&trace, &legal).action, "respond_directly", "giving up is final");
    let mut sighted = DesktopEmitter::new(vec![Step::Reach { name: HEAD_CONTROL.to_string() }]);
    let p = sighted.propose(&vec!["\"Uložit jako…\" (872,604)".to_string()], &vec![]);
    assert_eq!((p.action.as_str(), p.args.text.as_str()), ("pointer_click", "{\"x\":872,\"y\":604}"));
    let mut writer = DesktopEmitter::new(vec![
        Step::Type { text: "a \"b\"".to_string() },
        Step::Read { query: "x".to_string() },
    ]);
    assert_eq!(writer.propose(&vec![], &vec![]).args.text, "{\"text\":\"a \\\"b\\\"\"}");
    assert_eq!(writer.propose(&vec![], &vec![]).action, "pointer_type", "nothing came of it yet");
    assert_eq!(writer.propose(&vec!["ToolReturned(ok: typed)".to_string()], &vec![]).action, "pointer_ui_read");
    assert_eq!(writer.traces.len(), 3);
}

fn context() -> ReplyContext {
    ReplyContext {
        persona: "You are N.".to_string(),
        facts: vec![ShownFact {
            key: "user.name".to_string(),
            value: Json { text: "\"Peter\"".to_string() },
            rendered: "user.name: \"Peter\" (was \"Martin\" until 17:35 UTC)".to_string(),
        }],
        summary: None,
        window: vec![ShownRecord { turn: 1, rendered: "[t1] hi".to_string() }],
        user_text: "who am i".to_string(),
        obligations: vec![],
        turn_trace: "Proposed(x)".to_string(),
        guidance: vec![ShownNote { text: "be brief".to_string(), hash: "h".to_string() }],
        do_not_state: vec!["Oslo".to_string()],
        do_not_repeat: vec![],
    }
}

#[test]
fn a_context_is_kept_as_the_model_read_it() {
    let ctx = context();
    let want = "You are N.\n- user.name: \"Peter\" (was \"Martin\" until 17:35 UTC)\n[t1] hi\nwho am i\nProposed(x)\n- be brief";
    assert_eq!(render_prompt(&ctx, "[t1] hi"), want);
    let s = Shown::capture(&ctx, "[t1] hi");
    assert_eq!(s.prompt, want);
    assert_eq!(s.chars(), want.chars().count());
    assert!(s.shows("PETER") && s.shows("martin") && !s.shows("Jana"));
    assert_eq!(s.fact_line("user.name"), Some("user.name: \"Peter\" (was \"Martin\" until 17:35 UTC)"));
    assert_eq!(s.fact_line("user"), None);
    assert_eq!((s.rows_for("user.name"), s.rows_for("user.age")), (1, 0));
    assert_eq!(s.do_not_state, vec!["Oslo"]);
    assert_eq!(Shown::default().chars(), 0);
}

#[test]
fn a_double_drafts_once_and_costs_nothing_that_was_measured() {
    assert_eq!(draft(Some("You live in Ostrava."), 0), "You live in Ostrava.");
    assert_eq!(draft(Some("You live in Ostrava."), 1), INERT);
    assert_eq!(draft(None, 0), INERT);
    let u = spent("replier");
    assert_eq!((u.role.as_str(), u.model.as_str(), u.estimated, u.attempts), ("replier", "scripted", true, 1));
}

fn manifest(tier: Option<Tier>, clipped_chars: usize, dropped: &[&str]) -> Manifest {
    Manifest {
        tier,
        clipped_chars,
        budget: Some(dropped.iter().map(|d| d.to_string()).collect()),
        ..blank_manifest()
    }
}

fn call(action: &str) -> EventKind {
    EventKind::ToolCalled { action: action.to_string(), args: vec![] }
}

fn returned(call: EventId, summary: &str) -> EventKind {
    EventKind::ToolReturned {
        call,
        outcome: ToolOutcome::Done {
            output: ToolOutput { summary: summary.to_string(), artifact: None, trust: Trust::System },
        },
    }
}

fn model(tier: Option<Tier>, clipped: usize, dropped: &[&str]) -> EventKind {
    EventKind::ModelCall { usage: spent("emitter"), manifest: manifest(tier, clipped, dropped) }
}

fn counted_log() -> Vec<ns_engine::events::Event> {
    let mut log = EventLog::new(SessionId("c".to_string()));
    let t = Timestamp(1);
    log.append(1, t, EventKind::UserSaid { text: "x".to_string() });
    log.append(1, t, model(Some(Tier::Chat), 10, &[]));
    log.append(1, t, model(Some(Tier::Task), 5, &["window", "summary"]));
    log.append(
        1,
        t,
        EventKind::Proposed {
            proposal: Proposal {
                rationale: String::new(),
                action: "ask_clarification".to_string(),
                args: Json { text: "{}".to_string() },
            },
        },
    );
    let r = log.append(1, t, call("recall"));
    log.append(1, t, returned(r, "a; b; c"));
    let r = log.append(1, t, call("recall"));
    log.append(1, t, returned(r, "no matches"));
    let i = log.append(1, t, call("inspect_result"));
    log.append(1, t, returned(i, "one; two"));
    log.append(1, t, EventKind::ReplyFlagged { draft: "d".to_string(), spans: vec!["s".to_string()] });
    log.append(2, t, EventKind::UserSaid { text: "y".to_string() });
    log.append(2, t, model(Some(Tier::Chat), 0, &[]));
    log.append(3, t, model(Some(Tier::Deep), 0, &[]));
    log.events
}

#[test]
fn the_numbers_are_read_off_the_logs() {
    let h = Harness { shown: vec![], traces: vec![], logs: vec![counted_log(), counted_log()] };
    let c = h.counters();
    assert_eq!((c.turns, c.emitter_calls, c.tool_calls, c.clarifications), (4, 2, 6, 2));
    assert_eq!((c.recall_calls, c.recall_hits), (4, 6), "the result of another call is no hit");
    assert_eq!((c.flags, c.inspections, c.clipped_chars, c.budget_drops), (2, 2, 30, 4));
    assert_eq!((c.escalations, c.chat_calls), (2, 4), "a rise between two turns is none");
    assert_eq!(h.outcomes().len(), 6);
}

#[test]
fn the_peaks_are_the_largest_of_the_run() {
    let shown = |n: usize| Shown { prompt: "á".repeat(n), ..Shown::default() };
    let h = Harness {
        shown: vec![shown(3), shown(9), shown(1)],
        traces: vec![vec!["ab".to_string(), "ž".to_string()], vec!["x".to_string()]],
        logs: vec![],
    };
    assert_eq!((h.reply_calls(), h.peak_chars(), h.peak_trace_chars()), (3, 9, 3));
    let none = Harness { shown: vec![], traces: vec![], logs: vec![] };
    assert_eq!((none.peak_chars(), none.peak_trace_chars()), (0, 0));
}

#[test]
fn a_row_gathers_every_condition_that_failed() {
    let mut fails = Vec::new();
    require(&mut fails, true, "not this".to_string());
    require(&mut fails, false, "first".to_string());
    require(&mut fails, false, "second".to_string());
    assert_eq!(fails, vec!["first", "second"]);
    let h = Harness { shown: vec![Shown::default()], traces: vec![], logs: vec![counted_log()] };
    let row = Ability::build("x", &Shown::default(), &h, 7, &fails);
    assert!(!row.passed && row.recall_fired);
    assert_eq!((row.detail.as_str(), row.requests, row.prompt_tokens), ("first; second", 2, 7));
    assert!(Ability::build("x", &Shown::default(), &h, 7, &vec![]).passed);
}

#[test]
fn each_ability_says_what_was_there_instead() {
    let h = Harness { shown: vec![], traces: vec![], logs: vec![] };
    let none = Shown::default();
    let row = grade::information_extraction(&h, &none, 0);
    assert_eq!(
        row.detail,
        "user.name was not in the reply context; user.age was not in the reply context; \
         user.preference.time_format was not in the reply context"
    );
    let row = grade::multi_session_reasoning(&h, &Shown { window: "w".to_string(), ..Shown::default() }, 0);
    assert_eq!(
        row.detail,
        "session two already had a window: \"w\"; \
         neither facts nor recall carried the budget into session two; facts were []"
    );
    let row = grade::temporal_reasoning(&h, &none, 0);
    assert!(row.detail.starts_with("user.name was not in the reply context; "), "{}", row.detail);
    let row = grade::knowledge_updates(&h, &none, &vec![], 0);
    assert_eq!(
        row.detail,
        "0 current rows for user.age, want 1; current value is None, want \"18\"; \
         0 superseded rows with a valid_to, want 1; 0 user.age lines in the context — ghost mixing: []; \
         user.age was not in the reply context"
    );
    let row = grade::abstention(&h, &vec![Shown { trace: "t".to_string(), ..Shown::default() }], 0);
    assert_eq!(
        row.detail,
        "0 recall calls, want 1; the reply model was not told the search found nothing: \"t\"; \
         0 interceptor flags, want 1 for the invented value; 1 drafts; the flagged reply was not regenerated"
    );
    let row = grade::selective_forgetting(&h, &none, &none, &vec![], 0);
    assert_eq!(
        row.detail,
        "the value was already absent before the forget; nothing was forgotten; the row was not soft-deleted: None"
    );
    let row = grade::desktop_open_and_search(&h, &vec![], 0);
    assert!(row.detail.starts_with(
        "the turn never reached the reply model — it ran out of iterations; \
         \"Uložit jako…\" was never clicked; the turn did: []; "
    ), "{}", row.detail);
    let row = grade::desktop_find_and_click(&h, &vec![], 0);
    assert!(row.detail.contains("0 tool calls, want a read and a click; nothing was clipped"), "{}", row.detail);
    let row = grade::desktop_clipped_tail(&h, &vec![], 0);
    assert_eq!(
        row.detail,
        "the tail was reached without inspect_result — the target is not past the cap; \
         \"Sloučit buňky\" was never clicked; the turn did: []; \
         0 tool calls, want a read, an inspection and a click; no prompt ever carried the control's point"
    );
}

#[test]
fn a_wrong_value_is_named_by_its_kind() {
    let h = Harness { shown: vec![], traces: vec![], logs: vec![] };
    let none = Shown::default();
    let named = |text: &str| {
        let fact = Fact { key: "user.age".to_string(), value: Json { text: text.to_string() }, ..Fact::default() };
        grade::knowledge_updates(&h, &none, &vec![fact], 0).detail
    };
    assert!(named("18").contains("current value is Some(Number(18)), want \"18\""), "{}", named("18"));
    assert!(named("\"a\\tb\"").contains("current value is Some(String(\"a\\tb\")), want"), "{}", named("\"a\\tb\""));
    assert!(named("null").contains("current value is Some(Null), want"), "{}", named("null"));
    assert!(!named("\"18\"").contains("current value"));
}
