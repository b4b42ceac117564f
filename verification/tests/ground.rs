use ns_engine::contexts::{ReplyContext, ShownFact, ShownNote, ShownRecord, ShownSummary};
use ns_engine::ground::{
    cited, distinctive_spans, echo_material, extract_claims, reference_parts, unaddressed, ungrounded, Material,
};
use ns_engine::types::Json;

fn blank() -> ReplyContext {
    ReplyContext {
        persona: String::new(),
        facts: vec![],
        summary: None,
        window: vec![],
        user_text: String::new(),
        obligations: vec![],
        turn_trace: String::new(),
        guidance: vec![],
        do_not_state: vec![],
        do_not_repeat: vec![],
    }
}

#[test]
fn extracts_numbers_quotes_and_mid_sentence_names_only() {
    let claims = extract_claims(
        "Hello Martin! You have 42 orders in Oslo, and \"blue widgets\" at 10:41 UTC, and Peter's order is due Wednesday.",
    );
    assert_eq!(
        claims,
        vec![
            "blue widgets",
            "Martin",
            "42",
            "Oslo",
            "10:41",
            "Peter",
            "Wednesday"
        ]
    );
    // sentence-initial words, all-caps labels, stoplist and short tokens are not claims
    assert!(extract_claims("Sure. I can help. OK? WINDOW= The time. Thanks!").is_empty());
    assert!(
        extract_claims("It is 5 now.").is_empty(),
        "single digits are not claims"
    );
}

#[test]
fn material_check_is_case_insensitive_and_exact_substring() {
    let m = Material::from_parts(&[
        "user.name: \"Martin\"",
        "[t74] user: tell me the time\n      did:  get_time -> ok: 2026-09-02 10:41:28 UTC (Wednesday)",
    ]);
    assert_eq!(
        ungrounded("Hello Martin! It is 10:41 UTC on Wednesday.", &m),
        Vec::<String>::new()
    );
    assert_eq!(
        ungrounded("Martin, the session has reached 185 messages in Oslo.", &m),
        vec!["185", "Oslo"]
    );
    assert_eq!(
        ungrounded("You said \"tell me the time\".", &m),
        Vec::<String>::new()
    );
    assert_eq!(
        ungrounded("You said \"tell me a joke\".", &m),
        vec!["tell me a joke"]
    );
}

#[test]
fn context_material_covers_every_rendered_block_and_the_persona() {
    let ctx = ReplyContext {
        persona: "You are Tomáš, a sales assistant.".to_string(),
        facts: vec![ShownFact {
            key: "user.city".to_string(),
            value: Json { text: "\"Brno\"".to_string() },
            rendered: "user.city: \"Brno\"".to_string(),
        }],
        summary: Some(ShownSummary { through_turn: 3, rendered: "topic: ordering Widgetron units".to_string() }),
        window: vec![ShownRecord {
            turn: 4,
            rendered: "[t4] user: ship to Karlova 12\n      did:  check_stock -> ok: 7 left\n      bot:  Seven left."
                .to_string(),
        }],
        user_text: "and my colleague Jana?".to_string(),
        obligations: vec![],
        turn_trace: "Proposed(respond_directly)".to_string(),
        guidance: vec![ShownNote { text: "Mention Praha when relevant.".to_string(), hash: "h1".to_string() }],
        do_not_state: vec![],
        do_not_repeat: vec![],
    };
    let m = Material::from_context(&ctx);
    let reply = "Hi Jana, Tomáš here. Brno gets 7 Widgetron units to Karlova 12; Praha too. Not 99 to Ostrava.";
    assert_eq!(ungrounded(reply, &m), vec!["99", "Ostrava"]);
}

#[test]
fn superseded_fact_values_are_material() {
    let mut ctx = blank();
    ctx.facts = vec![ShownFact {
        key: "user.name".to_string(),
        value: Json { text: "\"Peter\"".to_string() },
        rendered: "user.name: \"Peter\" (was \"Martin\" until 00:00 UTC)".to_string(),
    }];
    ctx.user_text = "what was my name before?".to_string();
    let m = Material::from_context(&ctx);
    assert_eq!(
        ungrounded("Your name was Martin.", &m),
        Vec::<String>::new()
    );
}

#[test]
fn an_empty_claim_is_never_supported() {
    let m = Material::from_parts(&["anything"]);
    assert!(!m.contains(""));
    assert!(m.contains("ANYTHING"));
    assert!(!Material::from_parts(&[]).contains("x"));
}

#[test]
fn what_a_reply_drew_on_is_named_by_part() {
    let mut ctx = blank();
    ctx.facts = vec![ShownFact {
        key: "user.city".to_string(),
        value: Json { text: "\"Brno\"".to_string() },
        rendered: "user.city: \"Brno\"".to_string(),
    }];
    ctx.turn_trace = "ToolReturned(ok: 7 left)".to_string();
    let parts: Vec<String> = reference_parts(&ctx).into_iter().map(|(name, _)| name).collect();
    assert_eq!(parts, vec!["persona", "trace", "fact:user.city", "window"]);
    let drawn = cited(&ctx, "They ship it to Brno.");
    assert!(drawn.contains(&"fact:user.city".to_string()), "{drawn:?}");
    assert!(cited(&ctx, "nothing of that").is_empty());
    assert!(echo_material(&ctx).contains("user.city: \"Brno\""));
}

#[test]
fn spans_are_runs_of_three_words() {
    assert!(distinctive_spans("two words").is_empty());
    assert_eq!(distinctive_spans("one two three four"), vec!["one two three", "two three four"]);
}

#[test]
fn the_first_question_without_an_answer_is_named() {
    let owed = vec!["answer: what time is it".to_string(), "do: book it".to_string(), "answer: which city".to_string()];
    assert_eq!(unaddressed(&owed, &vec![true, false, false]).as_deref(), Some("which city"));
    assert_eq!(unaddressed(&owed, &vec![false, false, false]).as_deref(), Some("what time is it"));
    assert_eq!(unaddressed(&owed, &vec![true, false, true]), None, "what is to be done is not asked here");
}

#[test]
fn material_holds_its_parts_case_aside_and_never_nothing() {
    let parts = ["Brno je Město", "", "İstanbul"];
    let m = Material::from_parts(&parts);
    assert!(m.contains(parts[0]) && m.contains(parts[2]));
    assert!(!m.contains(""));
    for claim in ["město", "MĚSTO", "Brno"] {
        assert!(m.contains(claim));
        assert_eq!(m.contains(claim), m.contains(&claim.to_lowercase()), "{claim}");
    }
    assert!(!m.contains("Praha"));
}
