use ns_engine::router::{hit, select_tools, tool_cue_hit, Depth, KeywordRouter, Route, RouteInput, Router};
use ns_engine::types::Tier;

fn tools() -> Vec<String> {
    vec!["pointer_click".to_string(), "get_time".to_string()]
}

fn input<'a>(text: &'a str, tool_names: &'a Vec<String>) -> RouteInput<'a> {
    RouteInput {
        user_text: text,
        pending_confirmation: false,
        previous_turn_used_tools: false,
        tool_names,
    }
}

#[test]
fn plain_conversation_routes_to_chat() {
    let t = tools();
    let r = KeywordRouter::default().route(&input("hello, how are you", &t));
    assert_eq!(r.tier, Tier::Chat);
    assert!(r.cues.is_empty());
}

#[test]
fn a_recall_cue_routes_deep_in_both_languages() {
    let t = tools();
    let router = KeywordRouter::default();
    for text in [
        "what did i tell you earlier",
        "what was my name before",
        "co jsem ti říkal minule",
    ] {
        let r = router.route(&input(text, &t));
        assert_eq!(r.tier, Tier::Deep, "{text}");
        assert!(!r.cues.is_empty(), "{text} — the cue is recorded");
    }
}

#[test]
fn a_task_cue_or_a_tool_name_routes_to_task() {
    let t = tools();
    let router = KeywordRouter::default();
    assert_eq!(
        router.route(&input("click the button", &t)).tier,
        Tier::Task
    );
    assert_eq!(router.route(&input("otevři firefox", &t)).tier, Tier::Task);
    // Named outright, with no cue word anywhere in the message —
    // `pointer_click` would not test this, since it contains "click".
    let r = router.route(&input("run get_time for me", &t));
    assert_eq!(r.tier, Tier::Task);
    assert_eq!(r.cues, vec!["get_time".to_string()]);
}

#[test]
fn a_turn_in_the_middle_of_a_task_stays_at_task() {
    let t = tools();
    let mut i = input("now the other one", &t);
    assert_eq!(KeywordRouter::default().route(&i).tier, Tier::Chat);
    i.previous_turn_used_tools = true;
    let r = KeywordRouter::default().route(&i);
    assert_eq!(r.tier, Tier::Task);
    assert_eq!(r.cues, vec!["mid-task".to_string()]);
}

#[test]
fn a_pending_confirmation_outranks_every_word() {
    let t = tools();
    let mut i = input("yes", &t);
    i.pending_confirmation = true;
    let r = KeywordRouter::default().route(&i);
    assert_eq!(r.tier, Tier::Task);
    assert_eq!(r.cues, vec!["pending confirmation".to_string()]);
}

fn desktop() -> Vec<String> {
    [
        "pointer_ui_read",
        "pointer_ui_find",
        "pointer_click",
        "pointer_type",
        "pointer_scroll",
        "pointer_clipboard_read",
        "pointer_clipboard_write",
        "get_time",
    ]
    .iter()
    .map(|s| s.to_string())
    .collect()
}

fn adaptive() -> KeywordRouter {
    KeywordRouter {
        depth: Depth::Adaptive,
        ..KeywordRouter::default()
    }
}

#[test]
fn an_open_and_click_cue_selects_the_ui_and_click_tools_only() {
    let t = desktop();
    let r = adaptive().route(&input("open the panel and click Save", &t));
    assert_eq!(r.tier, Tier::Task);
    assert_eq!(
        r.tools,
        Some(vec![
            "pointer_ui_read".to_string(),
            "pointer_ui_find".to_string(),
            "pointer_click".to_string(),
        ]),
        "the ui group, in registration order"
    );
    // Nothing from the other groups rode along.
    let sent = r.tools.unwrap();
    for absent in ["pointer_type", "pointer_scroll", "get_time"] {
        assert!(!sent.contains(&absent.to_string()), "{absent} was withheld");
    }

    // A hard cue reaches two groups and still stays under the full set.
    let hard = adaptive().route(&input("sjeď dolů v panelu a klikni na Zmrazit", &t));
    let hard = hard.tools.expect("a cue fired");
    assert!(hard.contains(&"pointer_scroll".to_string()));
    assert!(hard.contains(&"pointer_click".to_string()));
    assert!(hard.len() < t.len(), "still a narrowing: {hard:?}");
}

#[test]
fn no_cue_selects_the_full_set() {
    let t = desktop();
    let router = adaptive();
    let mut i = input("now the other one", &t);
    i.previous_turn_used_tools = true;
    let r = router.route(&i);
    assert_eq!(r.tier, Tier::Task);
    assert_eq!(r.tools, None, "None is the full set");
    // `update` must not fire the scroll group's `up`: ASCII cues match a
    // whole word, which is the bug a substring match would have.
    assert_eq!(router.route(&input("run the update", &t)).tools, None);
    // And `full` changes nothing at all.
    assert_eq!(
        KeywordRouter::default()
            .route(&input("open the panel and click Save", &t))
            .tools,
        None
    );
}

fn as_text(r: &Route) -> String {
    format!("{r:?}")
}

#[test]
fn routing_is_pure_and_repeatable() {
    let t = tools();
    let router = KeywordRouter::default();
    let first = router.route(&input("what did i say before", &t));
    let second = router.route(&input("what did i say before", &t));
    assert_eq!(as_text(&first), as_text(&second), "a replay must route the same way");
}

#[test]
fn a_selection_keeps_the_order_of_registration() {
    let names = vec!["get_time".to_string(), "pointer_scroll".to_string(), "pointer_click".to_string()];
    assert_eq!(
        select_tools("scroll down and click", &names),
        Some(vec!["pointer_scroll".to_string(), "pointer_click".to_string()])
    );
    assert_eq!(select_tools("nothing of that", &names), None);
}

#[test]
fn the_first_cue_that_stands_in_the_message_is_named() {
    let cues = vec!["before".to_string(), "earlier".to_string()];
    assert_eq!(hit("what i said earlier, or before", &cues).as_deref(), Some("before"));
    assert_eq!(hit("now", &cues), None);
}

#[test]
fn a_czech_stem_fires_inside_a_word_and_an_english_cue_does_not() {
    let words = |list: &[&str]| list.iter().map(|w| w.to_string()).collect::<Vec<String>>();
    assert!(tool_cue_hit("ukaž hodiny", &words(&["ukaž", "hodiny"]), "hodin"));
    for (text, cue) in [("najdito", "najdi"), ("kliknite", "klikni"), ("nahoru!", "nahoru"), ("schránku", "schránk")] {
        assert_eq!(tool_cue_hit(text, &words(&[]), cue), text.contains(cue), "{text}");
    }
    assert!(!tool_cue_hit("please update it", &words(&["please", "update", "it"]), "up"));
    assert!(tool_cue_hit("anything", &words(&["up"]), "up"), "a whole word is looked for among the words");
    let names = words(&["get_time", "pointer_scroll"]);
    assert_eq!(select_tools("ukaž hodiny", &names), Some(words(&["get_time"])));
    assert_eq!(select_tools("please update it", &names), None);
}
