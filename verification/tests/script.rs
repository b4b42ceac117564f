use ns_engine::contexts::ReplyContext;
use ns_engine::events::Proposal;
use ns_engine::guards::{ClassifiedProposal, GuardCtx, Verdict};
use ns_engine::script::{echo_text, DenyAction, EchoTool, ScriptedEmitter, ScriptedReplier};
use ns_engine::types::{Json, Trust};

fn json(text: &str) -> Json {
    Json { text: text.to_string() }
}

#[test]
fn scripted_emitter_pops_then_responds_directly() {
    let mut e = ScriptedEmitter::new(vec![Proposal {
        rationale: "r".to_string(),
        action: "echo".to_string(),
        args: json("{\"text\":\"hi\"}"),
    }]);
    let p1 = e.propose();
    assert_eq!(p1.action, "echo");
    let p2 = e.propose();
    assert_eq!(p2.action, "respond_directly");
    assert_eq!(p2.rationale, "nothing left to do");
}

#[test]
fn echo_tool_echoes() {
    let t = EchoTool::new();
    let out = t.call(&json("{\"text\":\"ahoj\"}")).unwrap();
    assert_eq!(out.summary, "echo: ahoj");
    assert_eq!(out.trust, Trust::System);
}

#[test]
fn deny_guard_denies_only_named_action() {
    let g = DenyAction { action: "echo".to_string(), reason: "not today".to_string() };
    let tool = EchoTool::new();
    let fired = Vec::new();
    let ctx = GuardCtx {
        spec: tool.spec(),
        turn: 1,
        confirmed_this_turn: false,
        fired_actions: &fired,
        pending_confirmation: None,
    };
    let cp = |action: &str| ClassifiedProposal {
        proposal: Proposal { rationale: String::new(), action: action.to_string(), args: json("{}") },
        args: vec![],
    };
    assert!(matches!(g.check(&cp("echo"), &ctx), Verdict::Deny { .. }));
    assert!(matches!(g.check(&cp("other"), &ctx), Verdict::Allow));
    assert_eq!(g.name(), "deny_action");
}

#[test]
fn the_echo_tool_needs_a_text() {
    let t = EchoTool::default();
    for args in ["{}", "{\"text\":5}", "[1]", "not json"] {
        let e = t.call(&json(args)).unwrap_err();
        assert_eq!((e.kind.as_str(), e.detail.as_str()), ("bad_args", "missing text"));
    }
    assert_eq!(echo_text(Some("x".to_string())).unwrap().summary, "echo: x");
    assert_eq!(t.spec().name, "echo");
    assert_eq!(t.spec().args_schema.text, "{\"properties\":{\"text\":{\"type\":\"string\"}},\"required\":[\"text\"],\"type\":\"object\"}");
}

#[test]
fn the_scripted_replier_says_the_trace() {
    let ctx = ReplyContext {
        persona: String::new(),
        facts: vec![],
        summary: None,
        window: vec![],
        user_text: "hi".to_string(),
        obligations: vec![],
        turn_trace: "Proposed(x)".to_string(),
        guidance: vec![],
        do_not_state: vec![],
        do_not_repeat: vec![],
    };
    assert_eq!(ScriptedReplier.reply(&ctx), "TRACE:\nProposed(x)");
}
