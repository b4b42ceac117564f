use ns_engine::events::{ActionSpec, ArgRule, Proposal};
use ns_engine::guards::{
    contains_residual, ClassifiedProposal, DedupeGate, GuardCtx, ResidualPolicy, SideEffectGate, TaintPolicy, Verdict,
};
use ns_engine::types::{EventId, Json, Provenance, ResidualRule, SideEffect, TaggedValue, Trust};

fn json(text: &str) -> Json {
    Json { text: text.to_string() }
}

fn spec(side_effect: SideEffect, rules: &[(&str, ResidualRule)], tag: Option<&str>) -> ActionSpec {
    ActionSpec {
        name: "act".to_string(),
        description: "d".to_string(),
        args_schema: json("{}"),
        side_effect,
        residual_policy: rules.iter().map(|(a, r)| ArgRule { arg: a.to_string(), rule: *r }).collect(),
        dedupe_tag: tag.map(|t| t.to_string()),
    }
}

fn proposal(action: &str, args: Vec<(&str, Provenance, Trust)>) -> ClassifiedProposal {
    ClassifiedProposal {
        proposal: Proposal { rationale: String::new(), action: action.to_string(), args: json("{}") },
        args: args
            .into_iter()
            .map(|(k, prov, trust)| (k.to_string(), TaggedValue { value: json("\"v\""), prov, trust }))
            .collect(),
    }
}

fn ctx<'a>(spec: &'a ActionSpec, fired: &'a Vec<String>, confirmed: bool) -> GuardCtx<'a> {
    GuardCtx { spec, turn: 1, confirmed_this_turn: confirmed, fired_actions: fired, pending_confirmation: None }
}

#[test]
fn residual_policy_denies_never_residual_args() {
    let s = spec(SideEffect::Pure, &[("order_id", ResidualRule::Never)], None);
    let fired = Vec::new();
    let p = proposal("act", vec![("order_id", Provenance::Residual, Trust::System)]);
    match ResidualPolicy.check(&p, &ctx(&s, &fired, false)) {
        Verdict::Deny { reason } => {
            assert!(reason.contains("NeverResidual"));
            assert!(reason.contains("order_id"));
        }
        other => panic!("expected Deny, got {other:?}"),
    }
}

#[test]
fn residual_policy_allows_grounded_args_and_allowed_residuals() {
    let s = spec(SideEffect::Pure, &[("order_id", ResidualRule::Never)], None);
    let fired = Vec::new();
    let grounded = proposal(
        "act",
        vec![("order_id", Provenance::UserInput { turn: 1, start: 0, end: 2 }, Trust::User)],
    );
    assert!(matches!(ResidualPolicy.check(&grounded, &ctx(&s, &fired, false)), Verdict::Allow));
    let free_arg = proposal("act", vec![("note", Provenance::Residual, Trust::System)]);
    assert!(matches!(ResidualPolicy.check(&free_arg, &ctx(&s, &fired, false)), Verdict::Allow));
}

#[test]
fn residual_policy_sees_residual_inside_transforms() {
    let s = spec(SideEffect::Pure, &[("order_id", ResidualRule::Never)], None);
    let fired = Vec::new();
    let p = proposal(
        "act",
        vec![(
            "order_id",
            Provenance::Transform { func: "trim".to_string(), inputs: vec![Provenance::Residual] },
            Trust::System,
        )],
    );
    assert!(matches!(ResidualPolicy.check(&p, &ctx(&s, &fired, false)), Verdict::Deny { .. }));
}

#[test]
fn taint_policy_gates_external_trust_on_side_effects() {
    let s = spec(SideEffect::Reversible, &[], None);
    let fired = Vec::new();
    let p = proposal(
        "act",
        vec![(
            "target",
            Provenance::CopiedOutput { call: EventId(3), path: "$.x".to_string() },
            Trust::External,
        )],
    );
    assert!(matches!(TaintPolicy.check(&p, &ctx(&s, &fired, false)), Verdict::NeedsConfirmation { .. }));
    // confirmed this turn -> allowed
    assert!(matches!(TaintPolicy.check(&p, &ctx(&s, &fired, true)), Verdict::Allow));
    // pure action -> not gated
    let pure = spec(SideEffect::Pure, &[], None);
    assert!(matches!(TaintPolicy.check(&p, &ctx(&pure, &fired, false)), Verdict::Allow));
}

#[test]
fn taint_policy_gates_clarification_questions_too() {
    let s = spec(SideEffect::Pure, &[], None);
    let fired = Vec::new();
    let p = proposal(
        "ask_clarification",
        vec![(
            "question",
            Provenance::CopiedOutput { call: EventId(3), path: "$".to_string() },
            Trust::External,
        )],
    );
    assert!(matches!(TaintPolicy.check(&p, &ctx(&s, &fired, false)), Verdict::NeedsConfirmation { .. }));
}

#[test]
fn side_effect_gate_blocks_unconfirmed_irreversible() {
    let s = spec(SideEffect::Irreversible, &[], None);
    let fired = Vec::new();
    let p = proposal("wipe", vec![]);
    assert!(matches!(SideEffectGate.check(&p, &ctx(&s, &fired, false)), Verdict::NeedsConfirmation { .. }));
    assert!(matches!(SideEffectGate.check(&p, &ctx(&s, &fired, true)), Verdict::Allow));
    let reversible = spec(SideEffect::Reversible, &[], None);
    assert!(matches!(SideEffectGate.check(&p, &ctx(&reversible, &fired, false)), Verdict::Allow));
}

#[test]
fn dedupe_gate_fires_once_per_tagged_action() {
    let s = spec(SideEffect::Pure, &[], Some("greeting"));
    let mut fired = Vec::new();
    let p = proposal("act", vec![]);
    assert!(matches!(DedupeGate.check(&p, &ctx(&s, &fired, false)), Verdict::Allow));
    fired.push("act".to_string());
    assert!(matches!(DedupeGate.check(&p, &ctx(&s, &fired, false)), Verdict::Deny { .. }));
    // untagged spec never gated
    let untagged = spec(SideEffect::Pure, &[], None);
    assert!(matches!(DedupeGate.check(&p, &ctx(&untagged, &fired, false)), Verdict::Allow));
}

#[test]
fn the_guards_say_what_they_hold_against_a_call() {
    let s = spec(SideEffect::Irreversible, &[("id", ResidualRule::Never)], Some("once"));
    let fired = vec!["act".to_string()];
    let p = proposal(
        "act",
        vec![
            ("id", Provenance::Residual, Trust::External),
            ("to", Provenance::Constant, Trust::External),
            ("by", Provenance::Constant, Trust::User),
        ],
    );
    let c = ctx(&s, &fired, false);
    assert!(matches!(ResidualPolicy.check(&p, &c), Verdict::Deny { reason }
        if reason == "NeverResidual: arg 'id' has no grounding in this session"));
    assert!(matches!(TaintPolicy.check(&p, &c), Verdict::NeedsConfirmation { prompt }
        if prompt == "This uses data from an external source (id, to). Proceed?"));
    assert!(matches!(DedupeGate.check(&p, &c), Verdict::Deny { reason }
        if reason == "'act' already done this session"));
    assert!(matches!(SideEffectGate.check(&p, &c), Verdict::NeedsConfirmation { prompt }
        if prompt == "'act' is irreversible. Confirm to proceed."));
    assert_eq!(
        (ResidualPolicy.name(), TaintPolicy.name(), DedupeGate.name(), SideEffectGate.name()),
        ("residual_policy", "taint_policy", "dedupe_gate", "side_effect_gate")
    );
}

#[test]
fn a_residual_is_found_at_any_depth() {
    let inner = Provenance::Transform { func: "lower".to_string(), inputs: vec![Provenance::Residual] };
    let outer = Provenance::Transform { func: "trim".to_string(), inputs: vec![Provenance::Constant, inner] };
    assert!(contains_residual(&outer));
    let clean = Provenance::Transform { func: "trim".to_string(), inputs: vec![Provenance::Constant] };
    assert!(!contains_residual(&clean));
}
