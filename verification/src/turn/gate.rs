//! What a proposal has to get past before it runs.

use vstd::prelude::*;

use crate::guards;
use crate::guards::{
    ClassifiedProposal, ClassifiedProposalV, DedupeGate, GuardCtx, GuardCtxV, ResidualPolicy, SideEffectGate,
    TaintPolicy, Verdict, VerdictV,
};
use crate::types;
use crate::types::{ResidualRule, SideEffect, Trust};

verus! {

/// A guard that the engine always runs.
#[derive(Debug, Clone, Copy, PartialEq, Eq, Structural)]
pub enum BuiltinGuard {
    Residual,
    Taint,
    Dedupe,
    SideEffect,
}

impl BuiltinGuard {
    pub open spec fn spec_name(self) -> Seq<char> {
        match self {
            BuiltinGuard::Residual => "residual_policy"@,
            BuiltinGuard::Taint => "taint_policy"@,
            BuiltinGuard::Dedupe => "dedupe_gate"@,
            BuiltinGuard::SideEffect => "side_effect_gate"@,
        }
    }

    pub open spec fn says(self, p: ClassifiedProposalV, ctx: GuardCtxV) -> VerdictV {
        match self {
            BuiltinGuard::Residual => guards::residual_verdict(p, ctx),
            BuiltinGuard::Taint => guards::taint_verdict(p, ctx),
            BuiltinGuard::Dedupe => guards::dedupe_verdict(p, ctx),
            BuiltinGuard::SideEffect => guards::side_effect_verdict(p, ctx),
        }
    }

    pub fn name(&self) -> (r: &'static str)
        ensures
            r@ == self.spec_name(),
    {
        match self {
            BuiltinGuard::Residual => ResidualPolicy.name(),
            BuiltinGuard::Taint => TaintPolicy.name(),
            BuiltinGuard::Dedupe => DedupeGate.name(),
            BuiltinGuard::SideEffect => SideEffectGate.name(),
        }
    }

    pub fn check(&self, p: &ClassifiedProposal, ctx: &GuardCtx) -> (r: Verdict)
        ensures
            r.deep_view() == self.says(p.deep_view(), ctx.deep_view()),
    {
        match self {
            BuiltinGuard::Residual => ResidualPolicy.check(p, ctx),
            BuiltinGuard::Taint => TaintPolicy.check(p, ctx),
            BuiltinGuard::Dedupe => DedupeGate.check(p, ctx),
            BuiltinGuard::SideEffect => SideEffectGate.check(p, ctx),
        }
    }
}

/// The guards that the engine runs, in order. With confirmation off the last
/// one is absent, not neutered.
pub open spec fn builtins(confirm_irreversible: bool) -> Seq<BuiltinGuard> {
    if confirm_irreversible {
        seq![BuiltinGuard::Residual, BuiltinGuard::Taint, BuiltinGuard::Dedupe, BuiltinGuard::SideEffect]
    } else {
        seq![BuiltinGuard::Residual, BuiltinGuard::Taint, BuiltinGuard::Dedupe]
    }
}

pub fn builtin_guards(confirm_irreversible: bool) -> (r: Vec<BuiltinGuard>)
    ensures
        r@ == builtins(confirm_irreversible),
{
    let mut out: Vec<BuiltinGuard> = Vec::new();
    out.push(BuiltinGuard::Residual);
    out.push(BuiltinGuard::Taint);
    out.push(BuiltinGuard::Dedupe);
    if confirm_irreversible {
        out.push(BuiltinGuard::SideEffect);
    }
    proof {
        assert(out@ =~= builtins(confirm_irreversible));
    }
    out
}

/// What a guard said, under its name.
#[derive(Debug)]
pub struct Objection {
    pub guard: String,
    pub verdict: Verdict,
}

pub struct ObjectionV {
    pub guard: Seq<char>,
    pub verdict: VerdictV,
}

impl DeepView for Objection {
    type V = ObjectionV;

    open spec fn deep_view(&self) -> ObjectionV {
        ObjectionV {
            guard: self.guard.deep_view(),
            verdict: self.verdict.deep_view(),
        }
    }
}

impl Clone for Objection {
    fn clone(&self) -> (r: Self)
        ensures
            r.deep_view() == self.deep_view(),
    {
        let r: Objection = Objection {
            guard: self.guard.clone(),
            verdict: self.verdict.clone(),
        };
        r
    }
}

/// The first objection among the engine's guards.
pub open spec fn builtin_objection(gs: Seq<BuiltinGuard>, p: ClassifiedProposalV, ctx: GuardCtxV) -> Option<
    ObjectionV,
>
    decreases gs.len(),
{
    if gs.len() == 0 {
        None
    } else if gs[0].says(p, ctx) is Allow {
        builtin_objection(gs.drop_first(), p, ctx)
    } else {
        Some(ObjectionV { guard: gs[0].spec_name(), verdict: gs[0].says(p, ctx) })
    }
}

/// The first of several answers that is not a consent.
pub open spec fn first_of(answers: Seq<ObjectionV>) -> Option<ObjectionV>
    decreases answers.len(),
{
    if answers.len() == 0 {
        None
    } else if answers[0].verdict is Allow {
        first_of(answers.drop_first())
    } else {
        Some(answers[0])
    }
}

/// The first objection of the whole chain: the engine's guards, then the
/// harness's.
pub open spec fn objection(
    gs: Seq<BuiltinGuard>,
    p: ClassifiedProposalV,
    ctx: GuardCtxV,
    plugins: Seq<ObjectionV>,
) -> Option<ObjectionV> {
    match builtin_objection(gs, p, ctx) {
        Some(o) => Some(o),
        None => first_of(plugins),
    }
}

/// The first guard to object to a proposal, and what it said. `plugins` holds
/// what the harness's own guards answered, in their order.
pub fn first_objection(
    gs: &Vec<BuiltinGuard>,
    p: &ClassifiedProposal,
    ctx: &GuardCtx,
    plugins: &Vec<Objection>,
) -> (r: Option<Objection>)
    ensures
        r.deep_view() == objection(gs@, p.deep_view(), ctx.deep_view(), plugins.deep_view()),
{
    let mut i: usize = 0;
    proof {
        assert(gs@.skip(0) =~= gs@);
    }
    while i < gs.len()
        invariant
            i <= gs@.len(),
            builtin_objection(gs@, p.deep_view(), ctx.deep_view()) == builtin_objection(
                gs@.skip(i as int),
                p.deep_view(),
                ctx.deep_view(),
            ),
        decreases gs@.len() - i,
    {
        proof {
            assert(gs@.skip(i as int)[0] == gs@[i as int]);
            assert(gs@.skip(i as int).drop_first() =~= gs@.skip(i + 1));
        }
        match gs[i].check(p, ctx) {
            Verdict::Allow => {},
            verdict => return Some(Objection { guard: gs[i].name().to_owned(), verdict }),
        }
        i = i + 1;
    }
    let ghost all = plugins.deep_view();
    let mut j: usize = 0;
    proof {
        assert(all.skip(0) =~= all);
    }
    while j < plugins.len()
        invariant
            j <= plugins@.len(),
            all == plugins.deep_view(),
            builtin_objection(gs@, p.deep_view(), ctx.deep_view()) is None,
            first_of(all) == first_of(all.skip(j as int)),
        decreases plugins@.len() - j,
    {
        proof {
            assert(all.skip(j as int)[0] == plugins@[j as int].deep_view());
            assert(all.skip(j as int).drop_first() =~= all.skip(j + 1));
        }
        let allowed: bool = match &plugins[j].verdict {
            Verdict::Allow => true,
            _ => false,
        };
        if !allowed {
            return Some(plugins[j].clone());
        }
        j = j + 1;
    }
    None
}

// ---------------------------------------------------------------------------
// Laws
// ---------------------------------------------------------------------------

proof fn lemma_builtin(gs: Seq<BuiltinGuard>, p: ClassifiedProposalV, ctx: GuardCtxV, i: int)
    requires
        0 <= i < gs.len(),
        builtin_objection(gs, p, ctx) is None,
    ensures
        gs[i].says(p, ctx) is Allow,
    decreases gs.len(),
{
    if i > 0 {
        lemma_builtin(gs.drop_first(), p, ctx, i - 1);
        assert(gs.drop_first()[i - 1] == gs[i]);
    }
}

/// With confirmation on, nothing irreversible gets past the guards on a turn
/// that the user did not confirm on, whatever the harness's guards say.
pub proof fn irreversible_needs_confirmation(
    p: ClassifiedProposalV,
    ctx: GuardCtxV,
    plugins: Seq<ObjectionV>,
)
    requires
        ctx.spec.side_effect == SideEffect::Irreversible,
        !ctx.confirmed_this_turn,
    ensures
        objection(builtins(true), p, ctx, plugins) is Some,
{
    if builtin_objection(builtins(true), p, ctx) is None {
        lemma_builtin(builtins(true), p, ctx, 3);
    }
}

/// On a turn that the user confirmed on, asking for confirmations makes no
/// difference: the guard that waits for one lets everything through.
pub proof fn a_confirmation_opens_the_gate(
    confirm: bool,
    p: ClassifiedProposalV,
    ctx: GuardCtxV,
    plugins: Seq<ObjectionV>,
)
    requires
        ctx.confirmed_this_turn,
    ensures
        objection(builtins(confirm), p, ctx, plugins) == objection(builtins(false), p, ctx, plugins),
{
    reveal_with_fuel(builtin_objection, 5);
    let four = builtins(true);
    let three = builtins(false);
    assert(four.drop_first().drop_first().drop_first() =~= seq![BuiltinGuard::SideEffect]);
    assert(four.drop_first().drop_first().drop_first().drop_first() =~= seq![]);
    assert(three.drop_first().drop_first().drop_first() =~= seq![]);
    assert(four[0] == three[0] && four.drop_first()[0] == three.drop_first()[0]);
    assert(four.drop_first().drop_first()[0] == three.drop_first().drop_first()[0]);
}

/// An argument under the never-residual rule that nothing grounds is refused,
/// confirmed or not and with confirmation on or off.
pub proof fn residual_is_refused(
    confirm: bool,
    p: ClassifiedProposalV,
    ctx: GuardCtxV,
    plugins: Seq<ObjectionV>,
    i: int,
)
    requires
        0 <= i < p.args.len(),
        guards::rule_on(ctx.spec.residual_policy, p.args[i].0) == Some(ResidualRule::Never),
        types::residual(p.args[i].1.prov),
    ensures
        objection(builtins(confirm), p, ctx, plugins) matches Some(o) && o.verdict is Deny && o.guard
            == "residual_policy"@,
{
    lemma_ungrounded(p.args, ctx.spec.residual_policy, i);
    assert(builtins(confirm)[0] == BuiltinGuard::Residual);
}

proof fn lemma_ungrounded(args: types::TaggedV, rules: Seq<crate::events::ArgRuleV>, i: int)
    requires
        0 <= i < args.len(),
        guards::rule_on(rules, args[i].0) == Some(ResidualRule::Never),
        types::residual(args[i].1.prov),
    ensures
        guards::ungrounded_arg(args, rules) is Some,
    decreases args.len(),
{
    if i > 0 {
        lemma_ungrounded(args.drop_first(), rules, i - 1);
    }
}

/// External data never drives a side effect without a confirmation.
pub proof fn external_data_needs_confirmation(
    confirm: bool,
    p: ClassifiedProposalV,
    ctx: GuardCtxV,
    plugins: Seq<ObjectionV>,
    i: int,
)
    requires
        ctx.spec.side_effect != SideEffect::Pure,
        !ctx.confirmed_this_turn,
        0 <= i < p.args.len(),
        p.args[i].1.trust == Trust::External,
    ensures
        objection(builtins(confirm), p, ctx, plugins) is Some,
{
    lemma_external(p.args, i);
    if builtin_objection(builtins(confirm), p, ctx) is None {
        lemma_builtin(builtins(confirm), p, ctx, 1);
    }
}

proof fn lemma_external(args: types::TaggedV, i: int)
    requires
        0 <= i < args.len(),
        args[i].1.trust == Trust::External,
    ensures
        guards::external_args(args).len() > 0,
    decreases args.len(),
{
    if i < args.len() - 1 {
        lemma_external(args.drop_last(), i);
    }
}

/// A tagged action that already fired is refused for the rest of the session.
pub proof fn tagged_actions_fire_once(
    confirm: bool,
    p: ClassifiedProposalV,
    ctx: GuardCtxV,
    plugins: Seq<ObjectionV>,
)
    requires
        ctx.spec.dedupe_tag is Some,
        ctx.fired_actions.contains(p.proposal.action),
    ensures
        objection(builtins(confirm), p, ctx, plugins) is Some,
{
    if builtin_objection(builtins(confirm), p, ctx) is None {
        lemma_builtin(builtins(confirm), p, ctx, 2);
    }
}

/// The harness's guards can only add refusals: what the engine's guards object
/// to stays objected to, in the same words.
pub proof fn plugins_cannot_lift_a_refusal(
    gs: Seq<BuiltinGuard>,
    p: ClassifiedProposalV,
    ctx: GuardCtxV,
    plugins: Seq<ObjectionV>,
)
    requires
        builtin_objection(gs, p, ctx) is Some,
    ensures
        objection(gs, p, ctx, plugins) == builtin_objection(gs, p, ctx),
{
}

/// The first rule on the argument is at `k`.
pub open spec fn first_rule(rules: Seq<crate::events::ArgRuleV>, arg: Seq<char>, k: int) -> bool {
    &&& 0 <= k < rules.len()
    &&& rules[k].arg == arg
    &&& forall|j: int| 0 <= j < k ==> (#[trigger] rules[j]).arg != arg
}

/// The argument may not go ungrounded: the first rule on it says so.
pub open spec fn must_be_grounded(rules: Seq<crate::events::ArgRuleV>, arg: Seq<char>) -> bool {
    exists|k: int| #[trigger] first_rule(rules, arg, k) && rules[k].rule == ResidualRule::Never
}

/// The argument at `i` is one that must be grounded and is not.
pub open spec fn lacks_grounding(args: types::TaggedV, rules: Seq<crate::events::ArgRuleV>, i: int) -> bool {
    &&& 0 <= i < args.len()
    &&& must_be_grounded(rules, args[i].0)
    &&& types::residual(args[i].1.prov)
}

proof fn lemma_first_rule(rules: Seq<crate::events::ArgRuleV>, arg: Seq<char>, k: int)
    requires
        first_rule(rules, arg, k),
    ensures
        guards::rule_on(rules, arg) == Some(rules[k].rule),
    decreases rules.len(),
{
    if k > 0 {
        let rest = rules.drop_first();
        assert(rules[0].arg != arg);
        assert forall|j: int| 0 <= j < k - 1 implies (#[trigger] rest[j]).arg != arg by {
            assert(rest[j] == rules[j + 1]);
        }
        lemma_first_rule(rest, arg, k - 1);
    }
}

proof fn lemma_some_rule(rules: Seq<crate::events::ArgRuleV>, arg: Seq<char>) -> (k: int)
    requires
        guards::rule_on(rules, arg) is Some,
    ensures
        first_rule(rules, arg, k),
    decreases rules.len(),
{
    if rules[0].arg == arg {
        0
    } else {
        let rest = rules.drop_first();
        let k = lemma_some_rule(rest, arg);
        assert(rules[k + 1] == rest[k]);
        assert forall|j: int| 0 <= j < k + 1 implies (#[trigger] rules[j]).arg != arg by {
            if j > 0 {
                assert(rest[j - 1] == rules[j]);
            }
        }
        k + 1
    }
}

proof fn lemma_rule(rules: Seq<crate::events::ArgRuleV>, arg: Seq<char>)
    ensures
        must_be_grounded(rules, arg) <==> guards::rule_on(rules, arg) == Some(ResidualRule::Never),
{
    if must_be_grounded(rules, arg) {
        let k = choose|k: int| #[trigger] first_rule(rules, arg, k) && rules[k].rule == ResidualRule::Never;
        lemma_first_rule(rules, arg, k);
    }
    if guards::rule_on(rules, arg) == Some(ResidualRule::Never) {
        let k = lemma_some_rule(rules, arg);
        lemma_first_rule(rules, arg, k);
    }
}

proof fn lemma_no_ungrounded(args: types::TaggedV, rules: Seq<crate::events::ArgRuleV>, i: int)
    requires
        guards::ungrounded_arg(args, rules) is None,
        0 <= i < args.len(),
    ensures
        !lacks_grounding(args, rules, i),
    decreases args.len(),
{
    lemma_rule(rules, args[0].0);
    if i > 0 {
        lemma_no_ungrounded(args.drop_first(), rules, i - 1);
        assert(args.drop_first()[i - 1] == args[i]);
    }
}

proof fn lemma_some_ungrounded(args: types::TaggedV, rules: Seq<crate::events::ArgRuleV>) -> (i: int)
    requires
        guards::ungrounded_arg(args, rules) is Some,
    ensures
        lacks_grounding(args, rules, i),
        guards::ungrounded_arg(args, rules) == Some(args[i].0),
    decreases args.len(),
{
    lemma_rule(rules, args[0].0);
    if guards::rule_on(rules, args[0].0) == Some(ResidualRule::Never) && types::residual(args[0].1.prov) {
        0
    } else {
        let i = lemma_some_ungrounded(args.drop_first(), rules);
        assert(args.drop_first()[i] == args[i + 1]);
        i + 1
    }
}

proof fn lemma_external_names(args: types::TaggedV)
    ensures
        ({
            let outside = args.filter(|a: (Seq<char>, types::TaggedValueV)| a.1.trust == Trust::External);
            &&& guards::external_args(args).len() == outside.len()
            &&& forall|i: int|
                0 <= i < outside.len() ==> #[trigger] guards::external_args(args)[i] == outside[i].0
        }),
    decreases args.len(),
{
    reveal(Seq::filter);
    if args.len() > 0 {
        lemma_external_names(args.drop_last());
    }
}

/// When each of the engine's guards objects, and how: an argument that must be grounded
/// and is not is refused; data from outside behind a side effect or a question waits for
/// the user, unless the user confirmed; a tagged action that was called is refused; what
/// cannot be undone waits for the user. Everything else each of them lets through.
pub proof fn each_guard_objects_where_it_should(p: ClassifiedProposalV, ctx: GuardCtxV)
    ensures
        ({
            let v = BuiltinGuard::Residual.says(p, ctx);
            &&& v is Deny <==> exists|i: int| #[trigger] lacks_grounding(p.args, ctx.spec.residual_policy, i)
            &&& v is Deny || v is Allow
            &&& v is Deny ==> exists|i: int| #[trigger]
                lacks_grounding(p.args, ctx.spec.residual_policy, i) && v->reason == "NeverResidual: arg '"@ + p.args[i].0
                    + "' has no grounding in this session"@
        }),
        ({
            let v = BuiltinGuard::Taint.says(p, ctx);
            let outside = exists|i: int| 0 <= i < p.args.len() && (#[trigger] p.args[i]).1.trust == Trust::External;
            &&& v is NeedsConfirmation <==> outside && !ctx.confirmed_this_turn && (ctx.spec.side_effect
                != SideEffect::Pure || p.proposal.action == "ask_clarification"@)
            &&& v is NeedsConfirmation || v is Allow
        }),
        ({
            let v = BuiltinGuard::Dedupe.says(p, ctx);
            &&& v is Deny <==> ctx.spec.dedupe_tag is Some && exists|i: int|
                0 <= i < ctx.fired_actions.len() && #[trigger] ctx.fired_actions[i] == p.proposal.action
            &&& v is Deny ==> v->reason == "'"@ + p.proposal.action + "' already done this session"@
            &&& v is Deny || v is Allow
        }),
        ({
            let v = BuiltinGuard::SideEffect.says(p, ctx);
            &&& v is NeedsConfirmation <==> ctx.spec.side_effect == SideEffect::Irreversible
                && !ctx.confirmed_this_turn
            &&& v is NeedsConfirmation ==> v->prompt == "'"@ + p.proposal.action
                + "' is irreversible. Confirm to proceed."@
            &&& v is NeedsConfirmation || v is Allow
        }),
{
    let rules = ctx.spec.residual_policy;
    if guards::ungrounded_arg(p.args, rules) is Some {
        let i = lemma_some_ungrounded(p.args, rules);
        assert(lacks_grounding(p.args, rules, i));
    } else {
        assert forall|i: int| !(#[trigger] lacks_grounding(p.args, rules, i)) by {
            if 0 <= i < p.args.len() {
                lemma_no_ungrounded(p.args, rules, i);
            }
        }
    }
    let from_outside = |a: (Seq<char>, types::TaggedValueV)| a.1.trust == Trust::External;
    lemma_external_names(p.args);
    let names = guards::external_args(p.args);
    if names.len() > 0 {
        p.args.lemma_filter_pred(from_outside, 0);
        p.args.lemma_filter_contains_rev(from_outside, p.args.filter(from_outside)[0]);
        let k = choose|k: int| 0 <= k < p.args.len() && p.args[k] == p.args.filter(from_outside)[0];
        assert(p.args[k].1.trust == Trust::External);
    }
    if exists|i: int| 0 <= i < p.args.len() && (#[trigger] p.args[i]).1.trust == Trust::External {
        let i = choose|i: int| 0 <= i < p.args.len() && (#[trigger] p.args[i]).1.trust == Trust::External;
        lemma_external(p.args, i);
    }
}

/// A question about data from outside names the arguments that hold it, all of them and
/// no other, in order.
pub proof fn the_user_is_told_what_came_from_outside(p: ClassifiedProposalV, ctx: GuardCtxV)
    requires
        BuiltinGuard::Taint.says(p, ctx) is NeedsConfirmation,
    ensures
        ({
            let outside = p.args.filter(|a: (Seq<char>, types::TaggedValueV)| a.1.trust == Trust::External);
            BuiltinGuard::Taint.says(p, ctx)->prompt == "This uses data from an external source ("@
                + crate::text::joined(Seq::new(outside.len(), |i: int| outside[i].0), ", "@) + "). Proceed?"@
        }),
{
    lemma_external_names(p.args);
    let outside = p.args.filter(|a: (Seq<char>, types::TaggedValueV)| a.1.trust == Trust::External);
    assert(guards::external_args(p.args) =~= Seq::new(outside.len(), |i: int| outside[i].0));
}

/// Who is heard first: ungrounded arguments before data from outside, that before what was
/// done already, that before what cannot be undone, which is left out where confirming is
/// off, and the harness's guards last, in their order.
pub proof fn the_first_to_object_is_heard(confirm: bool, p: ClassifiedProposalV, ctx: GuardCtxV, plugins: Seq<ObjectionV>, k: int)
    ensures
        ({
            let heard = objection(builtins(confirm), p, ctx, plugins);
            let a = BuiltinGuard::Residual.says(p, ctx);
            let b = BuiltinGuard::Taint.says(p, ctx);
            let c = BuiltinGuard::Dedupe.says(p, ctx);
            let d = BuiltinGuard::SideEffect.says(p, ctx);
            if !(a is Allow) {
                heard == Some(ObjectionV { guard: "residual_policy"@, verdict: a })
            } else if !(b is Allow) {
                heard == Some(ObjectionV { guard: "taint_policy"@, verdict: b })
            } else if !(c is Allow) {
                heard == Some(ObjectionV { guard: "dedupe_gate"@, verdict: c })
            } else if confirm && !(d is Allow) {
                heard == Some(ObjectionV { guard: "side_effect_gate"@, verdict: d })
            } else {
                &&& 0 <= k < plugins.len() && !(plugins[k].verdict is Allow) && (forall|j: int|
                    0 <= j < k ==> (#[trigger] plugins[j]).verdict is Allow) ==> heard == Some(plugins[k])
                &&& heard is None <==> forall|j: int| 0 <= j < plugins.len() ==> (#[trigger] plugins[j]).verdict is Allow
            }
        }),
{
    reveal_with_fuel(builtin_objection, 5);
    let gs = builtins(confirm);
    assert(gs[0] == BuiltinGuard::Residual);
    assert(gs.drop_first()[0] == BuiltinGuard::Taint);
    assert(gs.drop_first().drop_first()[0] == BuiltinGuard::Dedupe);
    if confirm {
        assert(gs.drop_first().drop_first().drop_first()[0] == BuiltinGuard::SideEffect);
        assert(gs.drop_first().drop_first().drop_first().drop_first().len() == 0);
    } else {
        assert(gs.drop_first().drop_first().drop_first().len() == 0);
    }
    lemma_first_plugin(plugins, k);
}

proof fn lemma_first_plugin(plugins: Seq<ObjectionV>, k: int)
    ensures
        0 <= k < plugins.len() && !(plugins[k].verdict is Allow) && (forall|j: int|
            0 <= j < k ==> (#[trigger] plugins[j]).verdict is Allow) ==> first_of(plugins) == Some(plugins[k]),
        first_of(plugins) is None <==> forall|j: int| 0 <= j < plugins.len() ==> (#[trigger] plugins[j]).verdict is Allow,
    decreases plugins.len(),
{
    if plugins.len() > 0 {
        let rest = plugins.drop_first();
        lemma_first_plugin(rest, k - 1);
        assert forall|j: int| 0 <= j < rest.len() implies rest[j] == plugins[j + 1] by {}
        if plugins[0].verdict is Allow {
            if forall|j: int| 0 <= j < rest.len() ==> (#[trigger] rest[j]).verdict is Allow {
                assert forall|j: int| 0 <= j < plugins.len() implies (#[trigger] plugins[j]).verdict is Allow by {
                    if j > 0 {
                        assert(rest[j - 1].verdict is Allow);
                    }
                }
            }
            if forall|j: int| 0 <= j < plugins.len() ==> (#[trigger] plugins[j]).verdict is Allow {
                assert forall|j: int| 0 <= j < rest.len() implies (#[trigger] rest[j]).verdict is Allow by {
                    assert(plugins[j + 1].verdict is Allow);
                }
            }
            if 0 < k < plugins.len() && forall|j: int| 0 <= j < k ==> (#[trigger] plugins[j]).verdict is Allow {
                assert forall|j: int| 0 <= j < k - 1 implies (#[trigger] rest[j]).verdict is Allow by {
                    assert(plugins[j + 1].verdict is Allow);
                }
            }
        } else {
            assert(!(plugins[0].verdict is Allow));
        }
    }
}

/// A value counts as ungrounded where nothing grounds it, or where anything that it was
/// computed from is so; what the user said, what was copied from an output and what is
/// fixed are grounded.
pub proof fn what_counts_as_ungrounded(inputs: Seq<types::ProvenanceV>, func: Seq<char>, p: types::ProvenanceV)
    ensures
        types::residual(types::ProvenanceV::Residual),
        p is UserInput || p is CopiedOutput || p is Constant ==> !types::residual(p),
        types::residual(types::ProvenanceV::Transform { func, inputs }) <==> exists|i: int|
            0 <= i < inputs.len() && types::residual(#[trigger] inputs[i]),
{
    let t = types::ProvenanceV::Transform { func, inputs };
    assert(t->inputs == inputs);
}

} // verus!
