//! The guards that every proposal passes before it runs.

use vstd::prelude::*;

use crate::events::{ActionSpec, ActionSpecV, ArgRule, ArgRuleV, Proposal, ProposalV};
use crate::text;
use crate::text::{cat3, join, listed, same};
use crate::turn::specs::ASK_CLARIFICATION;
use crate::types;
use crate::types::{clone_tagged, EventId, Provenance, ProvenanceV, ResidualRule, SideEffect, Tagged, TaggedV, Trust};

verus! {

/// A proposal with where each of its arguments came from.
#[derive(Debug)]
pub struct ClassifiedProposal {
    pub proposal: Proposal,
    pub args: Tagged,
}

pub struct ClassifiedProposalV {
    pub proposal: ProposalV,
    pub args: TaggedV,
}

impl DeepView for ClassifiedProposal {
    type V = ClassifiedProposalV;

    open spec fn deep_view(&self) -> ClassifiedProposalV {
        ClassifiedProposalV {
            proposal: self.proposal.deep_view(),
            args: self.args.deep_view(),
        }
    }
}

impl Clone for ClassifiedProposal {
    fn clone(&self) -> (r: Self)
        ensures
            r.deep_view() == self.deep_view(),
    {
        let r: ClassifiedProposal = ClassifiedProposal {
            proposal: self.proposal.clone(),
            args: clone_tagged(&self.args),
        };
        r
    }
}

/// What a guard says of a proposal.
#[derive(Debug)]
pub enum Verdict {
    Allow,
    Deny { reason: String },
    NeedsConfirmation { prompt: String },
}

pub enum VerdictV {
    Allow,
    Deny { reason: Seq<char> },
    NeedsConfirmation { prompt: Seq<char> },
}

impl DeepView for Verdict {
    type V = VerdictV;

    open spec fn deep_view(&self) -> VerdictV {
        match self {
            Verdict::Allow => VerdictV::Allow,
            Verdict::Deny { reason } => VerdictV::Deny { reason: reason.deep_view() },
            Verdict::NeedsConfirmation { prompt } => VerdictV::NeedsConfirmation { prompt: prompt.deep_view() },
        }
    }
}

impl Clone for Verdict {
    fn clone(&self) -> (r: Self)
        ensures
            r.deep_view() == self.deep_view(),
    {
        match self {
            Verdict::Allow => Verdict::Allow,
            Verdict::Deny { reason } => Verdict::Deny { reason: reason.clone() },
            Verdict::NeedsConfirmation { prompt } => Verdict::NeedsConfirmation { prompt: prompt.clone() },
        }
    }
}

/// What a guard knows beside the proposal.
#[derive(Debug)]
pub struct GuardCtx<'a> {
    pub spec: &'a ActionSpec,
    pub turn: u32,
    /// The user confirmed an action on this turn.
    pub confirmed_this_turn: bool,
    /// Actions that were called in this session.
    pub fired_actions: &'a Vec<String>,
    pub pending_confirmation: Option<EventId>,
}

pub struct GuardCtxV {
    pub spec: ActionSpecV,
    pub turn: u32,
    pub confirmed_this_turn: bool,
    pub fired_actions: Seq<Seq<char>>,
    pub pending_confirmation: Option<EventId>,
}

impl<'a> DeepView for GuardCtx<'a> {
    type V = GuardCtxV;

    open spec fn deep_view(&self) -> GuardCtxV {
        GuardCtxV {
            spec: self.spec.deep_view(),
            turn: self.turn,
            confirmed_this_turn: self.confirmed_this_turn,
            fired_actions: self.fired_actions.deep_view(),
            pending_confirmation: self.pending_confirmation,
        }
    }
}

// ---------------------------------------------------------------------------
// Residual arguments
// ---------------------------------------------------------------------------

proof fn lemma_residual_input(func: Seq<char>, inputs: Seq<ProvenanceV>, i: int)
    requires
        0 <= i < inputs.len(),
        types::residual(inputs[i]),
    ensures
        types::residual(ProvenanceV::Transform { func, inputs }),
{
    let v = ProvenanceV::Transform { func, inputs };
    assert(v->inputs[i] == inputs[i]);
}

/// Whether nothing grounds the value, or something it was computed from.
pub fn contains_residual(p: &Provenance) -> (r: bool)
    ensures
        r == types::residual(p.deep_view()),
    decreases p,
{
    match p {
        Provenance::Residual => true,
        Provenance::Transform { func, inputs } => {
            proof {
                types::lemma_prov_views(inputs@);
            }
            let mut i: usize = 0;
            while i < inputs.len()
                invariant
                    i <= inputs@.len(),
                    p matches Provenance::Transform { func: f0, inputs: i0 } && f0 == func && i0 == inputs,
                    types::prov_views(inputs@).len() == inputs@.len(),
                    forall|k: int| 0 <= k < inputs@.len() ==> #[trigger] types::prov_views(inputs@)[k]
                        == types::prov_view(inputs@[k]),
                    forall|k: int| 0 <= k < i ==> !types::residual(#[trigger] types::prov_views(inputs@)[k]),
                decreases inputs@.len() - i,
            {
                if contains_residual(&inputs[i]) {
                    proof {
                        let v = ProvenanceV::Transform { func: func@, inputs: types::prov_views(inputs@) };
                        assert(p.deep_view() == v);
                        lemma_residual_input(func@, types::prov_views(inputs@), i as int);
                    }
                    return true;
                }
                i = i + 1;
            }
            false
        },
        _ => false,
    }
}

/// The rule on an argument, where there is one.
pub open spec fn rule_on(rules: Seq<ArgRuleV>, arg: Seq<char>) -> Option<ResidualRule>
    decreases rules.len(),
{
    if rules.len() == 0 {
        None
    } else if rules[0].arg == arg {
        Some(rules[0].rule)
    } else {
        rule_on(rules.drop_first(), arg)
    }
}

fn find_rule(rules: &Vec<ArgRule>, arg: &str) -> (r: Option<ResidualRule>)
    ensures
        r == rule_on(rules.deep_view(), arg@),
{
    let ghost all = rules.deep_view();
    let mut i: usize = 0;
    proof {
        assert(all.skip(0) =~= all);
    }
    while i < rules.len()
        invariant
            i <= rules@.len(),
            all == rules.deep_view(),
            rule_on(all, arg@) == rule_on(all.skip(i as int), arg@),
        decreases rules@.len() - i,
    {
        proof {
            assert(all.skip(i as int)[0] == rules@[i as int].deep_view());
            assert(all.skip(i as int).drop_first() =~= all.skip(i + 1));
        }
        if same(rules[i].arg.as_str(), arg) {
            return Some(rules[i].rule);
        }
        i = i + 1;
    }
    None
}

/// The first argument that must be grounded and is not.
pub open spec fn ungrounded_arg(args: TaggedV, rules: Seq<ArgRuleV>) -> Option<Seq<char>>
    decreases args.len(),
{
    if args.len() == 0 {
        None
    } else if rule_on(rules, args[0].0) == Some(ResidualRule::Never) && types::residual(args[0].1.prov) {
        Some(args[0].0)
    } else {
        ungrounded_arg(args.drop_first(), rules)
    }
}

/// Refuses a proposal with an argument that must be grounded and is not. The
/// reason carries the word that forces a clarification.
pub struct ResidualPolicy;

pub open spec fn residual_verdict(p: ClassifiedProposalV, ctx: GuardCtxV) -> VerdictV {
    match ungrounded_arg(p.args, ctx.spec.residual_policy) {
        Some(arg) => VerdictV::Deny {
            reason: "NeverResidual: arg '"@ + arg + "' has no grounding in this session"@,
        },
        None => VerdictV::Allow,
    }
}

impl ResidualPolicy {
    pub fn name(&self) -> (r: &'static str)
        ensures
            r@ == "residual_policy"@,
    {
        "residual_policy"
    }

    pub fn check(&self, p: &ClassifiedProposal, ctx: &GuardCtx) -> (r: Verdict)
        ensures
            r.deep_view() == residual_verdict(p.deep_view(), ctx.deep_view()),
    {
        let ghost all = p.args.deep_view();
        let ghost rules = ctx.spec.residual_policy.deep_view();
        let mut i: usize = 0;
        proof {
            assert(all.skip(0) =~= all);
        }
        while i < p.args.len()
            invariant
                i <= p.args@.len(),
                all == p.args.deep_view(),
                rules == ctx.spec.residual_policy.deep_view(),
                ungrounded_arg(all, rules) == ungrounded_arg(all.skip(i as int), rules),
            decreases p.args@.len() - i,
        {
            proof {
                assert(all.skip(i as int)[0] == p.args@[i as int].deep_view());
                assert(all.skip(i as int).drop_first() =~= all.skip(i + 1));
            }
            let forbidden: bool = match find_rule(&ctx.spec.residual_policy, p.args[i].0.as_str()) {
                Some(ResidualRule::Never) => true,
                _ => false,
            };
            if forbidden && contains_residual(&p.args[i].1.prov) {
                return Verdict::Deny {
                    reason: cat3(
                        "NeverResidual: arg '",
                        p.args[i].0.as_str(),
                        "' has no grounding in this session",
                    ),
                };
            }
            i = i + 1;
        }
        Verdict::Allow
    }
}

// ---------------------------------------------------------------------------
// External data
// ---------------------------------------------------------------------------

/// The names of the arguments that came from outside.
pub open spec fn external_args(args: TaggedV) -> Seq<Seq<char>>
    decreases args.len(),
{
    if args.len() == 0 {
        seq![]
    } else {
        let rest = external_args(args.drop_last());
        if args.last().1.trust == Trust::External {
            rest.push(args.last().0)
        } else {
            rest
        }
    }
}

/// Actions with a side effect and questions to the user are not driven by
/// external data unless the user confirmed.
pub struct TaintPolicy;

pub open spec fn taint_verdict(p: ClassifiedProposalV, ctx: GuardCtxV) -> VerdictV {
    let gated = ctx.spec.side_effect != SideEffect::Pure || p.proposal.action == ASK_CLARIFICATION@;
    if !gated || ctx.confirmed_this_turn || external_args(p.args).len() == 0 {
        VerdictV::Allow
    } else {
        VerdictV::NeedsConfirmation {
            prompt: "This uses data from an external source ("@ + text::joined(external_args(p.args), ", "@)
                + "). Proceed?"@,
        }
    }
}

impl TaintPolicy {
    pub fn name(&self) -> (r: &'static str)
        ensures
            r@ == "taint_policy"@,
    {
        "taint_policy"
    }

    pub fn check(&self, p: &ClassifiedProposal, ctx: &GuardCtx) -> (r: Verdict)
        ensures
            r.deep_view() == taint_verdict(p.deep_view(), ctx.deep_view()),
    {
        let gated: bool = ctx.spec.side_effect != SideEffect::Pure || same(
            p.proposal.action.as_str(),
            ASK_CLARIFICATION,
        );
        if !gated || ctx.confirmed_this_turn {
            return Verdict::Allow;
        }
        let ghost all = p.args.deep_view();
        let mut tainted: Vec<String> = Vec::new();
        let mut i: usize = 0;
        proof {
            assert(all.take(0) =~= seq![]);
            assert(tainted.deep_view() =~= seq![]);
        }
        while i < p.args.len()
            invariant
                i <= p.args@.len(),
                all == p.args.deep_view(),
                tainted.deep_view() == external_args(all.take(i as int)),
            decreases p.args@.len() - i,
        {
            proof {
                assert(all.take(i + 1).drop_last() =~= all.take(i as int));
                assert(all.take(i + 1).last() == p.args@[i as int].deep_view());
            }
            if p.args[i].1.trust == Trust::External {
                let ghost before = tainted.deep_view();
                tainted.push(p.args[i].0.clone());
                proof {
                    assert(tainted.deep_view() =~= before.push(p.args@[i as int].0@));
                }
            }
            i = i + 1;
        }
        proof {
            assert(all.take(all.len() as int) =~= all);
        }
        if tainted.len() == 0 {
            Verdict::Allow
        } else {
            let names: String = join(&tainted, ", ");
            Verdict::NeedsConfirmation {
                prompt: cat3("This uses data from an external source (", names.as_str(), "). Proceed?"),
            }
        }
    }
}

// ---------------------------------------------------------------------------
// Once per session, and never unconfirmed
// ---------------------------------------------------------------------------

/// A tagged action fires once in a session.
pub struct DedupeGate;

pub open spec fn dedupe_verdict(p: ClassifiedProposalV, ctx: GuardCtxV) -> VerdictV {
    if ctx.spec.dedupe_tag is Some && ctx.fired_actions.contains(p.proposal.action) {
        VerdictV::Deny { reason: "'"@ + p.proposal.action + "' already done this session"@ }
    } else {
        VerdictV::Allow
    }
}

impl DedupeGate {
    pub fn name(&self) -> (r: &'static str)
        ensures
            r@ == "dedupe_gate"@,
    {
        "dedupe_gate"
    }

    pub fn check(&self, p: &ClassifiedProposal, ctx: &GuardCtx) -> (r: Verdict)
        ensures
            r.deep_view() == dedupe_verdict(p.deep_view(), ctx.deep_view()),
    {
        if ctx.spec.dedupe_tag.is_some() && listed(ctx.fired_actions, p.proposal.action.as_str()) {
            Verdict::Deny {
                reason: cat3("'", p.proposal.action.as_str(), "' already done this session"),
            }
        } else {
            Verdict::Allow
        }
    }
}

/// An irreversible action needs the user's confirmation on this turn.
pub struct SideEffectGate;

pub open spec fn side_effect_verdict(p: ClassifiedProposalV, ctx: GuardCtxV) -> VerdictV {
    if ctx.spec.side_effect == SideEffect::Irreversible && !ctx.confirmed_this_turn {
        VerdictV::NeedsConfirmation {
            prompt: "'"@ + p.proposal.action + "' is irreversible. Confirm to proceed."@,
        }
    } else {
        VerdictV::Allow
    }
}

impl SideEffectGate {
    pub fn name(&self) -> (r: &'static str)
        ensures
            r@ == "side_effect_gate"@,
    {
        "side_effect_gate"
    }

    pub fn check(&self, p: &ClassifiedProposal, ctx: &GuardCtx) -> (r: Verdict)
        ensures
            r.deep_view() == side_effect_verdict(p.deep_view(), ctx.deep_view()),
    {
        if ctx.spec.side_effect == SideEffect::Irreversible && !ctx.confirmed_this_turn {
            Verdict::NeedsConfirmation {
                prompt: cat3("'", p.proposal.action.as_str(), "' is irreversible. Confirm to proceed."),
            }
        } else {
            Verdict::Allow
        }
    }
}

} // verus!
