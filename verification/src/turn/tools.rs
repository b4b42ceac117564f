//! Running an action that the deployment registered.
//!
//! The arguments are held to the tool's schema, then to the guards, and only
//! then is the tool called.

use vstd::prelude::*;

use crate::events::{
    ActionSpec, ActionSpecV, EventKind, EventKindV, RejectReason, RejectReasonV, ReplyPolicy, ReplyPolicyV,
    StagedEffect, StagedEffectV, ToolOutcomeV, ToolOutput,
};
use crate::guards::{ClassifiedProposal, ClassifiedProposalV, GuardCtx, GuardCtxV, Verdict, VerdictV};
use crate::text;
use crate::text::{cat3, cat4, has};
use crate::turn::accounting;
use crate::turn::config::{EngineConfig, EngineConfigV};
use crate::turn::gate;
use crate::turn::gate::{builtin_guards, first_objection, BuiltinGuard, Objection, ObjectionV};
use crate::turn::progress;
use crate::turn::progress::{BookkeepingV, Ctx, CtxV, Turn, TurnV};
use crate::types::{EventId, SideEffect, Tagged, TaggedV};

verus! {

/// What is to be done about a tool that was proposed.
#[derive(Debug)]
pub enum ToolStep {
    Refused,
    Stage { prompt: String },
    Call { call: EventId },
}

pub enum ToolStepV {
    Refused,
    Stage { prompt: Seq<char> },
    Call { call: EventId },
}

impl DeepView for ToolStep {
    type V = ToolStepV;

    open spec fn deep_view(&self) -> ToolStepV {
        match self {
            ToolStep::Refused => ToolStepV::Refused,
            ToolStep::Stage { prompt } => ToolStepV::Stage { prompt: prompt.deep_view() },
            ToolStep::Call { call } => ToolStepV::Call { call: *call },
        }
    }
}

impl Clone for ToolStep {
    fn clone(&self) -> (r: Self)
        ensures
            r.deep_view() == self.deep_view(),
    {
        match self {
            ToolStep::Refused => ToolStep::Refused,
            ToolStep::Stage { prompt } => ToolStep::Stage { prompt: prompt.clone() },
            ToolStep::Call { call } => ToolStep::Call { call: *call },
        }
    }
}

pub open spec fn tool_ctx(t: TurnV, cx: CtxV, spec: ActionSpecV) -> GuardCtxV {
    GuardCtxV {
        spec,
        turn: t.turn,
        confirmed_this_turn: cx.confirmed(t.turn),
        fired_actions: cx.state.fired_tags,
        pending_confirmation: cx.active_pending,
    }
}

impl Turn {
    /// What a guard is shown beside a tool that was proposed.
    pub fn tool_guard_ctx<'a>(&self, cx: &'a Ctx, spec: &'a ActionSpec) -> (r: GuardCtx<'a>)
        ensures
            r.deep_view() == tool_ctx(self.deep_view(), cx.deep_view(), spec.deep_view()),
    {
        GuardCtx {
            spec,
            turn: self.turn,
            confirmed_this_turn: cx.is_confirmed(self.turn),
            fired_actions: &cx.state.fired_tags,
            pending_confirmation: cx.active_pending,
        }
    }
}

/// The refusal of a guard: the action is not offered again, and where nothing
/// grounds an argument only asking is left.
pub open spec fn denied_by(t: TurnV, cx: CtxV, guard: Seq<char>, reason: Seq<char>) -> TurnV {
    let marked = TurnV {
        book: BookkeepingV {
            never_residual: t.book.never_residual || text::contains(reason, "NeverResidual"@),
            ..t.book
        },
        ..t
    };
    progress::refused(
        progress::barred(marked, cx.proposal.action),
        cx.at,
        cx.pid,
        RejectReasonV::GuardDenied { guard, reason },
        "guard "@ + guard + ": "@ + reason,
    )
}

/// A tool that was proposed: malformed arguments are refused, a guard may refuse
/// it or ask for a confirmation, and where none objects the call is recorded.
pub open spec fn judged(
    t: TurnV,
    cx: CtxV,
    cfg: EngineConfigV,
    spec: ActionSpecV,
    invalid: Option<Seq<char>>,
    args: TaggedV,
    plugins: Seq<ObjectionV>,
) -> (TurnV, ToolStepV) {
    match invalid {
        Some(detail) => (
            progress::refused(
                t,
                cx.at,
                cx.pid,
                RejectReasonV::Malformed { detail: cx.proposal.action + ": "@ + detail },
                "malformed args for "@ + cx.proposal.action + ": "@ + detail,
            ),
            ToolStepV::Refused,
        ),
        None => match gate::objection(
            gate::builtins(cfg.confirm_irreversible),
            ClassifiedProposalV { proposal: cx.proposal, args },
            tool_ctx(t, cx, spec),
            plugins,
        ) {
            Some(o) => match o.verdict {
                VerdictV::Deny { reason } => (denied_by(t, cx, o.guard, reason), ToolStepV::Refused),
                VerdictV::NeedsConfirmation { prompt } => (t, ToolStepV::Stage { prompt }),
                VerdictV::Allow => (t, ToolStepV::Refused),
            },
            None => (
                progress::calls_for(t, cx.at, cx.proposal, cx.proposal.action, args),
                ToolStepV::Call { call: progress::next(t) },
            ),
        },
    }
}

/// What the user is asked, with what would happen where the tool could say it.
pub open spec fn confirmation(prompt: Seq<char>, staged: Option<StagedEffectV>) -> Seq<char> {
    match staged {
        Some(s) => prompt + "\nPlanned: "@ + s.description,
        None => prompt,
    }
}

/// The turn ends on the question whether to go on.
pub open spec fn stages(t: TurnV, cx: CtxV, prompt: Seq<char>, staged: Option<StagedEffectV>) -> TurnV {
    progress::settles(
        progress::logged(t, cx.at, EventKindV::PendingConfirmation { proposal_of: cx.pid, staged }),
        cx.at,
        ReplyPolicyV::Verbatim { text: confirmation(prompt, staged) },
    )
}

/// Why a tool gave nothing.
#[derive(Debug)]
pub struct ToolFailure {
    pub kind: String,
    pub detail: String,
}

pub open spec fn outcome_from(result: Result<ToolOutput, ToolFailure>) -> ToolOutcomeV {
    match result {
        Ok(output) => ToolOutcomeV::Done { output: output.deep_view() },
        Err(e) => ToolOutcomeV::Failed { kind: e.kind@, detail: e.detail@ },
    }
}

impl Turn {
    /// The first half of running a tool. `invalid` is what the tool's schema has
    /// against the arguments, `args` are the classified arguments, `plugins` what
    /// the harness's own guards answered.
    pub fn run_tool(
        &mut self,
        cx: &Ctx,
        cfg: &EngineConfig,
        spec: &ActionSpec,
        invalid: Option<String>,
        args: Tagged,
        plugins: &Vec<Objection>,
    ) -> (r: ToolStep)
        requires
            accounting::room(old(self).deep_view().log, 1),
        ensures
            (final(self).deep_view(), r.deep_view()) == judged(
                old(self).deep_view(),
                cx.deep_view(),
                cfg.deep_view(),
                spec.deep_view(),
                invalid.deep_view(),
                args.deep_view(),
                plugins.deep_view(),
            ),
    {
        let action: &str = cx.proposal.action.as_str();
        if let Some(detail) = invalid {
            let said: String = cat3(action, ": ", detail.as_str());
            let line: String = cat4("malformed args for ", action, ": ", detail.as_str());
            self.malformed(cx.at, cx.pid, said, line);
            return ToolStep::Refused;
        }
        let classified: ClassifiedProposal = ClassifiedProposal {
            proposal: cx.proposal.clone(),
            args: crate::types::clone_tagged(&args),
        };
        let guard_ctx: GuardCtx = self.tool_guard_ctx(cx, spec);
        let guards: Vec<BuiltinGuard> = builtin_guards(cfg.confirm_irreversible);
        match first_objection(&guards, &classified, &guard_ctx, plugins) {
            None => {
                let call: EventId = self.called(cx.at, &cx.proposal, action, args);
                ToolStep::Call { call }
            },
            Some(o) => match o.verdict {
                Verdict::Deny { reason } => {
                    if has(reason.as_str(), "NeverResidual") {
                        self.book.never_residual = true;
                    }
                    self.bar(action);
                    let line: String = cat4("guard ", o.guard.as_str(), ": ", reason.as_str());
                    self.refuse(cx.at, cx.pid, RejectReason::GuardDenied { guard: o.guard, reason }, line);
                    ToolStep::Refused
                },
                Verdict::NeedsConfirmation { prompt } => ToolStep::Stage { prompt },
                Verdict::Allow => ToolStep::Refused,
            },
        }
    }

    /// Where a guard asked for a confirmation: end the turn on the question.
    pub fn stage(&mut self, cx: &Ctx, prompt: &str, staged: Option<StagedEffect>)
        requires
            accounting::room(old(self).deep_view().log, 2),
        ensures
            final(self).deep_view() == stages(old(self).deep_view(), cx.deep_view(), prompt@, staged.deep_view()),
    {
        let text: String = match &staged {
            Some(s) => cat3(prompt, "\nPlanned: ", s.description.as_str()),
            None => prompt.to_owned(),
        };
        self.record(cx.at, EventKind::PendingConfirmation { proposal_of: cx.pid, staged });
        self.settle(cx.at, ReplyPolicy::Verbatim { text });
    }
}

// ---------------------------------------------------------------------------
// Laws
// ---------------------------------------------------------------------------

/// With confirmation on, an irreversible tool is not called on a turn on which
/// the user confirmed nothing.
pub proof fn irreversible_tools_wait_for_the_user(
    t: TurnV,
    cx: CtxV,
    cfg: EngineConfigV,
    spec: ActionSpecV,
    invalid: Option<Seq<char>>,
    args: TaggedV,
    plugins: Seq<ObjectionV>,
)
    requires
        cfg.confirm_irreversible,
        spec.side_effect == SideEffect::Irreversible,
        !cx.confirmed(t.turn),
    ensures
        !(judged(t, cx, cfg, spec, invalid, args, plugins).1 is Call),
{
    gate::irreversible_needs_confirmation(
        ClassifiedProposalV { proposal: cx.proposal, args },
        tool_ctx(t, cx, spec),
        plugins,
    );
}

/// A tool is called only with arguments that its schema accepts and no guard
/// objects to, and then the call is the next event.
pub proof fn only_what_passes_is_called(
    t: TurnV,
    cx: CtxV,
    cfg: EngineConfigV,
    spec: ActionSpecV,
    invalid: Option<Seq<char>>,
    args: TaggedV,
    plugins: Seq<ObjectionV>,
)
    ensures
        judged(t, cx, cfg, spec, invalid, args, plugins).1 is Call <==> invalid is None && gate::objection(
            gate::builtins(cfg.confirm_irreversible),
            ClassifiedProposalV { proposal: cx.proposal, args },
            tool_ctx(t, cx, spec),
            plugins,
        ) is None,
        judged(t, cx, cfg, spec, invalid, args, plugins).1 is Call ==> judged(
            t,
            cx,
            cfg,
            spec,
            invalid,
            args,
            plugins,
        ).0.log.last().kind == (EventKindV::ToolCalled { action: cx.proposal.action, args }),
{
}

} // verus!
