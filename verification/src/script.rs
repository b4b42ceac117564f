//! Scripted stand-ins for the roles of a harness.

use vstd::prelude::*;

use crate::contexts::ReplyContext;
use crate::events::{ActionSpec, ActionSpecV, Proposal, ProposalV, ToolOutput, ToolOutputV};
use crate::guards::{ClassifiedProposal, GuardCtx, Verdict, VerdictV};
use crate::json;
use crate::json::string_arg;
use crate::text::{cat2, same};
use crate::turn::specs;
use crate::turn::specs::{plain, RESPOND_DIRECTLY};
use crate::turn::tools::ToolFailure;
use crate::types::{Json, SideEffect, Trust};

verus! {

// ---------------------------------------------------------------------------
// The emitter
// ---------------------------------------------------------------------------

/// Gives the proposals it was made with, one after the other, and then always
/// ends the turn. What it gives need not be legal: refusing is the engine's
/// business.
#[derive(Debug)]
pub struct ScriptedEmitter {
    proposals: Vec<Proposal>,
    given: usize,
}

/// The proposal that ends a turn.
pub open spec fn nothing_left() -> ProposalV {
    ProposalV { rationale: "nothing left to do"@, action: RESPOND_DIRECTLY@, args: "{}"@ }
}

impl ScriptedEmitter {
    /// The proposals that are still to come.
    pub closed spec fn left(&self) -> Seq<ProposalV> {
        self.proposals.deep_view().skip(self.given as int)
    }

    pub closed spec fn wf(&self) -> bool {
        self.given <= self.proposals@.len()
    }

    pub fn new(proposals: Vec<Proposal>) -> (r: Self)
        ensures
            r.wf(),
            r.left() == proposals.deep_view(),
    {
        let r: ScriptedEmitter = ScriptedEmitter { proposals, given: 0 };
        proof {
            assert(r.left() =~= proposals.deep_view());
        }
        r
    }

    /// The next proposal.
    pub fn propose(&mut self) -> (r: Proposal)
        requires
            old(self).wf(),
        ensures
            final(self).wf(),
            r.deep_view() == (if old(self).left().len() > 0 {
                old(self).left()[0]
            } else {
                nothing_left()
            }),
            final(self).left() == (if old(self).left().len() > 0 {
                old(self).left().drop_first()
            } else {
                old(self).left()
            }),
    {
        let ghost all = self.proposals.deep_view();
        if self.given < self.proposals.len() {
            let p: Proposal = self.proposals[self.given].clone();
            proof {
                assert(all.skip(self.given as int)[0] == self.proposals@[self.given as int].deep_view());
                assert(all.skip(self.given as int).drop_first() =~= all.skip(self.given + 1));
            }
            self.given = self.given + 1;
            p
        } else {
            Proposal {
                rationale: "nothing left to do".to_owned(),
                action: RESPOND_DIRECTLY.to_owned(),
                args: Json { text: "{}".to_owned() },
            }
        }
    }
}

// ---------------------------------------------------------------------------
// The replier
// ---------------------------------------------------------------------------

/// Replies with the trace of the turn.
#[derive(Debug, Clone, Copy)]
pub struct ScriptedReplier;

impl ScriptedReplier {
    pub fn reply(&self, ctx: &ReplyContext) -> (r: String)
        ensures
            r@ == "TRACE:\n"@ + ctx.turn_trace@,
    {
        cat2("TRACE:\n", ctx.turn_trace.as_str())
    }
}

// ---------------------------------------------------------------------------
// A tool
// ---------------------------------------------------------------------------

/// A tool without effect that says back what it is given.
#[derive(Debug)]
pub struct EchoTool {
    spec: ActionSpec,
}

pub open spec fn echo_schema() -> ActionSpecV {
    specs::plain_spec(
        "echo"@,
        "echo text back"@,
        "{\"properties\":{\"text\":{\"type\":\"string\"}},\"required\":[\"text\"],\"type\":\"object\"}"@,
        SideEffect::Pure,
    )
}

/// What the tool answers to a text.
pub open spec fn echoed(text: Option<Seq<char>>, r: Result<ToolOutput, ToolFailure>) -> bool {
    match text {
        Some(s) => r matches Ok(o) && o.deep_view() == (ToolOutputV {
            summary: "echo: "@ + s,
            artifact: None,
            trust: Trust::System,
        }),
        None => r matches Err(e) && e.kind@ == "bad_args"@ && e.detail@ == "missing text"@,
    }
}

/// Say a text back.
pub fn echo_text(text: Option<String>) -> (r: Result<ToolOutput, ToolFailure>)
    ensures
        echoed(text.deep_view(), r),
{
    match text {
        Some(s) => Ok(ToolOutput { summary: cat2("echo: ", s.as_str()), artifact: None, trust: Trust::System }),
        None => Err(ToolFailure { kind: "bad_args".to_owned(), detail: "missing text".to_owned() }),
    }
}

impl EchoTool {
    pub closed spec fn schema(&self) -> ActionSpecV {
        self.spec.deep_view()
    }

    pub fn new() -> (r: Self)
        ensures
            r.schema() == echo_schema(),
    {
        EchoTool {
            spec: plain(
                "echo",
                "echo text back",
                "{\"properties\":{\"text\":{\"type\":\"string\"}},\"required\":[\"text\"],\"type\":\"object\"}",
                SideEffect::Pure,
            ),
        }
    }

    pub fn spec(&self) -> (r: &ActionSpec)
        ensures
            r.deep_view() == self.schema(),
    {
        &self.spec
    }

    pub fn call(&self, args: &Json) -> (r: Result<ToolOutput, ToolFailure>)
        ensures
            echoed(json::json_str_at(args.deep_view(), "/text"@), r),
    {
        echo_text(string_arg(args, "/text"))
    }
}

impl Default for EchoTool {
    fn default() -> (r: Self)
        ensures
            r.schema() == echo_schema(),
    {
        EchoTool::new()
    }
}

// ---------------------------------------------------------------------------
// A guard
// ---------------------------------------------------------------------------

/// A guard that denies one action for a fixed reason.
#[derive(Debug)]
pub struct DenyAction {
    pub action: String,
    pub reason: String,
}

impl DenyAction {
    pub fn name(&self) -> (r: &'static str)
        ensures
            r@ == "deny_action"@,
    {
        "deny_action"
    }

    pub fn check(&self, p: &ClassifiedProposal, ctx: &GuardCtx) -> (r: Verdict)
        ensures
            r.deep_view() == (if p.deep_view().proposal.action == self.action@ {
                VerdictV::Deny { reason: self.reason@ }
            } else {
                VerdictV::Allow
            }),
    {
        if same(p.proposal.action.as_str(), self.action.as_str()) {
            Verdict::Deny { reason: self.reason.clone() }
        } else {
            Verdict::Allow
        }
    }
}

/// What the echoing tool answers, and what it is.
pub proof fn what_the_echo_says(s: Seq<char>, r: Result<ToolOutput, ToolFailure>)
    ensures
        echoed(Some(s), r) <==> r is Ok && r->Ok_0.deep_view().summary == "echo: "@ + s && r->Ok_0.deep_view().artifact is None
            && r->Ok_0.deep_view().trust == Trust::System,
        echoed(None, r) <==> r is Err && r->Err_0.kind@ == "bad_args"@ && r->Err_0.detail@ == "missing text"@,
        echo_schema().name == "echo"@ && echo_schema().side_effect == SideEffect::Pure && echo_schema().residual_policy.len()
            == 0,
        nothing_left().action == "respond_directly"@ && nothing_left().args == "{}"@ && nothing_left().rationale
            == "nothing left to do"@,
{
}

} // verus!
