//! The actions that the engine runs itself.
//!
//! Each is a complete answer to what happens when the model asks for it. Where
//! an action reads or changes the store it comes in two halves: the first
//! decides and says what to ask of the store, the second records the answer.

use vstd::prelude::*;

use crate::events::{
    ActionSpec, ActionSpecV, EventKind, EventKindV, Proposal, RejectReason, RejectReasonV, ReplyPolicy, ReplyPolicyV, StagedEffect,
    StagedEffectV, ToolOutcome, ToolOutcomeV, ToolOutput, ToolOutputV,
};
use crate::facts;
use crate::facts::{Fact, FactV};
use crate::guards::{contains_residual, ClassifiedProposal, ClassifiedProposalV, GuardCtx, GuardCtxV, Verdict, VerdictV};
use crate::json;
use crate::json::{string_arg, text_value};
use crate::text;
use crate::text::{cat2, cat3, cat4, cat5, cat7, chars_of, is_ascii_alnum, join, number, same, strip_edges_of, trim, Sort};
use crate::trace;
use crate::trace::{
    clipped_results, inspect_page, parse_result_handle, result_handle, result_text, result_trust, result_window,
};
use crate::turn::accounting;
use crate::turn::config::{EngineConfig, EngineConfigV, RememberResidual};
use crate::turn::gate;
use crate::turn::gate::{builtin_guards, first_objection, Objection, ObjectionV};
use crate::turn::memory;
use crate::turn::memory::knows_key;
use crate::turn::progress;
use crate::turn::progress::{BookkeepingV, Ctx, CtxV, Step, Turn, TurnV};
use crate::turn::specs;
use crate::turn::specs::{
    ask_clarification_spec, ASK_CLARIFICATION, FORGET_ALL, FORGET_FACT, INSPECT_RESULT, RECALL, REMEMBER_FACT,
};
use crate::turn::tools;
use crate::types;
use crate::types::{EventId, FactState, Json, Provenance, ProvenanceV, Tagged, TaggedV, TaggedValueV, Timestamp, Trust};
use crate::unicode;
use crate::unicode::debug_text;

verus! {

/// An action of the engine's own.
#[derive(Debug, Clone, Copy, PartialEq, Eq, Structural)]
pub enum Builtin {
    AskClarification,
    RememberFact,
    Recall,
    InspectResult,
    ForgetFact,
    ForgetAll,
}

pub open spec fn builtin_named(action: Seq<char>) -> Option<Builtin> {
    if action == ASK_CLARIFICATION@ {
        Some(Builtin::AskClarification)
    } else if action == REMEMBER_FACT@ {
        Some(Builtin::RememberFact)
    } else if action == RECALL@ {
        Some(Builtin::Recall)
    } else if action == INSPECT_RESULT@ {
        Some(Builtin::InspectResult)
    } else if action == FORGET_FACT@ {
        Some(Builtin::ForgetFact)
    } else if action == FORGET_ALL@ {
        Some(Builtin::ForgetAll)
    } else {
        None
    }
}

/// Which of the engine's own actions a proposal names; none where it names a
/// registered tool.
pub fn run_builtin(action: &str) -> (r: Option<Builtin>)
    ensures
        r == builtin_named(action@),
{
    if same(action, ASK_CLARIFICATION) {
        Some(Builtin::AskClarification)
    } else if same(action, REMEMBER_FACT) {
        Some(Builtin::RememberFact)
    } else if same(action, RECALL) {
        Some(Builtin::Recall)
    } else if same(action, INSPECT_RESULT) {
        Some(Builtin::InspectResult)
    } else if same(action, FORGET_FACT) {
        Some(Builtin::ForgetFact)
    } else if same(action, FORGET_ALL) {
        Some(Builtin::ForgetAll)
    } else {
        None
    }
}

/// An outcome of the engine's own making.
pub open spec fn done(summary: Seq<char>, trust: Trust) -> ToolOutcomeV {
    ToolOutcomeV::Done { output: ToolOutputV { summary, artifact: None, trust } }
}

/// What a write to the store came to.
pub open spec fn stored(summary: Seq<char>, failure: Option<Seq<char>>) -> ToolOutcomeV {
    match failure {
        None => done(summary, Trust::System),
        Some(detail) => ToolOutcomeV::Failed { kind: "store"@, detail },
    }
}

fn finish(summary: String, trust: Trust) -> (r: ToolOutcome)
    ensures
        r.deep_view() == done(summary@, trust),
{
    ToolOutcome::Done { output: ToolOutput { summary, artifact: None, trust } }
}

fn store_outcome(summary: String, failure: Option<String>) -> (r: ToolOutcome)
    ensures
        r.deep_view() == stored(summary@, failure.deep_view()),
{
    match failure {
        None => finish(summary, Trust::System),
        Some(detail) => ToolOutcome::Failed { kind: "store".to_owned(), detail },
    }
}

// ---------------------------------------------------------------------------
// ask_clarification
// ---------------------------------------------------------------------------

/// What a guard is shown beside a question: only a confirmation that was recorded
/// before counts, and nothing is pending.
pub open spec fn asking_ctx(t: TurnV, cx: CtxV, spec: ActionSpecV) -> GuardCtxV {
    GuardCtxV {
        spec,
        turn: t.turn,
        confirmed_this_turn: cx.state.confirmed_this_turn_of == Some(t.turn),
        fired_actions: cx.state.fired_tags,
        pending_confirmation: None,
    }
}

pub open spec fn question_ctx(t: TurnV, cx: CtxV, cfg: EngineConfigV) -> GuardCtxV {
    asking_ctx(t, cx, specs::ask_clarification_schema(cfg.schema_profile))
}

/// What the harness's own guards are shown: they look at registered tools and at
/// questions, and at nothing else.
pub open spec fn guarded(t: TurnV, cx: CtxV, spec: ActionSpecV, registered: bool) -> Option<GuardCtxV> {
    if registered {
        Some(tools::tool_ctx(t, cx, spec))
    } else if cx.proposal.action == ASK_CLARIFICATION@ {
        Some(asking_ctx(t, cx, spec))
    } else {
        None
    }
}

/// What an objection says, whatever its kind.
pub open spec fn words_of(v: VerdictV) -> Seq<char> {
    match v {
        VerdictV::Allow => seq![],
        VerdictV::Deny { reason } => reason,
        VerdictV::NeedsConfirmation { prompt } => prompt,
    }
}

/// A question that no guard objects to is the reply. One that is objected to is
/// not asked, and the action is not offered again.
pub open spec fn asks(
    t: TurnV,
    cx: CtxV,
    cfg: EngineConfigV,
    question: Option<Seq<char>>,
    args: TaggedV,
    plugins: Seq<ObjectionV>,
) -> TurnV {
    match question {
        None => progress::refused(
            t,
            cx.at,
            cx.pid,
            RejectReasonV::Malformed { detail: "ask_clarification without question"@ },
            "ask_clarification missing question"@,
        ),
        Some(q) => match gate::objection(
            gate::builtins(cfg.confirm_irreversible),
            ClassifiedProposalV { proposal: cx.proposal, args },
            question_ctx(t, cx, cfg),
            plugins,
        ) {
            None => progress::settles(t, cx.at, ReplyPolicyV::Verbatim { text: q }),
            Some(o) => progress::barred(
                progress::refused(
                    t,
                    cx.at,
                    cx.pid,
                    RejectReasonV::GuardDenied { guard: o.guard, reason: words_of(o.verdict) },
                    "guard "@ + o.guard + ": "@ + words_of(o.verdict),
                ),
                ASK_CLARIFICATION@,
            ),
        },
    }
}

impl Turn {
    /// What a guard is shown beside a question.
    pub fn question_guard_ctx<'a>(&self, cx: &'a Ctx, spec: &'a ActionSpec) -> (r: GuardCtx<'a>)
        ensures
            r.deep_view() == asking_ctx(self.deep_view(), cx.deep_view(), spec.deep_view()),
    {
        let confirmed: bool = match cx.state.confirmed_this_turn_of {
            Some(t) => t == self.turn,
            None => false,
        };
        GuardCtx {
            spec,
            turn: self.turn,
            confirmed_this_turn: confirmed,
            fired_actions: &cx.state.fired_tags,
            pending_confirmation: None,
        }
    }

    /// What the harness's own guards are shown of a proposal, where they look at it.
    /// `registered` says whether a registered tool has the action's name.
    pub fn guard_ctx<'a>(&self, cx: &'a Ctx, spec: &'a ActionSpec, registered: bool) -> (r: Option<GuardCtx<'a>>)
        ensures
            match r {
                Some(g) => guarded(self.deep_view(), cx.deep_view(), spec.deep_view(), registered) == Some(
                    g.deep_view(),
                ),
                None => guarded(self.deep_view(), cx.deep_view(), spec.deep_view(), registered) is None,
            },
    {
        if registered {
            Some(self.tool_guard_ctx(cx, spec))
        } else if same(cx.proposal.action.as_str(), ASK_CLARIFICATION) {
            Some(self.question_guard_ctx(cx, spec))
        } else {
            None
        }
    }

    /// Ask, where `question` is the question that the proposal came with.
    pub fn ask(
        &mut self,
        cx: &Ctx,
        cfg: &EngineConfig,
        question: Option<String>,
        args: Tagged,
        plugins: &Vec<Objection>,
    )
        requires
            accounting::room(old(self).deep_view().log, 1),
        ensures
            final(self).deep_view() == asks(
                old(self).deep_view(),
                cx.deep_view(),
                cfg.deep_view(),
                question.deep_view(),
                args.deep_view(),
                plugins.deep_view(),
            ),
    {
        let q: String = match question {
            Some(q) => q,
            None => {
                self.malformed(
                    cx.at,
                    cx.pid,
                    "ask_clarification without question".to_owned(),
                    "ask_clarification missing question".to_owned(),
                );
                return ;
            },
        };
        let ask_spec: ActionSpec = ask_clarification_spec(cfg.schema_profile);
        let classified: ClassifiedProposal = ClassifiedProposal { proposal: cx.proposal.clone(), args };
        let guard_ctx: GuardCtx = self.question_guard_ctx(cx, &ask_spec);
        let guards: Vec<crate::turn::gate::BuiltinGuard> = builtin_guards(cfg.confirm_irreversible);
        match first_objection(&guards, &classified, &guard_ctx, plugins) {
            None => {
                self.settle(cx.at, ReplyPolicy::Verbatim { text: q });
            },
            Some(o) => {
                let reason: String = match o.verdict {
                    Verdict::Allow => {
                        let none: String = String::new();
                        proof {
                            assert(none@ =~= seq![]);
                        }
                        none
                    },
                    Verdict::Deny { reason } => reason,
                    Verdict::NeedsConfirmation { prompt } => prompt,
                };
                let line: String = cat4("guard ", o.guard.as_str(), ": ", reason.as_str());
                self.refuse(cx.at, cx.pid, RejectReason::GuardDenied { guard: o.guard, reason }, line);
                self.bar(ASK_CLARIFICATION);
            },
        }
    }

    /// The question is the reply. `args` are the classified arguments, and
    /// `plugins` what the harness's own guards answered.
    pub fn ask_clarification(&mut self, cx: &Ctx, cfg: &EngineConfig, args: Tagged, plugins: &Vec<Objection>) -> (r: Step)
        requires
            accounting::room(old(self).deep_view().log, 1),
        ensures
            final(self).deep_view() == asks(
                old(self).deep_view(),
                cx.deep_view(),
                cfg.deep_view(),
                json::json_str_at(cx.proposal.args.deep_view(), "/question"@),
                args.deep_view(),
                plugins.deep_view(),
            ),
            r.deep_view() == progress::step_of(final(self).deep_view()),
    {
        let question: Option<String> = string_arg(&cx.proposal.args, "/question");
        self.ask(cx, cfg, question, args, plugins);
        self.step()
    }
}

// ---------------------------------------------------------------------------
// remember_fact
// ---------------------------------------------------------------------------

/// A key without stray punctuation on its edges.
pub open spec fn clean_key(raw: Seq<char>) -> Seq<char> {
    text::without_edges(raw, Sort::Ident, false)
}

/// A dotted identifier.
pub open spec fn good_key(key: Seq<char>) -> bool {
    key.len() > 0 && forall|i: int| 0 <= i < key.len() ==> key_char(#[trigger] key[i])
}

pub open spec fn key_char(c: char) -> bool {
    text::ascii_alnum(c) || c == '.' || c == '-' || c == '_'
}

fn is_good_key(key: &str) -> (r: bool)
    ensures
        r == good_key(key@),
{
    let cs: Vec<char> = chars_of(key);
    if cs.len() == 0 {
        return false;
    }
    let mut i: usize = 0;
    while i < cs.len()
        invariant
            i <= cs@.len(),
            cs@ == key@,
            forall|k: int| 0 <= k < i ==> key_char(#[trigger] key@[k]),
        decreases cs@.len() - i,
    {
        let c: char = cs[i];
        if !(is_ascii_alnum(c) || c == '.' || c == '-' || c == '_') {
            assert(!key_char(key@[i as int]));
            return false;
        }
        i = i + 1;
    }
    true
}

/// The key that a proposal names, cleaned.
pub fn fact_key(p: &Proposal) -> (r: Option<String>)
    ensures
        r.deep_view() == (match json::json_str_at(p.args.deep_view(), "/key"@) {
            Some(raw) => Some(clean_key(raw)),
            None => None,
        }),
{
    match string_arg(&p.args, "/key") {
        Some(raw) => Some(strip_edges_of(raw.as_str(), Sort::Ident, false)),
        None => None,
    }
}

/// The first argument of that name.
pub open spec fn tagged_as(args: TaggedV, name: Seq<char>) -> Option<TaggedValueV>
    decreases args.len(),
{
    if args.len() == 0 {
        None
    } else if args[0].0 == name {
        Some(args[0].1)
    } else {
        tagged_as(args.drop_first(), name)
    }
}

/// Where a value came from; from nowhere where it was not classified.
pub open spec fn origin(args: TaggedV, name: Seq<char>) -> ProvenanceV {
    match tagged_as(args, name) {
        Some(v) => v.prov,
        None => ProvenanceV::Residual,
    }
}

pub open spec fn trust_in(args: TaggedV, name: Seq<char>) -> Trust {
    match tagged_as(args, name) {
        Some(v) => v.trust,
        None => Trust::System,
    }
}

fn find_tagged(args: &Tagged, name: &str) -> (r: (Provenance, Trust))
    ensures
        r.0.deep_view() == origin(args.deep_view(), name@),
        r.1 == trust_in(args.deep_view(), name@),
{
    let ghost all = args.deep_view();
    let mut i: usize = 0;
    proof {
        assert(all.skip(0) =~= all);
    }
    while i < args.len()
        invariant
            i <= args@.len(),
            all == args.deep_view(),
            tagged_as(all, name@) == tagged_as(all.skip(i as int), name@),
        decreases args@.len() - i,
    {
        proof {
            assert(all.skip(i as int)[0] == args@[i as int].deep_view());
            assert(all.skip(i as int).drop_first() =~= all.skip(i + 1));
        }
        if same(args[i].0.as_str(), name) {
            return (args[i].1.prov.clone(), args[i].1.trust);
        }
        i = i + 1;
    }
    (Provenance::Residual, Trust::System)
}

/// The first fact under the key.
pub open spec fn fact_under(current: Seq<FactV>, key: Seq<char>) -> Option<FactV>
    decreases current.len(),
{
    if current.len() == 0 {
        None
    } else if current[0].key == key {
        Some(current[0])
    } else {
        fact_under(current.drop_first(), key)
    }
}

fn find_fact(current: &Vec<Fact>, key: &str) -> (r: Option<Fact>)
    ensures
        r.deep_view() == fact_under(current.deep_view(), key@),
{
    let ghost all = current.deep_view();
    let mut i: usize = 0;
    proof {
        assert(all.skip(0) =~= all);
    }
    while i < current.len()
        invariant
            i <= current@.len(),
            all == current.deep_view(),
            fact_under(all, key@) == fact_under(all.skip(i as int), key@),
        decreases current@.len() - i,
    {
        proof {
            assert(all.skip(i as int)[0] == current@[i as int].deep_view());
            assert(all.skip(i as int).drop_first() =~= all.skip(i + 1));
        }
        if same(current[i].key.as_str(), key) {
            return Some(current[i].clone());
        }
        i = i + 1;
    }
    None
}

/// The key of the first fact whose spelling counts as that of the key asked for;
/// `squashed[i]` is the spelling of fact `i`, freed of what does not count.
pub open spec fn spelled_alike(current: Seq<FactV>, squashed: Seq<Seq<char>>, wanted: Seq<char>) -> Option<Seq<char>>
    decreases current.len(),
{
    if current.len() == 0 || squashed.len() == 0 {
        None
    } else if squashed[0] == wanted {
        Some(current[0].key)
    } else {
        spelled_alike(current.drop_first(), squashed.drop_first(), wanted)
    }
}

fn find_alike(current: &Vec<Fact>, squashed: &Vec<String>, wanted: &str) -> (r: Option<String>)
    requires
        current@.len() == squashed@.len(),
    ensures
        r.deep_view() == spelled_alike(current.deep_view(), squashed.deep_view(), wanted@),
{
    let ghost all = current.deep_view();
    let ghost sq = squashed.deep_view();
    let mut i: usize = 0;
    proof {
        assert(all.skip(0) =~= all);
        assert(sq.skip(0) =~= sq);
    }
    while i < current.len()
        invariant
            i <= current@.len(),
            current@.len() == squashed@.len(),
            all == current.deep_view(),
            sq == squashed.deep_view(),
            spelled_alike(all, sq, wanted@) == spelled_alike(all.skip(i as int), sq.skip(i as int), wanted@),
        decreases current@.len() - i,
    {
        proof {
            assert(all.skip(i as int)[0] == current@[i as int].deep_view());
            assert(all.skip(i as int).drop_first() =~= all.skip(i + 1));
            assert(sq.skip(i as int)[0] == squashed@[i as int]@);
            assert(sq.skip(i as int).drop_first() =~= sq.skip(i + 1));
        }
        if same(squashed[i].as_str(), wanted) {
            return Some(current[i].key.clone());
        }
        i = i + 1;
    }
    None
}

/// The key that a fact is written under: as it is where it is known, else the
/// known key that is spelled alike, else as it is.
pub open spec fn canonical_key(
    current: Seq<FactV>,
    squashed: Seq<Seq<char>>,
    key: Seq<char>,
    squashed_key: Seq<char>,
) -> Seq<char> {
    if memory::has_key(current, key) {
        key
    } else {
        match spelled_alike(current, squashed, squashed_key) {
            Some(k) => k,
            None => key,
        }
    }
}

/// When a new version begins: now, but after the one that it replaces.
pub open spec fn begins(prev: FactV, at: Timestamp) -> Timestamp {
    if at.0 > prev.valid_from.0 {
        at
    } else {
        Timestamp((prev.valid_from.0 + 1) as u64)
    }
}

pub open spec fn confidence(residual: bool) -> u32 {
    if residual {
        50
    } else {
        100
    }
}

/// A tenth more sure, but not more than sure.
pub open spec fn promoted(pct: u32) -> u32 {
    if pct >= 90 {
        100
    } else {
        (pct + 10) as u32
    }
}

/// The fact to write: restating a value confirms the version that holds it, a
/// new value is a new version with the uses of the old one, and a new key is
/// new.
pub open spec fn fact_to_write(
    prev: Option<FactV>,
    key: Seq<char>,
    value: Seq<char>,
    prov: ProvenanceV,
    trust: Trust,
    scope: Seq<char>,
    at: Timestamp,
) -> FactV {
    let residual = types::residual(prov);
    match prev {
        Some(p) => if p.value == value {
            FactV {
                confidence_pct: if residual {
                    promoted(p.confidence_pct)
                } else {
                    100
                },
                last_validated: at,
                prov,
                trust,
                state: FactState::Current,
                ..p
            }
        } else {
            FactV {
                key,
                value,
                confidence_pct: confidence(residual),
                uses: p.uses,
                last_validated: at,
                prov,
                scope,
                trust,
                valid_from: begins(p, at),
                valid_to: None,
                state: FactState::Current,
                last_used: p.last_used,
                exposures: 0,
                credits: 0,
            }
        },
        None => FactV {
            key,
            value,
            confidence_pct: confidence(residual),
            last_validated: at,
            prov,
            scope,
            trust,
            valid_from: at,
            ..facts::fresh_fact()
        },
    }
}

/// The fact to write for a value and what is stored under its key.
pub fn build_fact(prev: Option<Fact>, key: &str, value: Json, prov: Provenance, trust: Trust, scope: &str, at: Timestamp) -> (r:
    Fact)
    requires
        prev matches Some(p) ==> p.valid_from.0 < u64::MAX,
    ensures
        r.deep_view() == fact_to_write(prev.deep_view(), key@, value.deep_view(), prov.deep_view(), trust, scope@, at),
{
    let residual: bool = contains_residual(&prov);
    let fresh: u32 = if residual { 50 } else { 100 };
    match prev {
        Some(p) => if same(p.value.text.as_str(), value.text.as_str()) {
            let pct: u32 = if residual {
                if p.confidence_pct >= 90 { 100 } else { p.confidence_pct + 10 }
            } else {
                100
            };
            Fact { confidence_pct: pct, last_validated: at, prov, trust, state: FactState::Current, ..p }
        } else {
            let from: Timestamp = if at.0 > p.valid_from.0 { at } else { Timestamp(p.valid_from.0 + 1) };
            Fact {
                key: key.to_owned(),
                value,
                confidence_pct: fresh,
                uses: p.uses,
                last_validated: at,
                prov,
                scope: scope.to_owned(),
                trust,
                valid_from: from,
                valid_to: None,
                state: FactState::Current,
                last_used: p.last_used,
                exposures: 0,
                credits: 0,
            }
        },
        None => {
            let d: Fact = Default::default();
            Fact {
                key: key.to_owned(),
                value,
                confidence_pct: fresh,
                last_validated: at,
                prov,
                scope: scope.to_owned(),
                trust,
                valid_from: at,
                ..d
            }
        },
    }
}

/// A fact that the store is asked to take, for a call that is in the log.
#[derive(Debug)]
pub struct FactWrite {
    pub key: String,
    pub fact: Fact,
    pub call: EventId,
}

pub struct FactWriteV {
    pub key: Seq<char>,
    pub fact: FactV,
    pub call: EventId,
}

impl DeepView for FactWrite {
    type V = FactWriteV;

    open spec fn deep_view(&self) -> FactWriteV {
        FactWriteV {
            key: self.key.deep_view(),
            fact: self.fact.deep_view(),
            call: self.call,
        }
    }
}

impl Clone for FactWrite {
    fn clone(&self) -> (r: Self)
        ensures
            r.deep_view() == self.deep_view(),
    {
        let r: FactWrite = FactWrite {
            key: self.key.clone(),
            fact: self.fact.clone(),
            call: self.call,
        };
        r
    }
}

/// The refusal of a key or a value that is none.
pub open spec fn bad_key(t: TurnV, cx: CtxV, key: Seq<char>) -> TurnV {
    progress::refused(
        t,
        cx.at,
        cx.pid,
        RejectReasonV::Malformed {
            detail: "remember_fact key must be a dotted identifier and value non-empty (got key "@ + unicode::quoted(key)
                + ")"@,
        },
        "remember_fact rejected malformed key "@ + unicode::quoted(key),
    )
}

/// The refusal of a value that nothing in the session grounds.
pub open spec fn ungrounded_value(t: TurnV, cx: CtxV) -> TurnV {
    let reason = "NeverResidual: arg 'value' has no grounding in this session"@;
    let u = progress::refused(
        t,
        cx.at,
        cx.pid,
        RejectReasonV::GuardDenied { guard: "residual_policy"@, reason },
        "guard residual_policy: "@ + reason,
    );
    progress::barred(TurnV { book: BookkeepingV { never_residual: true, ..u.book }, ..u }, REMEMBER_FACT@)
}

/// A fact to remember: what is wrong with it is refused, and where nothing is
/// the call is recorded and the fact is handed to the store.
pub open spec fn remembers(
    t: TurnV,
    cx: CtxV,
    cfg: EngineConfigV,
    raw_key: Option<Seq<char>>,
    value: Option<Seq<char>>,
    args: TaggedV,
    current: Seq<FactV>,
    squashed: Seq<Seq<char>>,
    squashed_key: Seq<char>,
) -> (TurnV, Option<FactWriteV>) {
    match (raw_key, value) {
        (Some(raw), Some(v)) => {
            let key = clean_key(raw);
            let prov = origin(args, "value"@);
            if !good_key(key) || text::trimmed(v).len() == 0 {
                (bad_key(t, cx, key), None)
            } else if types::residual(prov) && cfg.remember_residual == RememberResidual::Never {
                (ungrounded_value(t, cx), None)
            } else {
                let k = canonical_key(current, squashed, key, squashed_key);
                let fact = fact_to_write(
                    fact_under(current, k),
                    k,
                    json::json_string(v),
                    prov,
                    trust_in(args, "value"@),
                    t.scope,
                    cx.at,
                );
                (
                    progress::calls_for(t, cx.at, cx.proposal, REMEMBER_FACT@, args),
                    Some(FactWriteV { key: k, fact, call: progress::next(t) }),
                )
            }
        },
        _ => (
            progress::refused(
                t,
                cx.at,
                cx.pid,
                RejectReasonV::Malformed { detail: "remember_fact needs string key and value"@ },
                "remember_fact missing key/value"@,
            ),
            None,
        ),
    }
}

impl Turn {
    /// Remember the value under the key, where `raw_key` and `value` are what
    /// the proposal came with.
    pub fn remember(
        &mut self,
        cx: &Ctx,
        cfg: &EngineConfig,
        raw_key: Option<String>,
        value: Option<String>,
        args: Tagged,
        current: &Vec<Fact>,
        squashed: &Vec<String>,
        squashed_key: &str,
    ) -> (r: Option<FactWrite>)
        requires
            accounting::room(old(self).deep_view().log, 1),
            current@.len() == squashed@.len(),
            forall|i: int| 0 <= i < current@.len() ==> (#[trigger] current@[i]).valid_from.0 < u64::MAX,
        ensures
            (final(self).deep_view(), r.deep_view()) == remembers(
                old(self).deep_view(),
                cx.deep_view(),
                cfg.deep_view(),
                raw_key.deep_view(),
                value.deep_view(),
                args.deep_view(),
                current.deep_view(),
                squashed.deep_view(),
                squashed_key@,
            ),
    {
        let (raw, value): (String, String) = match (raw_key, value) {
            (Some(k), Some(v)) => (k, v),
            _ => {
                self.malformed(
                    cx.at,
                    cx.pid,
                    "remember_fact needs string key and value".to_owned(),
                    "remember_fact missing key/value".to_owned(),
                );
                return None;
            },
        };
        let key: String = strip_edges_of(raw.as_str(), Sort::Ident, false);
        let bare: String = trim(value.as_str());
        if !is_good_key(key.as_str()) || bare.as_str().is_empty() {
            let shown: String = debug_text(key.as_str());
            let detail: String = cat3(
                "remember_fact key must be a dotted identifier and value non-empty (got key ",
                shown.as_str(),
                ")",
            );
            let line: String = cat2("remember_fact rejected malformed key ", shown.as_str());
            self.malformed(cx.at, cx.pid, detail, line);
            return None;
        }
        let (prov, trust): (Provenance, Trust) = find_tagged(&args, "value");
        if contains_residual(&prov) && cfg.remember_residual == RememberResidual::Never {
            let reason: String = "NeverResidual: arg 'value' has no grounding in this session".to_owned();
            let line: String = cat2("guard residual_policy: ", reason.as_str());
            self.refuse(
                cx.at,
                cx.pid,
                RejectReason::GuardDenied { guard: "residual_policy".to_owned(), reason },
                line,
            );
            self.book.never_residual = true;
            self.bar(REMEMBER_FACT);
            return None;
        }
        let key: String = if knows_key(current, key.as_str()) {
            key
        } else {
            match find_alike(current, squashed, squashed_key) {
                Some(k) => k,
                None => key,
            }
        };
        let prev: Option<Fact> = find_fact_early(current, key.as_str());
        let fact: Fact = build_fact(
            prev,
            key.as_str(),
            text_value(value.as_str()),
            prov,
            trust,
            self.scope.as_str(),
            cx.at,
        );
        let call: EventId = self.called(cx.at, &cx.proposal, REMEMBER_FACT, args);
        Some(FactWrite { key, fact, call })
    }

    /// The first half of remembering a fact. `args` are the classified
    /// arguments, `current` the facts that live in the scope, `squashed` their
    /// spellings and `squashed_key` that of the key asked for.
    pub fn remember_fact(
        &mut self,
        cx: &Ctx,
        cfg: &EngineConfig,
        args: Tagged,
        current: &Vec<Fact>,
        squashed: &Vec<String>,
        squashed_key: &str,
    ) -> (r: Option<FactWrite>)
        requires
            accounting::room(old(self).deep_view().log, 1),
            current@.len() == squashed@.len(),
            forall|i: int| 0 <= i < current@.len() ==> (#[trigger] current@[i]).valid_from.0 < u64::MAX,
        ensures
            (final(self).deep_view(), r.deep_view()) == remembers(
                old(self).deep_view(),
                cx.deep_view(),
                cfg.deep_view(),
                json::json_str_at(cx.proposal.args.deep_view(), "/key"@),
                json::json_str_at(cx.proposal.args.deep_view(), "/value"@),
                args.deep_view(),
                current.deep_view(),
                squashed.deep_view(),
                squashed_key@,
            ),
    {
        let raw_key: Option<String> = string_arg(&cx.proposal.args, "/key");
        let value: Option<String> = string_arg(&cx.proposal.args, "/value");
        self.remember(cx, cfg, raw_key, value, args, current, squashed, squashed_key)
    }

    /// The second half: what the store answered.
    pub fn remembered(&mut self, at: Timestamp, call: EventId, key: &str, failure: Option<String>)
        requires
            accounting::room(old(self).deep_view().log, 1),
        ensures
            final(self).deep_view() == progress::returns_with(
                old(self).deep_view(),
                at,
                call,
                stored("remembered "@ + key@, failure.deep_view()),
            ),
    {
        let summary: String = cat2("remembered ", key);
        self.returned(at, call, store_outcome(summary, failure));
    }
}

/// The first fact under the key, which is not the last of its kind.
fn find_fact_early(current: &Vec<Fact>, key: &str) -> (r: Option<Fact>)
    requires
        forall|i: int| 0 <= i < current@.len() ==> (#[trigger] current@[i]).valid_from.0 < u64::MAX,
    ensures
        r.deep_view() == fact_under(current.deep_view(), key@),
        r matches Some(f) ==> f.valid_from.0 < u64::MAX,
{
    let r: Option<Fact> = find_fact(current, key);
    proof {
        lemma_fact_under(current.deep_view(), key@);
        if r is Some {
            let all = current.deep_view();
            let i = choose|i: int| 0 <= i < all.len() && all[i] == r->0.deep_view();
            assert(all[i] == current@[i].deep_view());
            assert(r->0.deep_view().valid_from == r->0.valid_from);
        }
    }
    r
}

proof fn lemma_fact_under(current: Seq<FactV>, key: Seq<char>)
    ensures
        fact_under(current, key) matches Some(f) ==> f.key == key && exists|i: int|
            0 <= i < current.len() && current[i] == f,
        fact_under(current, key) is Some == memory::has_key(current, key),
    decreases current.len(),
{
    if current.len() > 0 {
        let rest = current.drop_first();
        lemma_fact_under(rest, key);
        if current[0].key != key {
            if fact_under(rest, key) is Some {
                let f = fact_under(rest, key)->0;
                let i = choose|i: int| 0 <= i < rest.len() && rest[i] == f;
                assert(current[i + 1] == f);
            }
            if memory::has_key(current, key) {
                let i = choose|i: int| 0 <= i < current.len() && (#[trigger] current[i]).key == key;
                assert(rest[i - 1] == current[i]);
            }
        }
    }
}

// ---------------------------------------------------------------------------
// recall
// ---------------------------------------------------------------------------

/// A query with something in it.
pub open spec fn real_query(raw: Option<Seq<char>>) -> Option<Seq<char>> {
    match raw {
        Some(q) => if text::trimmed(q).len() > 0 {
            Some(text::trimmed(q))
        } else {
            None
        },
        None => None,
    }
}

fn clean_query(raw: Option<String>) -> (r: Option<String>)
    ensures
        r.deep_view() == real_query(raw.deep_view()),
{
    match raw {
        Some(q) => {
            let t: String = trim(q.as_str());
            if t.as_str().is_empty() {
                None
            } else {
                Some(t)
            }
        },
        None => None,
    }
}

/// A search that the store is asked for, for a call that is in the log.
#[derive(Debug)]
pub struct Lookup {
    pub query: String,
    pub call: EventId,
}

pub struct LookupV {
    pub query: Seq<char>,
    pub call: EventId,
}

impl DeepView for Lookup {
    type V = LookupV;

    open spec fn deep_view(&self) -> LookupV {
        LookupV {
            query: self.query.deep_view(),
            call: self.call,
        }
    }
}

impl Clone for Lookup {
    fn clone(&self) -> (r: Self)
        ensures
            r.deep_view() == self.deep_view(),
    {
        let r: Lookup = Lookup {
            query: self.query.clone(),
            call: self.call,
        };
        r
    }
}

/// A recall with something to look for is recorded as a call.
pub open spec fn recalls(t: TurnV, cx: CtxV, raw_query: Option<Seq<char>>, args: TaggedV) -> (TurnV, Option<LookupV>) {
    match real_query(raw_query) {
        None => (
            progress::refused(
                t,
                cx.at,
                cx.pid,
                RejectReasonV::Malformed { detail: "recall needs a non-empty query"@ },
                "recall missing query"@,
            ),
            None,
        ),
        Some(query) => (
            progress::calls_for(t, cx.at, cx.proposal, RECALL@, args),
            Some(LookupV { query, call: progress::next(t) }),
        ),
    }
}

impl Turn {
    /// Look for something, where `raw_query` is what the proposal came with.
    pub fn look_up(&mut self, cx: &Ctx, raw_query: Option<String>, args: Tagged) -> (r: Option<Lookup>)
        requires
            accounting::room(old(self).deep_view().log, 1),
        ensures
            (final(self).deep_view(), r.deep_view()) == recalls(
                old(self).deep_view(),
                cx.deep_view(),
                raw_query.deep_view(),
                args.deep_view(),
            ),
    {
        match clean_query(raw_query) {
            None => {
                self.malformed(
                    cx.at,
                    cx.pid,
                    "recall needs a non-empty query".to_owned(),
                    "recall missing query".to_owned(),
                );
                None
            },
            Some(query) => {
                let call: EventId = self.called(cx.at, &cx.proposal, RECALL, args);
                Some(Lookup { query, call })
            },
        }
    }

    /// The first half of a recall; the outcome is recorded when it is there.
    pub fn recall(&mut self, cx: &Ctx, args: Tagged) -> (r: Option<Lookup>)
        requires
            accounting::room(old(self).deep_view().log, 1),
        ensures
            (final(self).deep_view(), r.deep_view()) == recalls(
                old(self).deep_view(),
                cx.deep_view(),
                json::json_str_at(cx.proposal.args.deep_view(), "/query"@),
                args.deep_view(),
            ),
    {
        let raw: Option<String> = string_arg(&cx.proposal.args, "/query");
        self.look_up(cx, raw, args)
    }
}

// ---------------------------------------------------------------------------
// inspect_result
// ---------------------------------------------------------------------------

pub open spec fn handles(ids: Seq<EventId>) -> Seq<Seq<char>> {
    Seq::new(ids.len(), |i: int| trace::handle_text(ids[i]))
}

pub(crate) fn handle_texts(ids: &Vec<EventId>) -> (r: Vec<String>)
    ensures
        r.deep_view() == handles(ids@),
{
    let mut out: Vec<String> = Vec::new();
    let mut i: usize = 0;
    while i < ids.len()
        invariant
            i <= ids@.len(),
            out@.len() == i,
            forall|k: int| 0 <= k < i ==> (#[trigger] out@[k])@ == handles(ids@)[k],
        decreases ids@.len() - i,
    {
        out.push(result_handle(ids[i]));
        i = i + 1;
    }
    proof {
        assert(out.deep_view() =~= handles(ids@));
    }
    out
}

fn has_id(ids: &Vec<EventId>, id: EventId) -> (r: bool)
    ensures
        r == ids@.contains(id),
{
    let mut i: usize = 0;
    while i < ids.len()
        invariant
            i <= ids@.len(),
            forall|k: int| 0 <= k < i ==> ids@[k] != id,
        decreases ids@.len() - i,
    {
        if ids[i] == id {
            assert(ids@[i as int] == id);
            return true;
        }
        i = i + 1;
    }
    false
}

/// The result that a handle names, where it can be inspected.
pub open spec fn inspected(raw: Option<Seq<char>>, available: Seq<EventId>) -> Option<EventId> {
    match raw {
        Some(s) => match trace::handle_of(s) {
            Some(id) => if available.contains(id) {
                Some(id)
            } else {
                None
            },
            None => None,
        },
        None => None,
    }
}

pub open spec fn no_such_result(raw: Option<Seq<char>>, available: Seq<EventId>) -> Seq<char> {
    let named = match raw {
        Some(s) => s,
        None => ""@,
    };
    INSPECT_RESULT@ + ": no clipped result named "@ + unicode::quoted(named) + " this turn; available: "@ + (
    if available.len() == 0 {
        "none"@
    } else {
        text::joined(handles(available), ", "@)
    })
}

/// What an inspection says: the stretch that was asked for, or that there is
/// none.
pub open spec fn inspection(id: EventId, s: Seq<char>, query: Option<Seq<char>>, page: nat, max: nat) -> Seq<char> {
    let w = trace::window(s, query, page, max);
    if w.0.len() == 0 {
        match query {
            Some(q) => trace::handle_text(id) + " has no match for "@ + unicode::quoted(q),
            None => "no more of "@ + trace::handle_text(id),
        }
    } else {
        trace::handle_text(id) + " chars "@ + text::decimal(w.1) + "-"@ + text::decimal(w.2) + " of "@ + text::decimal(
            s.len(),
        ) + ": "@ + w.0
    }
}

fn inspect_text(id: EventId, s: &str, query: Option<&str>, page: usize, max: usize) -> (r: (String, bool))
    ensures
        r.0@ == inspection(id, s@, query.deep_view(), page as nat, max as nat),
        r.1 == (trace::window(s@, query.deep_view(), page as nat, max as nat).0.len() == 0),
{
    let handle: String = result_handle(id);
    let (window, start, end): (String, usize, usize) = result_window(s, query, page, max);
    let total: usize = chars_of(s).len();
    if window.as_str().is_empty() {
        let summary: String = match query {
            Some(q) => {
                let shown: String = debug_text(q);
                cat3(handle.as_str(), " has no match for ", shown.as_str())
            },
            None => cat2("no more of ", handle.as_str()),
        };
        (summary, true)
    } else {
        let a: String = number(start as u64);
        let b: String = number(end as u64);
        let n: String = number(total as u64);
        let head: String = cat7(handle.as_str(), " chars ", a.as_str(), "-", b.as_str(), " of ", n.as_str());
        (cat3(head.as_str(), ": ", window.as_str()), false)
    }
}

/// More of a result that was shown clipped. A handle that names none, a query
/// that matches nothing and a result that has no more pages end the offer.
pub open spec fn inspects(
    t: TurnV,
    cx: CtxV,
    max: nat,
    raw_id: Option<Seq<char>>,
    raw_query: Option<Seq<char>>,
    args: TaggedV,
) -> TurnV {
    let available = trace::inspectable(t.log, t.turn, max);
    match inspected(raw_id, available) {
        None => {
            let detail = no_such_result(raw_id, available);
            progress::refused(
                progress::barred(t, INSPECT_RESULT@),
                cx.at,
                cx.pid,
                RejectReasonV::Malformed { detail },
                detail,
            )
        },
        Some(id) => {
            let query = real_query(raw_query);
            let page = trace::pages_seen(t.log, t.turn, id);
            let u = progress::calls_for(t, cx.at, cx.proposal, INSPECT_RESULT@, args);
            let found = trace::output_of(trace::event_at(u.log, u.turn, id));
            let s = match found {
                Some(o) => o.0,
                None => seq![],
            };
            let trust = match found {
                Some(o) => o.1,
                None => Trust::System,
            };
            let w = if trace::window(s, query, page, max).0.len() == 0 {
                progress::barred(u, INSPECT_RESULT@)
            } else {
                u
            };
            progress::returns_with(w, cx.at, progress::next(t), done(inspection(id, s, query, page, max), trust))
        },
    }
}

impl Turn {
    /// Page through a result, where `raw_id` and `raw_query` are what the
    /// proposal came with.
    pub fn inspect(
        &mut self,
        cx: &Ctx,
        max: usize,
        raw_id: Option<String>,
        raw_query: Option<String>,
        args: Tagged,
    )
        requires
            accounting::room(old(self).deep_view().log, 2),
        ensures
            final(self).deep_view() == inspects(
                old(self).deep_view(),
                cx.deep_view(),
                max as nat,
                raw_id.deep_view(),
                raw_query.deep_view(),
                args.deep_view(),
            ),
    {
        let available: Vec<EventId> = clipped_results(&self.log.events, self.turn, max);
        let handle: Option<EventId> = match &raw_id {
            Some(s) => parse_result_handle(s.as_str()),
            None => None,
        };
        let id: EventId = match handle {
            Some(id) if has_id(&available, id) => id,
            _ => {
                let named: String = match raw_id {
                    Some(s) => s,
                    None => "".to_owned(),
                };
                let shown: String = debug_text(named.as_str());
                let known: String = if available.len() == 0 {
                    "none".to_owned()
                } else {
                    let texts: Vec<String> = handle_texts(&available);
                    join(&texts, ", ")
                };
                let detail: String = cat5(
                    INSPECT_RESULT,
                    ": no clipped result named ",
                    shown.as_str(),
                    " this turn; available: ",
                    known.as_str(),
                );
                self.bar(INSPECT_RESULT);
                self.malformed(cx.at, cx.pid, detail.clone(), detail);
                return ;
            },
        };
        let query: Option<String> = clean_query(raw_query);
        let page: usize = inspect_page(&self.log.events, self.turn, id);
        let call: EventId = self.called(cx.at, &cx.proposal, INSPECT_RESULT, args);
        let s: String = match result_text(&self.log.events, self.turn, id) {
            Some(s) => s,
            None => {
                let empty: String = String::new();
                proof {
                    assert(empty@ =~= seq![]);
                }
                empty
            },
        };
        let trust: Trust = result_trust(&self.log.events, self.turn, id);
        let q: Option<&str> = match &query {
            Some(q) => Some(q.as_str()),
            None => None,
        };
        proof {
            assert(q.deep_view() == query.deep_view());
        }
        let (summary, spent): (String, bool) = inspect_text(id, s.as_str(), q, page, max);
        if spent {
            self.bar(INSPECT_RESULT);
        }
        self.returned(cx.at, call, finish(summary, trust));
    }

    /// Page through a result that was shown clipped, without running the tool
    /// again.
    pub fn inspect_result(&mut self, cx: &Ctx, max: usize, args: Tagged)
        requires
            accounting::room(old(self).deep_view().log, 2),
        ensures
            final(self).deep_view() == inspects(
                old(self).deep_view(),
                cx.deep_view(),
                max as nat,
                json::json_str_at(cx.proposal.args.deep_view(), "/id"@),
                json::json_str_at(cx.proposal.args.deep_view(), "/query"@),
                args.deep_view(),
            ),
    {
        let raw_id: Option<String> = string_arg(&cx.proposal.args, "/id");
        let raw_query: Option<String> = string_arg(&cx.proposal.args, "/query");
        self.inspect(cx, max, raw_id, raw_query, args)
    }
}

// ---------------------------------------------------------------------------
// forget_fact
// ---------------------------------------------------------------------------

/// The key of the first fact that has the key or is spelled alike.
pub open spec fn meant(
    current: Seq<FactV>,
    squashed: Seq<Seq<char>>,
    key: Seq<char>,
    squashed_key: Seq<char>,
) -> Option<Seq<char>>
    decreases current.len(),
{
    if current.len() == 0 || squashed.len() == 0 {
        None
    } else if current[0].key == key || squashed[0] == squashed_key {
        Some(current[0].key)
    } else {
        meant(current.drop_first(), squashed.drop_first(), key, squashed_key)
    }
}

fn find_meant(current: &Vec<Fact>, squashed: &Vec<String>, key: &str, squashed_key: &str) -> (r: Option<String>)
    requires
        current@.len() == squashed@.len(),
    ensures
        r.deep_view() == meant(current.deep_view(), squashed.deep_view(), key@, squashed_key@),
{
    let ghost all = current.deep_view();
    let ghost sq = squashed.deep_view();
    let mut i: usize = 0;
    proof {
        assert(all.skip(0) =~= all);
        assert(sq.skip(0) =~= sq);
    }
    while i < current.len()
        invariant
            i <= current@.len(),
            current@.len() == squashed@.len(),
            all == current.deep_view(),
            sq == squashed.deep_view(),
            meant(all, sq, key@, squashed_key@) == meant(all.skip(i as int), sq.skip(i as int), key@, squashed_key@),
        decreases current@.len() - i,
    {
        proof {
            assert(all.skip(i as int)[0] == current@[i as int].deep_view());
            assert(all.skip(i as int).drop_first() =~= all.skip(i + 1));
            assert(sq.skip(i as int)[0] == squashed@[i as int]@);
            assert(sq.skip(i as int).drop_first() =~= sq.skip(i + 1));
        }
        if same(current[i].key.as_str(), key) || same(squashed[i].as_str(), squashed_key) {
            return Some(current[i].key.clone());
        }
        i = i + 1;
    }
    None
}

/// A fact that the store is asked to forget, for a call that is in the log.
#[derive(Debug)]
pub struct Forgetting {
    pub key: String,
    pub call: EventId,
}

pub struct ForgettingV {
    pub key: Seq<char>,
    pub call: EventId,
}

impl DeepView for Forgetting {
    type V = ForgettingV;

    open spec fn deep_view(&self) -> ForgettingV {
        ForgettingV {
            key: self.key.deep_view(),
            call: self.call,
        }
    }
}

impl Clone for Forgetting {
    fn clone(&self) -> (r: Self)
        ensures
            r.deep_view() == self.deep_view(),
    {
        let r: Forgetting = Forgetting {
            key: self.key.clone(),
            call: self.call,
        };
        r
    }
}

/// The refusal of a key that no fact has. A second one ends the offer.
pub open spec fn no_such_fact(t: TurnV, cx: CtxV, key: Seq<char>) -> TurnV {
    let detail = "forget_fact: no current fact named "@ + key;
    let u = progress::refused(t, cx.at, cx.pid, RejectReasonV::Malformed { detail }, detail);
    let w = TurnV { book: BookkeepingV { forget_misses: (u.book.forget_misses + 1) as u32, ..u.book }, ..u };
    if w.book.forget_misses >= 2 {
        progress::barred(w, FORGET_FACT@)
    } else {
        w
    }
}

/// A fact to forget: one that is there is handed to the store, and one that is
/// not is refused.
pub open spec fn forgets(
    t: TurnV,
    cx: CtxV,
    raw_key: Option<Seq<char>>,
    args: TaggedV,
    current: Seq<FactV>,
    squashed: Seq<Seq<char>>,
    squashed_key: Seq<char>,
) -> (TurnV, Option<ForgettingV>) {
    match raw_key {
        Some(raw) if clean_key(raw).len() > 0 => {
            let key = match meant(current, squashed, clean_key(raw), squashed_key) {
                Some(k) => k,
                None => clean_key(raw),
            };
            if memory::has_key(current, key) {
                (
                    progress::calls_for(t, cx.at, cx.proposal, FORGET_FACT@, args),
                    Some(ForgettingV { key, call: progress::next(t) }),
                )
            } else {
                (no_such_fact(t, cx, key), None)
            }
        },
        _ => (
            progress::refused(
                t,
                cx.at,
                cx.pid,
                RejectReasonV::Malformed { detail: "forget_fact needs a string key"@ },
                "forget_fact missing key"@,
            ),
            None,
        ),
    }
}

impl Turn {
    /// Forget a fact, where `raw_key` is what the proposal came with.
    pub fn forget(
        &mut self,
        cx: &Ctx,
        raw_key: Option<String>,
        args: Tagged,
        current: &Vec<Fact>,
        squashed: &Vec<String>,
        squashed_key: &str,
    ) -> (r: Option<Forgetting>)
        requires
            accounting::room(old(self).deep_view().log, 1),
            current@.len() == squashed@.len(),
            old(self).book.forget_misses < u32::MAX,
        ensures
            (final(self).deep_view(), r.deep_view()) == forgets(
                old(self).deep_view(),
                cx.deep_view(),
                raw_key.deep_view(),
                args.deep_view(),
                current.deep_view(),
                squashed.deep_view(),
                squashed_key@,
            ),
    {
        let key: String = match raw_key {
            Some(raw) => strip_edges_of(raw.as_str(), Sort::Ident, false),
            None => {
                let empty: String = String::new();
                proof {
                    assert(empty@ =~= seq![]);
                }
                empty
            },
        };
        if key.as_str().is_empty() {
            self.malformed(
                cx.at,
                cx.pid,
                "forget_fact needs a string key".to_owned(),
                "forget_fact missing key".to_owned(),
            );
            return None;
        }
        let key: String = match find_meant(current, squashed, key.as_str(), squashed_key) {
            Some(k) => k,
            None => key,
        };
        if !knows_key(current, key.as_str()) {
            let detail: String = cat2("forget_fact: no current fact named ", key.as_str());
            self.malformed(cx.at, cx.pid, detail.clone(), detail);
            self.book.forget_misses = self.book.forget_misses + 1;
            if self.book.forget_misses >= 2 {
                self.bar(FORGET_FACT);
            }
            return None;
        }
        let call: EventId = self.called(cx.at, &cx.proposal, FORGET_FACT, args);
        Some(Forgetting { key, call })
    }

    /// The first half of forgetting a fact; the arguments are as for
    /// [`Turn::remember_fact`].
    pub fn forget_fact(
        &mut self,
        cx: &Ctx,
        args: Tagged,
        current: &Vec<Fact>,
        squashed: &Vec<String>,
        squashed_key: &str,
    ) -> (r: Option<Forgetting>)
        requires
            accounting::room(old(self).deep_view().log, 1),
            current@.len() == squashed@.len(),
            old(self).book.forget_misses < u32::MAX,
        ensures
            (final(self).deep_view(), r.deep_view()) == forgets(
                old(self).deep_view(),
                cx.deep_view(),
                json::json_str_at(cx.proposal.args.deep_view(), "/key"@),
                args.deep_view(),
                current.deep_view(),
                squashed.deep_view(),
                squashed_key@,
            ),
    {
        let raw_key: Option<String> = string_arg(&cx.proposal.args, "/key");
        self.forget(cx, raw_key, args, current, squashed, squashed_key)
    }

    /// The second half: what the store answered.
    pub fn forgot_fact(&mut self, at: Timestamp, call: EventId, key: &str, failure: Option<String>)
        requires
            accounting::room(old(self).deep_view().log, 1),
        ensures
            final(self).deep_view() == progress::returns_with(
                old(self).deep_view(),
                at,
                call,
                stored("forgot "@ + key@, failure.deep_view()),
            ),
    {
        let summary: String = cat2("forgot ", key);
        self.returned(at, call, store_outcome(summary, failure));
    }
}

// ---------------------------------------------------------------------------
// forget_all
// ---------------------------------------------------------------------------

/// What forgetting everything would do.
pub open spec fn purge_plan(scope: Seq<char>) -> Seq<char> {
    "This will forget every stored fact in scope "@ + scope + "."@
}

/// What forgetting everything reports.
pub open spec fn purge_outcome(result: Result<usize, String>) -> ToolOutcomeV {
    match result {
        Ok(n) => done("forgot "@ + text::decimal(n as nat) + " facts"@, Trust::System),
        Err(detail) => ToolOutcomeV::Failed { kind: "store"@, detail: detail@ },
    }
}

/// Forgetting everything is staged until the user confirms it; then the store is
/// asked.
pub open spec fn purges(t: TurnV, cx: CtxV) -> TurnV {
    if cx.confirmed(t.turn) {
        progress::calls_for(t, cx.at, cx.proposal, FORGET_ALL@, seq![])
    } else {
        progress::settles(
            progress::logged(
                t,
                cx.at,
                EventKindV::PendingConfirmation {
                    proposal_of: cx.pid,
                    staged: Some(StagedEffectV { description: purge_plan(t.scope) }),
                },
            ),
            cx.at,
            ReplyPolicyV::Verbatim {
                text: "'"@ + FORGET_ALL@ + "' is irreversible. Confirm to proceed.\nPlanned: "@ + purge_plan(t.scope),
            },
        )
    }
}

impl Turn {
    /// The first half of forgetting everything: the call to make, where it was
    /// confirmed.
    pub fn forget_all(&mut self, cx: &Ctx) -> (r: Option<EventId>)
        requires
            accounting::room(old(self).deep_view().log, 2),
        ensures
            final(self).deep_view() == purges(old(self).deep_view(), cx.deep_view()),
            r == (if cx.deep_view().confirmed(old(self).turn) {
                Some(progress::next(old(self).deep_view()))
            } else {
                None
            }),
    {
        if !cx.is_confirmed(self.turn) {
            let plan: String = cat3("This will forget every stored fact in scope ", self.scope.as_str(), ".");
            let staged: Option<StagedEffect> = Some(StagedEffect { description: plan.clone() });
            self.record(cx.at, EventKind::PendingConfirmation { proposal_of: cx.pid, staged });
            let text: String = cat4(
                "'",
                FORGET_ALL,
                "' is irreversible. Confirm to proceed.\nPlanned: ",
                plan.as_str(),
            );
            self.settle(cx.at, ReplyPolicy::Verbatim { text });
            return None;
        }
        let none: Tagged = Vec::new();
        proof {
            assert(none.deep_view() =~= seq![]);
        }
        Some(self.called(cx.at, &cx.proposal, FORGET_ALL, none))
    }

    /// The second half: how many facts the store deleted.
    pub fn purged(&mut self, at: Timestamp, call: EventId, result: Result<usize, String>)
        requires
            accounting::room(old(self).deep_view().log, 1),
        ensures
            final(self).deep_view() == progress::returns_with(
                old(self).deep_view(),
                at,
                call,
                purge_outcome(result),
            ),
    {
        let outcome: ToolOutcome = match result {
            Ok(n) => {
                let count: String = number(n as u64);
                finish(cat3("forgot ", count.as_str(), " facts"), Trust::System)
            },
            Err(detail) => ToolOutcome::Failed { kind: "store".to_owned(), detail },
        };
        self.returned(at, call, outcome);
    }
}

} // verus!
