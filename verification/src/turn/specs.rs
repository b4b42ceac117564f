//! The actions that the engine owns, and the texts it answers with.

use vstd::prelude::*;

use crate::events::{ActionSpec, ActionSpecV};
use crate::types::{Json, SideEffect};

verus! {

/// Ask the user one question.
pub const ASK_CLARIFICATION: &'static str = "ask_clarification";

/// The user just confirmed the staged action.
pub const CONFIRM_PENDING: &'static str = "confirm_pending";

/// Store one durable fact.
pub const REMEMBER_FACT: &'static str = "remember_fact";

/// Delete one stored fact.
pub const FORGET_FACT: &'static str = "forget_fact";

/// Erase every fact of the scope.
pub const FORGET_ALL: &'static str = "forget_all";

/// Search memory beyond what is shown.
pub const RECALL: &'static str = "recall";

/// The nearest earlier conversations; run by the engine, never offered.
pub const EXEMPLARS: &'static str = "exemplars";

/// Read more of a tool result that was shown clipped.
pub const INSPECT_RESULT: &'static str = "inspect_result";

/// End the turn and reply.
pub const RESPOND_DIRECTLY: &'static str = "respond_directly";

/// How a reply begins when the turn could not be completed.
pub const FALLBACK_REPLY: &'static str = "Sorry, I couldn't complete that.";

/// Which spelling of every description the emitter is shown.
#[derive(Debug, Clone, Copy, PartialEq, Eq, Structural)]
pub enum SchemaProfile {
    Full,
    Slim,
}

impl SchemaProfile {
    pub open spec fn picked(self, full: Seq<char>, slim: Seq<char>) -> Seq<char> {
        match self {
            SchemaProfile::Full => full,
            SchemaProfile::Slim => slim,
        }
    }

    pub fn pick(self, full: &'static str, slim: &'static str) -> (r: &'static str)
        ensures
            r@ == self.picked(full@, slim@),
    {
        match self {
            SchemaProfile::Full => full,
            SchemaProfile::Slim => slim,
        }
    }
}

/// A spec with free arguments that may fire any number of times.
pub open spec fn plain_spec(name: Seq<char>, description: Seq<char>, schema: Seq<char>, effect: SideEffect) -> ActionSpecV {
    ActionSpecV {
        name,
        description,
        args_schema: schema,
        side_effect: effect,
        residual_policy: seq![],
        dedupe_tag: None,
    }
}

pub fn plain(name: &str, description: &str, schema: &str, effect: SideEffect) -> (r: ActionSpec)
    ensures
        r.deep_view() == plain_spec(name@, description@, schema@, effect),
{
    let r: ActionSpec = ActionSpec {
        name: name.to_owned(),
        description: description.to_owned(),
        args_schema: Json { text: schema.to_owned() },
        side_effect: effect,
        residual_policy: Vec::new(),
        dedupe_tag: None,
    };
    proof {
        assert(r.residual_policy.deep_view() =~= seq![]);
    }
    r
}

pub open spec fn ask_clarification_schema(profile: SchemaProfile) -> ActionSpecV {
    plain_spec(
        ASK_CLARIFICATION@,
        profile.picked(
            "Ask the user one short question to resolve missing or ungrounded information required by the next action."@,
            "Ask the user one short question the next action needs answered."@,
        ),
        "{\"properties\":{\"question\":{\"type\":\"string\"}},\"required\":[\"question\"],\"type\":\"object\"}"@,
        SideEffect::Pure,
    )
}

pub fn ask_clarification_spec(profile: SchemaProfile) -> (r: ActionSpec)
    ensures
        r.deep_view() == ask_clarification_schema(profile),
{
    let description: &str = profile.pick(
        "Ask the user one short question to resolve missing or ungrounded information required by the next action.",
        "Ask the user one short question the next action needs answered.",
    );
    plain(ASK_CLARIFICATION, description, "{\"properties\":{\"question\":{\"type\":\"string\"}},\"required\":[\"question\"],\"type\":\"object\"}", SideEffect::Pure)
}

pub open spec fn confirm_pending_schema(profile: SchemaProfile) -> ActionSpecV {
    plain_spec(
        CONFIRM_PENDING@,
        profile.picked(
            "The user has just confirmed the pending action; execute it."@,
            "Execute the pending action the user just confirmed."@,
        ),
        "{\"properties\":{},\"type\":\"object\"}"@,
        SideEffect::Pure,
    )
}

pub fn confirm_pending_spec(profile: SchemaProfile) -> (r: ActionSpec)
    ensures
        r.deep_view() == confirm_pending_schema(profile),
{
    let description: &str = profile.pick(
        "The user has just confirmed the pending action; execute it.",
        "Execute the pending action the user just confirmed.",
    );
    plain(CONFIRM_PENDING, description, "{\"properties\":{},\"type\":\"object\"}", SideEffect::Pure)
}

pub open spec fn remember_fact_schema(profile: SchemaProfile) -> ActionSpecV {
    plain_spec(
        REMEMBER_FACT@,
        profile.picked(
            "Store one durable fact about the user or task as key/value (dotted keys, e.g. user.name)."@,
            "Store one durable fact under a dotted key, e.g. user.name."@,
        ),
        "{\"properties\":{\"key\":{\"type\":\"string\"},\"value\":{\"type\":\"string\"}},\"required\":[\"key\",\"value\"],\"type\":\"object\"}"@,
        SideEffect::Reversible,
    )
}

pub fn remember_fact_spec(profile: SchemaProfile) -> (r: ActionSpec)
    ensures
        r.deep_view() == remember_fact_schema(profile),
{
    let description: &str = profile.pick(
        "Store one durable fact about the user or task as key/value (dotted keys, e.g. user.name).",
        "Store one durable fact under a dotted key, e.g. user.name.",
    );
    plain(REMEMBER_FACT, description, "{\"properties\":{\"key\":{\"type\":\"string\"},\"value\":{\"type\":\"string\"}},\"required\":[\"key\",\"value\"],\"type\":\"object\"}", SideEffect::Reversible)
}

pub open spec fn forget_fact_schema(profile: SchemaProfile) -> ActionSpecV {
    plain_spec(
        FORGET_FACT@,
        profile.picked(
            "Delete one stored fact by its key (e.g. user.name). Only when the user explicitly asks to forget or remove something stored."@,
            "Delete one stored fact by key, only when the user asks to forget it."@,
        ),
        "{\"properties\":{\"key\":{\"type\":\"string\"}},\"required\":[\"key\"],\"type\":\"object\"}"@,
        SideEffect::Reversible,
    )
}

pub fn forget_fact_spec(profile: SchemaProfile) -> (r: ActionSpec)
    ensures
        r.deep_view() == forget_fact_schema(profile),
{
    let description: &str = profile.pick(
        "Delete one stored fact by its key (e.g. user.name). Only when the user explicitly asks to forget or remove something stored.",
        "Delete one stored fact by key, only when the user asks to forget it.",
    );
    plain(FORGET_FACT, description, "{\"properties\":{\"key\":{\"type\":\"string\"}},\"required\":[\"key\"],\"type\":\"object\"}", SideEffect::Reversible)
}

pub open spec fn forget_all_schema(profile: SchemaProfile) -> ActionSpecV {
    plain_spec(
        FORGET_ALL@,
        profile.picked(
            "Erase everything stored about the user; asks for confirmation first. Only when the user explicitly asks to reset or wipe the memory."@,
            "Erase every stored fact, only when the user asks to wipe the memory; confirmation is asked first."@,
        ),
        "{\"properties\":{},\"type\":\"object\"}"@,
        SideEffect::Irreversible,
    )
}

pub fn forget_all_spec(profile: SchemaProfile) -> (r: ActionSpec)
    ensures
        r.deep_view() == forget_all_schema(profile),
{
    let description: &str = profile.pick(
        "Erase everything stored about the user; asks for confirmation first. Only when the user explicitly asks to reset or wipe the memory.",
        "Erase every stored fact, only when the user asks to wipe the memory; confirmation is asked first.",
    );
    plain(FORGET_ALL, description, "{\"properties\":{},\"type\":\"object\"}", SideEffect::Irreversible)
}

pub open spec fn recall_schema(profile: SchemaProfile) -> ActionSpecV {
    plain_spec(
        RECALL@,
        profile.picked(
            "Search earlier turns of this conversation and stored facts for words the user is asking about. Use when the answer is not in the recent turns or facts shown."@,
            "Search earlier turns and stored facts when the answer is not in what is shown."@,
        ),
        "{\"properties\":{\"query\":{\"type\":\"string\"}},\"required\":[\"query\"],\"type\":\"object\"}"@,
        SideEffect::Pure,
    )
}

pub fn recall_spec(profile: SchemaProfile) -> (r: ActionSpec)
    ensures
        r.deep_view() == recall_schema(profile),
{
    let description: &str = profile.pick(
        "Search earlier turns of this conversation and stored facts for words the user is asking about. Use when the answer is not in the recent turns or facts shown.",
        "Search earlier turns and stored facts when the answer is not in what is shown.",
    );
    plain(RECALL, description, "{\"properties\":{\"query\":{\"type\":\"string\"}},\"required\":[\"query\"],\"type\":\"object\"}", SideEffect::Pure)
}

pub open spec fn inspect_result_schema(profile: SchemaProfile) -> ActionSpecV {
    plain_spec(
        INSPECT_RESULT@,
        profile.picked(
            "Read more of a tool result that was shown clipped. `id` is the handle in the trace, like r42. With `query`, returns the part of the result around the first match; without one, the next part. For a desktop, prefer pointer_ui_find, which searches the live screen instead."@,
            "Read more of a clipped tool result by its trace handle, like r42; with a query, the part around the first match."@,
        ),
        "{\"properties\":{\"id\":{\"type\":\"string\"},\"query\":{\"type\":\"string\"}},\"required\":[\"id\"],\"type\":\"object\"}"@,
        SideEffect::Pure,
    )
}

pub fn inspect_result_spec(profile: SchemaProfile) -> (r: ActionSpec)
    ensures
        r.deep_view() == inspect_result_schema(profile),
{
    let description: &str = profile.pick(
        "Read more of a tool result that was shown clipped. `id` is the handle in the trace, like r42. With `query`, returns the part of the result around the first match; without one, the next part. For a desktop, prefer pointer_ui_find, which searches the live screen instead.",
        "Read more of a clipped tool result by its trace handle, like r42; with a query, the part around the first match.",
    );
    plain(INSPECT_RESULT, description, "{\"properties\":{\"id\":{\"type\":\"string\"},\"query\":{\"type\":\"string\"}},\"required\":[\"id\"],\"type\":\"object\"}", SideEffect::Pure)
}

pub open spec fn exemplars_schema() -> ActionSpecV {
    plain_spec(EXEMPLARS@, "Earlier conversations most like this one, by meaning."@, "{\"properties\":{\"query\":{\"type\":\"string\"}},\"required\":[\"query\"],\"type\":\"object\"}"@, SideEffect::Pure)
}

pub fn exemplars_spec() -> (r: ActionSpec)
    ensures
        r.deep_view() == exemplars_schema(),
{
    plain(EXEMPLARS, "Earlier conversations most like this one, by meaning.", "{\"properties\":{\"query\":{\"type\":\"string\"}},\"required\":[\"query\"],\"type\":\"object\"}", SideEffect::Pure)
}

/// Every action that the engine itself puts in a legal set.
pub open spec fn synthetic(profile: SchemaProfile) -> Seq<ActionSpecV> {
    seq![
        ask_clarification_schema(profile),
        confirm_pending_schema(profile),
        remember_fact_schema(profile),
        forget_fact_schema(profile),
        forget_all_schema(profile),
        recall_schema(profile),
        inspect_result_schema(profile),
    ]
}

pub fn synthetic_specs(profile: SchemaProfile) -> (r: Vec<ActionSpec>)
    ensures
        r.deep_view() == synthetic(profile),
{
    let mut out: Vec<ActionSpec> = Vec::new();
    out.push(ask_clarification_spec(profile));
    out.push(confirm_pending_spec(profile));
    out.push(remember_fact_spec(profile));
    out.push(forget_fact_spec(profile));
    out.push(forget_all_spec(profile));
    out.push(recall_spec(profile));
    out.push(inspect_result_spec(profile));
    proof {
        assert(out.deep_view() =~= synthetic(profile));
    }
    out
}

/// What the engine's own actions may change, whatever the spelling of their descriptions:
/// asking, confirming, recalling and looking into results change nothing, remembering and
/// forgetting one fact can be undone, and forgetting everything cannot; none of them has a
/// rule on its arguments or fires once only.
pub proof fn what_the_engines_actions_may_change(profile: SchemaProfile)
    ensures
        ask_clarification_schema(profile).name == "ask_clarification"@ && ask_clarification_schema(profile).side_effect
            == SideEffect::Pure,
        confirm_pending_schema(profile).name == "confirm_pending"@ && confirm_pending_schema(profile).side_effect
            == SideEffect::Pure,
        remember_fact_schema(profile).name == "remember_fact"@ && remember_fact_schema(profile).side_effect
            == SideEffect::Reversible,
        forget_fact_schema(profile).name == "forget_fact"@ && forget_fact_schema(profile).side_effect
            == SideEffect::Reversible,
        forget_all_schema(profile).name == "forget_all"@ && forget_all_schema(profile).side_effect
            == SideEffect::Irreversible,
        recall_schema(profile).name == "recall"@ && recall_schema(profile).side_effect == SideEffect::Pure,
        inspect_result_schema(profile).name == "inspect_result"@ && inspect_result_schema(profile).side_effect
            == SideEffect::Pure,
        forall|i: int|
            0 <= i < synthetic(profile).len() ==> (#[trigger] synthetic(profile)[i]).residual_policy.len() == 0 && synthetic(
                profile,
            )[i].dedupe_tag is None,
{
}

/// The profile changes how an action is described, and neither what it is called nor what it
/// takes.
pub proof fn the_profile_changes_descriptions_only(i: int)
    requires
        0 <= i < 7,
    ensures
        synthetic(SchemaProfile::Full).len() == 7 && synthetic(SchemaProfile::Slim).len() == 7,
        ({
            let a = synthetic(SchemaProfile::Full)[i];
            let b = synthetic(SchemaProfile::Slim)[i];
            b == (ActionSpecV { description: b.description, ..a })
        }),
{
}

/// A profile picks its own of two spellings.
pub proof fn a_profile_picks_its_spelling(full: Seq<char>, slim: Seq<char>)
    ensures
        SchemaProfile::Full.picked(full, slim) == full,
        SchemaProfile::Slim.picked(full, slim) == slim,
{
}

/// What the engine's actions take: a question to ask, a key and a value to remember, a key to
/// forget, words to search for, and the handle of a result with words to find in it.
pub proof fn what_the_engines_actions_take(profile: SchemaProfile)
    ensures
        ask_clarification_schema(profile).args_schema
            == "{\"properties\":{\"question\":{\"type\":\"string\"}},\"required\":[\"question\"],\"type\":\"object\"}"@,
        confirm_pending_schema(profile).args_schema == "{\"properties\":{},\"type\":\"object\"}"@,
        remember_fact_schema(profile).args_schema
            == "{\"properties\":{\"key\":{\"type\":\"string\"},\"value\":{\"type\":\"string\"}},\"required\":[\"key\",\"value\"],\"type\":\"object\"}"@,
        forget_fact_schema(profile).args_schema
            == "{\"properties\":{\"key\":{\"type\":\"string\"}},\"required\":[\"key\"],\"type\":\"object\"}"@,
        forget_all_schema(profile).args_schema == "{\"properties\":{},\"type\":\"object\"}"@,
        recall_schema(profile).args_schema
            == "{\"properties\":{\"query\":{\"type\":\"string\"}},\"required\":[\"query\"],\"type\":\"object\"}"@,
        inspect_result_schema(profile).args_schema
            == "{\"properties\":{\"id\":{\"type\":\"string\"},\"query\":{\"type\":\"string\"}},\"required\":[\"id\"],\"type\":\"object\"}"@,
        exemplars_schema().name == "exemplars"@ && exemplars_schema().side_effect == SideEffect::Pure
            && exemplars_schema().args_schema == recall_schema(profile).args_schema,
{
}

} // verus!
