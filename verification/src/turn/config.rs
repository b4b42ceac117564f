//! Every knob a deployment can turn, and the defaults it gets for free.

use vstd::prelude::*;

use crate::events::Ablate;
use crate::text::same;
use crate::trace::DEFAULT_TOOL_RESULT_MAX_CHARS;
use crate::turn::specs::SchemaProfile;
use crate::types::clone_texts;

verus! {

/// What to do with a remembered value that nothing in the session grounds.
#[derive(Debug, Clone, Copy, PartialEq, Eq, Structural)]
pub enum RememberResidual {
    /// Store it at half confidence; restating it promotes it.
    Flag,
    /// Refuse it; the turn can then only ask.
    Never,
}

/// Which class of model a deployment drives.
#[derive(Debug, Clone, Copy, PartialEq, Eq, Structural)]
pub enum Capability {
    Small,
    Strong,
}

/// Whether the prompt budget acts on what it finds.
#[derive(Debug, Clone, Copy, PartialEq, Eq, Structural)]
pub enum BudgetMode {
    /// Record what would be dropped, and drop nothing.
    Report,
    Enforce,
}

/// A reply text with placeholders, under its name.
#[derive(Debug)]
pub struct Template {
    pub id: String,
    pub text: String,
}

pub struct TemplateV {
    pub id: Seq<char>,
    pub text: Seq<char>,
}

impl DeepView for Template {
    type V = TemplateV;

    open spec fn deep_view(&self) -> TemplateV {
        TemplateV {
            id: self.id.deep_view(),
            text: self.text.deep_view(),
        }
    }
}

impl Clone for Template {
    fn clone(&self) -> (r: Self)
        ensures
            r.deep_view() == self.deep_view(),
    {
        let r: Template = Template {
            id: self.id.clone(),
            text: self.text.clone(),
        };
        r
    }
}

/// The settings of an engine.
#[derive(Debug)]
pub struct EngineConfig {
    /// Proposals that one turn may ask for.
    pub max_iterations: u32,
    /// Failed calls after which a turn stops asking.
    pub max_emit_retries: u32,
    pub persona: String,
    /// A template named `cant_help` replaces the fallback text.
    pub templates: Vec<Template>,
    /// Silence after which the consolidator runs; off where absent.
    pub idle_after_ms: Option<u64>,
    /// Completed turns shown verbatim.
    pub window_turns: usize,
    /// Facts shown per turn, at most.
    pub facts_in_context: usize,
    /// Check the reply against what it was shown.
    pub reply_grounding_check: bool,
    /// Ask once more for a reply that was flagged.
    pub reply_regenerate: bool,
    /// On a chat turn, let one call either act or answer.
    pub chat_act_or_answer: bool,
    /// Make that offer on every tier.
    pub act_or_answer_every_tier: bool,
    /// Let one call do both.
    pub act_and_answer: bool,
    pub remember_residual: RememberResidual,
    /// Keys that are always shown.
    pub pinned_prefixes: Vec<String>,
    pub pinned_max: usize,
    /// Facts shown because the message asks for them.
    pub relevant_max: usize,
    pub obligations_max: usize,
    /// Check the reply against what the message asked for.
    pub obligation_check: bool,
    /// Notes shown, at most.
    pub guidance_max: usize,
    /// Leave out notes learned on another model than `learning_model`.
    pub archive_foreign_notes: bool,
    pub learning_model: Option<String>,
    /// A block that is left out of every prompt, to measure what it is worth.
    pub ablate: Option<Ablate>,
    /// Turns out of the window between two summaries; none at 0.
    pub summary_every_turns: usize,
    /// Every so many summaries one is written from the records alone; never at 0.
    pub summary_rebuild_every: usize,
    pub summary_max_chars: usize,
    /// The oldest records are dropped above this.
    pub summary_input_max_chars: usize,
    /// Hits per source.
    pub recall_top_k: usize,
    /// Whether an irreversible action must be confirmed before it runs.
    pub confirm_irreversible: bool,
    /// Tool outcomes of the turn shown in full; all at 0.
    pub trace_verbatim_lines: usize,
    /// Characters of one tool result that reach the prompt.
    pub tool_result_max_chars: usize,
    /// Earlier sessions that recall looks into; none at 0.
    pub recall_sessions: usize,
    pub schema_profile: SchemaProfile,
    pub capability: Capability,
    /// Leave out actions that cannot apply.
    pub prune_inapplicable: bool,
    pub prompt_budget_tokens: u32,
    pub budget_mode: BudgetMode,
    pub show_budget_line: bool,
    /// Sessions that may be in a turn at once.
    pub worker_slots: usize,
    /// Search by meaning too, on every tier but chat.
    pub recall_hybrid: bool,
    /// Similar conversations brought in on a deep turn.
    pub exemplars_max: usize,
    /// Model requests after which no turn is started.
    pub max_requests: Option<u32>,
}

pub struct EngineConfigV {
    pub max_iterations: u32,
    pub max_emit_retries: u32,
    pub persona: Seq<char>,
    pub templates: Seq<TemplateV>,
    pub idle_after_ms: Option<u64>,
    pub window_turns: usize,
    pub facts_in_context: usize,
    pub reply_grounding_check: bool,
    pub reply_regenerate: bool,
    pub chat_act_or_answer: bool,
    pub act_or_answer_every_tier: bool,
    pub act_and_answer: bool,
    pub remember_residual: RememberResidual,
    pub pinned_prefixes: Seq<Seq<char>>,
    pub pinned_max: usize,
    pub relevant_max: usize,
    pub obligations_max: usize,
    pub obligation_check: bool,
    pub guidance_max: usize,
    pub archive_foreign_notes: bool,
    pub learning_model: Option<Seq<char>>,
    pub ablate: Option<Ablate>,
    pub summary_every_turns: usize,
    pub summary_rebuild_every: usize,
    pub summary_max_chars: usize,
    pub summary_input_max_chars: usize,
    pub recall_top_k: usize,
    pub confirm_irreversible: bool,
    pub trace_verbatim_lines: usize,
    pub tool_result_max_chars: usize,
    pub recall_sessions: usize,
    pub schema_profile: SchemaProfile,
    pub capability: Capability,
    pub prune_inapplicable: bool,
    pub prompt_budget_tokens: u32,
    pub budget_mode: BudgetMode,
    pub show_budget_line: bool,
    pub worker_slots: usize,
    pub recall_hybrid: bool,
    pub exemplars_max: usize,
    pub max_requests: Option<u32>,
}

impl DeepView for EngineConfig {
    type V = EngineConfigV;

    open spec fn deep_view(&self) -> EngineConfigV {
        EngineConfigV {
            max_iterations: self.max_iterations,
            max_emit_retries: self.max_emit_retries,
            persona: self.persona.deep_view(),
            templates: self.templates.deep_view(),
            idle_after_ms: self.idle_after_ms,
            window_turns: self.window_turns,
            facts_in_context: self.facts_in_context,
            reply_grounding_check: self.reply_grounding_check,
            reply_regenerate: self.reply_regenerate,
            chat_act_or_answer: self.chat_act_or_answer,
            act_or_answer_every_tier: self.act_or_answer_every_tier,
            act_and_answer: self.act_and_answer,
            remember_residual: self.remember_residual,
            pinned_prefixes: self.pinned_prefixes.deep_view(),
            pinned_max: self.pinned_max,
            relevant_max: self.relevant_max,
            obligations_max: self.obligations_max,
            obligation_check: self.obligation_check,
            guidance_max: self.guidance_max,
            archive_foreign_notes: self.archive_foreign_notes,
            learning_model: self.learning_model.deep_view(),
            ablate: self.ablate,
            summary_every_turns: self.summary_every_turns,
            summary_rebuild_every: self.summary_rebuild_every,
            summary_max_chars: self.summary_max_chars,
            summary_input_max_chars: self.summary_input_max_chars,
            recall_top_k: self.recall_top_k,
            confirm_irreversible: self.confirm_irreversible,
            trace_verbatim_lines: self.trace_verbatim_lines,
            tool_result_max_chars: self.tool_result_max_chars,
            recall_sessions: self.recall_sessions,
            schema_profile: self.schema_profile,
            capability: self.capability,
            prune_inapplicable: self.prune_inapplicable,
            prompt_budget_tokens: self.prompt_budget_tokens,
            budget_mode: self.budget_mode,
            show_budget_line: self.show_budget_line,
            worker_slots: self.worker_slots,
            recall_hybrid: self.recall_hybrid,
            exemplars_max: self.exemplars_max,
            max_requests: self.max_requests,
        }
    }
}

impl Clone for EngineConfig {
    fn clone(&self) -> (r: Self)
        ensures
            r.deep_view() == self.deep_view(),
    {
        let r: EngineConfig = EngineConfig {
            max_iterations: self.max_iterations,
            max_emit_retries: self.max_emit_retries,
            persona: self.persona.clone(),
            templates: self.templates.clone(),
            idle_after_ms: self.idle_after_ms,
            window_turns: self.window_turns,
            facts_in_context: self.facts_in_context,
            reply_grounding_check: self.reply_grounding_check,
            reply_regenerate: self.reply_regenerate,
            chat_act_or_answer: self.chat_act_or_answer,
            act_or_answer_every_tier: self.act_or_answer_every_tier,
            act_and_answer: self.act_and_answer,
            remember_residual: self.remember_residual,
            pinned_prefixes: clone_texts(&self.pinned_prefixes),
            pinned_max: self.pinned_max,
            relevant_max: self.relevant_max,
            obligations_max: self.obligations_max,
            obligation_check: self.obligation_check,
            guidance_max: self.guidance_max,
            archive_foreign_notes: self.archive_foreign_notes,
            learning_model: self.learning_model.clone(),
            ablate: self.ablate,
            summary_every_turns: self.summary_every_turns,
            summary_rebuild_every: self.summary_rebuild_every,
            summary_max_chars: self.summary_max_chars,
            summary_input_max_chars: self.summary_input_max_chars,
            recall_top_k: self.recall_top_k,
            confirm_irreversible: self.confirm_irreversible,
            trace_verbatim_lines: self.trace_verbatim_lines,
            tool_result_max_chars: self.tool_result_max_chars,
            recall_sessions: self.recall_sessions,
            schema_profile: self.schema_profile,
            capability: self.capability,
            prune_inapplicable: self.prune_inapplicable,
            prompt_budget_tokens: self.prompt_budget_tokens,
            budget_mode: self.budget_mode,
            show_budget_line: self.show_budget_line,
            worker_slots: self.worker_slots,
            recall_hybrid: self.recall_hybrid,
            exemplars_max: self.exemplars_max,
            max_requests: self.max_requests,
        };
        proof {
            assert(r.templates.deep_view() =~= self.templates.deep_view());
            assert(r.learning_model.deep_view() =~= self.learning_model.deep_view());
        }
        r
    }
}

/// The settings that a deployment gets where it says nothing.
pub open spec fn default_settings() -> EngineConfigV {
    EngineConfigV {
        max_iterations: 5,
        max_emit_retries: 3,
        persona: seq![],
        templates: seq![],
        idle_after_ms: None,
        window_turns: 6,
        facts_in_context: 10,
        reply_grounding_check: true,
        reply_regenerate: true,
        chat_act_or_answer: false,
        act_or_answer_every_tier: false,
        act_and_answer: false,
        remember_residual: RememberResidual::Flag,
        pinned_prefixes: seq!["user."@],
        pinned_max: 5,
        relevant_max: 5,
        obligations_max: 5,
        obligation_check: false,
        guidance_max: 6,
        archive_foreign_notes: false,
        learning_model: None,
        ablate: None,
        summary_every_turns: 4,
        summary_rebuild_every: 3,
        summary_max_chars: 800,
        summary_input_max_chars: 6000,
        recall_top_k: 5,
        confirm_irreversible: true,
        trace_verbatim_lines: 5,
        tool_result_max_chars: DEFAULT_TOOL_RESULT_MAX_CHARS,
        recall_sessions: 3,
        schema_profile: SchemaProfile::Full,
        capability: Capability::Small,
        prune_inapplicable: true,
        prompt_budget_tokens: 6000,
        budget_mode: BudgetMode::Report,
        show_budget_line: false,
        worker_slots: 1,
        recall_hybrid: false,
        exemplars_max: 0,
        max_requests: None,
    }
}

impl Default for EngineConfig {
    fn default() -> (r: Self)
        ensures
            r.deep_view() == default_settings(),
    {
        let mut prefixes: Vec<String> = Vec::new();
        prefixes.push("user.".to_owned());
        let r: EngineConfig = EngineConfig {
            max_iterations: 5,
            max_emit_retries: 3,
            persona: String::new(),
            templates: Vec::new(),
            idle_after_ms: None,
            window_turns: 6,
            facts_in_context: 10,
            reply_grounding_check: true,
            reply_regenerate: true,
            chat_act_or_answer: false,
            act_or_answer_every_tier: false,
            act_and_answer: false,
            remember_residual: RememberResidual::Flag,
            pinned_prefixes: prefixes,
            pinned_max: 5,
            relevant_max: 5,
            obligations_max: 5,
            obligation_check: false,
            guidance_max: 6,
            archive_foreign_notes: false,
            learning_model: None,
            ablate: None,
            summary_every_turns: 4,
            summary_rebuild_every: 3,
            summary_max_chars: 800,
            summary_input_max_chars: 6000,
            recall_top_k: 5,
            confirm_irreversible: true,
            trace_verbatim_lines: 5,
            tool_result_max_chars: DEFAULT_TOOL_RESULT_MAX_CHARS,
            recall_sessions: 3,
            schema_profile: SchemaProfile::Full,
            capability: Capability::Small,
            prune_inapplicable: true,
            prompt_budget_tokens: 6000,
            budget_mode: BudgetMode::Report,
            show_budget_line: false,
            worker_slots: 1,
            recall_hybrid: false,
            exemplars_max: 0,
            max_requests: None,
        };
        proof {
            assert(r.persona@ =~= seq![]);
            assert(r.templates.deep_view() =~= seq![]);
            assert(r.pinned_prefixes.deep_view() =~= seq!["user."@]);
        }
        r
    }
}

/// The text registered under a name.
pub open spec fn template_of(templates: Seq<TemplateV>, id: Seq<char>) -> Option<Seq<char>>
    decreases templates.len(),
{
    if templates.len() == 0 {
        None
    } else if templates[0].id == id {
        Some(templates[0].text)
    } else {
        template_of(templates.drop_first(), id)
    }
}

impl EngineConfig {
    pub fn template(&self, id: &str) -> (r: Option<String>)
        ensures
            r.deep_view() == template_of(self.deep_view().templates, id@),
    {
        let ghost all = self.templates.deep_view();
        let mut i: usize = 0;
        proof {
            assert(all.skip(0) =~= all);
        }
        while i < self.templates.len()
            invariant
                i <= self.templates@.len(),
                all == self.templates.deep_view(),
                template_of(all, id@) == template_of(all.skip(i as int), id@),
            decreases self.templates@.len() - i,
        {
            proof {
                assert(all.skip(i as int)[0] == self.templates@[i as int].deep_view());
                assert(all.skip(i as int).drop_first() =~= all.skip(i + 1));
            }
            if same(self.templates[i].id.as_str(), id) {
                return Some(self.templates[i].text.clone());
            }
            i = i + 1;
        }
        None
    }
}

/// What an engine does out of the box: it confirms what cannot be undone, checks replies and
/// asks once more for one that was flagged, keeps what nothing grounds with a mark, and acts
/// and answers in separate calls; every limit lets something through, the core and the
/// relevant facts fit together, and turns are summed up before the memory of them is short.
pub proof fn what_an_engine_does_out_of_the_box()
    ensures
        ({
            let c = default_settings();
            &&& c.confirm_irreversible && c.reply_grounding_check && c.reply_regenerate && c.prune_inapplicable
            &&& !c.obligation_check && !c.chat_act_or_answer && !c.act_or_answer_every_tier && !c.act_and_answer
            &&& !c.archive_foreign_notes && !c.show_budget_line && !c.recall_hybrid
            &&& c.remember_residual == RememberResidual::Flag
            &&& c.pinned_prefixes == seq!["user."@]
            &&& c.pinned_max + c.relevant_max == c.facts_in_context
            &&& c.pinned_max == 5 && c.relevant_max == 5 && c.window_turns == 6 && c.max_iterations == 5
            &&& c.max_emit_retries == 3 && c.guidance_max == 6 && c.obligations_max == 5
            &&& c.summary_every_turns == 4 && c.summary_rebuild_every == 3 && c.summary_max_chars == 800
            &&& c.summary_input_max_chars == 6000 && c.recall_top_k == 5 && c.recall_sessions == 3
            &&& c.trace_verbatim_lines == 5 && c.tool_result_max_chars == 1200 && c.prompt_budget_tokens == 6000
            &&& c.exemplars_max == 0 && c.worker_slots == 1
            &&& c.idle_after_ms is None && c.learning_model is None && c.ablate is None && c.max_requests is None
            &&& c.persona.len() == 0 && c.templates.len() == 0
        }),
{
}

} // verus!
