//! Composing what the emitter is shown, and the manifest that records it.
//!
//! The manifest describes the prompt as sent: after the budget has dropped what
//! did not fit, and after an ablation has blanked what it holds out. Hence the
//! order: compose, fit, ablate, then describe.

use vstd::prelude::*;

use crate::contexts::{
    AnswerBlocks, AnswerBlocksV, EmitterContext, EmitterContextV, ShownFact, ShownFactV, ShownNote, ShownNoteV,
    ShownRecord, ShownRecordV, ShownSummary, ShownSummaryV,
};
use crate::events::{Ablate, ActionSpec, ActionSpecV, Event, EventV, Manifest, ManifestV};
use crate::text;
use crate::text::{chars_of, has};
use crate::trace;
use crate::trace::{clipped_results, trace_for_prompt};
use crate::turn::builtins;
use crate::turn::config::{EngineConfig, EngineConfigV};
use crate::turn::memory;
use crate::turn::memory::blank_manifest;
use crate::turn::run;
use crate::turn::run::offers_answer;
use crate::types::{clone_texts, EventId, Tier};

verus! {

// ---------------------------------------------------------------------------
// Composing
// ---------------------------------------------------------------------------

/// What one iteration knows when it writes the emitter's prompt. The facts, the
/// summary and the window are as they are rendered.
#[derive(Debug)]
pub struct Compose<'a> {
    pub events: &'a Vec<Event>,
    pub turn: u32,
    pub facts: Vec<ShownFact>,
    pub summary: Option<ShownSummary>,
    pub window: Vec<ShownRecord>,
    pub user_text: &'a str,
    pub obligations: Vec<String>,
    pub active_pending: bool,
    pub rejections: &'a Vec<String>,
    pub notes: &'a Vec<ShownNote>,
}

pub open spec fn note_texts(notes: Seq<ShownNoteV>) -> Seq<Seq<char>> {
    Seq::new(notes.len(), |i: int| notes[i].text)
}

pub open spec fn note_hashes(notes: Seq<ShownNoteV>) -> Seq<Seq<char>> {
    Seq::new(notes.len(), |i: int| notes[i].hash)
}

fn texts_of(notes: &Vec<ShownNote>) -> (r: Vec<String>)
    ensures
        r.deep_view() == note_texts(notes.deep_view()),
{
    let ghost all = notes.deep_view();
    let mut out: Vec<String> = Vec::new();
    let mut i: usize = 0;
    while i < notes.len()
        invariant
            i <= notes@.len(),
            all == notes.deep_view(),
            out@.len() == i,
            forall|k: int| 0 <= k < i ==> (#[trigger] out@[k])@ == note_texts(all)[k],
        decreases notes@.len() - i,
    {
        out.push(notes[i].text.clone());
        i = i + 1;
    }
    proof {
        assert(out.deep_view() =~= note_texts(all));
    }
    out
}

/// The hashes of the first `n` notes.
pub(crate) fn hashes_of(notes: &Vec<ShownNote>, n: usize) -> (r: Vec<String>)
    ensures
        r.deep_view() == crate::store::at_most(note_hashes(notes.deep_view()), n as nat),
{
    let ghost all = notes.deep_view();
    let mut out: Vec<String> = Vec::new();
    let mut i: usize = 0;
    while i < notes.len() && i < n
        invariant
            i <= notes@.len(),
            i <= n,
            all == notes.deep_view(),
            out@.len() == i,
            forall|k: int| 0 <= k < i ==> (#[trigger] out@[k])@ == note_hashes(all)[k],
        decreases notes@.len() - i,
    {
        out.push(notes[i].hash.clone());
        i = i + 1;
    }
    proof {
        assert(out.deep_view() =~= crate::store::at_most(note_hashes(all), n as nat));
    }
    out
}

/// The lines of a trace as a prompt carries them.
pub open spec fn prompt_trace(events: Seq<EventV>, turn: u32, cfg: EngineConfigV) -> Seq<Seq<char>> {
    trace::clipped_lines(
        trace::refolded(
            trace::entries(events, turn),
            cfg.trace_verbatim_lines as nat,
            cfg.tool_result_max_chars as nat,
        ),
        cfg.tool_result_max_chars as nat,
    )
}

/// How many characters of the trace the prompt leaves out.
pub open spec fn prompt_clipped(events: Seq<EventV>, turn: u32, cfg: EngineConfigV) -> nat {
    let es = trace::refolded(
        trace::entries(events, turn),
        cfg.trace_verbatim_lines as nat,
        cfg.tool_result_max_chars as nat,
    );
    trace::as_count(trace::dropped_chars(es, cfg.tool_result_max_chars as nat, es.len()))
}

/// The emitter's context before the budget is held against it.
pub open spec fn composed(c: Compose, cfg: EngineConfigV) -> EmitterContextV {
    EmitterContextV {
        facts: c.facts.deep_view(),
        summary: c.summary.deep_view(),
        window: c.window.deep_view(),
        user_text: c.user_text@,
        obligations: c.obligations.deep_view(),
        trace_so_far: prompt_trace(c.events.deep_view(), c.turn, cfg),
        pending_confirmation: c.active_pending,
        rejections_this_turn: c.rejections.deep_view(),
        guidance: note_texts(c.notes.deep_view()),
        budget_line: None,
        answer: None,
    }
}

/// Build the emitter's context; how many characters of the trace were left out.
pub fn compose_prompt(c: Compose, cfg: &EngineConfig) -> (r: (EmitterContext, usize))
    ensures
        r.0.deep_view() == composed(c, cfg.deep_view()),
        r.1 == prompt_clipped(c.events.deep_view(), c.turn, cfg.deep_view()),
{
    let (trace_so_far, clipped): (Vec<String>, usize) = trace_for_prompt(
        c.events,
        c.turn,
        cfg.trace_verbatim_lines,
        cfg.tool_result_max_chars,
    );
    let ctx: EmitterContext = EmitterContext {
        facts: c.facts,
        summary: c.summary,
        window: c.window,
        user_text: c.user_text.to_owned(),
        obligations: c.obligations,
        trace_so_far,
        pending_confirmation: c.active_pending,
        rejections_this_turn: clone_texts(c.rejections),
        guidance: texts_of(c.notes),
        budget_line: None,
        answer: None,
    };
    (ctx, clipped)
}

/// The handles of the results that are shown clipped.
pub fn clipped_handles(events: &Vec<Event>, turn: u32, cfg: &EngineConfig) -> (r: Vec<String>)
    ensures
        r.deep_view() == builtins::handles(
            trace::inspectable(events.deep_view(), turn, cfg.tool_result_max_chars as nat),
        ),
{
    let ids: Vec<EventId> = clipped_results(events, turn, cfg.tool_result_max_chars);
    crate::turn::builtins::handle_texts(&ids)
}

// ---------------------------------------------------------------------------
// Describing
// ---------------------------------------------------------------------------

/// A context without the block that is held out.
pub open spec fn ablated(ctx: EmitterContextV, what: Option<Ablate>) -> EmitterContextV {
    match what {
        Some(Ablate::Facts) => EmitterContextV { facts: seq![], ..ctx },
        Some(Ablate::Summary) => EmitterContextV { summary: None, ..ctx },
        Some(Ablate::Guidance) => EmitterContextV { guidance: seq![], ..ctx },
        None => ctx,
    }
}

pub fn ablate(ctx: &mut EmitterContext, what: Option<Ablate>)
    ensures
        final(ctx).deep_view() == ablated(old(ctx).deep_view(), what),
{
    match what {
        Some(Ablate::Facts) => {
            ctx.facts = Vec::new();
            proof {
                assert(ctx.facts.deep_view() =~= seq![]);
            }
        },
        Some(Ablate::Summary) => {
            ctx.summary = None;
        },
        Some(Ablate::Guidance) => {
            ctx.guidance = Vec::new();
            proof {
                assert(ctx.guidance.deep_view() =~= seq![]);
            }
        },
        None => {},
    }
}

/// Some line of the trace speaks of a recall.
pub open spec fn recall_traced(lines: Seq<Seq<char>>) -> bool {
    exists|i: int| 0 <= i < lines.len() && text::contains(#[trigger] lines[i], "recall"@)
}

fn traces_recall(lines: &Vec<String>) -> (r: bool)
    ensures
        r == recall_traced(lines.deep_view()),
{
    let ghost all = lines.deep_view();
    let mut i: usize = 0;
    while i < lines.len()
        invariant
            i <= lines@.len(),
            all == lines.deep_view(),
            forall|k: int| 0 <= k < i ==> !text::contains(#[trigger] all[k], "recall"@),
        decreases lines@.len() - i,
    {
        assert(all[i as int] == lines@[i as int]@);
        if has(lines[i].as_str(), "recall") {
            return true;
        }
        i = i + 1;
    }
    false
}

/// Nothing that the emitter is shown comes from memory.
pub open spec fn memory_is_silent(ctx: EmitterContextV) -> bool {
    ctx.facts.len() == 0 && ctx.summary is None && !recall_traced(ctx.trace_so_far)
}

pub open spec fn fact_keys(facts: Seq<ShownFactV>) -> Seq<Seq<char>> {
    Seq::new(facts.len(), |i: int| facts[i].key)
}

pub(crate) fn keys_of(facts: &Vec<ShownFact>) -> (r: Vec<String>)
    ensures
        r.deep_view() == fact_keys(facts.deep_view()),
{
    let ghost all = facts.deep_view();
    let mut out: Vec<String> = Vec::new();
    let mut i: usize = 0;
    while i < facts.len()
        invariant
            i <= facts@.len(),
            all == facts.deep_view(),
            out@.len() == i,
            forall|k: int| 0 <= k < i ==> (#[trigger] out@[k])@ == fact_keys(all)[k],
        decreases facts@.len() - i,
    {
        out.push(facts[i].key.clone());
        i = i + 1;
    }
    proof {
        assert(out.deep_view() =~= fact_keys(all));
    }
    out
}

pub open spec fn summary_turn(s: Option<ShownSummaryV>) -> Option<u32> {
    match s {
        Some(x) => Some(x.through_turn),
        None => None,
    }
}

/// First and last turn of the records that are shown.
pub open spec fn shown_range(window: Seq<ShownRecordV>) -> Option<(u32, u32)> {
    if window.len() == 0 {
        None
    } else {
        Some((window[0].turn, window.last().turn))
    }
}

pub(crate) fn range_of(window: &Vec<ShownRecord>) -> (r: Option<(u32, u32)>)
    ensures
        r == shown_range(window.deep_view()),
{
    let n: usize = window.len();
    if n == 0 {
        None
    } else {
        proof {
            assert(window.deep_view()[0] == window@[0].deep_view());
            assert(window.deep_view().last() == window@[n - 1].deep_view());
        }
        Some((window[0].turn, window[n - 1].turn))
    }
}

/// How many characters the lines have together.
pub open spec fn total_chars(lines: Seq<Seq<char>>) -> nat
    decreases lines.len(),
{
    if lines.len() == 0 {
        0
    } else {
        total_chars(lines.drop_last()) + lines.last().len()
    }
}

fn count_chars(lines: &Vec<String>) -> (r: usize)
    ensures
        r == trace::as_count(total_chars(lines.deep_view())),
{
    let ghost all = lines.deep_view();
    let mut n: usize = 0;
    let mut i: usize = 0;
    proof {
        assert(all.take(0) =~= seq![]);
    }
    while i < lines.len()
        invariant
            i <= lines@.len(),
            all == lines.deep_view(),
            n == trace::as_count(total_chars(all.take(i as int))),
        decreases lines@.len() - i,
    {
        proof {
            assert(all.take(i + 1).drop_last() =~= all.take(i as int));
            assert(all.take(i + 1).last() == lines@[i as int]@);
        }
        let k: usize = chars_of(lines[i].as_str()).len();
        n = if k <= usize::MAX - n { n + k } else { usize::MAX };
        i = i + 1;
    }
    proof {
        assert(all.take(all.len() as int) =~= all);
    }
    n
}

pub open spec fn spec_names(actions: Seq<ActionSpecV>) -> Seq<Seq<char>> {
    Seq::new(actions.len(), |i: int| actions[i].name)
}

/// The names of actions.
pub fn names_of(actions: &Vec<ActionSpec>) -> (r: Vec<String>)
    ensures
        r.deep_view() == spec_names(actions.deep_view()),
{
    let ghost all = actions.deep_view();
    let mut out: Vec<String> = Vec::new();
    let mut i: usize = 0;
    while i < actions.len()
        invariant
            i <= actions@.len(),
            all == actions.deep_view(),
            out@.len() == i,
            forall|k: int| 0 <= k < i ==> (#[trigger] out@[k])@ == spec_names(all)[k],
        decreases actions@.len() - i,
    {
        out.push(actions[i].name.clone());
        i = i + 1;
    }
    proof {
        assert(out.deep_view() =~= spec_names(all));
    }
    out
}

/// What the emitter was shown, in keys and counts.
pub open spec fn emitter_described(
    scope: Seq<char>,
    ctx: EmitterContextV,
    tool_names: Seq<Seq<char>>,
    clipped: usize,
    hashes: Seq<Seq<char>>,
) -> ManifestV {
    ManifestV {
        scope: Some(scope),
        fact_keys: fact_keys(ctx.facts),
        summary_through: summary_turn(ctx.summary),
        window: shown_range(ctx.window),
        trace_lines: ctx.trace_so_far.len() as usize,
        trace_chars: trace::as_count(total_chars(ctx.trace_so_far)) as usize,
        clipped_chars: clipped,
        tool_names,
        guidance: ctx.guidance.len() as usize,
        note_hashes: hashes,
        ..memory::empty_manifest()
    }
}

pub fn emitter_manifest(
    scope: &str,
    ctx: &EmitterContext,
    tool_names: Vec<String>,
    clipped_chars: usize,
    note_hashes: Vec<String>,
) -> (r: Manifest)
    ensures
        r.deep_view() == emitter_described(
            scope@,
            ctx.deep_view(),
            tool_names.deep_view(),
            clipped_chars,
            note_hashes.deep_view(),
        ),
{
    let mut m: Manifest = blank_manifest();
    m.scope = Some(scope.to_owned());
    m.fact_keys = keys_of(&ctx.facts);
    m.summary_through = match &ctx.summary {
        Some(s) => Some(s.through_turn),
        None => None,
    };
    m.window = range_of(&ctx.window);
    m.trace_lines = ctx.trace_so_far.len();
    m.trace_chars = count_chars(&ctx.trace_so_far);
    m.clipped_chars = clipped_chars;
    m.tool_names = tool_names;
    m.guidance = ctx.guidance.len();
    m.note_hashes = note_hashes;
    m
}

/// What describes the prompt beside the context itself.
#[derive(Debug)]
pub struct Circumstances<'a> {
    pub scope: &'a str,
    pub tier: Tier,
    /// Whether a router decided the tier.
    pub routed: bool,
    pub cues: &'a Vec<String>,
    pub actions: &'a Vec<ActionSpec>,
    pub notes: &'a Vec<ShownNote>,
    pub reply_guidance: &'a Vec<String>,
    pub clipped_chars: usize,
    /// What the budget dropped, or would have.
    pub budget: &'a Vec<String>,
    /// The budget in words, for a deployment that shows it.
    pub budget_line: &'a str,
}

/// The context as it is sent, once the budget was held against it.
pub open spec fn as_sent(fitted: EmitterContextV, cfg: EngineConfigV, w: Circumstances) -> EmitterContextV {
    let lined = if cfg.show_budget_line {
        EmitterContextV { budget_line: Some(w.budget_line@), ..fitted }
    } else {
        fitted
    };
    let cut = ablated(lined, cfg.ablate);
    if run::may_answer(cfg, w.tier) {
        EmitterContextV {
            answer: Some(
                AnswerBlocksV {
                    persona: cfg.persona,
                    reply_guidance: w.reply_guidance.deep_view(),
                    memory_silent: memory_is_silent(cut),
                    with_action: cfg.act_and_answer,
                },
            ),
            ..cut
        }
    } else {
        cut
    }
}

/// The manifest of a context as it is sent.
pub open spec fn sent_manifest(ctx: EmitterContextV, cfg: EngineConfigV, w: Circumstances) -> ManifestV {
    ManifestV {
        budget: Some(w.budget.deep_view()),
        ablated: cfg.ablate,
        tier: if w.routed {
            Some(w.tier)
        } else {
            None
        },
        route_cues: w.cues.deep_view(),
        ..emitter_described(
            w.scope@,
            ctx,
            spec_names(w.actions.deep_view()),
            w.clipped_chars,
            crate::store::at_most(note_hashes(w.notes.deep_view()), ctx.guidance.len()),
        )
    }
}

/// A composed prompt: what is sent, what describes it, and whether the call may
/// answer instead of acting.
#[derive(Debug)]
pub struct Prompt {
    pub ctx: EmitterContext,
    pub manifest: Manifest,
    pub offered_answer: bool,
}

/// Finish a prompt whose context the budget was held against.
pub fn finish_prompt(fitted: EmitterContext, cfg: &EngineConfig, w: &Circumstances) -> (r: Prompt)
    ensures
        r.ctx.deep_view() == as_sent(fitted.deep_view(), cfg.deep_view(), *w),
        r.manifest.deep_view() == sent_manifest(r.ctx.deep_view(), cfg.deep_view(), *w),
        r.offered_answer == run::may_answer(cfg.deep_view(), w.tier),
{
    let mut ctx: EmitterContext = fitted;
    if cfg.show_budget_line {
        ctx.budget_line = Some(w.budget_line.to_owned());
    }
    ablate(&mut ctx, cfg.ablate);
    let offered: bool = offers_answer(cfg, w.tier);
    if offered {
        let silent: bool = ctx.facts.len() == 0 && ctx.summary.is_none() && !traces_recall(&ctx.trace_so_far);
        ctx.answer = Some(
            AnswerBlocks {
                persona: cfg.persona.clone(),
                reply_guidance: clone_texts(w.reply_guidance),
                memory_silent: silent,
                with_action: cfg.act_and_answer,
            },
        );
    }
    let hashes: Vec<String> = hashes_of(w.notes, ctx.guidance.len());
    let mut manifest: Manifest = emitter_manifest(w.scope, &ctx, names_of(w.actions), w.clipped_chars, hashes);
    manifest.budget = Some(clone_texts(w.budget));
    manifest.ablated = cfg.ablate;
    manifest.tier = if w.routed { Some(w.tier) } else { None };
    manifest.route_cues = clone_texts(w.cues);
    Prompt { ctx, manifest, offered_answer: offered }
}

// ---------------------------------------------------------------------------
// Laws
// ---------------------------------------------------------------------------

/// What is recorded of the notes is what was sent: one hash for each, where the
/// budget cut the list from behind or not at all.
pub proof fn every_note_sent_is_named(ctx: EmitterContextV, cfg: EngineConfigV, w: Circumstances)
    requires
        ctx.guidance.len() <= w.notes.deep_view().len(),
        ctx.guidance.len() <= usize::MAX,
    ensures
        sent_manifest(ctx, cfg, w).note_hashes.len() == sent_manifest(ctx, cfg, w).guidance,
        sent_manifest(ctx, cfg, w).note_hashes.len() == ctx.guidance.len(),
        forall|i: int|
            0 <= i < ctx.guidance.len() ==> #[trigger] sent_manifest(ctx, cfg, w).note_hashes[i]
                == w.notes.deep_view()[i].hash,
{
}

/// A block that is held out is neither sent nor recorded.
pub proof fn what_is_held_out_is_not_sent(fitted: EmitterContextV, cfg: EngineConfigV, w: Circumstances)
    ensures
        cfg.ablate == Some(Ablate::Facts) ==> as_sent(fitted, cfg, w).facts.len() == 0 && sent_manifest(
            as_sent(fitted, cfg, w),
            cfg,
            w,
        ).fact_keys.len() == 0,
        cfg.ablate == Some(Ablate::Summary) ==> as_sent(fitted, cfg, w).summary is None && sent_manifest(
            as_sent(fitted, cfg, w),
            cfg,
            w,
        ).summary_through is None,
        cfg.ablate == Some(Ablate::Guidance) ==> as_sent(fitted, cfg, w).guidance.len() == 0 && sent_manifest(
            as_sent(fitted, cfg, w),
            cfg,
            w,
        ).note_hashes.len() == 0,
{
}

/// What the emitter is shown is what the iteration knows, each block as it is.
pub proof fn what_the_emitter_is_shown(c: Compose, cfg: EngineConfigV)
    ensures
        ({
            let ctx = composed(c, cfg);
            let notes = c.notes.deep_view();
            &&& ctx.facts == c.facts.deep_view() && ctx.summary == c.summary.deep_view() && ctx.window
                == c.window.deep_view() && ctx.obligations == c.obligations.deep_view()
            &&& ctx.user_text == c.user_text@ && ctx.pending_confirmation == c.active_pending
            &&& ctx.rejections_this_turn == c.rejections.deep_view()
            &&& ctx.guidance.len() == notes.len()
            &&& forall|i: int| 0 <= i < notes.len() ==> #[trigger] ctx.guidance[i] == notes[i].text
            &&& ctx.budget_line is None && ctx.answer is None
        }),
{
}

/// The trace in a prompt has a line for each entry that the fold leaves, clipped to the cap.
pub proof fn the_trace_in_a_prompt(events: Seq<EventV>, turn: u32, cfg: EngineConfigV)
    ensures
        ({
            let max = cfg.tool_result_max_chars as nat;
            let es = trace::refolded(trace::entries(events, turn), cfg.trace_verbatim_lines as nat, max);
            let lines = prompt_trace(events, turn, cfg);
            &&& lines.len() == es.len()
            &&& forall|i: int| 0 <= i < es.len() ==> #[trigger] lines[i] == trace::clip(es[i].line, max, es[i].handle)
            &&& (forall|i: int| 0 <= i < es.len() ==> (#[trigger] es[i]).line.len() <= max) ==> prompt_clipped(
                events,
                turn,
                cfg,
            ) == 0
        }),
{
    let max = cfg.tool_result_max_chars as nat;
    let es = trace::refolded(trace::entries(events, turn), cfg.trace_verbatim_lines as nat, max);
    if forall|i: int| 0 <= i < es.len() ==> (#[trigger] es[i]).line.len() <= max {
        trace::lemma_none_dropped(es, max, es.len());
    }
}

/// What is sent is what was fitted, without the block that is held out, with the budget in
/// words where that is shown, and with what an answer needs where one may come. Memory is
/// silent exactly where no fact, no summary and no line on a recall is sent.
pub proof fn what_is_sent(fitted: EmitterContextV, cfg: EngineConfigV, w: Circumstances)
    ensures
        ({
            let sent = as_sent(fitted, cfg, w);
            let may = cfg.chat_act_or_answer && (cfg.act_or_answer_every_tier || w.tier == Tier::Chat);
            let recalled = exists|i: int|
                0 <= i < sent.trace_so_far.len() && text::contains(#[trigger] sent.trace_so_far[i], "recall"@);
            &&& sent.window == fitted.window && sent.user_text == fitted.user_text && sent.obligations
                == fitted.obligations && sent.trace_so_far == fitted.trace_so_far && sent.pending_confirmation
                == fitted.pending_confirmation && sent.rejections_this_turn == fitted.rejections_this_turn
            &&& cfg.ablate != Some(Ablate::Facts) ==> sent.facts == fitted.facts
            &&& cfg.ablate != Some(Ablate::Summary) ==> sent.summary == fitted.summary
            &&& cfg.ablate != Some(Ablate::Guidance) ==> sent.guidance == fitted.guidance
            &&& cfg.ablate == Some(Ablate::Facts) ==> sent.facts.len() == 0
            &&& cfg.ablate == Some(Ablate::Summary) ==> sent.summary is None
            &&& cfg.ablate == Some(Ablate::Guidance) ==> sent.guidance.len() == 0
            &&& cfg.show_budget_line ==> sent.budget_line == Some(w.budget_line@)
            &&& !cfg.show_budget_line ==> sent.budget_line == fitted.budget_line
            &&& !may ==> sent.answer == fitted.answer
            &&& may ==> (sent.answer matches Some(a) && a.persona == cfg.persona && a.reply_guidance
                == w.reply_guidance.deep_view() && a.with_action == cfg.act_and_answer && (a.memory_silent <==> sent.facts.len()
                == 0 && sent.summary is None && !recalled))
        }),
{
}

/// What was sent is recorded, by keys, turns, names and counts.
pub proof fn what_was_sent_is_recorded(ctx: EmitterContextV, cfg: EngineConfigV, w: Circumstances)
    requires
        ctx.guidance.len() <= usize::MAX,
        ctx.trace_so_far.len() <= usize::MAX,
    ensures
        ({
            let m = sent_manifest(ctx, cfg, w);
            let actions = w.actions.deep_view();
            &&& m.scope == Some(w.scope@) && m.clipped_chars == w.clipped_chars && m.budget == Some(w.budget.deep_view())
            &&& m.ablated == cfg.ablate && m.route_cues == w.cues.deep_view()
            &&& w.routed ==> m.tier == Some(w.tier)
            &&& !w.routed ==> m.tier is None
            &&& m.fact_keys.len() == ctx.facts.len()
            &&& forall|i: int| 0 <= i < ctx.facts.len() ==> #[trigger] m.fact_keys[i] == ctx.facts[i].key
            &&& m.summary_through is Some <==> ctx.summary is Some
            &&& ctx.summary matches Some(s) ==> m.summary_through == Some(s.through_turn)
            &&& ctx.window.len() == 0 ==> m.window is None
            &&& ctx.window.len() > 0 ==> m.window == Some((ctx.window[0].turn, ctx.window[ctx.window.len() - 1].turn))
            &&& m.trace_lines == ctx.trace_so_far.len() && m.guidance == ctx.guidance.len()
            &&& m.tool_names.len() == actions.len()
            &&& forall|i: int| 0 <= i < actions.len() ==> #[trigger] m.tool_names[i] == actions[i].name
        }),
{
}

/// The characters of a trace are those of its lines, summed.
pub proof fn the_characters_of_lines_are_summed(lines: Seq<Seq<char>>, line: Seq<char>)
    ensures
        total_chars(seq![]) == 0,
        total_chars(lines.push(line)) == total_chars(lines) + line.len(),
{
    assert(lines.push(line).drop_last() =~= lines);
}

} // verus!
