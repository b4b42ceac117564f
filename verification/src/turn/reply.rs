//! Writing the sentence that the user reads.
//!
//! The loop decides that the turn is over. Here the reply is drafted from what
//! happened, held against what the model was shown, asked for once more where a
//! check says so, and recorded with what it drew on.

use vstd::prelude::*;

use crate::contexts::{ReplyContext, ReplyContextV, ShownFact, ShownNote, ShownNoteV, ShownRecord, ShownSummary};
use crate::echo;
use crate::echo::{copied_span, word_count};
use crate::events::{Ablate, EventKind, EventKindV, Manifest, ManifestV};
use crate::ground;
use crate::ground::{cited, echo_material, unaddressed, ungrounded, Material};
use crate::store;
use crate::text;
use crate::text::{cat2, cat4, chars_of, join};
use crate::trace;
use crate::trace::trace_for_prompt;
use crate::turn::accounting;
use crate::turn::config::{EngineConfig, EngineConfigV};
use crate::turn::diagnostics;
use crate::turn::diagnostics::explain_error;
use crate::turn::memory;
use crate::turn::memory::blank_manifest;
use crate::turn::progress;
use crate::turn::progress::{Turn, TurnV};
use crate::turn::prompt;
use crate::turn::prompt::{hashes_of, keys_of, range_of};
use crate::turn::specs::FALLBACK_REPLY;
use crate::types::{clone_texts, Timestamp};
use crate::unicode;

verus! {

// ---------------------------------------------------------------------------
// The context
// ---------------------------------------------------------------------------

/// What the turn hands the replier, as it is rendered.
#[derive(Debug)]
pub struct Draft {
    pub facts: Vec<ShownFact>,
    pub summary: Option<ShownSummary>,
    pub window: Vec<ShownRecord>,
    pub obligations: Vec<String>,
    pub notes: Vec<ShownNote>,
}

/// The trace of the turn as the replier reads it.
pub open spec fn reply_trace(t: TurnV, cfg: EngineConfigV) -> Seq<char> {
    text::joined(prompt::prompt_trace(t.log, t.turn, cfg), "\n"@)
}

/// The notes with the engine's own after them; a note of the engine's own has no
/// hash, since no rule stands behind it.
pub open spec fn with_own_notes(notes: Seq<ShownNoteV>, own: Seq<Seq<char>>) -> Seq<ShownNoteV> {
    notes + Seq::new(own.len(), |i: int| ShownNoteV { hash: seq![], text: own[i] })
}

/// The reply context of a turn: `do_not_state` names claims that the reply must
/// not repeat, `own` adds notes.
pub open spec fn reply_ctx(
    t: TurnV,
    cfg: EngineConfigV,
    trace: Seq<char>,
    d: Draft,
    do_not_state: Seq<Seq<char>>,
    own: Seq<Seq<char>>,
) -> ReplyContextV {
    ReplyContextV {
        persona: cfg.persona,
        facts: d.facts.deep_view(),
        summary: d.summary.deep_view(),
        window: d.window.deep_view(),
        user_text: t.user_text,
        obligations: d.obligations.deep_view(),
        turn_trace: trace,
        guidance: with_own_notes(d.notes.deep_view(), own),
        do_not_state,
        do_not_repeat: seq![],
    }
}

fn add_own(notes: &Vec<ShownNote>, own: &Vec<String>) -> (r: Vec<ShownNote>)
    ensures
        r.deep_view() == with_own_notes(notes.deep_view(), own.deep_view()),
{
    let ghost nv = notes.deep_view();
    let ghost ov = own.deep_view();
    let mut out: Vec<ShownNote> = notes.clone();
    proof {
        assert(out.deep_view() =~= nv);
    }
    let mut i: usize = 0;
    while i < own.len()
        invariant
            i <= own@.len(),
            ov == own.deep_view(),
            out@.len() == nv.len() + i,
            forall|k: int| 0 <= k < nv.len() + i ==> (#[trigger] out@[k]).deep_view() == with_own_notes(nv, ov)[k],
        decreases own@.len() - i,
    {
        let note: ShownNote = ShownNote { hash: String::new(), text: own[i].clone() };
        proof {
            assert(note.hash@ =~= seq![]);
            assert(with_own_notes(nv, ov)[nv.len() + i] == note.deep_view());
        }
        out.push(note);
        i = i + 1;
    }
    proof {
        assert(out.deep_view() =~= with_own_notes(nv, ov));
    }
    out
}

impl Turn {
    /// The trace for the reply, and how many characters of it were left out.
    pub fn trace_for_reply(&self, cfg: &EngineConfig) -> (r: (String, usize))
        ensures
            r.0@ == reply_trace(self.deep_view(), cfg.deep_view()),
            r.1 == prompt::prompt_clipped(self.deep_view().log, self.turn, cfg.deep_view()),
    {
        let (lines, clipped): (Vec<String>, usize) = trace_for_prompt(
            &self.log.events,
            self.turn,
            cfg.trace_verbatim_lines,
            cfg.tool_result_max_chars,
        );
        (join(&lines, "\n"), clipped)
    }

    /// Build a reply context.
    pub fn reply_context(
        &self,
        cfg: &EngineConfig,
        trace: &str,
        d: &Draft,
        do_not_state: Vec<String>,
        own: &Vec<String>,
    ) -> (r: ReplyContext)
        ensures
            r.deep_view() == reply_ctx(
                self.deep_view(),
                cfg.deep_view(),
                trace@,
                *d,
                do_not_state.deep_view(),
                own.deep_view(),
            ),
    {
        let summary: Option<ShownSummary> = d.summary.clone();
        let facts: Vec<ShownFact> = d.facts.clone();
        let window: Vec<ShownRecord> = d.window.clone();
        let none: Vec<String> = Vec::new();
        proof {
            assert(summary.deep_view() =~= d.summary.deep_view());
            assert(facts.deep_view() =~= d.facts.deep_view());
            assert(window.deep_view() =~= d.window.deep_view());
            assert(none.deep_view() =~= seq![]);
        }
        ReplyContext {
            persona: cfg.persona.clone(),
            facts,
            summary,
            window,
            user_text: self.user_text.clone(),
            obligations: clone_texts(&d.obligations),
            turn_trace: trace.to_owned(),
            guidance: add_own(&d.notes, own),
            do_not_state,
            do_not_repeat: none,
        }
    }
}

/// A reply context without the block that is held out.
pub open spec fn reply_ablated(ctx: ReplyContextV, what: Option<Ablate>) -> ReplyContextV {
    match what {
        Some(Ablate::Facts) => ReplyContextV { facts: seq![], ..ctx },
        Some(Ablate::Summary) => ReplyContextV { summary: None, ..ctx },
        Some(Ablate::Guidance) => ReplyContextV { guidance: seq![], ..ctx },
        None => ctx,
    }
}

pub fn ablate_reply(ctx: &mut ReplyContext, what: Option<Ablate>)
    ensures
        final(ctx).deep_view() == reply_ablated(old(ctx).deep_view(), what),
{
    match what {
        Some(Ablate::Facts) => {
            ctx.facts = Vec::new();
            proof {
                assert(ctx.facts.deep_view() =~= seq![]);
            }
        },
        Some(Ablate::Summary) => {
            ctx.summary = None;
        },
        Some(Ablate::Guidance) => {
            ctx.guidance = Vec::new();
            proof {
                assert(ctx.guidance.deep_view() =~= seq![]);
            }
        },
        None => {},
    }
}

/// How many line ends stand in a text.
pub open spec fn line_ends(s: Seq<char>) -> nat
    decreases s.len(),
{
    if s.len() == 0 {
        0
    } else {
        line_ends(s.drop_last()) + if s.last() == '\n' {
            1nat
        } else {
            0nat
        }
    }
}

/// How many lines a text has; a line end at its end begins no new one.
pub open spec fn line_count(s: Seq<char>) -> nat {
    if s.len() == 0 {
        0
    } else if s.last() == '\n' {
        line_ends(s)
    } else {
        line_ends(s) + 1
    }
}

fn count_lines(s: &str) -> (r: (usize, usize))
    ensures
        r.0 == line_count(s@),
        r.1 == s@.len(),
{
    let cs: Vec<char> = chars_of(s);
    let n: usize = cs.len();
    let mut ends: usize = 0;
    let mut i: usize = 0;
    proof {
        assert(s@.take(0) =~= seq![]);
    }
    while i < cs.len()
        invariant
            i <= cs@.len(),
            cs@ == s@,
            n == cs@.len(),
            ends <= i,
            ends == line_ends(s@.take(i as int)),
            i > 0 && s@[i - 1] != '\n' ==> ends < i,
        decreases cs@.len() - i,
    {
        proof {
            assert(s@.take(i + 1).drop_last() =~= s@.take(i as int));
            assert(s@.take(i + 1).last() == s@[i as int]);
        }
        if cs[i] == '\n' {
            ends = ends + 1;
        }
        i = i + 1;
    }
    proof {
        assert(s@.take(s@.len() as int) =~= s@);
    }
    if n == 0 {
        (0, 0)
    } else if cs[n - 1] == '\n' {
        (ends, n)
    } else {
        (ends + 1, n)
    }
}

/// What the replier was shown, in keys and counts; it is offered no action.
pub open spec fn reply_described(
    scope: Seq<char>,
    ctx: ReplyContextV,
    clipped: usize,
    hashes: Seq<Seq<char>>,
) -> ManifestV {
    ManifestV {
        scope: Some(scope),
        fact_keys: prompt::fact_keys(ctx.facts),
        summary_through: prompt::summary_turn(ctx.summary),
        window: prompt::shown_range(ctx.window),
        trace_lines: line_count(ctx.turn_trace) as usize,
        trace_chars: ctx.turn_trace.len() as usize,
        clipped_chars: clipped,
        guidance: ctx.guidance.len() as usize,
        note_hashes: hashes,
        ..memory::empty_manifest()
    }
}

pub fn reply_manifest(scope: &str, ctx: &ReplyContext, clipped_chars: usize, note_hashes: Vec<String>) -> (r: Manifest)
    ensures
        r.deep_view() == reply_described(scope@, ctx.deep_view(), clipped_chars, note_hashes.deep_view()),
{
    let (lines, chars): (usize, usize) = count_lines(ctx.turn_trace.as_str());
    let mut m: Manifest = blank_manifest();
    m.scope = Some(scope.to_owned());
    m.fact_keys = keys_of(&ctx.facts);
    m.summary_through = match &ctx.summary {
        Some(s) => Some(s.through_turn),
        None => None,
    };
    m.window = range_of(&ctx.window);
    m.trace_lines = lines;
    m.trace_chars = chars;
    m.clipped_chars = clipped_chars;
    m.guidance = ctx.guidance.len();
    m.note_hashes = note_hashes;
    m
}

/// The manifest of a reply call as it is sent.
pub open spec fn reply_sent(
    scope: Seq<char>,
    ctx: ReplyContextV,
    cfg: EngineConfigV,
    notes: Seq<ShownNoteV>,
    clipped: usize,
    budget: Seq<Seq<char>>,
) -> ManifestV {
    ManifestV {
        budget: Some(budget),
        ablated: cfg.ablate,
        ..reply_described(
            scope,
            ctx,
            clipped,
            store::at_most(prompt::note_hashes(notes), ctx.guidance.len()),
        )
    }
}

/// Finish a reply context that the budget was held against; what describes it.
pub fn finish_reply_prompt(
    fitted: ReplyContext,
    cfg: &EngineConfig,
    scope: &str,
    notes: &Vec<ShownNote>,
    clipped_chars: usize,
    budget: &Vec<String>,
) -> (r: (ReplyContext, Manifest))
    ensures
        r.0.deep_view() == reply_ablated(fitted.deep_view(), cfg.deep_view().ablate),
        r.1.deep_view() == reply_sent(
            scope@,
            r.0.deep_view(),
            cfg.deep_view(),
            notes.deep_view(),
            clipped_chars,
            budget.deep_view(),
        ),
{
    let mut ctx: ReplyContext = fitted;
    ablate_reply(&mut ctx, cfg.ablate);
    let hashes: Vec<String> = hashes_of(notes, ctx.guidance.len());
    let mut m: Manifest = reply_manifest(scope, &ctx, clipped_chars, hashes);
    m.budget = Some(clone_texts(budget));
    m.ablated = cfg.ablate;
    (ctx, m)
}

// ---------------------------------------------------------------------------
// The checks
// ---------------------------------------------------------------------------

/// A stretch that a draft copies from its prompt.
#[derive(Debug)]
pub struct Echo {
    pub span: String,
    /// How many words it has.
    pub copied: usize,
    /// How many words the draft has.
    pub words: usize,
}

pub struct EchoV {
    pub span: Seq<char>,
    pub copied: usize,
    pub words: usize,
}

impl DeepView for Echo {
    type V = EchoV;

    open spec fn deep_view(&self) -> EchoV {
        EchoV {
            span: self.span.deep_view(),
            copied: self.copied,
            words: self.words,
        }
    }
}

impl Clone for Echo {
    fn clone(&self) -> (r: Self)
        ensures
            r.deep_view() == self.deep_view(),
    {
        let r: Echo = Echo {
            span: self.span.clone(),
            copied: self.copied,
            words: self.words,
        };
        r
    }
}

/// The longest stretch that a draft copies from its prompt, where it is long
/// enough to be a copy.
pub open spec fn echo_in(ctx: ReplyContextV, draft: Seq<char>) -> Option<EchoV> {
    let material = text::joined(ground::part_texts(ground::parts_of(ctx)), "\n"@);
    match echo::copy_in(draft, material) {
        Some(c) => Some(
            EchoV { span: c.1, copied: c.0 as usize, words: echo::folded_words(draft).len() as usize },
        ),
        None => None,
    }
}

pub fn echo_of(ctx: &ReplyContext, draft: &str) -> (r: Option<Echo>)
    ensures
        r.deep_view() == echo_in(ctx.deep_view(), draft@),
{
    let material: String = echo_material(ctx);
    match copied_span(draft, material.as_str()) {
        Some((copied, span)) => Some(Echo { span, copied, words: word_count(draft) }),
        None => None,
    }
}

/// The claims of a draft that nothing it was shown supports.
pub open spec fn unsupported_in(ctx: ReplyContextV, draft: Seq<char>) -> Seq<Seq<char>> {
    ground::unsupported(
        ground::claims_of(draft),
        ground::material_of(ground::part_texts(ground::parts_of(ctx)).push(ctx.user_text)),
    )
}

/// The turn after a draft was held against what the model was shown.
pub open spec fn flags(t: TurnV, draft: Seq<char>, spans: Seq<Seq<char>>, at: Timestamp) -> TurnV {
    if spans.len() > 0 {
        progress::logged(t, at, EventKindV::ReplyFlagged { draft, spans })
    } else {
        t
    }
}

/// The turn after it is recorded what a reply drew on; nothing is recorded where
/// it drew on nothing.
pub open spec fn cites(t: TurnV, ctx: ReplyContextV, reply: Seq<char>, at: Timestamp) -> TurnV {
    let sources = ground::citations(ctx, reply, ground::parts_of(ctx));
    if sources.len() > 0 {
        progress::logged(t, at, EventKindV::ReplyCited { sources })
    } else {
        t
    }
}

impl Turn {
    /// Record that a draft copies its prompt. It is measured, never acted on.
    pub fn note_echo(&mut self, draft: &str, e: Echo, at: Timestamp)
        requires
            accounting::room(old(self).deep_view().log, 1),
        ensures
            final(self).deep_view() == progress::logged(
                old(self).deep_view(),
                at,
                EventKindV::ReplyEchoed { draft: draft@, span: e.span@, copied: e.copied, words: e.words },
            ),
    {
        self.record(
            at,
            EventKind::ReplyEchoed { draft: draft.to_owned(), span: e.span, copied: e.copied, words: e.words },
        );
    }

    /// Hold a draft against what the model was shown; the claims that nothing
    /// supports.
    pub fn flag(&mut self, ctx: &ReplyContext, draft: &str, at: Timestamp) -> (spans: Vec<String>)
        requires
            accounting::room(old(self).deep_view().log, 1),
        ensures
            spans.deep_view() == unsupported_in(ctx.deep_view(), draft@),
            final(self).deep_view() == flags(old(self).deep_view(), draft@, spans.deep_view(), at),
    {
        let material: Material = Material::from_context(ctx);
        let spans: Vec<String> = ungrounded(draft, &material);
        if spans.len() > 0 {
            self.record(at, EventKind::ReplyFlagged { draft: draft.to_owned(), spans: clone_texts(&spans) });
        }
        spans
    }

    /// Record which parts of its prompt the final reply drew on.
    pub fn record_cited(&mut self, ctx: &ReplyContext, reply: &str, at: Timestamp)
        requires
            accounting::room(old(self).deep_view().log, 1),
        ensures
            final(self).deep_view() == cites(old(self).deep_view(), ctx.deep_view(), reply@, at),
    {
        let sources: Vec<String> = cited(ctx, reply);
        if sources.len() > 0 {
            self.record(at, EventKind::ReplyCited { sources });
        }
    }
}

/// Whether a reply is asked for once more, and with what.
#[derive(Debug)]
pub enum Redraft {
    Stands,
    WithoutClaims { spans: Vec<String> },
    WithNote { note: String },
}

pub enum RedraftV {
    Stands,
    WithoutClaims { spans: Seq<Seq<char>> },
    WithNote { note: Seq<char> },
}

impl DeepView for Redraft {
    type V = RedraftV;

    open spec fn deep_view(&self) -> RedraftV {
        match self {
            Redraft::Stands => RedraftV::Stands,
            Redraft::WithoutClaims { spans } => RedraftV::WithoutClaims { spans: spans.deep_view() },
            Redraft::WithNote { note } => RedraftV::WithNote { note: note.deep_view() },
        }
    }
}

impl Clone for Redraft {
    fn clone(&self) -> (r: Self)
        ensures
            r.deep_view() == self.deep_view(),
    {
        match self {
            Redraft::Stands => Redraft::Stands,
            Redraft::WithoutClaims { spans } => Redraft::WithoutClaims { spans: clone_texts(spans) },
            Redraft::WithNote { note } => Redraft::WithNote { note: note.clone() },
        }
    }
}

/// Whether a draft is asked for once more: without the claims that nothing
/// supports, or with the question that it leaves open. One call is all a turn
/// spends on it, and unsupported claims come first.
pub open spec fn redrafted(
    cfg: EngineConfigV,
    spans: Seq<Seq<char>>,
    obligations: Seq<Seq<char>>,
    addressed: Seq<bool>,
) -> RedraftV {
    if !cfg.reply_grounding_check {
        RedraftV::Stands
    } else if spans.len() > 0 && cfg.reply_regenerate {
        RedraftV::WithoutClaims { spans }
    } else if cfg.obligation_check {
        match ground::first_unaddressed(obligations, addressed) {
            Some(clause) => RedraftV::WithNote { note: "Not yet addressed: "@ + clause },
            None => RedraftV::Stands,
        }
    } else {
        RedraftV::Stands
    }
}

/// Decide whether a draft is asked for once more. `addressed` says of each
/// obligation whether the draft addresses its clause.
pub fn redraft(cfg: &EngineConfig, spans: Vec<String>, obligations: &Vec<String>, addressed: &Vec<bool>) -> (r: Redraft)
    requires
        addressed@.len() == obligations@.len(),
    ensures
        r.deep_view() == redrafted(cfg.deep_view(), spans.deep_view(), obligations.deep_view(), addressed@),
{
    if !cfg.reply_grounding_check {
        return Redraft::Stands;
    }
    if spans.len() > 0 && cfg.reply_regenerate {
        return Redraft::WithoutClaims { spans };
    }
    if cfg.obligation_check {
        if let Some(clause) = unaddressed(obligations, addressed) {
            return Redraft::WithNote { note: cat2("Not yet addressed: ", clause.as_str()) };
        }
    }
    Redraft::Stands
}

/// The reply after it was asked for once more: what came, or the draft where
/// nothing came.
pub fn final_reply(draft: String, second: Option<String>) -> (r: String)
    ensures
        r@ == (match second {
            Some(s) => s@,
            None => draft@,
        }),
{
    match second {
        Some(s) => s,
        None => draft,
    }
}

/// What the user reads when no reply could be written.
pub open spec fn no_reply(detail: Seq<char>) -> Seq<char> {
    FALLBACK_REPLY@ + " Reason: the reply could not be generated — "@ + diagnostics::explained(detail) + "."@
}

impl Turn {
    /// Record that the replier failed; what the user reads instead.
    pub fn reply_failed(&mut self, detail: &str, at: Timestamp) -> (r: String)
        requires
            accounting::room(old(self).deep_view().log, 1),
        ensures
            final(self).deep_view() == progress::logged(
                old(self).deep_view(),
                at,
                EventKindV::ReplyFailed { detail: detail@ },
            ),
            r@ == no_reply(detail@),
    {
        self.record(at, EventKind::ReplyFailed { detail: detail.to_owned() });
        let cause: String = explain_error(detail);
        cat4(FALLBACK_REPLY, " Reason: the reply could not be generated — ", cause.as_str(), ".")
    }
}

// ---------------------------------------------------------------------------
// Laws
// ---------------------------------------------------------------------------

/// A reply is flagged exactly where it states something that nothing it was
/// shown supports, and the flag names nothing that is supported.
pub proof fn flags_name_only_what_is_unsupported(t: TurnV, ctx: ReplyContextV, draft: Seq<char>, at: Timestamp)
    ensures
        flags(t, draft, unsupported_in(ctx, draft), at) == t <==> unsupported_in(ctx, draft).len() == 0,
        forall|c: Seq<char>| #[trigger]
            unsupported_in(ctx, draft).contains(c) ==> ground::claims_of(draft).contains(c) && !ground::supports(
                ground::material_of(ground::part_texts(ground::parts_of(ctx)).push(ctx.user_text)),
                c,
            ),
{
    let material = ground::material_of(ground::part_texts(ground::parts_of(ctx)).push(ctx.user_text));
    assert forall|c: Seq<char>| #[trigger] unsupported_in(ctx, draft).contains(c) implies ground::claims_of(
        draft,
    ).contains(c) && !ground::supports(material, c) by {
        ground::flagged_is_unsupported(ground::claims_of(draft), material, c);
    }
    let u = flags(t, draft, unsupported_in(ctx, draft), at);
    if unsupported_in(ctx, draft).len() > 0 {
        assert(u.log.len() == t.log.len() + 1);
    }
}

/// What the user said and what stands in any block of the prompt, a replaced value
/// included, is never flagged.
pub proof fn what_was_shown_is_not_flagged(ctx: ReplyContextV, draft: Seq<char>, i: int, claim: Seq<char>)
    requires
        0 <= i < ground::parts_of(ctx).len() + 1,
        claim.len() > 0,
        text::contains(
            unicode::lowered(ground::part_texts(ground::parts_of(ctx)).push(ctx.user_text)[i]),
            unicode::lowered(claim),
        ),
    ensures
        !unsupported_in(ctx, draft).contains(claim),
{
    let parts = ground::part_texts(ground::parts_of(ctx)).push(ctx.user_text);
    ground::what_was_shown_is_supported(parts, i, claim);
    ground::flagged_is_unsupported(ground::claims_of(draft), ground::material_of(parts), claim);
}

/// With the check off a draft always stands, and with regeneration and the check
/// of obligations off as well.
pub proof fn a_draft_stands_where_nothing_may_ask_again(
    cfg: EngineConfigV,
    spans: Seq<Seq<char>>,
    obligations: Seq<Seq<char>>,
    addressed: Seq<bool>,
)
    requires
        !cfg.reply_grounding_check || (!cfg.reply_regenerate && !cfg.obligation_check),
    ensures
        redrafted(cfg, spans, obligations, addressed) is Stands,
{
}

/// What the replier is shown is what the turn holds: the persona, the message, what is
/// rendered of memory, the trace, the notes with the engine's own behind, and what it must
/// not state.
pub proof fn what_the_replier_is_shown(
    t: TurnV,
    cfg: EngineConfigV,
    trace: Seq<char>,
    d: Draft,
    do_not_state: Seq<Seq<char>>,
    own: Seq<Seq<char>>,
)
    ensures
        ({
            let ctx = reply_ctx(t, cfg, trace, d, do_not_state, own);
            let n = d.notes.deep_view().len();
            &&& ctx.persona == cfg.persona && ctx.user_text == t.user_text && ctx.turn_trace == trace
            &&& ctx.facts == d.facts.deep_view() && ctx.summary == d.summary.deep_view() && ctx.window
                == d.window.deep_view() && ctx.obligations == d.obligations.deep_view()
            &&& ctx.do_not_state == do_not_state && ctx.do_not_repeat.len() == 0
            &&& ctx.guidance.len() == n + own.len()
            &&& forall|i: int| 0 <= i < n ==> #[trigger] ctx.guidance[i] == d.notes.deep_view()[i]
            &&& forall|i: int|
                0 <= i < own.len() ==> (#[trigger] ctx.guidance[n + i]).text == own[i] && ctx.guidance[n + i].hash.len() == 0
        }),
{
}

/// A claim is flagged exactly where the draft makes it and it stands neither in a block of
/// the prompt nor in the message, read as one text in lower case.
pub proof fn what_is_flagged(ctx: ReplyContextV, draft: Seq<char>, c: Seq<char>)
    ensures
        unsupported_in(ctx, draft).contains(c) <==> ground::claims_of(draft).contains(c) && !(c.len() > 0 && exists|at: int|
            #[trigger] text::occurs_at(
                ground::shown_lines(ground::part_texts(ground::parts_of(ctx)).push(ctx.user_text)),
                unicode::lowered(c),
                at,
            )),
        forall|i: int|
            0 <= i < ground::parts_of(ctx).len() ==> #[trigger] ground::part_texts(ground::parts_of(ctx))[i]
                == ground::parts_of(ctx)[i].1,
{
    let texts = ground::part_texts(ground::parts_of(ctx)).push(ctx.user_text);
    ground::flagged_is_unsupported(ground::claims_of(draft), ground::material_of(texts), c);
    ground::what_supports_a_claim(texts, c);
}

/// A draft with unsupported claims is recorded with them, one that draws on its prompt with
/// what it draws on, and no other leaves a trace.
pub proof fn what_a_draft_leaves_in_the_log(t: TurnV, ctx: ReplyContextV, draft: Seq<char>, spans: Seq<Seq<char>>, at: Timestamp)
    ensures
        spans.len() == 0 ==> flags(t, draft, spans, at) == t,
        spans.len() > 0 ==> flags(t, draft, spans, at).log.drop_last() == t.log && flags(t, draft, spans, at).log.last().kind
            == (EventKindV::ReplyFlagged { draft, spans }) && flags(t, draft, spans, at).log.last().turn == t.turn,
        ({
            let sources = ground::citations(ctx, draft, ground::parts_of(ctx));
            &&& sources.len() == 0 ==> cites(t, ctx, draft, at) == t
            &&& sources.len() > 0 ==> cites(t, ctx, draft, at).log.drop_last() == t.log && cites(
                t,
                ctx,
                draft,
                at,
            ).log.last().kind == (EventKindV::ReplyCited { sources })
        }),
{
    assert(flags(t, draft, spans, at).log.drop_last() =~= t.log || spans.len() == 0);
    let sources = ground::citations(ctx, draft, ground::parts_of(ctx));
    assert(cites(t, ctx, draft, at).log.drop_last() =~= t.log || sources.len() == 0);
}

/// When a draft is asked for once more: with the check on, for claims that nothing supports
/// where asking again is on, and else for the first question that it leaves open where that
/// check is on; never for both.
pub proof fn when_a_draft_is_asked_for_again(
    cfg: EngineConfigV,
    spans: Seq<Seq<char>>,
    obligations: Seq<Seq<char>>,
    addressed: Seq<bool>,
)
    ensures
        ({
            let r = redrafted(cfg, spans, obligations, addressed);
            let open = ground::first_unaddressed(obligations, addressed);
            let claims = cfg.reply_grounding_check && cfg.reply_regenerate && spans.len() > 0;
            let question = cfg.reply_grounding_check && cfg.obligation_check && !claims && open is Some;
            &&& claims ==> r == (RedraftV::WithoutClaims { spans })
            &&& question ==> r == (RedraftV::WithNote { note: "Not yet addressed: "@ + open->0 })
            &&& !claims && !question ==> r is Stands
        }),
{
}

/// What the user reads where no reply could be written: that it could not, and why.
pub proof fn a_reply_that_failed_says_why(detail: Seq<char>)
    ensures
        no_reply(detail) == "Sorry, I couldn't complete that."@ + " Reason: the reply could not be generated — "@
            + diagnostics::explained(detail) + "."@,
{
}

/// What is held out of a reply's prompt is gone, and nothing else is.
pub proof fn only_what_is_held_out_is_gone(ctx: ReplyContextV)
    ensures
        reply_ablated(ctx, None) == ctx,
        reply_ablated(ctx, Some(Ablate::Facts)) == (ReplyContextV { facts: seq![], ..ctx }),
        reply_ablated(ctx, Some(Ablate::Summary)) == (ReplyContextV { summary: None, ..ctx }),
        reply_ablated(ctx, Some(Ablate::Guidance)) == (ReplyContextV { guidance: seq![], ..ctx }),
{
}

/// What the replier was shown is recorded: by keys, turns and counts, with no action on
/// offer.
pub proof fn what_the_replier_was_shown_is_recorded(
    scope: Seq<char>,
    ctx: ReplyContextV,
    cfg: EngineConfigV,
    notes: Seq<ShownNoteV>,
    clipped: usize,
    budget: Seq<Seq<char>>,
)
    requires
        ctx.turn_trace.len() <= usize::MAX,
        ctx.guidance.len() <= usize::MAX,
        ctx.guidance.len() <= notes.len(),
    ensures
        ({
            let m = reply_sent(scope, ctx, cfg, notes, clipped, budget);
            &&& m.scope == Some(scope) && m.clipped_chars == clipped && m.budget == Some(budget) && m.ablated == cfg.ablate
            &&& m.fact_keys.len() == ctx.facts.len()
            &&& forall|i: int| 0 <= i < ctx.facts.len() ==> #[trigger] m.fact_keys[i] == ctx.facts[i].key
            &&& m.summary_through is Some <==> ctx.summary is Some
            &&& ctx.summary matches Some(s) ==> m.summary_through == Some(s.through_turn)
            &&& ctx.window.len() == 0 ==> m.window is None
            &&& ctx.window.len() > 0 ==> m.window == Some((ctx.window[0].turn, ctx.window[ctx.window.len() - 1].turn))
            &&& m.trace_chars == ctx.turn_trace.len()
            &&& m.guidance == ctx.guidance.len() && m.note_hashes.len() == ctx.guidance.len()
            &&& forall|i: int| 0 <= i < ctx.guidance.len() ==> #[trigger] m.note_hashes[i] == notes[i].hash
            &&& m.tool_names.len() == 0
        }),
{
}

/// Lines are counted by their ends; a last line without one counts too.
pub proof fn lines_are_counted(s: Seq<char>, c: char)
    ensures
        line_count(seq![]) == 0,
        line_ends(s.push(c)) == line_ends(s) + if c == '\n' {
            1nat
        } else {
            0nat
        },
        c == '\n' ==> line_count(s.push(c)) == line_ends(s) + 1,
        c != '\n' ==> line_count(s.push(c)) == line_ends(s) + 1,
{
    assert(s.push(c).drop_last() =~= s);
}

/// What is looked for as copied is every block of the prompt, but not the message.
pub proof fn what_a_reply_may_copy(ctx: ReplyContextV, draft: Seq<char>)
    ensures
        ({
            let material = text::joined(ground::part_texts(ground::parts_of(ctx)), "\n"@);
            &&& echo_in(ctx, draft) is Some <==> echo::copy_in(draft, material) is Some
            &&& echo::copy_in(draft, material) matches Some(c) ==> echo_in(ctx, draft) == Some(
                EchoV { span: c.1, copied: c.0 as usize, words: echo::folded_words(draft).len() as usize },
            )
        }),
{
}

/// The replier reads the lines of the turn's trace one under the other, as the emitter does.
pub proof fn the_replier_reads_the_trace_of_the_turn(t: TurnV, cfg: EngineConfigV)
    ensures
        reply_trace(t, cfg) == text::joined(prompt::prompt_trace(t.log, t.turn, cfg), "\n"@),
{
}

} // verus!
