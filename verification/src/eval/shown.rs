//! What the reply model was shown, kept as text so that a task can ask what the
//! model could read.

use vstd::prelude::*;

use crate::contexts::{ReplyContext, ReplyContextV, ShownFact, ShownFactV, ShownNote, ShownNoteV};
use crate::events::{Usage, UsageV};
use crate::text;
use crate::text::{cat2, chars_of, has, same, starts_with};
use crate::types::clone_texts;
use crate::unicode;

verus! {

// ---------------------------------------------------------------------------
// The prompt
// ---------------------------------------------------------------------------

/// One line for each fact.
pub open spec fn fact_lines(facts: Seq<ShownFactV>) -> Seq<char>
    decreases facts.len(),
{
    if facts.len() == 0 {
        seq![]
    } else {
        fact_lines(facts.drop_last()) + "- "@ + facts.last().rendered + "\n"@
    }
}

/// One line for each note, each on a line of its own.
pub open spec fn note_lines(notes: Seq<ShownNoteV>) -> Seq<char>
    decreases notes.len(),
{
    if notes.len() == 0 {
        seq![]
    } else {
        note_lines(notes.drop_last()) + "\n- "@ + notes.last().text
    }
}

/// The whole prompt of a reply: who speaks, the facts, the summary, the turns
/// word for word, the message, what happened on this turn, and the notes.
/// `window` is how the turns are rendered together.
pub open spec fn prompt_text(ctx: ReplyContextV, window: Seq<char>) -> Seq<char> {
    (if ctx.persona.len() > 0 {
        ctx.persona + "\n"@
    } else {
        seq![]
    }) + fact_lines(ctx.facts) + (match ctx.summary {
        Some(s) => s.rendered + "\n"@,
        None => seq![],
    }) + (if ctx.window.len() > 0 {
        window + "\n"@
    } else {
        seq![]
    }) + ctx.user_text + "\n"@ + ctx.turn_trace + note_lines(ctx.guidance)
}

fn push_facts(facts: &Vec<ShownFact>) -> (r: String)
    ensures
        r@ == fact_lines(facts.deep_view()),
{
    let ghost all = facts.deep_view();
    let mut out: String = String::new();
    let mut i: usize = 0;
    proof {
        assert(out@ =~= fact_lines(all.take(0)));
    }
    while i < facts.len()
        invariant
            i <= facts@.len(),
            all == facts.deep_view(),
            out@ == fact_lines(all.take(i as int)),
        decreases facts@.len() - i,
    {
        proof {
            assert(all.take(i + 1).drop_last() =~= all.take(i as int));
            assert(all.take(i + 1).last() == facts@[i as int].deep_view());
        }
        out.append("- ");
        out.append(facts[i].rendered.as_str());
        out.append("\n");
        i = i + 1;
    }
    proof {
        assert(all.take(i as int) =~= all);
    }
    out
}

fn push_notes(notes: &Vec<ShownNote>) -> (r: String)
    ensures
        r@ == note_lines(notes.deep_view()),
{
    let ghost all = notes.deep_view();
    let mut out: String = String::new();
    let mut i: usize = 0;
    proof {
        assert(out@ =~= note_lines(all.take(0)));
    }
    while i < notes.len()
        invariant
            i <= notes@.len(),
            all == notes.deep_view(),
            out@ == note_lines(all.take(i as int)),
        decreases notes@.len() - i,
    {
        proof {
            assert(all.take(i + 1).drop_last() =~= all.take(i as int));
            assert(all.take(i + 1).last() == notes@[i as int].deep_view());
        }
        out.append("\n- ");
        out.append(notes[i].text.as_str());
        i = i + 1;
    }
    proof {
        assert(all.take(i as int) =~= all);
    }
    out
}

/// Everything that the reply model is shown, in one text.
pub fn render_prompt(ctx: &ReplyContext, window: &str) -> (r: String)
    ensures
        r@ == prompt_text(ctx.deep_view(), window@),
{
    let ghost v = ctx.deep_view();
    let persona: String = if chars_of(ctx.persona.as_str()).len() > 0 {
        cat2(ctx.persona.as_str(), "\n")
    } else {
        String::new()
    };
    let facts: String = push_facts(&ctx.facts);
    let summary: String = match &ctx.summary {
        Some(s) => cat2(s.rendered.as_str(), "\n"),
        None => String::new(),
    };
    let turns: String = if ctx.window.len() > 0 {
        cat2(window, "\n")
    } else {
        String::new()
    };
    let notes: String = push_notes(&ctx.guidance);
    let mut s: String = persona;
    s.append(facts.as_str());
    s.append(summary.as_str());
    s.append(turns.as_str());
    s.append(ctx.user_text.as_str());
    s.append("\n");
    s.append(ctx.turn_trace.as_str());
    s.append(notes.as_str());
    proof {
        let blank = Seq::<char>::empty();
        assert(ctx.window.deep_view().len() == ctx.window@.len());
        if v.persona.len() == 0 {
            assert(persona@ =~= blank);
        }
        if v.summary is None {
            assert(summary@ =~= blank);
        }
        if v.window.len() == 0 {
            assert(turns@ =~= blank);
        }
    }
    s
}

// ---------------------------------------------------------------------------
// One context
// ---------------------------------------------------------------------------

/// One reply context. The blank one stands for a turn that never reached the
/// reply model, so that its task still has something to grade.
#[derive(Debug)]
pub struct Shown {
    /// The line of each fact as the prompt carries it, with the value it replaced.
    pub facts: Vec<String>,
    pub fact_keys: Vec<String>,
    pub window: String,
    pub trace: String,
    pub do_not_state: Vec<String>,
    pub prompt: String,
}

pub struct ShownV {
    pub facts: Seq<Seq<char>>,
    pub fact_keys: Seq<Seq<char>>,
    pub window: Seq<char>,
    pub trace: Seq<char>,
    pub do_not_state: Seq<Seq<char>>,
    pub prompt: Seq<char>,
}

impl DeepView for Shown {
    type V = ShownV;

    open spec fn deep_view(&self) -> ShownV {
        ShownV {
            facts: self.facts.deep_view(),
            fact_keys: self.fact_keys.deep_view(),
            window: self.window.deep_view(),
            trace: self.trace.deep_view(),
            do_not_state: self.do_not_state.deep_view(),
            prompt: self.prompt.deep_view(),
        }
    }
}

impl Clone for Shown {
    fn clone(&self) -> (r: Self)
        ensures
            r.deep_view() == self.deep_view(),
    {
        let r: Shown = Shown {
            facts: clone_texts(&self.facts),
            fact_keys: clone_texts(&self.fact_keys),
            window: self.window.clone(),
            trace: self.trace.clone(),
            do_not_state: clone_texts(&self.do_not_state),
            prompt: self.prompt.clone(),
        };
        r
    }
}

/// What there is to grade where nothing was shown.
pub open spec fn blank() -> ShownV {
    ShownV {
        facts: seq![],
        fact_keys: seq![],
        window: seq![],
        trace: seq![],
        do_not_state: seq![],
        prompt: seq![],
    }
}

/// A context as it is kept.
pub open spec fn kept(ctx: ReplyContextV, window: Seq<char>) -> ShownV {
    ShownV {
        facts: Seq::new(ctx.facts.len(), |i: int| ctx.facts[i].rendered),
        fact_keys: Seq::new(ctx.facts.len(), |i: int| ctx.facts[i].key),
        window,
        trace: ctx.turn_trace,
        do_not_state: ctx.do_not_state,
        prompt: prompt_text(ctx, window),
    }
}

/// The value stands somewhere in the prompt, whatever the case.
pub open spec fn is_shown(s: ShownV, value: Seq<char>) -> bool {
    text::contains(unicode::lowered(s.prompt), unicode::lowered(value))
}

/// The first line that opens with `prefix`.
pub open spec fn first_opening(lines: Seq<Seq<char>>, prefix: Seq<char>) -> Option<Seq<char>>
    decreases lines.len(),
{
    if lines.len() == 0 {
        None
    } else if text::starts(lines[0], prefix) {
        Some(lines[0])
    } else {
        first_opening(lines.drop_first(), prefix)
    }
}

/// The line of the fact `key`.
pub open spec fn line_of(s: ShownV, key: Seq<char>) -> Option<Seq<char>> {
    first_opening(s.facts, key + ": "@)
}

/// How many of `keys` are `key`.
pub open spec fn times(keys: Seq<Seq<char>>, key: Seq<char>) -> nat
    decreases keys.len(),
{
    if keys.len() == 0 {
        0
    } else {
        times(keys.drop_last(), key) + if keys.last() == key { 1nat } else { 0nat }
    }
}

impl Default for Shown {
    fn default() -> (r: Self)
        ensures
            r.deep_view() == blank(),
    {
        let r: Shown = Shown {
            facts: Vec::new(),
            fact_keys: Vec::new(),
            window: String::new(),
            trace: String::new(),
            do_not_state: Vec::new(),
            prompt: String::new(),
        };
        proof {
            assert(r.facts.deep_view() =~= seq![]);
            assert(r.fact_keys.deep_view() =~= seq![]);
            assert(r.do_not_state.deep_view() =~= seq![]);
            assert(r.window@ =~= seq![]);
            assert(r.trace@ =~= seq![]);
            assert(r.prompt@ =~= seq![]);
        }
        r
    }
}

impl Shown {
    /// Keep a context. `window` is how its turns are rendered together.
    pub fn capture(ctx: &ReplyContext, window: &str) -> (r: Self)
        ensures
            r.deep_view() == kept(ctx.deep_view(), window@),
    {
        let ghost v = ctx.deep_view();
        let mut facts: Vec<String> = Vec::new();
        let mut fact_keys: Vec<String> = Vec::new();
        let mut i: usize = 0;
        while i < ctx.facts.len()
            invariant
                i <= ctx.facts@.len(),
                v == ctx.deep_view(),
                facts@.len() == i,
                fact_keys@.len() == i,
                forall|k: int| 0 <= k < i ==> (#[trigger] facts@[k])@ == v.facts[k].rendered,
                forall|k: int| 0 <= k < i ==> (#[trigger] fact_keys@[k])@ == v.facts[k].key,
            decreases ctx.facts@.len() - i,
        {
            facts.push(ctx.facts[i].rendered.clone());
            fact_keys.push(ctx.facts[i].key.clone());
            i = i + 1;
        }
        let r: Shown = Shown {
            facts,
            fact_keys,
            window: window.to_owned(),
            trace: ctx.turn_trace.clone(),
            do_not_state: clone_texts(&ctx.do_not_state),
            prompt: render_prompt(ctx, window),
        };
        proof {
            assert(r.facts.deep_view() =~= kept(v, window@).facts);
            assert(r.fact_keys.deep_view() =~= kept(v, window@).fact_keys);
        }
        r
    }

    /// The length of the prompt, in characters.
    pub fn chars(&self) -> (r: usize)
        ensures
            r == self.deep_view().prompt.len(),
    {
        chars_of(self.prompt.as_str()).len()
    }

    /// Whether a value was anywhere the model could read it.
    pub fn shows(&self, value: &str) -> (r: bool)
        ensures
            r == is_shown(self.deep_view(), value@),
    {
        has(self.prompt.to_lowercase().as_str(), value.to_lowercase().as_str())
    }

    /// The line of a fact.
    pub fn fact_line(&self, key: &str) -> (r: Option<&str>)
        ensures
            r.deep_view() == line_of(self.deep_view(), key@),
    {
        let prefix: String = cat2(key, ": ");
        let ghost all = self.facts.deep_view();
        let mut i: usize = 0;
        proof {
            assert(all.skip(0) =~= all);
        }
        while i < self.facts.len()
            invariant
                i <= self.facts@.len(),
                all == self.facts.deep_view(),
                prefix@ == key@ + ": "@,
                line_of(self.deep_view(), key@) == first_opening(all.skip(i as int), prefix@),
            decreases self.facts@.len() - i,
        {
            proof {
                assert(all.skip(i as int)[0] == self.facts@[i as int]@);
                assert(all.skip(i as int).drop_first() =~= all.skip(i + 1));
            }
            if starts_with(self.facts[i].as_str(), prefix.as_str()) {
                return Some(self.facts[i].as_str());
            }
            i = i + 1;
        }
        None
    }

    /// How many facts of a key the prompt carries.
    pub fn rows_for(&self, key: &str) -> (r: usize)
        ensures
            r == times(self.deep_view().fact_keys, key@),
    {
        let ghost all = self.fact_keys.deep_view();
        let mut n: usize = 0;
        let mut i: usize = 0;
        while i < self.fact_keys.len()
            invariant
                i <= self.fact_keys@.len(),
                n <= i,
                all == self.fact_keys.deep_view(),
                n == times(all.take(i as int), key@),
            decreases self.fact_keys@.len() - i,
        {
            proof {
                assert(all.take(i + 1).drop_last() =~= all.take(i as int));
                assert(all.take(i + 1).last() == self.fact_keys@[i as int]@);
            }
            if same(self.fact_keys[i].as_str(), key) {
                n = n + 1;
            }
            i = i + 1;
        }
        proof {
            assert(all.take(i as int) =~= all);
        }
        n
    }
}

// ---------------------------------------------------------------------------
// The doubles' side
// ---------------------------------------------------------------------------

/// What a reply double says where nothing else is asked of it. It makes no
/// claim, so nothing in it can be found unsupported.
pub const INERT: &'static str = "(scripted reply)";

/// What the reply double answers: the draft it was given the first time, where it
/// was given one, and the inert reply otherwise.
pub fn draft(first: Option<&str>, drafts_before: u32) -> (r: String)
    ensures
        r@ == (match first {
            Some(text) => if drafts_before == 0 {
                text@
            } else {
                INERT@
            },
            None => INERT@,
        }),
{
    match first {
        Some(text) => if drafts_before == 0 {
            text.to_owned()
        } else {
            INERT.to_owned()
        },
        None => INERT.to_owned(),
    }
}

/// What one call of a double is booked as: one attempt, and no tokens that
/// anyone measured.
pub fn spent(role: &str) -> (r: Usage)
    ensures
        r.deep_view() == (UsageV {
            role: role@,
            model: "scripted"@,
            prompt_tokens: 0,
            completion_tokens: 0,
            estimated: true,
            attempts: 1,
            latency_ms: 0,
            tools_tokens: 0,
        }),
{
    Usage {
        role: role.to_owned(),
        model: "scripted".to_owned(),
        prompt_tokens: 0,
        completion_tokens: 0,
        estimated: true,
        attempts: 1,
        latency_ms: 0,
        tools_tokens: 0,
    }
}

// ---------------------------------------------------------------------------
// Laws
// ---------------------------------------------------------------------------

/// What a reply is told of the turn and of the message is in the prompt that is
/// graded.
pub proof fn the_prompt_carries_the_turn(ctx: ReplyContextV, window: Seq<char>)
    ensures
        text::contains(prompt_text(ctx, window), ctx.user_text),
        text::contains(prompt_text(ctx, window), ctx.turn_trace),
        ctx.window.len() > 0 ==> text::contains(prompt_text(ctx, window), window),
{
    let whole = prompt_text(ctx, window);
    let persona = if ctx.persona.len() > 0 {
        ctx.persona + "\n"@
    } else {
        seq![]
    };
    let summary = match ctx.summary {
        Some(s) => s.rendered + "\n"@,
        None => seq![],
    };
    let turns = if ctx.window.len() > 0 {
        window + "\n"@
    } else {
        seq![]
    };
    let a = persona + fact_lines(ctx.facts) + summary;
    let b = a + turns;
    if ctx.window.len() > 0 {
        assert(whole.subrange(a.len() as int, (a.len() + window.len()) as int) =~= window);
        assert(text::occurs_at(whole, window, a.len() as int));
    }
    assert(whole.subrange(b.len() as int, (b.len() + ctx.user_text.len()) as int) =~= ctx.user_text);
    assert(text::occurs_at(whole, ctx.user_text, b.len() as int));
    let c = b + ctx.user_text + "\n"@;
    assert(whole.subrange(c.len() as int, (c.len() + ctx.turn_trace.len()) as int) =~= ctx.turn_trace);
    assert(text::occurs_at(whole, ctx.turn_trace, c.len() as int));
}

/// The line of a fact is the first that begins with its key and a colon.
pub proof fn a_fact_is_found_by_its_key(s: ShownV, key: Seq<char>, k: int)
    requires
        0 <= k <= s.facts.len(),
        forall|j: int| 0 <= j < k ==> !text::starts(#[trigger] s.facts[j], key + ": "@),
    ensures
        k == s.facts.len() ==> line_of(s, key) is None,
        k < s.facts.len() && text::starts(s.facts[k], key + ": "@) ==> line_of(s, key) == Some(s.facts[k]),
{
    lemma_opening(s.facts, key + ": "@, k);
}

proof fn lemma_opening(lines: Seq<Seq<char>>, prefix: Seq<char>, k: int)
    requires
        0 <= k <= lines.len(),
        forall|j: int| 0 <= j < k ==> !text::starts(#[trigger] lines[j], prefix),
    ensures
        k == lines.len() ==> first_opening(lines, prefix) is None,
        k < lines.len() && text::starts(lines[k], prefix) ==> first_opening(lines, prefix) == Some(lines[k]),
    decreases lines.len(),
{
    if k > 0 {
        let rest = lines.drop_first();
        assert(!text::starts(lines[0], prefix));
        assert forall|j: int| 0 <= j < k - 1 implies !text::starts(#[trigger] rest[j], prefix) by {
            assert(rest[j] == lines[j + 1]);
        }
        lemma_opening(rest, prefix, k - 1);
    }
}

/// A value is shown where its lowercase stands in the lowercase of the prompt.
pub proof fn when_a_value_is_shown(s: ShownV, value: Seq<char>)
    ensures
        is_shown(s, value) <==> exists|at: int| #[trigger]
            text::occurs_at(unicode::lowered(s.prompt), unicode::lowered(value), at),
{
}

/// How often a key stands in a list is counted one by one.
pub proof fn keys_are_counted(keys: Seq<Seq<char>>, last: Seq<char>, key: Seq<char>)
    ensures
        times(seq![], key) == 0,
        times(keys.push(last), key) == times(keys, key) + if last == key {
            1nat
        } else {
            0nat
        },
{
    assert(keys.push(last).drop_last() =~= keys);
}

/// What is kept of a context: its facts as rendered and by key, the turns, the trace, what
/// must not be stated, and the whole prompt.
pub proof fn what_is_kept_of_a_context(ctx: ReplyContextV, window: Seq<char>)
    ensures
        ({
            let s = kept(ctx, window);
            &&& s.facts.len() == ctx.facts.len() && s.fact_keys.len() == ctx.facts.len()
            &&& forall|i: int|
                0 <= i < ctx.facts.len() ==> #[trigger] s.facts[i] == ctx.facts[i].rendered && s.fact_keys[i] == ctx.facts[i].key
            &&& s.window == window && s.trace == ctx.turn_trace && s.do_not_state == ctx.do_not_state
            &&& text::contains(s.prompt, ctx.user_text) && text::contains(s.prompt, ctx.turn_trace)
        }),
{
    the_prompt_carries_the_turn(ctx, window);
}

/// Facts and notes each have a line of their own in the prompt, in order.
pub proof fn every_fact_and_note_has_its_line(facts: Seq<ShownFactV>, f: ShownFactV, notes: Seq<ShownNoteV>, n: ShownNoteV)
    ensures
        fact_lines(seq![]).len() == 0,
        fact_lines(facts.push(f)) == fact_lines(facts) + "- "@ + f.rendered + "\n"@,
        note_lines(seq![]).len() == 0,
        note_lines(notes.push(n)) == note_lines(notes) + "\n- "@ + n.text,
{
    assert(facts.push(f).drop_last() =~= facts);
    assert(notes.push(n).drop_last() =~= notes);
}

} // verus!
