//! How each task is graded: by what the run put in front of the models, and by
//! what its logs say happened.

use vstd::prelude::*;

use crate::eval::desk;
use crate::eval::desk::{control_tree, HEAD_CONTROL, RESULT_CONTROL, SEARCH_CONTROL, TAIL_CONTROL, TAIL_X, TAIL_Y};
use crate::eval::report;
use crate::eval::report::{require, Ability, Counters, Harness, HarnessV};
use crate::eval::shown;
use crate::eval::shown::{Shown, ShownV};
use crate::facts::{Fact, FactV};
use crate::json;
use crate::json::debug_value;
use crate::text;
use crate::text::{
    cat2, cat3, cat5, cat6, chars_of, find, has, join, listed, number, same, signed_number, starts_with, text_of,
};
use crate::types::FactState;
use crate::unicode;
use crate::unicode::debug_text;

verus! {

// ---------------------------------------------------------------------------
// Saying what was there instead
// ---------------------------------------------------------------------------

/// A list of texts, each quoted, in square brackets.
pub open spec fn quoted_list(list: Seq<Seq<char>>) -> Seq<char> {
    "["@ + text::joined(Seq::new(list.len(), |i: int| unicode::quoted(list[i])), ", "@) + "]"@
}

fn quote_list(list: &Vec<String>) -> (r: String)
    ensures
        r@ == quoted_list(list.deep_view()),
{
    let ghost all = list.deep_view();
    let ghost want = Seq::new(all.len(), |i: int| unicode::quoted(all[i]));
    let mut out: Vec<String> = Vec::new();
    let mut i: usize = 0;
    while i < list.len()
        invariant
            i <= list@.len(),
            all == list.deep_view(),
            want == Seq::new(all.len(), |i: int| unicode::quoted(all[i])),
            out@.len() == i,
            forall|k: int| 0 <= k < i ==> (#[trigger] out@[k])@ == want[k],
        decreases list@.len() - i,
    {
        out.push(debug_text(list[i].as_str()));
        i = i + 1;
    }
    proof {
        assert(out.deep_view() =~= want);
    }
    let inner: String = join(&out, ", ");
    cat3("[", inner.as_str(), "]")
}

pub open spec fn num(n: usize) -> Seq<char> {
    text::decimal(n as nat)
}

fn digits(n: usize) -> (r: String)
    ensures
        r@ == num(n),
{
    number(n as u64)
}

/// The condition that a fact's line carries its value.
pub open spec fn value_fails(s: ShownV, key: Seq<char>, value: Seq<char>) -> Seq<Seq<char>> {
    match shown::line_of(s, key) {
        Some(line) => report::unless(
            text::contains(line, value),
            key + " shown as "@ + unicode::quoted(line) + ", not "@ + unicode::quoted(value),
        ),
        None => seq![key + " was not in the reply context"@],
    }
}

fn require_value(fails: &mut Vec<String>, s: &Shown, key: &str, value: &str)
    ensures
        final(fails).deep_view() == old(fails).deep_view() + value_fails(s.deep_view(), key@, value@),
{
    match s.fact_line(key) {
        Some(line) => {
            let a: String = debug_text(line);
            let b: String = debug_text(value);
            let why: String = cat5(key, " shown as ", a.as_str(), ", not ", b.as_str());
            require(fails, has(line, value), why);
        },
        None => {
            let why: String = cat2(key, " was not in the reply context");
            require(fails, false, why);
        },
    }
}

// ---------------------------------------------------------------------------
// The six abilities of memory
// ---------------------------------------------------------------------------

pub open spec fn extraction_fails(g: ShownV, c: Counters) -> Seq<Seq<char>> {
    value_fails(g, "user.name"@, "Martin"@) + value_fails(g, "user.age"@, "17"@) + value_fails(
        g,
        "user.preference.time_format"@,
        "24-hour"@,
    ) + report::unless(
        !text::contains(g.window, "Martin"@),
        "turn 1 is still in the window, so this proves nothing about facts"@,
    ) + report::unless(c.recall_calls == 0, num(c.recall_calls) + " recall calls; pinned facts should need none"@)
}

/// Three facts stated early are in the context when they are asked for, after
/// the turns that stated them have left the window, and without a search.
pub fn information_extraction(h: &Harness, graded: &Shown, prompt_tokens: u32) -> (r: Ability)
    ensures
        r.deep_view() == report::row_of(
            "information extraction"@,
            graded.deep_view(),
            h.deep_view(),
            prompt_tokens,
            extraction_fails(graded.deep_view(), report::counted(h.deep_view().logs)),
        ),
{
    let c: Counters = h.counters();
    let mut fails: Vec<String> = Vec::new();
    require_value(&mut fails, graded, "user.name", "Martin");
    require_value(&mut fails, graded, "user.age", "17");
    require_value(&mut fails, graded, "user.preference.time_format", "24-hour");
    require(
        &mut fails,
        !text::has(graded.window.as_str(), "Martin"),
        "turn 1 is still in the window, so this proves nothing about facts".to_owned(),
    );
    let n: String = digits(c.recall_calls);
    require(&mut fails, c.recall_calls == 0, cat2(n.as_str(), " recall calls; pinned facts should need none"));
    proof {
        assert(fails.deep_view() =~= extraction_fails(graded.deep_view(), c));
    }
    Ability::build("information extraction", graded, h, prompt_tokens, &fails)
}

/// The fact crossed into the second session, as a fact or as a finding.
pub open spec fn crossed(g: ShownV, c: Counters) -> bool {
    (shown::line_of(g, "budget.total"@) matches Some(line) && text::contains(line, "2000 crowns"@)) || c.recall_hits
        > 0
}

pub open spec fn multi_session_fails(g: ShownV, c: Counters) -> Seq<Seq<char>> {
    report::unless(g.window.len() == 0, "session two already had a window: "@ + unicode::quoted(g.window))
        + report::unless(
        crossed(g, c),
        "neither facts nor recall carried the budget into session two; facts were "@ + quoted_list(g.facts),
    ) + report::unless(
        c.clarifications == 0,
        num(c.clarifications) + " clarification(s) asked instead of answering"@,
    )
}

/// A fact stated in one session is there in another, with nothing of the first
/// in the window and no question asked.
pub fn multi_session_reasoning(h: &Harness, graded: &Shown, prompt_tokens: u32) -> (r: Ability)
    ensures
        r.deep_view() == report::row_of(
            "multi-session reasoning"@,
            graded.deep_view(),
            h.deep_view(),
            prompt_tokens,
            multi_session_fails(graded.deep_view(), report::counted(h.deep_view().logs)),
        ),
{
    let c: Counters = h.counters();
    let mut fails: Vec<String> = Vec::new();
    let empty: bool = chars_of(graded.window.as_str()).len() == 0;
    let window: String = debug_text(graded.window.as_str());
    require(&mut fails, empty, cat2("session two already had a window: ", window.as_str()));
    let from_memory: bool = match graded.fact_line("budget.total") {
        Some(line) => has(line, "2000 crowns") || c.recall_hits > 0,
        None => c.recall_hits > 0,
    };
    let facts: String = quote_list(&graded.facts);
    require(
        &mut fails,
        from_memory,
        cat2("neither facts nor recall carried the budget into session two; facts were ", facts.as_str()),
    );
    let n: String = digits(c.clarifications);
    require(&mut fails, c.clarifications == 0, cat2(n.as_str(), " clarification(s) asked instead of answering"));
    proof {
        assert(fails.deep_view() =~= multi_session_fails(graded.deep_view(), c));
    }
    Ability::build("multi-session reasoning", graded, h, prompt_tokens, &fails)
}

pub open spec fn temporal_fails(g: ShownV) -> Seq<Seq<char>> {
    (match shown::line_of(g, "user.name"@) {
        Some(line) => report::unless(
            text::starts(line, "user.name: \"Peter\" (was \"Martin\" until "@),
            "superseded value not rendered: "@ + unicode::quoted(line),
        ),
        None => seq!["user.name was not in the reply context"@],
    }) + report::unless(
        !text::contains(g.window, "Martin"@),
        "turn 1 is still in the window; the marker is not carrying the old value"@,
    ) + report::unless(
        shown::is_shown(g, "Peter"@) && shown::is_shown(g, "Martin"@),
        "both values must be in the context for the answer to name both"@,
    )
}

/// A changed value is shown with the one it replaced, which the window no longer
/// carries.
pub fn temporal_reasoning(h: &Harness, graded: &Shown, prompt_tokens: u32) -> (r: Ability)
    ensures
        r.deep_view() == report::row_of(
            "temporal reasoning"@,
            graded.deep_view(),
            h.deep_view(),
            prompt_tokens,
            temporal_fails(graded.deep_view()),
        ),
{
    let mut fails: Vec<String> = Vec::new();
    match graded.fact_line("user.name") {
        Some(line) => {
            let shown: String = debug_text(line);
            require(
                &mut fails,
                starts_with(line, "user.name: \"Peter\" (was \"Martin\" until "),
                cat2("superseded value not rendered: ", shown.as_str()),
            );
        },
        None => {
            require(&mut fails, false, "user.name was not in the reply context".to_owned());
        },
    }
    require(
        &mut fails,
        !text::has(graded.window.as_str(), "Martin"),
        "turn 1 is still in the window; the marker is not carrying the old value".to_owned(),
    );
    require(
        &mut fails,
        graded.shows("Peter") && graded.shows("Martin"),
        "both values must be in the context for the answer to name both".to_owned(),
    );
    proof {
        assert(fails.deep_view() =~= temporal_fails(graded.deep_view()));
    }
    Ability::build("temporal reasoning", graded, h, prompt_tokens, &fails)
}

/// The versions of a fact that are in a state, in order.
pub open spec fn in_state(history: Seq<FactV>, state: FactState) -> Seq<FactV> {
    history.filter(|f: FactV| f.state == state)
}

/// A value as a reason names it: by its kind and what it holds; text that is no
/// JSON as it is written.
pub open spec fn value_named(value: Option<Seq<char>>) -> Seq<char> {
    match value {
        None => "None"@,
        Some(v) => match json::json_debug(v) {
            Some(named) => "Some("@ + named + ")"@,
            None => "Some("@ + v + ")"@,
        },
    }
}

/// The part of a line in front of the value it replaced.
pub open spec fn current_part(line: Seq<char>) -> Seq<char> {
    match text::found(line, " (was "@) {
        Some(i) => line.take(i),
        None => line,
    }
}

pub open spec fn updates_fails(g: ShownV, history: Seq<FactV>) -> Seq<Seq<char>> {
    let current = in_state(history, FactState::Current);
    let replaced = in_state(history, FactState::Superseded);
    let value = if current.len() > 0 {
        Some(current[0].value)
    } else {
        None
    };
    report::unless(current.len() == 1, text::decimal(current.len()) + " current rows for user.age, want 1"@)
        + report::unless(
        value == Some("\"18\""@),
        "current value is "@ + value_named(value) + ", want \"18\""@,
    ) + report::unless(
        replaced.len() == 1 && replaced[0].valid_to is Some,
        text::decimal(replaced.len()) + " superseded rows with a valid_to, want 1"@,
    ) + report::unless(
        shown::times(g.fact_keys, "user.age"@) == 1,
        text::decimal(shown::times(g.fact_keys, "user.age"@)) + " user.age lines in the context — ghost mixing: "@
            + quoted_list(g.facts),
    ) + (match shown::line_of(g, "user.age"@) {
        Some(line) => report::unless(
            text::contains(current_part(line), "18"@) && !text::contains(current_part(line), "17"@),
            "the current value reads "@ + unicode::quoted(current_part(line)) + ", want just the new age"@,
        ),
        None => seq!["user.age was not in the reply context"@],
    })
}

fn pick_state(history: &Vec<Fact>, state: FactState) -> (r: Vec<Fact>)
    ensures
        r.deep_view() == in_state(history.deep_view(), state),
{
    let ghost all = history.deep_view();
    let ghost keep = |f: FactV| f.state == state;
    let mut out: Vec<Fact> = Vec::new();
    let mut i: usize = 0;
    proof {
        reveal(Seq::filter);
        assert(out.deep_view() =~= all.take(0).filter(keep));
    }
    while i < history.len()
        invariant
            i <= history@.len(),
            all == history.deep_view(),
            keep == (|f: FactV| f.state == state),
            out.deep_view() == all.take(i as int).filter(keep),
        decreases history@.len() - i,
    {
        let ghost before = out.deep_view();
        proof {
            reveal(Seq::filter);
            assert(all.take(i + 1).drop_last() =~= all.take(i as int));
            assert(all.take(i + 1).last() == history@[i as int].deep_view());
        }
        if history[i].state == state {
            out.push(history[i].clone());
            proof {
                assert(out.deep_view() =~= before.push(history@[i as int].deep_view()));
            }
        }
        i = i + 1;
    }
    proof {
        assert(all.take(i as int) =~= all);
    }
    out
}

fn name_value(value: Option<&str>) -> (r: String)
    ensures
        r@ == value_named(match value {
            Some(v) => Some(v@),
            None => None,
        }),
{
    match value {
        None => "None".to_owned(),
        Some(v) => match debug_value(v) {
            Some(named) => cat3("Some(", named.as_str(), ")"),
            None => cat3("Some(", v, ")"),
        },
    }
}

/// A restated value leaves one current version and one that it replaced, and one
/// line in the context, with the new value alone in front. `history` is what the
/// store keeps of the key.
pub fn knowledge_updates(h: &Harness, graded: &Shown, history: &Vec<Fact>, prompt_tokens: u32) -> (r: Ability)
    ensures
        r.deep_view() == report::row_of(
            "knowledge updates"@,
            graded.deep_view(),
            h.deep_view(),
            prompt_tokens,
            updates_fails(graded.deep_view(), history.deep_view()),
        ),
{
    let ghost g = graded.deep_view();
    let mut fails: Vec<String> = Vec::new();
    let current: Vec<Fact> = pick_state(history, FactState::Current);
    let n: String = digits(current.len());
    require(&mut fails, current.len() == 1, cat2(n.as_str(), " current rows for user.age, want 1"));
    let value: Option<&str> = if current.len() > 0 {
        Some(current[0].value.text.as_str())
    } else {
        None
    };
    proof {
        if current@.len() > 0 {
            assert(current.deep_view()[0] == current@[0].deep_view());
        }
    }
    let named: String = name_value(value);
    let is_new: bool = match value {
        Some(v) => same(v, "\"18\""),
        None => false,
    };
    require(&mut fails, is_new, cat3("current value is ", named.as_str(), ", want \"18\""));
    let replaced: Vec<Fact> = pick_state(history, FactState::Superseded);
    let m: String = digits(replaced.len());
    proof {
        if replaced@.len() > 0 {
            assert(replaced.deep_view()[0] == replaced@[0].deep_view());
        }
    }
    let closed: bool = replaced.len() == 1 && replaced[0].valid_to.is_some();
    require(&mut fails, closed, cat2(m.as_str(), " superseded rows with a valid_to, want 1"));
    let lines: usize = graded.rows_for("user.age");
    let k: String = digits(lines);
    let facts: String = quote_list(&graded.facts);
    require(
        &mut fails,
        lines == 1,
        cat3(k.as_str(), " user.age lines in the context — ghost mixing: ", facts.as_str()),
    );
    match graded.fact_line("user.age") {
        Some(line) => {
            let part: String = match find(line, " (was ") {
                Some(i) => {
                    let cs: Vec<char> = chars_of(line);
                    proof {
                        text::lemma_found(line@, " (was "@);
                    }
                    let head: String = text_of(&cs, 0, i);
                    proof {
                        assert(head@ =~= line@.take(i as int));
                    }
                    head
                },
                None => line.to_owned(),
            };
            let ok: bool = has(part.as_str(), "18") && !text::has(part.as_str(), "17");
            let q: String = debug_text(part.as_str());
            require(&mut fails, ok, cat3("the current value reads ", q.as_str(), ", want just the new age"));
        },
        None => {
            require(&mut fails, false, "user.age was not in the reply context".to_owned());
        },
    }
    proof {
        assert(fails.deep_view() =~= updates_fails(g, history.deep_view()));
    }
    Ability::build("knowledge updates", graded, h, prompt_tokens, &fails)
}

/// Some key opens with `prefix`.
pub open spec fn any_opens(keys: Seq<Seq<char>>, prefix: Seq<char>) -> bool {
    exists|i: int| 0 <= i < keys.len() && text::starts(#[trigger] keys[i], prefix)
}

fn opens_any(keys: &Vec<String>, prefix: &str) -> (r: bool)
    ensures
        r == any_opens(keys.deep_view(), prefix@),
{
    let ghost all = keys.deep_view();
    let mut i: usize = 0;
    while i < keys.len()
        invariant
            i <= keys@.len(),
            all == keys.deep_view(),
            forall|k: int| 0 <= k < i ==> !text::starts(#[trigger] all[k], prefix@),
        decreases keys@.len() - i,
    {
        assert(all[i as int] == keys@[i as int]@);
        if starts_with(keys[i].as_str(), prefix) {
            return true;
        }
        i = i + 1;
    }
    false
}

pub open spec fn abstention_fails(drafts: Seq<ShownV>, c: Counters) -> Seq<Seq<char>> {
    let g = drafts[0];
    report::unless(c.recall_calls == 1, num(c.recall_calls) + " recall calls, want 1"@) + report::unless(
        c.recall_hits == 0,
        "recall returned "@ + num(c.recall_hits) + " hits for a fact never stated"@,
    ) + report::unless(
        text::contains(g.trace, "no matches"@),
        "the reply model was not told the search found nothing: "@ + unicode::quoted(g.trace),
    ) + report::unless(
        !shown::is_shown(g, "Ostrava"@),
        "the context already carried a city; abstention is untestable here"@,
    ) + report::unless(
        !any_opens(g.fact_keys, "user.city"@),
        "a city fact reached the context: "@ + quoted_list(g.fact_keys),
    ) + report::unless(c.flags == 1, num(c.flags) + " interceptor flags, want 1 for the invented value"@)
        + report::unless(
        drafts.len() == 2,
        text::decimal(drafts.len()) + " drafts; the flagged reply was not regenerated"@,
    ) + (if drafts.len() > 1 {
        report::unless(
            drafts[1].do_not_state.contains("Ostrava"@),
            "the regeneration was not told what to drop: "@ + quoted_list(drafts[1].do_not_state),
        )
    } else {
        seq![]
    })
}

/// Where a fact was never stated the search finds nothing, the context carries
/// no value for it, and a value that is stated all the same is caught and held
/// out of the second draft. `drafts` are the contexts of the turn that asks.
pub fn abstention(h: &Harness, drafts: &Vec<Shown>, prompt_tokens: u32) -> (r: Ability)
    requires
        drafts@.len() > 0,
    ensures
        r.deep_view() == report::row_of(
            "abstention"@,
            drafts.deep_view()[0],
            h.deep_view(),
            prompt_tokens,
            abstention_fails(drafts.deep_view(), report::counted(h.deep_view().logs)),
        ),
{
    let ghost all = drafts.deep_view();
    let graded: &Shown = &drafts[0];
    let c: Counters = h.counters();
    let mut fails: Vec<String> = Vec::new();
    proof {
        assert(all[0] == graded.deep_view());
    }
    let calls: String = digits(c.recall_calls);
    require(&mut fails, c.recall_calls == 1, cat2(calls.as_str(), " recall calls, want 1"));
    let hits: String = digits(c.recall_hits);
    require(
        &mut fails,
        c.recall_hits == 0,
        cat3("recall returned ", hits.as_str(), " hits for a fact never stated"),
    );
    let trace: String = debug_text(graded.trace.as_str());
    require(
        &mut fails,
        has(graded.trace.as_str(), "no matches"),
        cat2("the reply model was not told the search found nothing: ", trace.as_str()),
    );
    require(
        &mut fails,
        !graded.shows("Ostrava"),
        "the context already carried a city; abstention is untestable here".to_owned(),
    );
    let keys: String = quote_list(&graded.fact_keys);
    require(
        &mut fails,
        !opens_any(&graded.fact_keys, "user.city"),
        cat2("a city fact reached the context: ", keys.as_str()),
    );
    let flags: String = digits(c.flags);
    require(&mut fails, c.flags == 1, cat2(flags.as_str(), " interceptor flags, want 1 for the invented value"));
    let n: String = digits(drafts.len());
    require(&mut fails, drafts.len() == 2, cat2(n.as_str(), " drafts; the flagged reply was not regenerated"));
    if drafts.len() > 1 {
        let second: &Shown = &drafts[1];
        proof {
            assert(all[1] == second.deep_view());
        }
        let spans: String = quote_list(&second.do_not_state);
        require(
            &mut fails,
            listed(&second.do_not_state, "Ostrava"),
            cat2("the regeneration was not told what to drop: ", spans.as_str()),
        );
    }
    proof {
        assert(fails.deep_view() =~= abstention_fails(all, c));
    }
    Ability::build("abstention", graded, h, prompt_tokens, &fails)
}

/// A state as a reason names it.
pub open spec fn state_named(state: Option<FactState>) -> Seq<char> {
    match state {
        None => "None"@,
        Some(FactState::Current) => "Some(Current)"@,
        Some(FactState::Cold) => "Some(Cold)"@,
        Some(FactState::Superseded) => "Some(Superseded)"@,
        Some(FactState::Forgotten) => "Some(Forgotten)"@,
    }
}

fn name_state(state: Option<FactState>) -> (r: &'static str)
    ensures
        r@ == state_named(state),
{
    match state {
        None => "None",
        Some(FactState::Current) => "Some(Current)",
        Some(FactState::Cold) => "Some(Cold)",
        Some(FactState::Superseded) => "Some(Superseded)",
        Some(FactState::Forgotten) => "Some(Forgotten)",
    }
}

/// The state of the newest version.
pub open spec fn newest_state(history: Seq<FactV>) -> Option<FactState> {
    if history.len() > 0 {
        Some(history[0].state)
    } else {
        None
    }
}

pub open spec fn forgetting_fails(before: ShownV, g: ShownV, history: Seq<FactV>) -> Seq<Seq<char>> {
    report::unless(
        shown::is_shown(before, "Martin"@),
        "the value was already absent before the forget; nothing was forgotten"@,
    ) + report::unless(
        !shown::is_shown(g, "Martin"@),
        "the forgotten value is still in the prompt:\n"@ + g.prompt,
    ) + report::unless(
        shown::line_of(g, "user.name"@) is None,
        "user.name is still a fact in the context: "@ + quoted_list(g.facts),
    ) + report::unless(
        newest_state(history) == Some(FactState::Forgotten),
        "the row was not soft-deleted: "@ + state_named(newest_state(history)),
    )
}

/// A forgotten value is in the context before it is forgotten and nowhere in it
/// afterwards, while the store keeps the version. `history` is what the store
/// keeps of the key, newest first.
pub fn selective_forgetting(
    h: &Harness,
    before: &Shown,
    graded: &Shown,
    history: &Vec<Fact>,
    prompt_tokens: u32,
) -> (r: Ability)
    ensures
        r.deep_view() == report::row_of(
            "selective forgetting"@,
            graded.deep_view(),
            h.deep_view(),
            prompt_tokens,
            forgetting_fails(before.deep_view(), graded.deep_view(), history.deep_view()),
        ),
{
    let mut fails: Vec<String> = Vec::new();
    require(
        &mut fails,
        before.shows("Martin"),
        "the value was already absent before the forget; nothing was forgotten".to_owned(),
    );
    require(
        &mut fails,
        !graded.shows("Martin"),
        cat2("the forgotten value is still in the prompt:\n", graded.prompt.as_str()),
    );
    let facts: String = quote_list(&graded.facts);
    require(
        &mut fails,
        graded.fact_line("user.name").is_none(),
        cat2("user.name is still a fact in the context: ", facts.as_str()),
    );
    let state: Option<FactState> = if history.len() > 0 {
        Some(history[0].state)
    } else {
        None
    };
    proof {
        if history@.len() > 0 {
            assert(history.deep_view()[0] == history@[0].deep_view());
        }
    }
    let gone: bool = match state {
        Some(s) => s == FactState::Forgotten,
        None => false,
    };
    require(&mut fails, gone, cat2("the row was not soft-deleted: ", name_state(state)));
    proof {
        assert(fails.deep_view() =~= forgetting_fails(before.deep_view(), graded.deep_view(), history.deep_view()));
    }
    Ability::build("selective forgetting", graded, h, prompt_tokens, &fails)
}

// ---------------------------------------------------------------------------
// The three tasks on the desktop
// ---------------------------------------------------------------------------

/// What the trace of a turn may cost, in characters: the outcomes that are kept
/// word for word at the cap, and the short lines around them.
pub const TRACE_CEILING: usize = 6_500;

/// Some report is of a click on the control.
pub open spec fn clicked(reports: Seq<Seq<char>>, control: Seq<char>) -> bool {
    exists|i: int|
        0 <= i < reports.len() && text::starts(#[trigger] reports[i], "clicked"@) && text::contains(
            reports[i],
            control,
        )
}

pub open spec fn click_fails(reports: Seq<Seq<char>>, control: Seq<char>) -> Seq<Seq<char>> {
    report::unless(
        clicked(reports, control),
        unicode::quoted(control) + " was never clicked; the turn did: "@ + quoted_list(reports),
    )
}

fn require_click(fails: &mut Vec<String>, reports: &Vec<String>, control: &str)
    ensures
        final(fails).deep_view() == old(fails).deep_view() + click_fails(reports.deep_view(), control@),
{
    let ghost all = reports.deep_view();
    let mut done: bool = false;
    let mut i: usize = 0;
    while i < reports.len()
        invariant
            i <= reports@.len(),
            all == reports.deep_view(),
            done == clicked(all.take(i as int), control@),
        decreases reports@.len() - i,
    {
        let hit: bool = starts_with(reports[i].as_str(), "clicked") && has(reports[i].as_str(), control);
        proof {
            let next = all.take(i + 1);
            assert(next[i as int] == reports@[i as int]@);
            if done {
                let k = choose|k: int|
                    0 <= k < i && text::starts(#[trigger] all.take(i as int)[k], "clicked"@) && text::contains(
                        all.take(i as int)[k],
                        control@,
                    );
                assert(next[k] == all.take(i as int)[k]);
            }
            if clicked(next, control@) && !hit {
                let k = choose|k: int|
                    0 <= k < i + 1 && text::starts(#[trigger] next[k], "clicked"@) && text::contains(next[k], control@);
                assert(all.take(i as int)[k] == next[k]);
            }
        }
        done = done || hit;
        i = i + 1;
    }
    proof {
        assert(all.take(i as int) =~= all);
    }
    let name: String = debug_text(control);
    let did: String = quote_list(reports);
    require(fails, done, cat3(name.as_str(), " was never clicked; the turn did: ", did.as_str()));
}

/// Some trace has a line that counts folded steps.
pub open spec fn folded(traces: Seq<Seq<Seq<char>>>) -> bool {
    exists|i: int| 0 <= i < traces.len() && any_opens(#[trigger] traces[i], "earlier this turn ("@)
}

fn has_fold(traces: &Vec<Vec<String>>) -> (r: bool)
    ensures
        r == folded(traces.deep_view()),
{
    let ghost all = traces.deep_view();
    let mut i: usize = 0;
    while i < traces.len()
        invariant
            i <= traces@.len(),
            all == traces.deep_view(),
            forall|k: int| 0 <= k < i ==> !any_opens(#[trigger] all[k], "earlier this turn ("@),
        decreases traces@.len() - i,
    {
        assert(all[i as int] == traces@[i as int].deep_view());
        if opens_any(&traces[i], "earlier this turn (") {
            return true;
        }
        i = i + 1;
    }
    false
}

/// The first trace that carries a text, in one piece or over two lines.
pub open spec fn first_carrying(traces: Seq<Seq<Seq<char>>>, needle: Seq<char>) -> Option<Seq<char>>
    decreases traces.len(),
{
    if traces.len() == 0 {
        None
    } else if text::contains(text::joined(traces[0], "\n"@), needle) {
        Some(text::joined(traces[0], "\n"@))
    } else {
        first_carrying(traces.drop_first(), needle)
    }
}

fn find_carrying(traces: &Vec<Vec<String>>, needle: &str) -> (r: Option<String>)
    ensures
        r.deep_view() == first_carrying(traces.deep_view(), needle@),
{
    let ghost all = traces.deep_view();
    let mut i: usize = 0;
    proof {
        assert(all.skip(0) =~= all);
    }
    while i < traces.len()
        invariant
            i <= traces@.len(),
            all == traces.deep_view(),
            first_carrying(all, needle@) == first_carrying(all.skip(i as int), needle@),
        decreases traces@.len() - i,
    {
        proof {
            assert(all.skip(i as int)[0] == traces@[i as int].deep_view());
            assert(all.skip(i as int).drop_first() =~= all.skip(i + 1));
        }
        let whole: String = join(&traces[i], "\n");
        if has(whole.as_str(), needle) {
            return Some(whole);
        }
        i = i + 1;
    }
    None
}

/// What the first context of a turn is, the blank one where there was none.
pub open spec fn first_or_blank(drafts: Seq<ShownV>) -> ShownV {
    if drafts.len() > 0 {
        drafts[0]
    } else {
        shown::blank()
    }
}

fn first_shown(drafts: &Vec<Shown>) -> (r: Shown)
    ensures
        r.deep_view() == first_or_blank(drafts.deep_view()),
{
    if drafts.len() > 0 {
        proof {
            assert(drafts.deep_view()[0] == drafts@[0].deep_view());
        }
        drafts[0].clone()
    } else {
        Shown::default()
    }
}

pub open spec fn open_and_search_fails(h: HarnessV, drafts: Seq<ShownV>) -> Seq<Seq<char>> {
    let c = report::counted(h.logs);
    let did = report::reports(h.logs);
    report::unless(
        drafts.len() > 0,
        "the turn never reached the reply model — it ran out of iterations"@,
    ) + click_fails(did, HEAD_CONTROL@) + click_fails(did, SEARCH_CONTROL@) + click_fails(did, RESULT_CONTROL@)
        + report::unless(c.tool_calls == 8, num(c.tool_calls) + " tool calls, want the 8 the task is made of"@)
        + report::unless(
        report::peak_trace(h.traces) <= TRACE_CEILING,
        "the emitter was shown "@ + num(report::peak_trace(h.traces)) + " characters of trace, over the "@ + num(
            TRACE_CEILING,
        ) + " the clip and the fold bound it to; one raw screen read is "@ + text::decimal(desk::tree_text().len()),
    ) + report::unless(
        folded(h.traces),
        "no folded line in any trace: every step was re-sent verbatim"@,
    ) + report::unless(
        c.clipped_chars > 0,
        "nothing was clipped, so this turn measures nothing about the cap"@,
    ) + report::unless(
        c.inspections == 0,
        num(c.inspections) + " inspections for controls already in the shown head"@,
    ) + report::unless(
        c.escalations == 1,
        num(c.escalations) + " escalations; a conversational opener should cost exactly one"@,
    ) + report::unless(
        c.chat_calls == 1,
        num(c.chat_calls) + " calls at the Chat tier, want the single misrouted one"@,
    )
}

/// A turn of eight actions reaches its three controls while what is re-sent on
/// each iteration stays under the ceiling: every result clipped, the older steps
/// folded, nothing looked up that was in sight, and the opener misrouted once.
/// `drafts` are the contexts of the turn.
pub fn desktop_open_and_search(h: &Harness, drafts: &Vec<Shown>, prompt_tokens: u32) -> (r: Ability)
    ensures
        r.deep_view() == report::row_of(
            "desktop open-and-search"@,
            first_or_blank(drafts.deep_view()),
            h.deep_view(),
            prompt_tokens,
            open_and_search_fails(h.deep_view(), drafts.deep_view()),
        ),
{
    let ghost v = h.deep_view();
    let graded: Shown = first_shown(drafts);
    let c: Counters = h.counters();
    let did: Vec<String> = h.outcomes();
    let mut fails: Vec<String> = Vec::new();
    require(
        &mut fails,
        drafts.len() > 0,
        "the turn never reached the reply model — it ran out of iterations".to_owned(),
    );
    require_click(&mut fails, &did, HEAD_CONTROL);
    require_click(&mut fails, &did, SEARCH_CONTROL);
    require_click(&mut fails, &did, RESULT_CONTROL);
    let calls: String = digits(c.tool_calls);
    require(&mut fails, c.tool_calls == 8, cat2(calls.as_str(), " tool calls, want the 8 the task is made of"));
    let peak: usize = h.peak_trace_chars();
    let peaks: String = digits(peak);
    let ceiling: String = digits(TRACE_CEILING);
    let tree: String = control_tree();
    let read: String = digits(chars_of(tree.as_str()).len());
    require(
        &mut fails,
        peak <= TRACE_CEILING,
        cat6(
            "the emitter was shown ",
            peaks.as_str(),
            " characters of trace, over the ",
            ceiling.as_str(),
            " the clip and the fold bound it to; one raw screen read is ",
            read.as_str(),
        ),
    );
    require(
        &mut fails,
        has_fold(&h.traces),
        "no folded line in any trace: every step was re-sent verbatim".to_owned(),
    );
    require(
        &mut fails,
        c.clipped_chars > 0,
        "nothing was clipped, so this turn measures nothing about the cap".to_owned(),
    );
    let looks: String = digits(c.inspections);
    require(
        &mut fails,
        c.inspections == 0,
        cat2(looks.as_str(), " inspections for controls already in the shown head"),
    );
    let rises: String = digits(c.escalations);
    require(
        &mut fails,
        c.escalations == 1,
        cat2(rises.as_str(), " escalations; a conversational opener should cost exactly one"),
    );
    let chats: String = digits(c.chat_calls);
    require(
        &mut fails,
        c.chat_calls == 1,
        cat2(chats.as_str(), " calls at the Chat tier, want the single misrouted one"),
    );
    proof {
        assert(fails.deep_view() =~= open_and_search_fails(v, drafts.deep_view()));
    }
    Ability::build("desktop open-and-search", &graded, h, prompt_tokens, &fails)
}

/// The conditions that the two tasks that name their control share: no prompt is
/// as large as one screen read, and the message is not taken for talk.
pub open spec fn prompt_size_fails(h: HarnessV) -> Seq<Seq<char>> {
    report::unless(
        report::peak_prompt(h.shown) < desk::tree_text().len(),
        "the largest prompt was "@ + num(report::peak_prompt(h.shown)) + " characters against a "@ + text::decimal(
            desk::tree_text().len(),
        ) + "-character screen read"@,
    )
}

pub open spec fn routing_fails(c: Counters) -> Seq<Seq<char>> {
    report::unless(
        c.escalations == 0 && c.chat_calls == 0,
        "a desktop instruction routed to Chat: "@ + num(c.chat_calls) + " calls there, "@ + num(c.escalations)
            + " escalations"@,
    )
}

fn require_prompt_size(fails: &mut Vec<String>, h: &Harness)
    ensures
        final(fails).deep_view() == old(fails).deep_view() + prompt_size_fails(h.deep_view()),
{
    let tree: String = control_tree();
    let size: usize = chars_of(tree.as_str()).len();
    let peak: usize = h.peak_chars();
    let peaks: String = digits(peak);
    let sizes: String = digits(size);
    require(
        fails,
        peak < size,
        cat5(
            "the largest prompt was ",
            peaks.as_str(),
            " characters against a ",
            sizes.as_str(),
            "-character screen read",
        ),
    );
}

fn require_routing(fails: &mut Vec<String>, c: Counters)
    ensures
        final(fails).deep_view() == old(fails).deep_view() + routing_fails(c),
{
    let chats: String = digits(c.chat_calls);
    let rises: String = digits(c.escalations);
    require(
        fails,
        c.escalations == 0 && c.chat_calls == 0,
        cat5(
            "a desktop instruction routed to Chat: ",
            chats.as_str(),
            " calls there, ",
            rises.as_str(),
            " escalations",
        ),
    );
}

pub open spec fn find_and_click_fails(h: HarnessV, drafts: Seq<ShownV>) -> Seq<Seq<char>> {
    let c = report::counted(h.logs);
    click_fails(report::reports(h.logs), HEAD_CONTROL@) + report::unless(
        c.tool_calls == 2,
        num(c.tool_calls) + " tool calls, want a read and a click"@,
    ) + prompt_size_fails(h) + report::unless(
        !shown::is_shown(first_or_blank(drafts), TAIL_CONTROL@),
        "the end of the tree reached the reply prompt: "@ + unicode::quoted(TAIL_CONTROL@),
    ) + report::unless(
        first_carrying(h.traces, TAIL_CONTROL@) is None,
        "the end of the tree reached an emitter prompt"@,
    ) + report::unless(c.clipped_chars > 0, "nothing was clipped, so nothing here is about the cap"@)
        + report::unless(
        c.inspections == 0,
        num(c.inspections) + " inspections for a control the cap kept"@,
    ) + routing_fails(c)
}

/// A control in the part that the cap keeps is reached from one read, and the
/// rest of the screen enters no prompt. `drafts` are the contexts of the turn.
pub fn desktop_find_and_click(h: &Harness, drafts: &Vec<Shown>, prompt_tokens: u32) -> (r: Ability)
    ensures
        r.deep_view() == report::row_of(
            "desktop find-and-click"@,
            first_or_blank(drafts.deep_view()),
            h.deep_view(),
            prompt_tokens,
            find_and_click_fails(h.deep_view(), drafts.deep_view()),
        ),
{
    let graded: Shown = first_shown(drafts);
    let c: Counters = h.counters();
    let did: Vec<String> = h.outcomes();
    let mut fails: Vec<String> = Vec::new();
    require_click(&mut fails, &did, HEAD_CONTROL);
    let calls: String = digits(c.tool_calls);
    require(&mut fails, c.tool_calls == 2, cat2(calls.as_str(), " tool calls, want a read and a click"));
    require_prompt_size(&mut fails, h);
    let tail: String = debug_text(TAIL_CONTROL);
    require(
        &mut fails,
        !graded.shows(TAIL_CONTROL),
        cat2("the end of the tree reached the reply prompt: ", tail.as_str()),
    );
    require(
        &mut fails,
        find_carrying(&h.traces, TAIL_CONTROL).is_none(),
        "the end of the tree reached an emitter prompt".to_owned(),
    );
    require(&mut fails, c.clipped_chars > 0, "nothing was clipped, so nothing here is about the cap".to_owned());
    let looks: String = digits(c.inspections);
    require(&mut fails, c.inspections == 0, cat2(looks.as_str(), " inspections for a control the cap kept"));
    require_routing(&mut fails, c);
    proof {
        assert(fails.deep_view() =~= find_and_click_fails(h.deep_view(), drafts.deep_view()));
    }
    Ability::build("desktop find-and-click", &graded, h, prompt_tokens, &fails)
}

/// The last control's click point.
pub open spec fn tail_point() -> Seq<char> {
    "("@ + text::signed(TAIL_X as int) + ","@ + text::signed(TAIL_Y as int) + ")"@
}

pub open spec fn clipped_tail_fails(h: HarnessV) -> Seq<Seq<char>> {
    let c = report::counted(h.logs);
    report::unless(
        c.inspections >= 1,
        "the tail was reached without inspect_result — the target is not past the cap"@,
    ) + click_fails(report::reports(h.logs), TAIL_CONTROL@) + report::unless(
        c.tool_calls == 3,
        num(c.tool_calls) + " tool calls, want a read, an inspection and a click"@,
    ) + (match first_carrying(h.traces, tail_point()) {
        Some(trace) => report::unless(
            text::contains(trace, "ToolReturned(ok: r"@),
            "the control's point reached a prompt some other way than the handle:\n"@ + trace,
        ),
        None => seq!["no prompt ever carried the control's point"@],
    }) + prompt_size_fails(h) + routing_fails(c)
}

/// A control past the cap is reached through the handle and in no other way.
/// `drafts` are the contexts of the turn.
pub fn desktop_clipped_tail(h: &Harness, drafts: &Vec<Shown>, prompt_tokens: u32) -> (r: Ability)
    ensures
        r.deep_view() == report::row_of(
            "desktop clipped tail"@,
            first_or_blank(drafts.deep_view()),
            h.deep_view(),
            prompt_tokens,
            clipped_tail_fails(h.deep_view()),
        ),
{
    let graded: Shown = first_shown(drafts);
    let c: Counters = h.counters();
    let did: Vec<String> = h.outcomes();
    let mut fails: Vec<String> = Vec::new();
    require(
        &mut fails,
        c.inspections >= 1,
        "the tail was reached without inspect_result — the target is not past the cap".to_owned(),
    );
    require_click(&mut fails, &did, TAIL_CONTROL);
    let calls: String = digits(c.tool_calls);
    require(
        &mut fails,
        c.tool_calls == 3,
        cat2(calls.as_str(), " tool calls, want a read, an inspection and a click"),
    );
    let x: String = signed_number(TAIL_X);
    let y: String = signed_number(TAIL_Y);
    let point: String = cat5("(", x.as_str(), ",", y.as_str(), ")");
    match find_carrying(&h.traces, point.as_str()) {
        Some(trace) => {
            require(
                &mut fails,
                has(trace.as_str(), "ToolReturned(ok: r"),
                cat2("the control's point reached a prompt some other way than the handle:\n", trace.as_str()),
            );
        },
        None => {
            require(&mut fails, false, "no prompt ever carried the control's point".to_owned());
        },
    }
    require_prompt_size(&mut fails, h);
    require_routing(&mut fails, c);
    proof {
        assert(fails.deep_view() =~= clipped_tail_fails(h.deep_view()));
    }
    Ability::build("desktop clipped tail", &graded, h, prompt_tokens, &fails)
}

// ---------------------------------------------------------------------------
// Laws
// ---------------------------------------------------------------------------

/// The third task cannot pass without a look behind the handle: what it reaches
/// would not be past the cap.
pub proof fn the_tail_is_only_reached_by_inspection(h: HarnessV)
    requires
        clipped_tail_fails(h).len() == 0,
    ensures
        report::counted(h.logs).inspections >= 1,
        clicked(report::reports(h.logs), TAIL_CONTROL@),
{
}

/// The first task passes only under the ceiling, with its older steps folded and
/// its results clipped.
pub proof fn the_trace_is_bounded_where_the_first_task_passes(h: HarnessV, drafts: Seq<ShownV>)
    requires
        open_and_search_fails(h, drafts).len() == 0,
    ensures
        report::peak_trace(h.traces) <= TRACE_CEILING,
        folded(h.traces),
        report::counted(h.logs).clipped_chars > 0,
{
}

/// Abstention passes only where the memory had nothing and the invented value
/// was held out of the second draft.
pub proof fn abstention_rests_on_the_harness(drafts: Seq<ShownV>, c: Counters)
    requires
        abstention_fails(drafts, c).len() == 0,
    ensures
        c.recall_hits == 0,
        c.flags == 1,
        drafts.len() == 2,
        !shown::is_shown(drafts[0], "Ostrava"@),
        drafts[1].do_not_state.contains("Ostrava"@),
{
}

/// A fact counts as carried where its line is in the context and holds the value.
pub open spec fn carries(s: ShownV, key: Seq<char>, value: Seq<char>) -> bool {
    shown::line_of(s, key) matches Some(line) && text::contains(line, value)
}

/// When each of the six abilities of memory passes.
pub proof fn when_an_ability_passes(g: ShownV, before: ShownV, drafts: Seq<ShownV>, history: Seq<FactV>, c: Counters)
    requires
        drafts.len() > 0,
    ensures
        extraction_fails(g, c).len() == 0 <==> carries(g, "user.name"@, "Martin"@) && carries(g, "user.age"@, "17"@)
            && carries(g, "user.preference.time_format"@, "24-hour"@) && !text::contains(g.window, "Martin"@)
            && c.recall_calls == 0,
        multi_session_fails(g, c).len() == 0 <==> g.window.len() == 0 && (carries(g, "budget.total"@, "2000 crowns"@)
            || c.recall_hits > 0) && c.clarifications == 0,
        temporal_fails(g).len() == 0 <==> (shown::line_of(g, "user.name"@) matches Some(line) && text::starts(
            line,
            "user.name: \"Peter\" (was \"Martin\" until "@,
        )) && !text::contains(g.window, "Martin"@) && shown::is_shown(g, "Peter"@) && shown::is_shown(g, "Martin"@),
        abstention_fails(drafts, c).len() == 0 <==> c.recall_calls == 1 && c.recall_hits == 0 && text::contains(
            drafts[0].trace,
            "no matches"@,
        ) && !shown::is_shown(drafts[0], "Ostrava"@) && (forall|i: int|
            0 <= i < drafts[0].fact_keys.len() ==> !text::starts(#[trigger] drafts[0].fact_keys[i], "user.city"@)) && c.flags == 1
            && drafts.len() == 2 && drafts[1].do_not_state.contains("Ostrava"@),
        forgetting_fails(before, g, history).len() == 0 <==> shown::is_shown(before, "Martin"@) && !shown::is_shown(
            g,
            "Martin"@,
        ) && shown::line_of(g, "user.name"@) is None && history.len() > 0 && history[0].state == FactState::Forgotten,
{
    assert(any_opens(drafts[0].fact_keys, "user.city"@) <==> !(forall|i: int|
        0 <= i < drafts[0].fact_keys.len() ==> !text::starts(#[trigger] drafts[0].fact_keys[i], "user.city"@)));
}

/// A changed value passes where there is one current version, which holds the new value, one
/// that it replaced and that has an end, one line for the key, and a line whose part in
/// front of the old value says the new one and not the old one.
pub proof fn when_an_update_passes(g: ShownV, history: Seq<FactV>)
    ensures
        updates_fails(g, history).len() == 0 <==> ({
            let current = history.filter(|f: FactV| f.state == FactState::Current);
            let replaced = history.filter(|f: FactV| f.state == FactState::Superseded);
            &&& current.len() == 1 && current[0].value == "\"18\""@
            &&& replaced.len() == 1 && replaced[0].valid_to is Some
            &&& shown::times(g.fact_keys, "user.age"@) == 1
            &&& shown::line_of(g, "user.age"@) matches Some(line) && text::contains(current_part(line), "18"@)
                && !text::contains(current_part(line), "17"@)
        }),
{
    let current = in_state(history, FactState::Current);
    let replaced = in_state(history, FactState::Superseded);
    assert(current =~= history.filter(|f: FactV| f.state == FactState::Current));
    assert(replaced =~= history.filter(|f: FactV| f.state == FactState::Superseded));
}

/// The part in front of the old value is all that stands before it, and the whole line where
/// none is named.
pub proof fn what_stands_before_the_old_value(now: Seq<char>, was: Seq<char>)
    requires
        !text::contains(now + " (was "@.drop_last(), " (was "@),
    ensures
        current_part(now + " (was "@ + was) == now,
        !text::contains(now, " (was "@) ==> current_part(now) == now,
{
    let line = now + " (was "@ + was;
    let n = now.len() as int;
    reveal_strlit(" (was ");
    text::lemma_found_from(line, " (was "@, 0);
    text::lemma_found(now, " (was "@);
    assert(line.subrange(n, n + 6) =~= " (was "@);
    assert(text::occurs_at(line, " (was "@, n));
    let head = now + " (was "@.drop_last();
    assert(text::found(line, " (was "@) == Some(n)) by {
        let i = text::found(line, " (was "@)->0;
        if i < n {
            assert(line.subrange(i, i + 6) == " (was "@);
            assert(head.subrange(i, i + 6) =~= line.subrange(i, i + 6));
            assert(text::occurs_at(head, " (was "@, i));
        }
    }
    assert(line.take(n) =~= now);
}

/// When each of the three tasks on the desktop passes.
pub proof fn when_a_task_passes(h: HarnessV, drafts: Seq<ShownV>)
    ensures
        ({
            let c = report::counted(h.logs);
            let did = report::reports(h.logs);
            let small = report::peak_prompt(h.shown) < desk::tree_text().len();
            let straight = c.escalations == 0 && c.chat_calls == 0;
            &&& open_and_search_fails(h, drafts).len() == 0 <==> drafts.len() > 0 && clicked(did, HEAD_CONTROL@) && clicked(
                did,
                SEARCH_CONTROL@,
            ) && clicked(did, RESULT_CONTROL@) && c.tool_calls == 8 && report::peak_trace(h.traces) <= 6_500 && folded(
                h.traces,
            ) && c.clipped_chars > 0 && c.inspections == 0 && c.escalations == 1 && c.chat_calls == 1
            &&& find_and_click_fails(h, drafts).len() == 0 <==> clicked(did, HEAD_CONTROL@) && c.tool_calls == 2 && small
                && !shown::is_shown(first_or_blank(drafts), TAIL_CONTROL@) && first_carrying(h.traces, TAIL_CONTROL@) is None
                && c.clipped_chars > 0 && c.inspections == 0 && straight
            &&& clipped_tail_fails(h).len() == 0 <==> c.inspections >= 1 && clicked(did, TAIL_CONTROL@) && c.tool_calls == 3
                && (first_carrying(h.traces, tail_point()) matches Some(trace) && text::contains(
                trace,
                "ToolReturned(ok: r"@,
            )) && small && straight
        }),
{
}

/// A click is reported where some report begins with it and names the control.
pub proof fn when_a_click_is_reported(reports: Seq<Seq<char>>, control: Seq<char>)
    ensures
        clicked(reports, control) <==> exists|i: int|
            0 <= i < reports.len() && text::starts(#[trigger] reports[i], "clicked"@) && text::contains(reports[i], control),
{
}

/// A trace is carried by the first that holds the text, its lines put together.
pub proof fn the_first_trace_that_holds_a_text(traces: Seq<Seq<Seq<char>>>, needle: Seq<char>, k: int)
    requires
        0 <= k <= traces.len(),
        forall|j: int| 0 <= j < k ==> !text::contains(text::joined(#[trigger] traces[j], "\n"@), needle),
    ensures
        k == traces.len() ==> first_carrying(traces, needle) is None,
        k < traces.len() && text::contains(text::joined(traces[k], "\n"@), needle) ==> first_carrying(traces, needle) == Some(
            text::joined(traces[k], "\n"@),
        ),
    decreases traces.len(),
{
    if k > 0 {
        let rest = traces.drop_first();
        assert(!text::contains(text::joined(traces[0], "\n"@), needle));
        assert forall|j: int| 0 <= j < k - 1 implies !text::contains(text::joined(#[trigger] rest[j], "\n"@), needle) by {
            assert(rest[j] == traces[j + 1]);
        }
        the_first_trace_that_holds_a_text(rest, needle, k - 1);
    }
}

/// A condition that failed says what was there instead.
pub proof fn a_failed_condition_says_what_was_there(
    s: ShownV,
    key: Seq<char>,
    value: Seq<char>,
    reports: Seq<Seq<char>>,
    control: Seq<char>,
    c: Counters,
)
    ensures
        shown::line_of(s, key) is None ==> value_fails(s, key, value) == seq![key + " was not in the reply context"@],
        shown::line_of(s, key) matches Some(line) && text::contains(line, value) ==> value_fails(s, key, value).len() == 0,
        shown::line_of(s, key) matches Some(line) ==> text::contains(line, value) || value_fails(s, key, value) == seq![
            key + " shown as "@ + unicode::quoted(line) + ", not "@ + unicode::quoted(value),
        ],
        clicked(reports, control) ==> click_fails(reports, control).len() == 0,
        !clicked(reports, control) ==> click_fails(reports, control) == seq![
            unicode::quoted(control) + " was never clicked; the turn did: "@ + quoted_list(reports),
        ],
        routing_fails(c).len() == 0 <==> c.escalations == 0 && c.chat_calls == 0,
        routing_fails(c).len() > 0 ==> routing_fails(c) == seq![
            "a desktop instruction routed to Chat: "@ + text::decimal(c.chat_calls as nat) + " calls there, "@ + text::decimal(
                c.escalations as nat,
            ) + " escalations"@,
        ],
{
}

/// A state, and a list, are named as they are.
pub proof fn how_reasons_name_things(a: Seq<char>, b: Seq<char>)
    ensures
        state_named(None) == "None"@ && state_named(Some(FactState::Current)) == "Some(Current)"@,
        state_named(Some(FactState::Cold)) == "Some(Cold)"@ && state_named(Some(FactState::Superseded)) == "Some(Superseded)"@,
        state_named(Some(FactState::Forgotten)) == "Some(Forgotten)"@,
        value_named(None) == "None"@,
        json::json_debug(a) is None ==> value_named(Some(a)) == "Some("@ + a + ")"@,
        json::json_debug(a) matches Some(named) ==> value_named(Some(a)) == "Some("@ + named + ")"@,
        quoted_list(seq![a, b]) == "["@ + (unicode::quoted(a) + ", "@ + unicode::quoted(b)) + "]"@,
{
    let list = Seq::new(seq![a, b].len(), |i: int| unicode::quoted(seq![a, b][i]));
    assert(list =~= seq![unicode::quoted(a), unicode::quoted(b)]);
    assert(list.drop_first().len() == 1 && list.drop_first()[0] == unicode::quoted(b));
    assert(list.drop_last() =~= seq![unicode::quoted(a)]);
    assert(seq![unicode::quoted(a)].drop_last() =~= seq![]);
    reveal_with_fuel(text::joined, 3);
}

/// A list that says why, unless all is well.
pub open spec fn told(fails: Seq<Seq<char>>, well: bool, why: Seq<char>) -> bool {
    well || fails.contains(why)
}

/// Every condition of an ability of memory that failed is told, with what was there.
pub proof fn every_failed_condition_of_memory_is_told(
    g: ShownV,
    before: ShownV,
    drafts: Seq<ShownV>,
    history: Seq<FactV>,
    c: Counters,
)
    requires
        drafts.len() > 0,
    ensures
        ({
            let f = extraction_fails(g, c);
            &&& told(
                f,
                !text::contains(g.window, "Martin"@),
                "turn 1 is still in the window, so this proves nothing about facts"@,
            )
            &&& told(
                f,
                c.recall_calls == 0,
                text::decimal(c.recall_calls as nat) + " recall calls; pinned facts should need none"@,
            )
        }),
        ({
            let f = multi_session_fails(g, c);
            &&& told(f, g.window.len() == 0, "session two already had a window: "@ + unicode::quoted(g.window))
            &&& told(
                f,
                carries(g, "budget.total"@, "2000 crowns"@) || c.recall_hits > 0,
                "neither facts nor recall carried the budget into session two; facts were "@ + quoted_list(g.facts),
            )
            &&& told(
                f,
                c.clarifications == 0,
                text::decimal(c.clarifications as nat) + " clarification(s) asked instead of answering"@,
            )
        }),
        ({
            let f = temporal_fails(g);
            &&& told(f, shown::line_of(g, "user.name"@) is Some, "user.name was not in the reply context"@)
            &&& shown::line_of(g, "user.name"@) matches Some(line) ==> told(
                f,
                text::starts(line, "user.name: \"Peter\" (was \"Martin\" until "@),
                "superseded value not rendered: "@ + unicode::quoted(line),
            )
            &&& told(
                f,
                !text::contains(g.window, "Martin"@),
                "turn 1 is still in the window; the marker is not carrying the old value"@,
            )
            &&& told(
                f,
                shown::is_shown(g, "Peter"@) && shown::is_shown(g, "Martin"@),
                "both values must be in the context for the answer to name both"@,
            )
        }),
        ({
            let f = abstention_fails(drafts, c);
            let first = drafts[0];
            &&& told(f, c.recall_calls == 1, text::decimal(c.recall_calls as nat) + " recall calls, want 1"@)
            &&& told(
                f,
                c.recall_hits == 0,
                "recall returned "@ + text::decimal(c.recall_hits as nat) + " hits for a fact never stated"@,
            )
            &&& told(
                f,
                text::contains(first.trace, "no matches"@),
                "the reply model was not told the search found nothing: "@ + unicode::quoted(first.trace),
            )
            &&& told(
                f,
                !shown::is_shown(first, "Ostrava"@),
                "the context already carried a city; abstention is untestable here"@,
            )
            &&& told(
                f,
                !any_opens(first.fact_keys, "user.city"@),
                "a city fact reached the context: "@ + quoted_list(first.fact_keys),
            )
            &&& told(
                f,
                c.flags == 1,
                text::decimal(c.flags as nat) + " interceptor flags, want 1 for the invented value"@,
            )
            &&& told(
                f,
                drafts.len() == 2,
                text::decimal(drafts.len()) + " drafts; the flagged reply was not regenerated"@,
            )
            &&& drafts.len() > 1 ==> told(
                f,
                drafts[1].do_not_state.contains("Ostrava"@),
                "the regeneration was not told what to drop: "@ + quoted_list(drafts[1].do_not_state),
            )
        }),
        ({
            let f = forgetting_fails(before, g, history);
            &&& told(
                f,
                shown::is_shown(before, "Martin"@),
                "the value was already absent before the forget; nothing was forgotten"@,
            )
            &&& told(f, !shown::is_shown(g, "Martin"@), "the forgotten value is still in the prompt:\n"@ + g.prompt)
            &&& told(
                f,
                shown::line_of(g, "user.name"@) is None,
                "user.name is still a fact in the context: "@ + quoted_list(g.facts),
            )
            &&& told(
                f,
                history.len() > 0 && history[0].state == FactState::Forgotten,
                "the row was not soft-deleted: "@ + state_named(
                    if history.len() > 0 {
                        Some(history[0].state)
                    } else {
                        None
                    },
                ),
            )
        }),
{
    broadcast use vstd::seq_lib::group_seq_properties;

    lemma_unless();
}

proof fn lemma_unless()
    ensures
        forall|why: Seq<char>| #[trigger] report::unless(false, why).contains(why),
{
    assert forall|why: Seq<char>| #[trigger] report::unless(false, why).contains(why) by {
        assert(report::unless(false, why)[0] == why);
    }
}

/// Every condition of a changed value that failed is told, with what was there.
pub proof fn every_failed_condition_of_an_update_is_told(g: ShownV, history: Seq<FactV>)
    ensures
        ({
            let f = updates_fails(g, history);
            let current = in_state(history, FactState::Current);
            let replaced = in_state(history, FactState::Superseded);
            let value = if current.len() > 0 {
                Some(current[0].value)
            } else {
                None
            };
            let times = shown::times(g.fact_keys, "user.age"@);
            &&& told(f, current.len() == 1, text::decimal(current.len()) + " current rows for user.age, want 1"@)
            &&& told(f, value == Some("\"18\""@), "current value is "@ + value_named(value) + ", want \"18\""@)
            &&& told(
                f,
                replaced.len() == 1 && replaced[0].valid_to is Some,
                text::decimal(replaced.len()) + " superseded rows with a valid_to, want 1"@,
            )
            &&& told(
                f,
                times == 1,
                text::decimal(times) + " user.age lines in the context — ghost mixing: "@ + quoted_list(g.facts),
            )
            &&& told(f, shown::line_of(g, "user.age"@) is Some, "user.age was not in the reply context"@)
            &&& shown::line_of(g, "user.age"@) matches Some(line) ==> told(
                f,
                text::contains(current_part(line), "18"@) && !text::contains(current_part(line), "17"@),
                "the current value reads "@ + unicode::quoted(current_part(line)) + ", want just the new age"@,
            )
        }),
{
    broadcast use vstd::seq_lib::group_seq_properties;

    lemma_unless();
}

/// Every condition of a task on the desktop that failed is told, with what was there.
pub proof fn every_failed_condition_of_a_task_is_told(h: HarnessV, drafts: Seq<ShownV>)
    ensures
        ({
            let c = report::counted(h.logs);
            let f = open_and_search_fails(h, drafts);
            let peak = report::peak_trace(h.traces);
            &&& told(
                f,
                drafts.len() > 0,
                "the turn never reached the reply model — it ran out of iterations"@,
            )
            &&& told(
                f,
                c.tool_calls == 8,
                text::decimal(c.tool_calls as nat) + " tool calls, want the 8 the task is made of"@,
            )
            &&& told(
                f,
                peak <= 6_500,
                "the emitter was shown "@ + text::decimal(peak as nat) + " characters of trace, over the "@ + text::decimal(
                    6_500,
                ) + " the clip and the fold bound it to; one raw screen read is "@ + text::decimal(desk::tree_text().len()),
            )
            &&& told(f, folded(h.traces), "no folded line in any trace: every step was re-sent verbatim"@)
            &&& told(f, c.clipped_chars > 0, "nothing was clipped, so this turn measures nothing about the cap"@)
            &&& told(
                f,
                c.inspections == 0,
                text::decimal(c.inspections as nat) + " inspections for controls already in the shown head"@,
            )
            &&& told(
                f,
                c.escalations == 1,
                text::decimal(c.escalations as nat) + " escalations; a conversational opener should cost exactly one"@,
            )
            &&& told(
                f,
                c.chat_calls == 1,
                text::decimal(c.chat_calls as nat) + " calls at the Chat tier, want the single misrouted one"@,
            )
        }),
        ({
            let c = report::counted(h.logs);
            let f = find_and_click_fails(h, drafts);
            &&& told(f, c.tool_calls == 2, text::decimal(c.tool_calls as nat) + " tool calls, want a read and a click"@)
            &&& told(
                f,
                !shown::is_shown(first_or_blank(drafts), TAIL_CONTROL@),
                "the end of the tree reached the reply prompt: "@ + unicode::quoted(TAIL_CONTROL@),
            )
            &&& told(
                f,
                first_carrying(h.traces, TAIL_CONTROL@) is None,
                "the end of the tree reached an emitter prompt"@,
            )
            &&& told(f, c.clipped_chars > 0, "nothing was clipped, so nothing here is about the cap"@)
            &&& told(
                f,
                c.inspections == 0,
                text::decimal(c.inspections as nat) + " inspections for a control the cap kept"@,
            )
        }),
        ({
            let c = report::counted(h.logs);
            let f = clipped_tail_fails(h);
            let carried = first_carrying(h.traces, tail_point());
            &&& told(
                f,
                c.inspections >= 1,
                "the tail was reached without inspect_result — the target is not past the cap"@,
            )
            &&& told(
                f,
                c.tool_calls == 3,
                text::decimal(c.tool_calls as nat) + " tool calls, want a read, an inspection and a click"@,
            )
            &&& told(f, carried is Some, "no prompt ever carried the control's point"@)
            &&& carried matches Some(trace) ==> told(
                f,
                text::contains(trace, "ToolReturned(ok: r"@),
                "the control's point reached a prompt some other way than the handle:\n"@ + trace,
            )
        }),
        told(
            prompt_size_fails(h),
            report::peak_prompt(h.shown) < desk::tree_text().len(),
            "the largest prompt was "@ + text::decimal(report::peak_prompt(h.shown) as nat) + " characters against a "@
                + text::decimal(desk::tree_text().len()) + "-character screen read"@,
        ),
{
    broadcast use vstd::seq_lib::group_seq_properties;

    lemma_unless();
}

} // verus!
