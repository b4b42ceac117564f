//! Grounding: what a reply claims, and whether what the model was shown
//! supports it.

use vstd::prelude::*;

use crate::contexts::{ReplyContext, ReplyContextV, ShownFact, ShownFactV, ShownNoteV, ShownRecordV};
use crate::json;
use crate::json::value_text;
use crate::text;
use crate::text::{
    cat2, chars_of, ends_with, has, join, listed, number, same, split_words, starts_with, strip_edges_of,
    strip_prefix, text_of, trim, Sort,
};
use crate::unicode;

verus! {

// ---------------------------------------------------------------------------
// Claims
// ---------------------------------------------------------------------------

/// Capitalised words that begin clauses or fill them, and claim nothing.
pub open spec fn stop_word(w: Seq<char>) -> bool {
    ||| w == "i"@ || w == "i'm"@ || w == "i'll"@ || w == "i've"@ || w == "i'd"@ || w == "ok"@
    ||| w == "okay"@ || w == "hello"@ || w == "hi"@ || w == "hey"@ || w == "sure"@ || w == "yes"@
    ||| w == "no"@ || w == "thanks"@ || w == "thank"@ || w == "sorry"@ || w == "please"@ || w == "great"@
    ||| w == "good"@ || w == "fine"@ || w == "right"@ || w == "well"@ || w == "also"@ || w == "and"@
    ||| w == "but"@ || w == "or"@ || w == "if"@ || w == "so"@ || w == "then"@ || w == "now"@
    ||| w == "here"@ || w == "there"@ || w == "what"@ || w == "which"@ || w == "who"@ || w == "when"@
    ||| w == "where"@ || w == "why"@ || w == "how"@ || w == "let"@ || w == "let's"@ || w == "you"@
    ||| w == "your"@ || w == "yours"@ || w == "the"@ || w == "a"@ || w == "an"@ || w == "it"@
    ||| w == "it's"@ || w == "this"@ || w == "that"@ || w == "these"@ || w == "those"@ || w == "we"@
    ||| w == "our"@ || w == "me"@ || w == "my"@ || w == "mine"@ || w == "he"@ || w == "she"@
    ||| w == "they"@ || w == "them"@ || w == "do"@ || w == "does"@ || w == "did"@ || w == "can"@
    ||| w == "could"@ || w == "would"@ || w == "should"@ || w == "will"@ || w == "is"@ || w == "are"@
    ||| w == "was"@ || w == "were"@ || w == "not"@ || w == "nothing"@ || w == "none"@ || w == "just"@
    ||| w == "only"@ || w == "today"@ || w == "tomorrow"@ || w == "yesterday"@ || w == "am"@ || w == "pm"@
    ||| w == "utc"@
}

fn is_stop_word(w: &str) -> (r: bool)
    ensures
        r == stop_word(w@),
{
    same(w, "i") || same(w, "i'm") || same(w, "i'll") || same(w, "i've") || same(w, "i'd") || same(w, "ok")
        || same(w, "okay") || same(w, "hello") || same(w, "hi") || same(w, "hey") || same(w, "sure") || same(w, "yes")
        || same(w, "no") || same(w, "thanks") || same(w, "thank") || same(w, "sorry") || same(w, "please") || same(w, "great")
        || same(w, "good") || same(w, "fine") || same(w, "right") || same(w, "well") || same(w, "also") || same(w, "and")
        || same(w, "but") || same(w, "or") || same(w, "if") || same(w, "so") || same(w, "then") || same(w, "now")
        || same(w, "here") || same(w, "there") || same(w, "what") || same(w, "which") || same(w, "who") || same(w, "when")
        || same(w, "where") || same(w, "why") || same(w, "how") || same(w, "let") || same(w, "let's") || same(w, "you")
        || same(w, "your") || same(w, "yours") || same(w, "the") || same(w, "a") || same(w, "an") || same(w, "it")
        || same(w, "it's") || same(w, "this") || same(w, "that") || same(w, "these") || same(w, "those") || same(w, "we")
        || same(w, "our") || same(w, "me") || same(w, "my") || same(w, "mine") || same(w, "he") || same(w, "she")
        || same(w, "they") || same(w, "them") || same(w, "do") || same(w, "does") || same(w, "did") || same(w, "can")
        || same(w, "could") || same(w, "would") || same(w, "should") || same(w, "will") || same(w, "is") || same(w, "are")
        || same(w, "was") || same(w, "were") || same(w, "not") || same(w, "nothing") || same(w, "none") || same(w, "just")
        || same(w, "only") || same(w, "today") || same(w, "tomorrow") || same(w, "yesterday") || same(w, "am") || same(w, "pm")
        || same(w, "utc")
}

/// The characters that open or close a quotation.
pub open spec fn quote_mark(c: char) -> bool {
    c == '"' || c == '\u{201C}' || c == '\u{201D}' || c == '\u{201E}' || c == '\u{2018}' || c == '\u{2019}'
}

fn is_quote_mark(c: char) -> (r: bool)
    ensures
        r == quote_mark(c),
{
    c == '"' || c == '\u{201C}' || c == '\u{201D}' || c == '\u{201E}' || c == '\u{2018}' || c == '\u{2019}'
}

/// `claims` with one more, unless it is empty or already there.
pub open spec fn with_claim(claims: Seq<Seq<char>>, c: Seq<char>) -> Seq<Seq<char>> {
    if c.len() == 0 || claims.contains(c) {
        claims
    } else {
        claims.push(c)
    }
}

fn push_claim(claims: &mut Vec<String>, c: String)
    ensures
        final(claims).deep_view() == with_claim(old(claims).deep_view(), c@),
{
    if !c.as_str().is_empty() && !listed(claims, c.as_str()) {
        let ghost before = claims.deep_view();
        claims.push(c);
        proof {
            assert(claims.deep_view() =~= before.push(c@));
        }
    }
}

/// Some character of `s` is a letter or a number.
pub open spec fn some_alnum(s: Seq<char>) -> bool {
    exists|i: int| 0 <= i < s.len() && unicode::alphanumeric(#[trigger] s[i])
}

fn has_alnum(s: &str) -> (r: bool)
    ensures
        r == some_alnum(s@),
{
    let cs: Vec<char> = chars_of(s);
    let mut i: usize = 0;
    while i < cs.len()
        invariant
            i <= cs@.len(),
            cs@ == s@,
            forall|k: int| 0 <= k < i ==> !unicode::alphanumeric(#[trigger] cs@[k]),
        decreases cs@.len() - i,
    {
        if cs[i].is_alphanumeric() {
            return true;
        }
        i = i + 1;
    }
    false
}

/// What a scan for quotations has found: the claims so far, and the quotation
/// that is open.
pub struct QuotesV {
    pub claims: Seq<Seq<char>>,
    pub open: Option<Seq<char>>,
}

/// One character more. A mark closes an open quotation, which is a claim where
/// it holds at least two characters and a letter or number, or opens one.
pub open spec fn quote_step(q: QuotesV, c: char) -> QuotesV {
    if quote_mark(c) {
        match q.open {
            Some(s) => {
                let t = text::trimmed(s);
                QuotesV {
                    claims: if t.len() >= 2 && some_alnum(t) {
                        with_claim(q.claims, t)
                    } else {
                        q.claims
                    },
                    open: None,
                }
            },
            None => QuotesV { open: Some(seq![]), ..q },
        }
    } else {
        QuotesV {
            open: match q.open {
                Some(s) => Some(s.push(c)),
                None => None,
            },
            ..q
        }
    }
}

pub open spec fn quotes(s: Seq<char>) -> QuotesV
    decreases s.len(),
{
    if s.len() == 0 {
        QuotesV { claims: seq![], open: None }
    } else {
        quote_step(quotes(s.drop_last()), s.last())
    }
}

fn quoted_claims(reply: &str) -> (r: Vec<String>)
    ensures
        r.deep_view() == quotes(reply@).claims,
{
    let cs: Vec<char> = chars_of(reply);
    let mut out: Vec<String> = Vec::new();
    let mut open: Option<String> = None;
    let mut i: usize = 0;
    proof {
        assert(cs@.take(0) =~= seq![]);
        assert(out.deep_view() =~= seq![]);
    }
    while i < cs.len()
        invariant
            i <= cs@.len(),
            out.deep_view() == quotes(cs@.take(i as int)).claims,
            open.deep_view() == quotes(cs@.take(i as int)).open,
        decreases cs@.len() - i,
    {
        let c: char = cs[i];
        proof {
            assert(cs@.take(i + 1).drop_last() =~= cs@.take(i as int));
            assert(cs@.take(i + 1).last() == c);
        }
        if is_quote_mark(c) {
            match open.take() {
                Some(s) => {
                    let t: String = trim(s.as_str());
                    if chars_of(t.as_str()).len() >= 2 && has_alnum(t.as_str()) {
                        push_claim(&mut out, t);
                    }
                },
                None => {
                    let fresh: String = String::new();
                    proof {
                        assert(fresh@ =~= seq![]);
                    }
                    open = Some(fresh);
                },
            }
        } else {
            match open.take() {
                Some(mut s) => {
                    s.push(c);
                    open = Some(s);
                },
                None => {},
            }
        }
        i = i + 1;
    }
    proof {
        assert(cs@.take(cs@.len() as int) =~= cs@);
    }
    out
}

/// How many ASCII digits a text has.
pub open spec fn digit_count(s: Seq<char>) -> nat
    decreases s.len(),
{
    if s.len() == 0 {
        0
    } else {
        digit_count(s.drop_last()) + if text::is_digit(s.last()) { 1nat } else { 0nat }
    }
}

pub fn digits(s: &str) -> (r: usize)
    ensures
        r == digit_count(s@),
{
    let cs: Vec<char> = chars_of(s);
    let mut n: usize = 0;
    let mut i: usize = 0;
    proof {
        assert(cs@.take(0) =~= seq![]);
    }
    while i < cs.len()
        invariant
            i <= cs@.len(),
            n == digit_count(cs@.take(i as int)),
            n <= i,
        decreases cs@.len() - i,
    {
        proof {
            assert(cs@.take(i + 1).drop_last() =~= cs@.take(i as int));
        }
        if '0' <= cs[i] && cs[i] <= '9' {
            n = n + 1;
        }
        i = i + 1;
    }
    proof {
        assert(cs@.take(cs@.len() as int) =~= cs@);
    }
    n
}

/// A token without the punctuation around it.
pub fn strip_edges(token: &str) -> (r: String)
    ensures
        r@ == text::without_edges(token@, Sort::Alnum, false),
{
    strip_edges_of(token, Sort::Alnum, false)
}

/// No character of `s` is a lowercase letter.
pub open spec fn no_lowercase(s: Seq<char>) -> bool {
    forall|i: int| 0 <= i < s.len() ==> !unicode::lowercase(#[trigger] s[i])
}

fn lacks_lowercase(s: &str) -> (r: bool)
    ensures
        r == no_lowercase(s@),
{
    let cs: Vec<char> = chars_of(s);
    let mut i: usize = 0;
    while i < cs.len()
        invariant
            i <= cs@.len(),
            cs@ == s@,
            forall|k: int| 0 <= k < i ==> !unicode::lowercase(#[trigger] cs@[k]),
        decreases cs@.len() - i,
    {
        if cs[i].is_lowercase() {
            return false;
        }
        i = i + 1;
    }
    true
}

/// The word ends a sentence.
pub open spec fn closes_sentence(raw: Seq<char>) -> bool {
    raw.len() > 0 && (raw.last() == '.' || raw.last() == '!' || raw.last() == '?' || raw.last() == ':')
}

fn ends_sentence(raw: &str) -> (r: bool)
    ensures
        r == closes_sentence(raw@),
{
    let cs: Vec<char> = chars_of(raw);
    if cs.len() == 0 {
        return false;
    }
    let c: char = cs[cs.len() - 1];
    c == '.' || c == '!' || c == '?' || c == ':'
}

/// The word without a possessive ending.
pub open spec fn base_of(token: Seq<char>) -> Seq<char> {
    if text::ends(token, "'s"@) {
        token.take(token.len() - 2)
    } else {
        token
    }
}

fn without_possessive(token: &str) -> (r: String)
    ensures
        r@ == base_of(token@),
{
    if ends_with(token, "'s") {
        proof {
            reveal_strlit("'s");
        }
        let cs: Vec<char> = chars_of(token);
        let r: String = text_of(&cs, 0, cs.len() - 2);
        proof {
            assert(cs@.subrange(0, cs@.len() - 2) =~= token@.take(token@.len() - 2));
        }
        r
    } else {
        token.to_owned()
    }
}

/// What a token claims: a number of at least two digits, or a capitalised word
/// that neither begins a sentence nor is all capitals nor is a filler.
pub open spec fn token_claim(token: Seq<char>, sentence_start: bool) -> Option<Seq<char>> {
    if token.len() == 0 {
        None
    } else if digit_count(token) >= 2 {
        Some(token)
    } else {
        let base = base_of(token);
        if unicode::uppercase(token[0]) && !sentence_start && !no_lowercase(token) && base.len() >= 3
            && !stop_word(unicode::lowered(base)) {
            Some(base)
        } else {
            None
        }
    }
}

fn claim_of(token: &str, sentence_start: bool) -> (r: Option<String>)
    ensures
        r.deep_view() == token_claim(token@, sentence_start),
{
    if token.is_empty() {
        return None;
    }
    if digits(token) >= 2 {
        return Some(token.to_owned());
    }
    let cs: Vec<char> = chars_of(token);
    let base: String = without_possessive(token);
    if cs[0].is_uppercase() && !sentence_start && !lacks_lowercase(token) && chars_of(base.as_str()).len() >= 3 {
        let lower: String = base.as_str().to_lowercase();
        if is_stop_word(lower.as_str()) {
            None
        } else {
            Some(base)
        }
    } else {
        None
    }
}

/// What a scan of words has found: the claims so far, and whether the next word
/// begins a sentence.
pub struct WordsV {
    pub claims: Seq<Seq<char>>,
    pub start: bool,
}

/// One word more. Punctuation alone does not end the start of a sentence.
pub open spec fn word_step(w: WordsV, raw: Seq<char>) -> WordsV {
    let token = text::without_edges(raw, Sort::Alnum, false);
    if token.len() == 0 {
        WordsV { start: w.start || closes_sentence(raw), ..w }
    } else {
        WordsV {
            claims: match token_claim(token, w.start) {
                Some(c) => with_claim(w.claims, c),
                None => w.claims,
            },
            start: closes_sentence(raw),
        }
    }
}

pub open spec fn scan_words(claims: Seq<Seq<char>>, words: Seq<Seq<char>>) -> WordsV
    decreases words.len(),
{
    if words.len() == 0 {
        WordsV { claims, start: true }
    } else {
        word_step(scan_words(claims, words.drop_last()), words.last())
    }
}

/// The claims of a reply: its quotations, then its numbers and names.
pub open spec fn claims_of(reply: Seq<char>) -> Seq<Seq<char>> {
    scan_words(quotes(reply).claims, text::words_of(reply)).claims
}

/// Claims worth checking, in order of appearance and without repetition:
/// quotations, numbers with at least two digits, and capitalised words inside a
/// sentence.
pub fn extract_claims(reply: &str) -> (r: Vec<String>)
    ensures
        r.deep_view() == claims_of(reply@),
{
    let mut out: Vec<String> = quoted_claims(reply);
    let words: Vec<String> = split_words(reply);
    let ghost all = words.deep_view();
    let ghost found = out.deep_view();
    let mut start: bool = true;
    let mut i: usize = 0;
    proof {
        assert(all.take(0) =~= seq![]);
    }
    while i < words.len()
        invariant
            i <= words@.len(),
            all == words.deep_view(),
            out.deep_view() == scan_words(found, all.take(i as int)).claims,
            start == scan_words(found, all.take(i as int)).start,
        decreases words@.len() - i,
    {
        proof {
            assert(all.take(i + 1).drop_last() =~= all.take(i as int));
            assert(all.take(i + 1).last() == words@[i as int]@);
        }
        let raw: &str = words[i].as_str();
        let token: String = strip_edges(raw);
        let ends: bool = ends_sentence(raw);
        if token.as_str().is_empty() {
            start = start || ends;
        } else {
            if let Some(c) = claim_of(token.as_str(), start) {
                push_claim(&mut out, c);
            }
            start = ends;
        }
        i = i + 1;
    }
    proof {
        assert(all.take(all.len() as int) =~= all);
    }
    out
}

// ---------------------------------------------------------------------------
// Material
// ---------------------------------------------------------------------------

/// Everything that the reply model was shown, in lower case.
#[derive(Debug)]
pub struct Material {
    text: String,
}

impl View for Material {
    type V = Seq<char>;

    closed spec fn view(&self) -> Seq<char> {
        self.text@
    }
}

/// The parts in lower case, one per line.
pub open spec fn material_of(parts: Seq<Seq<char>>) -> Seq<char> {
    text::joined(Seq::new(parts.len(), |i: int| unicode::lowered(parts[i])), "\n"@)
}

/// The material holds the claim, case aside; the empty claim is held by nothing.
pub open spec fn supports(material: Seq<char>, claim: Seq<char>) -> bool {
    claim.len() > 0 && text::contains(material, unicode::lowered(claim))
}

impl Material {
    pub fn from_parts(parts: &[&str]) -> (r: Self)
        ensures
            r@ == material_of(parts.deep_view()),
    {
        let mut lowered: Vec<String> = Vec::new();
        let mut i: usize = 0;
        while i < parts.len()
            invariant
                i <= parts@.len(),
                lowered@.len() == i,
                forall|k: int| 0 <= k < i ==> (#[trigger] lowered@[k])@ == unicode::lowered(parts@[k]@),
            decreases parts@.len() - i,
        {
            lowered.push(parts[i].to_lowercase());
            i = i + 1;
        }
        proof {
            let ps = parts.deep_view();
            assert(lowered.deep_view() =~= Seq::new(ps.len(), |i: int| unicode::lowered(ps[i])));
        }
        Material { text: join(&lowered, "\n") }
    }

    pub fn contains(&self, claim: &str) -> (r: bool)
        ensures
            r == supports(self@, claim@),
            unicode::lowered(unicode::lowered(claim@)) == unicode::lowered(claim@) ==> r == supports(
                self@,
                unicode::lowered(claim@),
            ),
    {
        let needle: String = claim.to_lowercase();
        !needle.as_str().is_empty() && has(self.text.as_str(), needle.as_str())
    }
}

/// The claims of a reply that the material does not support.
pub open spec fn unsupported(claims: Seq<Seq<char>>, material: Seq<char>) -> Seq<Seq<char>>
    decreases claims.len(),
{
    if claims.len() == 0 {
        seq![]
    } else {
        let rest = unsupported(claims.drop_last(), material);
        if supports(material, claims.last()) {
            rest
        } else {
            rest.push(claims.last())
        }
    }
}

pub fn ungrounded(reply: &str, material: &Material) -> (r: Vec<String>)
    ensures
        r.deep_view() == unsupported(claims_of(reply@), material@),
{
    let claims: Vec<String> = extract_claims(reply);
    let ghost all = claims.deep_view();
    let mut out: Vec<String> = Vec::new();
    let mut i: usize = 0;
    proof {
        assert(all.take(0) =~= seq![]);
        assert(out.deep_view() =~= seq![]);
    }
    while i < claims.len()
        invariant
            i <= claims@.len(),
            all == claims.deep_view(),
            out.deep_view() == unsupported(all.take(i as int), material@),
        decreases claims@.len() - i,
    {
        proof {
            assert(all.take(i + 1).drop_last() =~= all.take(i as int));
            assert(all.take(i + 1).last() == claims@[i as int]@);
        }
        if !material.contains(claims[i].as_str()) {
            let ghost before = out.deep_view();
            out.push(claims[i].clone());
            proof {
                assert(out.deep_view() =~= before.push(claims@[i as int]@));
            }
        }
        i = i + 1;
    }
    proof {
        assert(all.take(all.len() as int) =~= all);
    }
    out
}

// ---------------------------------------------------------------------------
// The parts of a prompt
// ---------------------------------------------------------------------------

/// The first `n` facts, each under its key.
pub open spec fn fact_parts(facts: Seq<ShownFactV>) -> Seq<(Seq<char>, Seq<char>)> {
    Seq::new(facts.len(), |i: int| ("fact:"@ + facts[i].key, facts[i].rendered))
}

/// The window by turn; an empty window is one empty part.
pub open spec fn window_parts(window: Seq<ShownRecordV>) -> Seq<(Seq<char>, Seq<char>)> {
    if window.len() == 0 {
        seq![("window"@, seq![])]
    } else {
        Seq::new(
            window.len(),
            |i: int| ("window:"@ + text::decimal(window[i].turn as nat), window[i].rendered),
        )
    }
}

pub open spec fn guidance_parts(notes: Seq<ShownNoteV>) -> Seq<(Seq<char>, Seq<char>)> {
    Seq::new(notes.len(), |i: int| ("guidance:"@ + notes[i].hash, notes[i].text))
}

pub open spec fn obligation_parts(obligations: Seq<Seq<char>>) -> Seq<(Seq<char>, Seq<char>)> {
    Seq::new(obligations.len(), |i: int| ("obligations"@, obligations[i]))
}

/// Every block of the reply prompt but the user's own message, each under the
/// name that a citation gives it.
pub open spec fn parts_of(ctx: ReplyContextV) -> Seq<(Seq<char>, Seq<char>)> {
    seq![("persona"@, ctx.persona), ("trace"@, ctx.turn_trace)] + fact_parts(ctx.facts) + (match ctx.summary {
        Some(s) => seq![("summary"@, s.rendered)],
        None => seq![],
    }) + window_parts(ctx.window) + guidance_parts(ctx.guidance) + obligation_parts(ctx.obligations)
}

pub fn reference_parts(ctx: &ReplyContext) -> (r: Vec<(String, String)>)
    ensures
        r.deep_view() == parts_of(ctx.deep_view()),
{
    let ghost v = ctx.deep_view();
    let mut parts: Vec<(String, String)> = Vec::new();
    parts.push(("persona".to_owned(), ctx.persona.clone()));
    parts.push(("trace".to_owned(), ctx.turn_trace.clone()));
    let ghost base = seq![("persona"@, v.persona), ("trace"@, v.turn_trace)];
    proof {
        assert(parts.deep_view() =~= base);
        assert(base + fact_parts(v.facts).take(0) =~= base);
    }
    let mut i: usize = 0;
    while i < ctx.facts.len()
        invariant
            i <= ctx.facts@.len(),
            v == ctx.deep_view(),
            parts.deep_view() == base + fact_parts(v.facts).take(i as int),
        decreases ctx.facts@.len() - i,
    {
        let ghost before = parts.deep_view();
        assert(v.facts[i as int] == ctx.facts@[i as int].deep_view());
        let one: (String, String) = (cat2("fact:", ctx.facts[i].key.as_str()), ctx.facts[i].rendered.clone());
        parts.push(one);
        proof {
            assert(parts.deep_view() =~= before.push(one.deep_view()));
            assert(fact_parts(v.facts).take(i + 1) =~= fact_parts(v.facts).take(i as int).push(
                fact_parts(v.facts)[i as int],
            ));
            assert(base + fact_parts(v.facts).take(i + 1) =~= before.push(fact_parts(v.facts)[i as int]));
        }
        i = i + 1;
    }
    proof {
        assert(fact_parts(v.facts).take(v.facts.len() as int) =~= fact_parts(v.facts));
    }
    let ghost base2 = base + fact_parts(v.facts) + (match v.summary {
        Some(s) => seq![("summary"@, s.rendered)],
        None => seq![],
    });
    if let Some(s) = &ctx.summary {
        let ghost before = parts.deep_view();
        let one: (String, String) = ("summary".to_owned(), s.rendered.clone());
        parts.push(one);
        proof {
            assert(parts.deep_view() =~= before.push(one.deep_view()));
            assert(parts.deep_view() =~= base2);
        }
    } else {
        proof {
            assert(parts.deep_view() =~= base2);
        }
    }
    if ctx.window.len() == 0 {
        let ghost before = parts.deep_view();
        let one: (String, String) = ("window".to_owned(), String::new());
        parts.push(one);
        proof {
            assert(one.1@ =~= seq![]);
            assert(parts.deep_view() =~= before.push(one.deep_view()));
            assert(parts.deep_view() =~= base2 + window_parts(v.window));
        }
    } else {
        let ghost ws = window_parts(v.window);
        proof {
            assert(base2 + ws.take(0) =~= base2);
        }
        let mut j: usize = 0;
        while j < ctx.window.len()
            invariant
                j <= ctx.window@.len(),
                ctx.window@.len() > 0,
                v == ctx.deep_view(),
                ws == window_parts(v.window),
                parts.deep_view() == base2 + ws.take(j as int),
            decreases ctx.window@.len() - j,
        {
            let ghost before = parts.deep_view();
            assert(v.window[j as int] == ctx.window@[j as int].deep_view());
            let turn: String = number(ctx.window[j].turn as u64);
            let one: (String, String) = (cat2("window:", turn.as_str()), ctx.window[j].rendered.clone());
            parts.push(one);
            proof {
                assert(parts.deep_view() =~= before.push(one.deep_view()));
                assert(base2 + ws.take(j + 1) =~= (base2 + ws.take(j as int)).push(ws[j as int]));
            }
            j = j + 1;
        }
        proof {
            assert(ws.take(ws.len() as int) =~= ws);
        }
    }
    let ghost base3 = base2 + window_parts(v.window);
    let ghost gs = guidance_parts(v.guidance);
    proof {
        assert(base3 + gs.take(0) =~= base3);
    }
    let mut k: usize = 0;
    while k < ctx.guidance.len()
        invariant
            k <= ctx.guidance@.len(),
            v == ctx.deep_view(),
            gs == guidance_parts(v.guidance),
            parts.deep_view() == base3 + gs.take(k as int),
        decreases ctx.guidance@.len() - k,
    {
        let ghost before = parts.deep_view();
        assert(v.guidance[k as int] == ctx.guidance@[k as int].deep_view());
        let one: (String, String) = (
            cat2("guidance:", ctx.guidance[k].hash.as_str()),
            ctx.guidance[k].text.clone(),
        );
        parts.push(one);
        proof {
            assert(parts.deep_view() =~= before.push(one.deep_view()));
            assert(base3 + gs.take(k + 1) =~= (base3 + gs.take(k as int)).push(gs[k as int]));
        }
        k = k + 1;
    }
    let ghost base4 = base3 + gs;
    let ghost os = obligation_parts(v.obligations);
    proof {
        assert(gs.take(gs.len() as int) =~= gs);
        assert(base4 + os.take(0) =~= base4);
    }
    let mut m: usize = 0;
    while m < ctx.obligations.len()
        invariant
            m <= ctx.obligations@.len(),
            v == ctx.deep_view(),
            os == obligation_parts(v.obligations),
            parts.deep_view() == base4 + os.take(m as int),
        decreases ctx.obligations@.len() - m,
    {
        let ghost before = parts.deep_view();
        assert(v.obligations[m as int] == ctx.obligations@[m as int]@);
        let one: (String, String) = ("obligations".to_owned(), ctx.obligations[m].clone());
        parts.push(one);
        proof {
            assert(parts.deep_view() =~= before.push(one.deep_view()));
            assert(base4 + os.take(m + 1) =~= (base4 + os.take(m as int)).push(os[m as int]));
        }
        m = m + 1;
    }
    proof {
        assert(os.take(os.len() as int) =~= os);
    }
    parts
}

/// The texts of the parts.
pub open spec fn part_texts(parts: Seq<(Seq<char>, Seq<char>)>) -> Seq<Seq<char>> {
    Seq::new(parts.len(), |i: int| parts[i].1)
}

fn texts_of(ctx: &ReplyContext) -> (r: Vec<String>)
    ensures
        r.deep_view() == part_texts(parts_of(ctx.deep_view())),
{
    let parts: Vec<(String, String)> = reference_parts(ctx);
    let ghost all = parts.deep_view();
    let mut out: Vec<String> = Vec::new();
    let mut i: usize = 0;
    while i < parts.len()
        invariant
            i <= parts@.len(),
            all == parts.deep_view(),
            out@.len() == i,
            forall|k: int| 0 <= k < i ==> (#[trigger] out@[k])@ == all[k].1,
        decreases parts@.len() - i,
    {
        assert(all[i as int] == parts@[i as int].deep_view());
        out.push(parts[i].1.clone());
        i = i + 1;
    }
    proof {
        assert(out.deep_view() =~= part_texts(all));
    }
    out
}

/// What a reply may draw on but must not reproduce: every part, one per line.
pub fn echo_material(ctx: &ReplyContext) -> (r: String)
    ensures
        r@ == text::joined(part_texts(parts_of(ctx.deep_view())), "\n"@),
{
    let texts: Vec<String> = texts_of(ctx);
    join(&texts, "\n")
}

impl Material {
    /// Every part of the prompt and the user's own message.
    pub fn from_context(ctx: &ReplyContext) -> (r: Self)
        ensures
            r@ == material_of(part_texts(parts_of(ctx.deep_view())).push(ctx.user_text@)),
    {
        let mut texts: Vec<String> = texts_of(ctx);
        let ghost before = texts.deep_view();
        texts.push(ctx.user_text.clone());
        let ghost all = texts.deep_view();
        proof {
            assert(all =~= before.push(ctx.user_text@));
        }
        let mut refs: Vec<&str> = Vec::new();
        let mut i: usize = 0;
        while i < texts.len()
            invariant
                i <= texts@.len(),
                all == texts.deep_view(),
                refs@.len() == i,
                forall|k: int| 0 <= k < i ==> (#[trigger] refs@[k])@ == all[k],
            decreases texts@.len() - i,
        {
            refs.push(texts[i].as_str());
            i = i + 1;
        }
        let parts: &[&str] = refs.as_slice();
        proof {
            assert(parts.deep_view() =~= all);
        }
        Material::from_parts(parts)
    }
}

// ---------------------------------------------------------------------------
// Citations
// ---------------------------------------------------------------------------

/// Every run of three consecutive words, with single spaces.
pub open spec fn triples(ws: Seq<Seq<char>>) -> Seq<Seq<char>> {
    if ws.len() < 3 {
        seq![]
    } else {
        Seq::new((ws.len() - 2) as nat, |i: int| ws[i] + " "@ + ws[i + 1] + " "@ + ws[i + 2])
    }
}

pub fn distinctive_spans(s: &str) -> (r: Vec<String>)
    ensures
        r.deep_view() == triples(text::words_of(s@)),
{
    let ws: Vec<String> = split_words(s);
    let ghost all = ws.deep_view();
    let mut out: Vec<String> = Vec::new();
    if ws.len() < 3 {
        proof {
            assert(out.deep_view() =~= triples(all));
        }
        return out;
    }
    let mut i: usize = 0;
    while i < ws.len() - 2
        invariant
            i <= ws@.len() - 2,
            ws@.len() >= 3,
            all == ws.deep_view(),
            out@.len() == i,
            forall|k: int| 0 <= k < i ==> (#[trigger] out@[k])@ == triples(all)[k],
        decreases ws@.len() - i,
    {
        out.push(crate::text::cat5(ws[i].as_str(), " ", ws[i + 1].as_str(), " ", ws[i + 2].as_str()));
        i = i + 1;
    }
    proof {
        assert(out.deep_view() =~= triples(all));
    }
    out
}

/// Some of `spans` stands in `s`.
pub open spec fn any_in(s: Seq<char>, spans: Seq<Seq<char>>) -> bool {
    exists|i: int| 0 <= i < spans.len() && text::contains(s, #[trigger] spans[i])
}

/// Some of the claims stands in `s`, case aside.
pub open spec fn any_claim_in(s: Seq<char>, claims: Seq<Seq<char>>) -> bool {
    exists|i: int|
        0 <= i < claims.len() && (#[trigger] claims[i]).len() > 0 && text::contains(s, unicode::lowered(claims[i]))
}

fn has_any(s: &str, spans: &Vec<String>) -> (r: bool)
    ensures
        r == any_in(s@, spans.deep_view()),
{
    let ghost all = spans.deep_view();
    let mut i: usize = 0;
    while i < spans.len()
        invariant
            i <= spans@.len(),
            all == spans.deep_view(),
            forall|k: int| 0 <= k < i ==> !text::contains(s@, #[trigger] all[k]),
        decreases spans@.len() - i,
    {
        assert(all[i as int] == spans@[i as int]@);
        if has(s, spans[i].as_str()) {
            return true;
        }
        i = i + 1;
    }
    false
}

fn has_any_claim(s: &str, claims: &Vec<String>) -> (r: bool)
    ensures
        r == any_claim_in(s@, claims.deep_view()),
{
    let ghost all = claims.deep_view();
    let mut i: usize = 0;
    while i < claims.len()
        invariant
            i <= claims@.len(),
            all == claims.deep_view(),
            forall|k: int|
                0 <= k < i ==> !((#[trigger] all[k]).len() > 0 && text::contains(s@, unicode::lowered(all[k]))),
        decreases claims@.len() - i,
    {
        assert(all[i as int] == claims@[i as int]@);
        if !claims[i].as_str().is_empty() {
            let lower: String = claims[i].as_str().to_lowercase();
            if has(s, lower.as_str()) {
                return true;
            }
        }
        i = i + 1;
    }
    false
}

/// The value of the first fact with this part name, as a reply would say it.
pub open spec fn fact_value(facts: Seq<ShownFactV>, id: Seq<char>) -> Seq<char>
    decreases facts.len(),
{
    if facts.len() == 0 {
        seq![]
    } else if "fact:"@ + facts[0].key == id {
        json::prose(facts[0].value)
    } else {
        fact_value(facts.drop_first(), id)
    }
}

fn find_fact_value(facts: &Vec<ShownFact>, id: &str) -> (r: String)
    ensures
        r@ == fact_value(facts.deep_view(), id@),
{
    let ghost all = facts.deep_view();
    let mut i: usize = 0;
    proof {
        assert(all.skip(0) =~= all);
    }
    while i < facts.len()
        invariant
            i <= facts@.len(),
            all == facts.deep_view(),
            fact_value(all, id@) == fact_value(all.skip(i as int), id@),
        decreases facts@.len() - i,
    {
        proof {
            assert(all.skip(i as int)[0] == facts@[i as int].deep_view());
            assert(all.skip(i as int).drop_first() =~= all.skip(i + 1));
        }
        let name: String = cat2("fact:", facts[i].key.as_str());
        if same(name.as_str(), id) {
            return value_text(&facts[i].value);
        }
        i = i + 1;
    }
    let none: String = String::new();
    proof {
        assert(none@ =~= seq![]);
    }
    none
}

/// A reply draws on a part: on a fact by its value, of at least three
/// characters; on the summary or a record by a claim that stands there; on a
/// note by three of its words in a row.
pub open spec fn draws_on(ctx: ReplyContextV, reply: Seq<char>, part: (Seq<char>, Seq<char>)) -> bool {
    let lower = unicode::lowered(reply);
    if text::starts(part.0, "fact:"@) {
        let value = unicode::lowered(fact_value(ctx.facts, part.0));
        value.len() >= 3 && text::contains(lower, value)
    } else if part.0 == "summary"@ || text::starts(part.0, "window:"@) {
        any_claim_in(unicode::lowered(part.1), claims_of(reply))
    } else if text::starts(part.0, "guidance:"@) {
        any_in(lower, triples(text::words_of(unicode::lowered(part.1))))
    } else {
        false
    }
}

/// The names of the parts that a reply draws on, each once, in prompt order.
pub open spec fn citations(ctx: ReplyContextV, reply: Seq<char>, parts: Seq<(Seq<char>, Seq<char>)>) -> Seq<Seq<char>>
    decreases parts.len(),
{
    if parts.len() == 0 {
        seq![]
    } else {
        let rest = citations(ctx, reply, parts.drop_last());
        if draws_on(ctx, reply, parts.last()) && !rest.contains(parts.last().0) {
            rest.push(parts.last().0)
        } else {
            rest
        }
    }
}

/// Which parts of its prompt a reply drew on.
pub fn cited(ctx: &ReplyContext, reply: &str) -> (r: Vec<String>)
    ensures
        r.deep_view() == citations(ctx.deep_view(), reply@, parts_of(ctx.deep_view())),
{
    let ghost v = ctx.deep_view();
    let lower: String = reply.to_lowercase();
    let claims: Vec<String> = extract_claims(reply);
    let parts: Vec<(String, String)> = reference_parts(ctx);
    let ghost all = parts.deep_view();
    let mut out: Vec<String> = Vec::new();
    let mut i: usize = 0;
    proof {
        assert(all.take(0) =~= seq![]);
        assert(out.deep_view() =~= seq![]);
    }
    while i < parts.len()
        invariant
            i <= parts@.len(),
            v == ctx.deep_view(),
            all == parts.deep_view(),
            lower@ == unicode::lowered(reply@),
            claims.deep_view() == claims_of(reply@),
            out.deep_view() == citations(v, reply@, all.take(i as int)),
        decreases parts@.len() - i,
    {
        proof {
            assert(all.take(i + 1).drop_last() =~= all.take(i as int));
            assert(all.take(i + 1).last() == parts@[i as int].deep_view());
        }
        let id: &str = parts[i].0.as_str();
        let part: String = parts[i].1.as_str().to_lowercase();
        let drawn: bool = if starts_with(id, "fact:") {
            let value: String = find_fact_value(&ctx.facts, id);
            let value: String = value.as_str().to_lowercase();
            chars_of(value.as_str()).len() >= 3 && has(lower.as_str(), value.as_str())
        } else if same(id, "summary") || starts_with(id, "window:") {
            has_any_claim(part.as_str(), &claims)
        } else if starts_with(id, "guidance:") {
            let spans: Vec<String> = distinctive_spans(part.as_str());
            has_any(lower.as_str(), &spans)
        } else {
            false
        };
        if drawn && !listed(&out, id) {
            let ghost before = out.deep_view();
            out.push(parts[i].0.clone());
            proof {
                assert(out.deep_view() =~= before.push(parts@[i as int].0@));
            }
        }
        i = i + 1;
    }
    proof {
        assert(all.take(all.len() as int) =~= all);
    }
    out
}

// ---------------------------------------------------------------------------
// Obligations
// ---------------------------------------------------------------------------

/// The first question that is owed an answer and has none.
pub open spec fn first_unaddressed(obligations: Seq<Seq<char>>, addressed: Seq<bool>) -> Option<Seq<char>>
    decreases obligations.len(),
{
    if obligations.len() == 0 {
        None
    } else {
        match text::stripped(obligations[0], "answer: "@) {
            Some(clause) => if addressed[0] {
                first_unaddressed(obligations.drop_first(), addressed.drop_first())
            } else {
                Some(clause)
            },
            None => first_unaddressed(obligations.drop_first(), addressed.drop_first()),
        }
    }
}

/// The first `answer:` obligation that the draft does not address, where
/// `addressed` says of each obligation whether the draft addresses its clause.
pub fn unaddressed(obligations: &Vec<String>, addressed: &Vec<bool>) -> (r: Option<String>)
    requires
        addressed@.len() == obligations@.len(),
    ensures
        r.deep_view() == first_unaddressed(obligations.deep_view(), addressed@),
{
    let ghost all = obligations.deep_view();
    let mut i: usize = 0;
    proof {
        assert(all.skip(0) =~= all);
        assert(addressed@.skip(0) =~= addressed@);
    }
    while i < obligations.len()
        invariant
            i <= obligations@.len(),
            addressed@.len() == obligations@.len(),
            all == obligations.deep_view(),
            first_unaddressed(all, addressed@) == first_unaddressed(all.skip(i as int), addressed@.skip(i as int)),
        decreases obligations@.len() - i,
    {
        proof {
            assert(all.skip(i as int)[0] == obligations@[i as int]@);
            assert(addressed@.skip(i as int)[0] == addressed@[i as int]);
            assert(all.skip(i as int).drop_first() =~= all.skip(i + 1));
            assert(addressed@.skip(i as int).drop_first() =~= addressed@.skip(i + 1));
        }
        if let Some(clause) = strip_prefix(obligations[i].as_str(), "answer: ") {
            if !addressed[i] {
                return Some(clause);
            }
        }
        i = i + 1;
    }
    None
}

// ---------------------------------------------------------------------------
// Laws
// ---------------------------------------------------------------------------

proof fn lemma_with_claim(claims: Seq<Seq<char>>, c: Seq<char>)
    requires
        claims.no_duplicates(),
        forall|i: int| 0 <= i < claims.len() ==> (#[trigger] claims[i]).len() > 0,
    ensures
        with_claim(claims, c).no_duplicates(),
        forall|i: int| 0 <= i < with_claim(claims, c).len() ==> (#[trigger] with_claim(claims, c)[i]).len() > 0,
{
}

proof fn lemma_quotes(s: Seq<char>)
    ensures
        quotes(s).claims.no_duplicates(),
        forall|i: int| 0 <= i < quotes(s).claims.len() ==> (#[trigger] quotes(s).claims[i]).len() > 0,
    decreases s.len(),
{
    if s.len() > 0 {
        lemma_quotes(s.drop_last());
        let q = quotes(s.drop_last());
        if let Some(o) = q.open {
            lemma_with_claim(q.claims, text::trimmed(o));
        }
    }
}

proof fn lemma_scan(claims: Seq<Seq<char>>, words: Seq<Seq<char>>)
    requires
        claims.no_duplicates(),
        forall|i: int| 0 <= i < claims.len() ==> (#[trigger] claims[i]).len() > 0,
    ensures
        scan_words(claims, words).claims.no_duplicates(),
        forall|i: int|
            0 <= i < scan_words(claims, words).claims.len() ==> (#[trigger] scan_words(claims, words).claims[i]).len()
                > 0,
    decreases words.len(),
{
    if words.len() > 0 {
        lemma_scan(claims, words.drop_last());
        let w = scan_words(claims, words.drop_last());
        let token = text::without_edges(words.last(), Sort::Alnum, false);
        if let Some(c) = token_claim(token, w.start) {
            lemma_with_claim(w.claims, c);
        }
    }
}

/// A claim is never empty and never listed twice.
pub proof fn claims_are_distinct(reply: Seq<char>)
    ensures
        claims_of(reply).no_duplicates(),
        forall|i: int| 0 <= i < claims_of(reply).len() ==> (#[trigger] claims_of(reply)[i]).len() > 0,
{
    lemma_quotes(reply);
    lemma_scan(quotes(reply).claims, text::words_of(reply));
}

/// What is flagged is exactly the claims that the material does not hold: no
/// supported claim is flagged and no unsupported one is missed.
pub proof fn flagged_is_unsupported(claims: Seq<Seq<char>>, material: Seq<char>, c: Seq<char>)
    ensures
        unsupported(claims, material).contains(c) <==> claims.contains(c) && !supports(material, c),
    decreases claims.len(),
{
    if claims.len() > 0 {
        let front = claims.drop_last();
        let rest = unsupported(front, material);
        let all = unsupported(claims, material);
        flagged_is_unsupported(front, material, c);
        if rest.contains(c) {
            let j = choose|j: int| 0 <= j < rest.len() && rest[j] == c;
            assert(all[j] == c);
            let k = choose|k: int| 0 <= k < front.len() && front[k] == c;
            assert(claims[k] == c);
        }
        if claims.last() == c {
            assert(claims[claims.len() - 1] == c);
            if !supports(material, c) {
                assert(all[rest.len() as int] == c);
            }
        }
        if all.contains(c) && !rest.contains(c) {
            let j = choose|j: int| 0 <= j < all.len() && all[j] == c;
            if j < rest.len() {
                assert(rest[j] == c);
            }
        }
        if claims.contains(c) && claims.last() != c {
            let k = choose|k: int| 0 <= k < claims.len() && claims[k] == c;
            assert(front[k] == c);
        }
    }
}

/// What any part holds is supported, case aside: nothing that the model was shown
/// counts as invented.
pub proof fn what_was_shown_is_supported(parts: Seq<Seq<char>>, i: int, claim: Seq<char>)
    requires
        0 <= i < parts.len(),
        claim.len() > 0,
        text::contains(unicode::lowered(parts[i]), unicode::lowered(claim)),
    ensures
        supports(material_of(parts), claim),
{
    let lowered = Seq::new(parts.len(), |k: int| unicode::lowered(parts[k]));
    assert(lowered[i] == unicode::lowered(parts[i]));
    text::lemma_joined_contains(lowered, "\n"@, i, unicode::lowered(claim));
}

/// Material supports every part that it was made of, and never the empty claim.
pub proof fn every_part_is_supported(parts: Seq<Seq<char>>, i: int)
    requires
        0 <= i < parts.len(),
    ensures
        supports(material_of(parts), parts[i]) <==> parts[i].len() > 0,
{
    if parts[i].len() > 0 {
        let low = unicode::lowered(parts[i]);
        assert(low.subrange(0, low.len() as int) =~= low);
        assert(text::occurs_at(low, low, 0));
        text::lemma_found(low, low);
        what_was_shown_is_supported(parts, i, parts[i]);
    }
}

/// Two claims that differ in case alone are supported alike.
pub proof fn case_makes_no_difference(material: Seq<char>, a: Seq<char>, b: Seq<char>)
    requires
        a.len() > 0,
        b.len() > 0,
        unicode::lowered(a) == unicode::lowered(b),
    ensures
        supports(material, a) == supports(material, b),
{
}

/// A claim is supported where its lowercase form is, as far as that is its own
/// lowercase form.
pub proof fn a_claim_and_its_lowercase_are_supported_alike(material: Seq<char>, c: Seq<char>)
    requires
        c.len() > 0,
        unicode::lowered(c).len() > 0,
        unicode::lowered(unicode::lowered(c)) == unicode::lowered(c),
    ensures
        supports(material, c) == supports(material, unicode::lowered(c)),
{
    case_makes_no_difference(material, c, unicode::lowered(c));
}

/// A reply is cited against each part of its prompt at most once.
pub proof fn citations_are_distinct(ctx: ReplyContextV, reply: Seq<char>, parts: Seq<(Seq<char>, Seq<char>)>)
    ensures
        citations(ctx, reply, parts).no_duplicates(),
        forall|id: Seq<char>| #[trigger]
            citations(ctx, reply, parts).contains(id) ==> exists|i: int|
                0 <= i < parts.len() && (#[trigger] parts[i]).0 == id && draws_on(ctx, reply, parts[i]),
    decreases parts.len(),
{
    if parts.len() > 0 {
        let front = parts.drop_last();
        citations_are_distinct(ctx, reply, front);
        let rest = citations(ctx, reply, front);
        let all = citations(ctx, reply, parts);
        assert forall|id: Seq<char>| #[trigger] all.contains(id) implies exists|i: int|
            0 <= i < parts.len() && (#[trigger] parts[i]).0 == id && draws_on(ctx, reply, parts[i]) by {
            if rest.contains(id) {
                let i = choose|i: int|
                    0 <= i < front.len() && (#[trigger] front[i]).0 == id && draws_on(ctx, reply, front[i]);
                assert(parts[i] == front[i]);
            } else {
                let j = choose|j: int| 0 <= j < all.len() && all[j] == id;
                if j < rest.len() {
                    assert(rest[j] == id);
                }
                assert(parts[parts.len() - 1].0 == id);
            }
        }
    }
}

// ---------------------------------------------------------------------------
// What a claim is, by where it stands
// ---------------------------------------------------------------------------

/// How many of the first `n` characters are quotation marks.
pub open spec fn marks_before(s: Seq<char>, n: int) -> nat
    decreases n,
{
    if n <= 0 {
        0
    } else {
        marks_before(s, n - 1) + if "\"\u{201C}\u{201D}\u{201E}\u{2018}\u{2019}"@.contains(s[n - 1]) {
            1nat
        } else {
            0nat
        }
    }
}

/// The quotation that opens at `a` and closes at `b` holds `c`: both are marks, an
/// even number of marks stands before the first and none between them, and `c` is
/// what stands there without the white space around it, at least two characters with
/// a letter or a number among them.
pub open spec fn quotes_at(s: Seq<char>, a: int, b: int, c: Seq<char>) -> bool {
    &&& 0 <= a < b < s.len()
    &&& marks_before(s, a) % 2 == 0
    &&& marks_before(s, a + 1) == marks_before(s, a) + 1
    &&& marks_before(s, b) == marks_before(s, a + 1)
    &&& marks_before(s, b + 1) == marks_before(s, b) + 1
    &&& c == text::trimmed(s.subrange(a + 1, b))
    &&& c.len() >= 2
    &&& exists|i: int| 0 <= i < c.len() && unicode::alphanumeric(#[trigger] c[i])
}

/// The word holds a letter or a number.
pub open spec fn speaks(w: Seq<char>) -> bool {
    exists|k: int| 0 <= k < w.len() && unicode::alphanumeric(#[trigger] w[k])
}

/// The word ends with a full stop, an exclamation mark, a question mark or a colon.
pub open spec fn stops(w: Seq<char>) -> bool {
    w.len() > 0 && ".!?:"@.contains(w.last())
}

/// The word at `i` begins a sentence: between each earlier word that holds a letter
/// or a number and this one, some word ends with a full stop, an exclamation mark, a
/// question mark or a colon.
pub open spec fn begins_sentence(words: Seq<Seq<char>>, i: int) -> bool {
    forall|j: int|
        0 <= j < i && #[trigger] speaks(words[j]) ==> exists|m: int| j <= m < i && #[trigger] stops(words[m])
}

/// The token has two digits at least.
pub open spec fn two_digits(t: Seq<char>) -> bool {
    exists|i: int, j: int|
        0 <= i < j < t.len() && '0' <= #[trigger] t[i] && t[i] <= '9' && '0' <= #[trigger] t[j] && t[j] <= '9'
}

/// The word at `i` claims `c`: as a number with two digits at least, or as a name,
/// which is a word that begins with a capital, is not all capitals, begins no
/// sentence, and is three characters or longer and no filler without its possessive.
pub open spec fn word_claims(words: Seq<Seq<char>>, i: int, c: Seq<char>) -> bool {
    &&& 0 <= i < words.len()
    &&& ({
        let t = text::without_edges(words[i], Sort::Alnum, false);
        ||| two_digits(t) && c == t
        ||| {
            &&& !two_digits(t)
            &&& t.len() > 0 && unicode::uppercase(t[0])
            &&& exists|k: int| 0 <= k < t.len() && unicode::lowercase(#[trigger] t[k])
            &&& !begins_sentence(words, i)
            &&& c == (if t.len() >= 2 && t[t.len() - 2] == '\'' && t[t.len() - 1] == 's' {
                t.take(t.len() - 2)
            } else {
                t
            })
            &&& c.len() >= 3
            &&& !stop_word(unicode::lowered(c))
        }
    })
}

proof fn lemma_marks(c: char)
    ensures
        quote_mark(c) <==> "\"\u{201C}\u{201D}\u{201E}\u{2018}\u{2019}"@.contains(c),
{
    reveal_strlit("\"\u{201C}\u{201D}\u{201E}\u{2018}\u{2019}");
    let m = "\"\u{201C}\u{201D}\u{201E}\u{2018}\u{2019}"@;
    assert(m[0] == '"' && m[1] == '\u{201C}' && m[2] == '\u{201D}' && m[3] == '\u{201E}' && m[4] == '\u{2018}' && m[5]
        == '\u{2019}');
}

proof fn lemma_closing(w: Seq<char>)
    requires
        w.len() > 0,
    ensures
        closes_sentence(w) <==> ".!?:"@.contains(w.last()),
{
    reveal_strlit(".!?:");
    let m = ".!?:"@;
    assert(m[0] == '.' && m[1] == '!' && m[2] == '?' && m[3] == ':');
}

proof fn lemma_digits(t: Seq<char>)
    ensures
        digit_count(t) >= 1 <==> exists|i: int| 0 <= i < t.len() && '0' <= #[trigger] t[i] && t[i] <= '9',
        digit_count(t) >= 2 <==> two_digits(t),
    decreases t.len(),
{
    if t.len() > 0 {
        let r = t.drop_last();
        let n = t.len() - 1;
        lemma_digits(r);
        if digit_count(r) >= 1 {
            let i = choose|i: int| 0 <= i < r.len() && '0' <= #[trigger] r[i] && r[i] <= '9';
            assert(t[i] == r[i]);
            if text::is_digit(t.last()) {
                assert('0' <= t[i] && '0' <= t[n]);
            }
        }
        if digit_count(r) >= 2 {
            let (i, j) = choose|i: int, j: int|
                0 <= i < j < r.len() && '0' <= #[trigger] r[i] && r[i] <= '9' && '0' <= #[trigger] r[j] && r[j] <= '9';
            assert(t[i] == r[i] && t[j] == r[j]);
        }
        if text::is_digit(t.last()) {
            assert('0' <= t[n] && t[n] <= '9');
        }
        if exists|i: int| 0 <= i < t.len() && '0' <= #[trigger] t[i] && t[i] <= '9' {
            let i = choose|i: int| 0 <= i < t.len() && '0' <= #[trigger] t[i] && t[i] <= '9';
            if i < n {
                assert(r[i] == t[i]);
            }
        }
        if two_digits(t) {
            let (i, j) = choose|i: int, j: int|
                0 <= i < j < t.len() && '0' <= #[trigger] t[i] && t[i] <= '9' && '0' <= #[trigger] t[j] && t[j] <= '9';
            assert(r[i] == t[i]);
            if j < n {
                assert(r[j] == t[j]);
            }
        }
    }
}

/// Whether anything is left of a word without its edges.
proof fn lemma_token(w: Seq<char>)
    ensures
        text::without_edges(w, Sort::Alnum, false).len() > 0 <==> speaks(w),
{
    text::lemma_without_edges_is_empty(w, Sort::Alnum, false);
    if exists|k: int| 0 <= k < w.len() && text::of_sort(#[trigger] w[k], Sort::Alnum) != false {
        let k = choose|k: int| 0 <= k < w.len() && text::of_sort(#[trigger] w[k], Sort::Alnum) != false;
        assert(unicode::alphanumeric(w[k]));
    }
    if exists|k: int| 0 <= k < w.len() && unicode::alphanumeric(#[trigger] w[k]) {
        let k = choose|k: int| 0 <= k < w.len() && unicode::alphanumeric(#[trigger] w[k]);
        assert(text::of_sort(w[k], Sort::Alnum) != false);
    }
}

proof fn lemma_possessive(t: Seq<char>)
    ensures
        base_of(t) == (if t.len() >= 2 && t[t.len() - 2] == '\'' && t[t.len() - 1] == 's' {
            t.take(t.len() - 2)
        } else {
            t
        }),
{
    reveal_strlit("'s");
    if t.len() >= 2 {
        let tail = t.skip(t.len() - 2);
        assert(tail[0] == t[t.len() - 2] && tail[1] == t[t.len() - 1]);
        if t[t.len() - 2] == '\'' && t[t.len() - 1] == 's' {
            assert(tail =~= "'s"@);
        }
    }
}

/// The scan is at the beginning of a sentence exactly where the next word begins one.
proof fn lemma_start(claims: Seq<Seq<char>>, words: Seq<Seq<char>>, n: int)
    requires
        0 <= n <= words.len(),
    ensures
        scan_words(claims, words.take(n)).start == begins_sentence(words, n),
    decreases n,
{
    if n > 0 {
        lemma_start(claims, words, n - 1);
        assert(words.take(n).drop_last() =~= words.take(n - 1));
        let raw = words[n - 1];
        assert(words.take(n).last() == raw);
        lemma_token(raw);
        if raw.len() > 0 {
            lemma_closing(raw);
        }
        let before = begins_sentence(words, n - 1);
        if closes_sentence(raw) {
            assert forall|j: int|
                0 <= j < n && #[trigger] speaks(words[j]) implies exists|m: int|
                j <= m < n && #[trigger] stops(words[m]) by {
                assert(stops(words[n - 1]));
            }
        } else if text::without_edges(raw, Sort::Alnum, false).len() > 0 {
            if begins_sentence(words, n) {
                let m = choose|m: int|
                    n - 1 <= m < n && #[trigger] stops(words[m]);
                assert(m == n - 1);
            }
        } else {
            if before {
                assert forall|j: int|
                    0 <= j < n && #[trigger] speaks(words[j]) implies exists|m: int|
                    j <= m < n && #[trigger] stops(words[m]) by {
                    assert(j < n - 1);
                    let m = choose|m: int|
                        j <= m < n - 1 && #[trigger] stops(words[m]);
                    assert(stops(words[m]));
                }
            }
            if begins_sentence(words, n) {
                assert forall|j: int|
                    0 <= j < n - 1 && #[trigger] speaks(words[j]) implies exists|m: int|
                    j <= m < n - 1 && #[trigger] stops(words[m]) by {
                    let m = choose|m: int|
                        j <= m < n && #[trigger] stops(words[m]);
                    assert(m != n - 1);
                    assert(stops(words[m]));
                }
            }
        }
    }
}

/// What one word adds.
proof fn lemma_word(claims: Seq<Seq<char>>, words: Seq<Seq<char>>, n: int)
    requires
        0 <= n < words.len(),
    ensures
        ({
            let w = scan_words(claims, words.take(n));
            let after = scan_words(claims, words.take(n + 1)).claims;
            match token_claim(text::without_edges(words[n], Sort::Alnum, false), w.start) {
                Some(c) => after == with_claim(w.claims, c) && c.len() > 0 && forall|d: Seq<char>|
                    word_claims(words, n, d) <==> d == c,
                None => after == w.claims && forall|d: Seq<char>| !word_claims(words, n, d),
            }
        }),
{
    lemma_start(claims, words, n);
    assert(words.take(n + 1).drop_last() =~= words.take(n));
    assert(words.take(n + 1).last() == words[n]);
    let t = text::without_edges(words[n], Sort::Alnum, false);
    lemma_digits(t);
    lemma_possessive(t);
}

proof fn lemma_scan_contains(claims: Seq<Seq<char>>, words: Seq<Seq<char>>, n: int, c: Seq<char>)
    requires
        0 <= n <= words.len(),
    ensures
        scan_words(claims, words.take(n)).claims.contains(c) <==> claims.contains(c) || exists|i: int|
            0 <= i < n && #[trigger] word_claims(words, i, c),
    decreases n,
{
    if n > 0 {
        lemma_scan_contains(claims, words, n - 1, c);
        lemma_word(claims, words, n - 1);
        let w = scan_words(claims, words.take(n - 1)).claims;
        assert(words.take(n - 1 + 1) =~= words.take(n));
        match token_claim(
            text::without_edges(words[n - 1], Sort::Alnum, false),
            scan_words(claims, words.take(n - 1)).start,
        ) {
            Some(d) => {
                lemma_with_claim_contains(w, d, c);
                assert(word_claims(words, n - 1, c) <==> c == d);
            },
            None => {
                assert(!word_claims(words, n - 1, c));
            },
        }
        if exists|i: int| 0 <= i < n && #[trigger] word_claims(words, i, c) {
            let i = choose|i: int| 0 <= i < n && #[trigger] word_claims(words, i, c);
            if i < n - 1 {
                assert(0 <= i < n - 1 && word_claims(words, i, c));
            }
        }
    } else {
        assert(words.take(0) =~= seq![]);
    }
}

proof fn lemma_with_claim_contains(claims: Seq<Seq<char>>, d: Seq<char>, c: Seq<char>)
    ensures
        with_claim(claims, d).contains(c) <==> claims.contains(c) || (c == d && d.len() > 0),
{
    let after = with_claim(claims, d);
    if claims.contains(c) {
        let j = choose|j: int| 0 <= j < claims.len() && claims[j] == c;
        assert(after[j] == c);
    }
    if after.contains(c) && !claims.contains(c) {
        let j = choose|j: int| 0 <= j < after.len() && after[j] == c;
        if j < claims.len() {
            assert(claims[j] == c);
        }
    }
    if c == d && d.len() > 0 && !claims.contains(d) {
        assert(after[claims.len() as int] == c);
    }
}

/// Where the open quotation of a scan began.
proof fn lemma_open(s: Seq<char>, n: int)
    requires
        0 <= n <= s.len(),
    ensures
        match quotes(s.take(n)).open {
            None => marks_before(s, n) % 2 == 0,
            Some(o) => marks_before(s, n) % 2 == 1 && exists|a: int|
                0 <= a < n && #[trigger] marks_before(s, a) + 1 == marks_before(s, n) && marks_before(s, a + 1)
                    == marks_before(s, n) && o == s.subrange(a + 1, n),
        },
    decreases n,
{
    if n > 0 {
        lemma_open(s, n - 1);
        assert(s.take(n).drop_last() =~= s.take(n - 1));
        let c = s[n - 1];
        assert(s.take(n).last() == c);
        lemma_marks(c);
        match quotes(s.take(n - 1)).open {
            Some(o) => {
                if !quote_mark(c) {
                    let a = choose|a: int|
                        0 <= a < n - 1 && #[trigger] marks_before(s, a) + 1 == marks_before(s, n - 1) && marks_before(
                            s,
                            a + 1,
                        ) == marks_before(s, n - 1) && o == s.subrange(a + 1, n - 1);
                    assert(s.subrange(a + 1, n) =~= o.push(c));
                    assert(marks_before(s, a) + 1 == marks_before(s, n));
                }
            },
            None => {
                if quote_mark(c) {
                    assert(s.subrange(n, n) =~= seq![]);
                    assert(marks_before(s, n - 1) + 1 == marks_before(s, n));
                }
            },
        }
    }
}

proof fn lemma_marks_rise(s: Seq<char>, i: int, j: int)
    requires
        i <= j,
    ensures
        marks_before(s, i) <= marks_before(s, j),
    decreases j - i,
{
    if i < j {
        lemma_marks_rise(s, i, j - 1);
    }
}

proof fn lemma_quotes_contains(s: Seq<char>, n: int, c: Seq<char>)
    requires
        0 <= n <= s.len(),
    ensures
        quotes(s.take(n)).claims.contains(c) <==> exists|a: int, b: int| b < n && #[trigger] quotes_at(s, a, b, c),
    decreases n,
{
    if n > 0 {
        lemma_quotes_contains(s, n - 1, c);
        lemma_open(s, n - 1);
        assert(s.take(n).drop_last() =~= s.take(n - 1));
        let ch = s[n - 1];
        assert(s.take(n).last() == ch);
        lemma_marks(ch);
        let q = quotes(s.take(n - 1));
        if let Some(o) = q.open {
            let t = text::trimmed(o);
            lemma_with_claim_contains(q.claims, t, c);
            let a = choose|a: int|
                0 <= a < n - 1 && #[trigger] marks_before(s, a) + 1 == marks_before(s, n - 1) && marks_before(
                    s,
                    a + 1,
                ) == marks_before(s, n - 1) && o == s.subrange(a + 1, n - 1);
            if quote_mark(ch) && t.len() >= 2 && some_alnum(t) {
                assert(quotes_at(s, a, n - 1, t));
            }
            assert forall|x: int| #[trigger] quotes_at(s, x, n - 1, c) implies quote_mark(ch) && c == t && t.len() >= 2
                && some_alnum(t) by {
                if x < a {
                    lemma_marks_rise(s, x + 1, a);
                } else if a < x {
                    lemma_marks_rise(s, a + 1, x);
                }
                assert(x == a);
            }
        } else {
            assert forall|x: int| !(#[trigger] quotes_at(s, x, n - 1, c)) by {
                if quotes_at(s, x, n - 1, c) {
                    assert(marks_before(s, n - 1) % 2 == 1);
                }
            }
        }
        if exists|a: int, b: int| b < n && #[trigger] quotes_at(s, a, b, c) {
            let (a, b) = choose|a: int, b: int| b < n && #[trigger] quotes_at(s, a, b, c);
            if b < n - 1 {
                assert(quotes(s.take(n - 1)).claims.contains(c));
            } else {
                assert(quotes_at(s, a, n - 1, c));
            }
        }
    } else {
        assert(s.take(0) =~= seq![]);
        assert forall|a: int, b: int| b < 0 implies !(#[trigger] quotes_at(s, a, b, c)) by {}
    }
}

/// The claims of a reply are what it quotes, and what its words claim where they
/// stand, and nothing else: above all no word claims anything as a name that begins a
/// sentence.
pub proof fn claims_are_quotations_numbers_and_names(reply: Seq<char>, c: Seq<char>)
    ensures
        claims_of(reply).contains(c) <==> (exists|a: int, b: int| #[trigger] quotes_at(reply, a, b, c)) || (exists|i: int|
            #[trigger] word_claims(text::words_of(reply), i, c)),
{
    let words = text::words_of(reply);
    assert(reply.take(reply.len() as int) =~= reply);
    assert(words.take(words.len() as int) =~= words);
    lemma_quotes_contains(reply, reply.len() as int, c);
    lemma_scan_contains(quotes(reply).claims, words, words.len() as int, c);
    if exists|i: int| #[trigger] word_claims(words, i, c) {
        let i = choose|i: int| #[trigger] word_claims(words, i, c);
        assert(0 <= i < words.len() && word_claims(words, i, c));
    }
    if exists|a: int, b: int| #[trigger] quotes_at(reply, a, b, c) {
        let (a, b) = choose|a: int, b: int| #[trigger] quotes_at(reply, a, b, c);
        assert(b < reply.len() && quotes_at(reply, a, b, c));
    }
}

/// The word behind one that ends a sentence, or the first with a letter or a number
/// in it, claims nothing unless it has two digits.
pub proof fn the_first_word_of_a_sentence_claims_no_name(words: Seq<Seq<char>>, i: int, c: Seq<char>)
    requires
        0 <= i < words.len(),
        !two_digits(text::without_edges(words[i], Sort::Alnum, false)),
        i == 0 || stops(words[i - 1]),
    ensures
        !word_claims(words, i, c),
{
    if i > 0 {
        assert(begins_sentence(words, i)) by {
            assert forall|j: int|
                0 <= j < i && #[trigger] speaks(words[j]) implies exists|m: int|
                j <= m < i && #[trigger] stops(words[m]) by {
                assert(stops(words[i - 1]));
            }
        }
    }
}

proof fn lemma_scan_extends(claims: Seq<Seq<char>>, words: Seq<Seq<char>>, n: int, m: int)
    requires
        0 <= n <= m <= words.len(),
    ensures
        scan_words(claims, words.take(n)).claims.is_prefix_of(scan_words(claims, words.take(m)).claims),
    decreases m - n,
{
    let x = scan_words(claims, words.take(n)).claims;
    if n < m {
        lemma_scan_extends(claims, words, n, m - 1);
        lemma_word(claims, words, m - 1);
        let y = scan_words(claims, words.take(m - 1)).claims;
        let z = scan_words(claims, words.take(m)).claims;
        assert(z.take(x.len() as int) =~= y.take(x.len() as int));
    } else {
        assert(x.take(x.len() as int) =~= x);
    }
}

/// Claims come in the order in which they appear: quotations first, then what the
/// words claim, each where it is claimed first.
pub proof fn claims_come_in_order(reply: Seq<char>, x: int, y: int)
    requires
        0 <= x < y < claims_of(reply).len(),
        forall|a: int, b: int| !(#[trigger] quotes_at(reply, a, b, claims_of(reply)[y])),
    ensures
        (exists|a: int, b: int| #[trigger] quotes_at(reply, a, b, claims_of(reply)[x])) || exists|i: int|
            #[trigger] word_claims(text::words_of(reply), i, claims_of(reply)[x]) && forall|j: int|
                j <= i ==> !(#[trigger] word_claims(text::words_of(reply), j, claims_of(reply)[y])),
{
    let words = text::words_of(reply);
    let all = claims_of(reply);
    let q = quotes(reply).claims;
    let (c, d) = (all[x], all[y]);
    claims_are_distinct(reply);
    assert(reply.take(reply.len() as int) =~= reply);
    assert(words.take(words.len() as int) =~= words);
    lemma_quotes_contains(reply, reply.len() as int, c);
    lemma_quotes_contains(reply, reply.len() as int, d);
    if !q.contains(c) {
        lemma_scan_contains(q, words, words.len() as int, c);
        assert(all.contains(c)) by {
            assert(all[x] == c);
        }
        lemma_first(q, words, words.len() as int, c);
        let n = choose|n: int|
            0 <= n < words.len() && #[trigger] word_claims(words, n, c) && !scan_words(q, words.take(n)).claims.contains(
                c,
            );
        assert forall|j: int| j <= n implies !(#[trigger] word_claims(words, j, d)) by {
            if word_claims(words, j, d) {
                if j == n {
                    lemma_word(q, words, n);
                    assert(c == d);
                    assert(all[x] == all[y]);
                } else {
                    lemma_scan_contains(q, words, n, d);
                    lemma_scan_extends(q, words, n, words.len() as int);
                    let early = scan_words(q, words.take(n)).claims;
                    let k = choose|k: int| 0 <= k < early.len() && early[k] == d;
                    assert(all[k] == d);
                    assert(k == y);
                    assert(early[x] == all[x]);
                    assert(early.contains(c));
                }
            }
        }
    }
}

/// The word at which a claim is first made.
proof fn lemma_first(claims: Seq<Seq<char>>, words: Seq<Seq<char>>, n: int, c: Seq<char>)
    requires
        0 <= n <= words.len(),
        scan_words(claims, words.take(n)).claims.contains(c),
        !claims.contains(c),
    ensures
        exists|i: int|
            0 <= i < n && #[trigger] word_claims(words, i, c) && !scan_words(claims, words.take(i)).claims.contains(c),
    decreases n,
{
    if n > 0 {
        if scan_words(claims, words.take(n - 1)).claims.contains(c) {
            lemma_first(claims, words, n - 1, c);
        } else {
            lemma_scan_contains(claims, words, n, c);
            lemma_scan_contains(claims, words, n - 1, c);
            let i = choose|i: int| 0 <= i < n && #[trigger] word_claims(words, i, c);
            assert(i == n - 1);
        }
    } else {
        assert(words.take(0) =~= seq![]);
    }
}

/// The fillers are the greetings, the words that agree, the pronouns, what points at
/// things, the questions, the connectives, the verbs that help others, the words that
/// limit, and the words for a day or an hour; and no other word is one.
pub proof fn words_that_fill_claim_nothing(w: Seq<char>)
    ensures
        stop_word(w) <==> {
            ||| w == "hello"@ || w == "hi"@ || w == "hey"@ || w == "thanks"@ || w == "thank"@ ||
                w == "sorry"@ || w == "please"@
            ||| w == "ok"@ || w == "okay"@ || w == "sure"@ || w == "yes"@ || w == "no"@ || w == "great"@ ||
                w == "good"@ || w == "fine"@ || w == "right"@ || w == "well"@
            ||| w == "i"@ || w == "i'm"@ || w == "i'll"@ || w == "i've"@ || w == "i'd"@ || w == "you"@ ||
                w == "your"@ || w == "yours"@ || w == "we"@ || w == "our"@ || w == "me"@ || w == "my"@ ||
                w == "mine"@ || w == "he"@ || w == "she"@ || w == "they"@ || w == "them"@ || w == "it"@ ||
                w == "it's"@
            ||| w == "the"@ || w == "a"@ || w == "an"@ || w == "this"@ || w == "that"@ || w == "these"@ ||
                w == "those"@
            ||| w == "what"@ || w == "which"@ || w == "who"@ || w == "when"@ || w == "where"@ || w == "why"@ ||
                w == "how"@
            ||| w == "also"@ || w == "and"@ || w == "but"@ || w == "or"@ || w == "if"@ || w == "so"@ ||
                w == "then"@ || w == "now"@ || w == "here"@ || w == "there"@ || w == "let"@ || w == "let's"@
            ||| w == "do"@ || w == "does"@ || w == "did"@ || w == "can"@ || w == "could"@ || w == "would"@ ||
                w == "should"@ || w == "will"@ || w == "is"@ || w == "are"@ || w == "was"@ || w == "were"@
            ||| w == "not"@ || w == "nothing"@ || w == "none"@ || w == "just"@ || w == "only"@
            ||| w == "today"@ || w == "tomorrow"@ || w == "yesterday"@ || w == "am"@ || w == "pm"@ ||
                w == "utc"@
        },
{
}

// ---------------------------------------------------------------------------
// What a reply is held against
// ---------------------------------------------------------------------------

/// Every block of the prompt counts, each under its name: the persona and the trace, every
/// fact, the summary, every turn of the window, every note and every obligation; and
/// nothing else does, but an empty window, which counts as an empty block.
pub proof fn every_block_of_the_prompt_counts(ctx: ReplyContextV, p: (Seq<char>, Seq<char>))
    ensures
        parts_of(ctx).contains(p) <==> ({
            ||| p == ("persona"@, ctx.persona)
            ||| p == ("trace"@, ctx.turn_trace)
            ||| exists|i: int|
                0 <= i < ctx.facts.len() && p == ("fact:"@ + (#[trigger] ctx.facts[i]).key, ctx.facts[i].rendered)
            ||| ctx.summary matches Some(s) && p == ("summary"@, s.rendered)
            ||| ctx.window.len() == 0 && p == ("window"@, Seq::<char>::empty())
            ||| exists|i: int|
                0 <= i < ctx.window.len() && p == (
                    "window:"@ + text::decimal((#[trigger] ctx.window[i]).turn as nat),
                    ctx.window[i].rendered,
                )
            ||| exists|i: int|
                0 <= i < ctx.guidance.len() && p == ("guidance:"@ + (#[trigger] ctx.guidance[i]).hash, ctx.guidance[i].text)
            ||| exists|i: int| 0 <= i < ctx.obligations.len() && p == ("obligations"@, #[trigger] ctx.obligations[i])
        }),
{
    let a = seq![("persona"@, ctx.persona), ("trace"@, ctx.turn_trace)];
    let b = fact_parts(ctx.facts);
    let c = match ctx.summary {
        Some(s) => seq![("summary"@, s.rendered)],
        None => seq![],
    };
    let d = window_parts(ctx.window);
    let e = guidance_parts(ctx.guidance);
    let f = obligation_parts(ctx.obligations);
    lemma_either(a, b, p);
    lemma_either(a + b, c, p);
    lemma_either(a + b + c, d, p);
    lemma_either(a + b + c + d, e, p);
    lemma_either(a + b + c + d + e, f, p);
    assert(a.contains(p) <==> p == a[0] || p == a[1]);
    assert(b.contains(p) <==> exists|i: int|
        0 <= i < ctx.facts.len() && p == ("fact:"@ + (#[trigger] ctx.facts[i]).key, ctx.facts[i].rendered)) by {
        if b.contains(p) {
            let i = choose|i: int| 0 <= i < b.len() && b[i] == p;
            assert(p == ("fact:"@ + ctx.facts[i].key, ctx.facts[i].rendered));
        }
        if exists|i: int|
            0 <= i < ctx.facts.len() && p == ("fact:"@ + (#[trigger] ctx.facts[i]).key, ctx.facts[i].rendered) {
            let i = choose|i: int|
                0 <= i < ctx.facts.len() && p == ("fact:"@ + (#[trigger] ctx.facts[i]).key, ctx.facts[i].rendered);
            assert(b[i] == p);
        }
    }
    assert(c.contains(p) <==> (ctx.summary matches Some(s) && p == ("summary"@, s.rendered))) by {
        if let Some(s) = ctx.summary {
            assert(c[0] == ("summary"@, s.rendered));
        }
    }
    assert(d.contains(p) <==> (ctx.window.len() == 0 && p == ("window"@, Seq::<char>::empty())) || exists|i: int|
        0 <= i < ctx.window.len() && p == (
            "window:"@ + text::decimal((#[trigger] ctx.window[i]).turn as nat),
            ctx.window[i].rendered,
        )) by {
        if d.contains(p) {
            let i = choose|i: int| 0 <= i < d.len() && d[i] == p;
            if ctx.window.len() > 0 {
                assert(p == ("window:"@ + text::decimal(ctx.window[i].turn as nat), ctx.window[i].rendered));
            }
        }
        if ctx.window.len() == 0 && p == ("window"@, Seq::<char>::empty()) {
            assert(d[0] == p);
        }
        if exists|i: int|
            0 <= i < ctx.window.len() && p == (
                "window:"@ + text::decimal((#[trigger] ctx.window[i]).turn as nat),
                ctx.window[i].rendered,
            ) {
            let i = choose|i: int|
                0 <= i < ctx.window.len() && p == (
                    "window:"@ + text::decimal((#[trigger] ctx.window[i]).turn as nat),
                    ctx.window[i].rendered,
                );
            assert(d[i] == p);
        }
    }
    assert(e.contains(p) <==> exists|i: int|
        0 <= i < ctx.guidance.len() && p == ("guidance:"@ + (#[trigger] ctx.guidance[i]).hash, ctx.guidance[i].text)) by {
        if e.contains(p) {
            let i = choose|i: int| 0 <= i < e.len() && e[i] == p;
            assert(p == ("guidance:"@ + ctx.guidance[i].hash, ctx.guidance[i].text));
        }
        if exists|i: int|
            0 <= i < ctx.guidance.len() && p == ("guidance:"@ + (#[trigger] ctx.guidance[i]).hash, ctx.guidance[i].text) {
            let i = choose|i: int|
                0 <= i < ctx.guidance.len() && p == (
                    "guidance:"@ + (#[trigger] ctx.guidance[i]).hash,
                    ctx.guidance[i].text,
                );
            assert(e[i] == p);
        }
    }
    assert(f.contains(p) <==> exists|i: int|
        0 <= i < ctx.obligations.len() && p == ("obligations"@, #[trigger] ctx.obligations[i])) by {
        if f.contains(p) {
            let i = choose|i: int| 0 <= i < f.len() && f[i] == p;
            assert(p == ("obligations"@, ctx.obligations[i]));
        }
        if exists|i: int| 0 <= i < ctx.obligations.len() && p == ("obligations"@, #[trigger] ctx.obligations[i]) {
            let i = choose|i: int| 0 <= i < ctx.obligations.len() && p == ("obligations"@, #[trigger] ctx.obligations[i]);
            assert(f[i] == p);
        }
    }
}

proof fn lemma_either<A>(a: Seq<A>, b: Seq<A>, p: A)
    ensures
        (a + b).contains(p) <==> a.contains(p) || b.contains(p),
{
    let all = a + b;
    if a.contains(p) {
        let i = choose|i: int| 0 <= i < a.len() && a[i] == p;
        assert(all[i] == p);
    }
    if b.contains(p) {
        let i = choose|i: int| 0 <= i < b.len() && b[i] == p;
        assert(all[a.len() + i] == p);
    }
    if all.contains(p) {
        let i = choose|i: int| 0 <= i < all.len() && all[i] == p;
        if i < a.len() {
            assert(a[i] == p);
        } else {
            assert(b[i - a.len()] == p);
        }
    }
}

/// The lowercase of what was shown, one part to a line.
pub open spec fn shown_lines(parts: Seq<Seq<char>>) -> Seq<char> {
    text::joined(Seq::new(parts.len(), |i: int| unicode::lowered(parts[i])), "\n"@)
}

/// A claim is supported exactly where it is not empty and its lowercase stands somewhere in
/// the lowercase of what was shown, one part to a line.
pub proof fn what_supports_a_claim(parts: Seq<Seq<char>>, claim: Seq<char>)
    ensures
        supports(material_of(parts), claim) <==> claim.len() > 0 && exists|at: int| #[trigger]
            text::occurs_at(shown_lines(parts), unicode::lowered(claim), at),
{
    let lowered = Seq::new(parts.len(), |k: int| unicode::lowered(parts[k]));
    assert(material_of(parts) == text::joined(lowered, "\n"@));
    assert(shown_lines(parts) == text::joined(lowered, "\n"@));
}

/// What is flagged keeps the order of the claims.
pub proof fn flags_keep_the_order_of_claims(claims: Seq<Seq<char>>, material: Seq<char>)
    ensures
        unsupported(claims, material) == claims.filter(|c: Seq<char>| !supports(material, c)),
    decreases claims.len(),
{
    reveal(Seq::filter);
    if claims.len() > 0 {
        flags_keep_the_order_of_claims(claims.drop_last(), material);
    } else {
        assert(claims =~= seq![]);
    }
}

/// A part is cited exactly where the reply draws on a part of its name.
pub proof fn what_is_drawn_on_is_cited(ctx: ReplyContextV, reply: Seq<char>, parts: Seq<(Seq<char>, Seq<char>)>, i: int)
    requires
        0 <= i < parts.len(),
        draws_on(ctx, reply, parts[i]),
    ensures
        citations(ctx, reply, parts).contains(parts[i].0),
    decreases parts.len(),
{
    let rest = citations(ctx, reply, parts.drop_last());
    let all = citations(ctx, reply, parts);
    let id = parts[i].0;
    if i < parts.len() - 1 {
        what_is_drawn_on_is_cited(ctx, reply, parts.drop_last(), i);
    }
    if rest.contains(id) {
        let j = choose|j: int| 0 <= j < rest.len() && rest[j] == id;
        assert(all[j] == id);
    } else {
        assert(all[rest.len() as int] == id);
    }
}

/// When a reply draws on a part: on a fact where it says its value, of three characters or
/// more; on the summary and on a turn where one of its claims stands there; on a note where
/// it says three of its words in a row, case aside; on nothing else.
pub proof fn when_a_reply_draws_on_a_part(ctx: ReplyContextV, reply: Seq<char>, name: Seq<char>, body: Seq<char>, f: int)
    ensures
        ({
            let lower = unicode::lowered(reply);
            let claimed = exists|i: int|
                0 <= i < claims_of(reply).len() && (#[trigger] claims_of(reply)[i]).len() > 0 && text::contains(
                    unicode::lowered(body),
                    unicode::lowered(claims_of(reply)[i]),
                );
            let ws = text::words_of(unicode::lowered(body));
            let worded = exists|i: int|
                0 <= i && i + 2 < ws.len() && text::contains(lower, #[trigger] ws[i] + " "@ + ws[i + 1] + " "@ + ws[i + 2]);
            &&& 0 <= f < ctx.facts.len() && (forall|j: int| 0 <= j < f ==> (#[trigger] ctx.facts[j]).key != ctx.facts[f].key)
                ==> (draws_on(ctx, reply, ("fact:"@ + ctx.facts[f].key, body)) <==> {
                let value = unicode::lowered(json::prose(ctx.facts[f].value));
                value.len() >= 3 && text::contains(lower, value)
            })
            &&& draws_on(ctx, reply, ("summary"@, body)) <==> claimed
            &&& draws_on(ctx, reply, ("window:"@ + name, body)) <==> claimed
            &&& draws_on(ctx, reply, ("guidance:"@ + name, body)) <==> worded
            &&& !draws_on(ctx, reply, ("persona"@, body))
            &&& !draws_on(ctx, reply, ("trace"@, body))
            &&& !draws_on(ctx, reply, ("obligations"@, body))
        }),
{
    reveal_strlit("fact:");
    reveal_strlit("summary");
    reveal_strlit("window:");
    reveal_strlit("guidance:");
    reveal_strlit("persona");
    reveal_strlit("trace");
    reveal_strlit("obligations");
    let lower = unicode::lowered(reply);
    let w = "window:"@ + name;
    let g = "guidance:"@ + name;
    assert(w.take(7) =~= "window:"@);
    assert(g.take(9) =~= "guidance:"@);
    assert(w[0] == 'w' && g[0] == 'g');
    lemma_other_start(w, "fact:"@);
    lemma_other_start(g, "fact:"@);
    lemma_other_start(g, "window:"@);
    lemma_other_start("summary"@, "fact:"@);
    lemma_other_start("persona"@, "fact:"@);
    lemma_other_start("persona"@, "window:"@);
    lemma_other_start("persona"@, "guidance:"@);
    lemma_other_start("trace"@, "fact:"@);
    lemma_other_start("obligations"@, "fact:"@);
    lemma_other_start("obligations"@, "window:"@);
    lemma_other_start("obligations"@, "guidance:"@);
    assert("persona"@[0] == 'p' && "trace"@[0] == 't' && "obligations"@[0] == 'o' && "summary"@[0] == 's');
    let ws = text::words_of(unicode::lowered(body));
    let ts = triples(ws);
    if any_in(lower, ts) {
        let i = choose|i: int| 0 <= i < ts.len() && text::contains(lower, #[trigger] ts[i]);
        assert(ts[i] == ws[i] + " "@ + ws[i + 1] + " "@ + ws[i + 2]);
    }
    if exists|i: int|
        0 <= i && i + 2 < ws.len() && text::contains(lower, #[trigger] ws[i] + " "@ + ws[i + 1] + " "@ + ws[i + 2]) {
        let i = choose|i: int|
            0 <= i && i + 2 < ws.len() && text::contains(lower, #[trigger] ws[i] + " "@ + ws[i + 1] + " "@ + ws[i + 2]);
        assert(text::contains(lower, ts[i]));
    }
    if 0 <= f < ctx.facts.len() && (forall|j: int| 0 <= j < f ==> (#[trigger] ctx.facts[j]).key != ctx.facts[f].key) {
        let n = "fact:"@ + ctx.facts[f].key;
        assert(n.take(5) =~= "fact:"@);
        lemma_fact_value(ctx.facts, f);
    }
}

proof fn lemma_other_start(s: Seq<char>, p: Seq<char>)
    requires
        s.len() > 0,
        p.len() > 0,
        s[0] != p[0],
    ensures
        !text::starts(s, p),
{
    if text::starts(s, p) {
        assert(s.take(p.len() as int)[0] == p[0]);
    }
}

proof fn lemma_fact_value(facts: Seq<ShownFactV>, f: int)
    requires
        0 <= f < facts.len(),
        forall|j: int| 0 <= j < f ==> (#[trigger] facts[j]).key != facts[f].key,
    ensures
        fact_value(facts, "fact:"@ + facts[f].key) == json::prose(facts[f].value),
    decreases facts.len(),
{
    if f > 0 {
        let rest = facts.drop_first();
        assert(facts[0].key != facts[f].key);
        assert("fact:"@ + facts[0].key != "fact:"@ + facts[f].key) by {
            if "fact:"@ + facts[0].key == "fact:"@ + facts[f].key {
                let n = "fact:"@.len() as int;
                assert(("fact:"@ + facts[0].key).skip(n) =~= facts[0].key);
                assert(("fact:"@ + facts[f].key).skip(n) =~= facts[f].key);
            }
        }
        assert(rest[f - 1] == facts[f]);
        assert forall|j: int| 0 <= j < f - 1 implies (#[trigger] rest[j]).key != rest[f - 1].key by {
            assert(rest[j] == facts[j + 1]);
        }
        lemma_fact_value(rest, f - 1);
    }
}

/// The obligation at `k` is a question, and the draft does not address it.
pub open spec fn open_question(obligations: Seq<Seq<char>>, addressed: Seq<bool>, k: int) -> bool {
    0 <= k < obligations.len() && text::starts(obligations[k], "answer: "@) && !addressed[k]
}

/// What is asked for again is the first question that the draft does not address; other
/// obligations are not asked for.
pub proof fn the_first_open_question_is_named(obligations: Seq<Seq<char>>, addressed: Seq<bool>, k: int)
    requires
        obligations.len() == addressed.len(),
        0 <= k <= obligations.len(),
        forall|j: int| 0 <= j < k ==> !(#[trigger] open_question(obligations, addressed, j)),
    ensures
        k == obligations.len() ==> first_unaddressed(obligations, addressed) is None,
        open_question(obligations, addressed, k) ==> first_unaddressed(obligations, addressed) == Some(
            obligations[k].skip("answer: "@.len() as int),
        ),
    decreases obligations.len(),
{
    if obligations.len() > 0 && k > 0 {
        let (a, b) = (obligations.drop_first(), addressed.drop_first());
        assert(!open_question(obligations, addressed, 0));
        assert forall|j: int| 0 <= j < k - 1 implies !(#[trigger] open_question(a, b, j)) by {
            assert(!open_question(obligations, addressed, j + 1));
            assert(a[j] == obligations[j + 1] && b[j] == addressed[j + 1]);
        }
        if k < obligations.len() {
            assert(a[k - 1] == obligations[k] && b[k - 1] == addressed[k]);
        }
        the_first_open_question_is_named(a, b, k - 1);
    }
}

} // verus!
