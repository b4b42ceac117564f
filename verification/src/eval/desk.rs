//! The desktop that the three tasks run against: a screen read of recorded
//! size, a pointer that acts on it, and a double that finds its way by what it
//! is shown and nothing else.

use vstd::prelude::*;

use crate::events::{ActionSpec, ActionSpecV, Proposal, ProposalV, ToolOutcomeV, ToolOutput, ToolOutputV};
use crate::json;
use crate::json::{integer_arg, object, quote, string_arg};
use crate::text;
use crate::text::{
    cat2, cat3, cat4, cat5, cat6, cat7, chars_of, ends_with, find, find_from, has, join, number, parse_signed, same,
    signed_number, split_lines, starts_with, text_of, trim,
};
use crate::turn::legal;
use crate::turn::legal::is_offered;
use crate::turn::specs;
use crate::turn::specs::{plain, INSPECT_RESULT};
use crate::turn::tools;
use crate::turn::tools::ToolFailure;
use crate::types::{clone_texts, Json, SideEffect, Trust};
use crate::unicode;
use crate::unicode::debug_text;

verus! {

// ---------------------------------------------------------------------------
// The screen
// ---------------------------------------------------------------------------

/// The size of the larger screen read on record.
pub const RECORDED_CHARS: usize = 14_425;

/// In the dialog, so in the part of the read that a cap keeps.
pub const HEAD_CONTROL: &'static str = "Uložit jako…";

pub const SEARCH_CONTROL: &'static str = "Najít v listu";

pub const RESULT_CONTROL: &'static str = "První výsledek";

/// The last line of the read, far past any cap.
pub const TAIL_CONTROL: &'static str = "Sloučit buňky";

/// Where the last control is clicked.
pub const TAIL_X: i64 = 1704;

pub const TAIL_Y: i64 = 928;

/// What the screen read begins with: the dialog in front, then the two controls
/// of the search.
pub open spec fn head_text() -> Seq<char> {
    "MODAL (handle this before anything behind it):\n  dialog \"Uložit změny v sešitu?\" (960,472)\n  button \""@
        + HEAD_CONTROL@
        + "\" (872,604)\n  button \"Zahodit změny\" (976,604)\n  button \"Zrušit\" (1080,604)\nbutton \""@
        + SEARCH_CONTROL@ + "\" (1240,96)\nbutton \""@ + RESULT_CONTROL@ + "\" (1360,96)\n"@
}

/// What it ends with.
pub open spec fn tail_text() -> Seq<char> {
    "button \""@ + TAIL_CONTROL@ + "\""@ + point_text(TAIL_X as int, TAIL_Y as int) + "\n"@
}

/// A click point as the screen read writes it behind a control.
pub open spec fn point_text(x: int, y: int) -> Seq<char> {
    " ("@ + text::signed(x) + ","@ + text::signed(y) + ")"@
}

/// The role and the name of the `i`th row in between.
pub open spec fn filler(i: nat) -> (Seq<char>, Seq<char>) {
    if i % 8 == 0 {
        ("menuitem"@, "Formát"@)
    } else if i % 8 == 1 {
        ("menuitem"@, "Vložit"@)
    } else if i % 8 == 2 {
        ("button"@, "Tučné"@)
    } else if i % 8 == 3 {
        ("cell"@, "Řádek"@)
    } else if i % 8 == 4 {
        ("text"@, "Sloupec"@)
    } else if i % 8 == 5 {
        ("checkbox"@, "Zamknout"@)
    } else if i % 8 == 6 {
        ("button"@, "Filtr"@)
    } else {
        ("tab"@, "Sešit"@)
    }
}

/// The `i`th row in between: a control on a grid that meets none of the points
/// that the tasks reach.
pub open spec fn filler_row(i: nat) -> Seq<char> {
    filler(i).0 + " \""@ + filler(i).1 + " "@ + text::decimal(i) + "\""@ + point_text(
        (120 + (i % 9) * 180) as int,
        (96 + (i / 9) * 24) as int,
    ) + "\n"@
}

pub proof fn lemma_filler_row(i: nat)
    ensures
        filler_row(i).len() > 0,
{
    text::lemma_decimal(i);
}

/// How many characters a read of `len` lacks.
pub open spec fn room_in(len: nat) -> nat {
    if len < RECORDED_CHARS {
        (RECORDED_CHARS - len) as nat
    } else {
        0
    }
}

/// `s` with whole rows behind it, the `i`th first, until the tail brings it to
/// the recorded size.
pub open spec fn with_rows(s: Seq<char>, i: nat) -> Seq<char>
    decreases room_in(s.len()),
{
    if s.len() + tail_text().len() < RECORDED_CHARS {
        proof {
            lemma_filler_row(i);
        }
        with_rows(s + filler_row(i), i + 1)
    } else {
        s
    }
}

/// The screen read.
pub open spec fn tree_text() -> Seq<char> {
    with_rows(head_text(), 0) + tail_text()
}

fn point(x: i64, y: i64) -> (r: String)
    ensures
        r@ == point_text(x as int, y as int),
{
    let xs: String = signed_number(x);
    let ys: String = signed_number(y);
    cat5(" (", xs.as_str(), ",", ys.as_str(), ")")
}

fn row(i: u64) -> (r: String)
    requires
        i < 1_000_000,
    ensures
        r@ == filler_row(i as nat),
{
    let k: u64 = i % 8;
    let pair: (&'static str, &'static str) = if k == 0 {
        ("menuitem", "Formát")
    } else if k == 1 {
        ("menuitem", "Vložit")
    } else if k == 2 {
        ("button", "Tučné")
    } else if k == 3 {
        ("cell", "Řádek")
    } else if k == 4 {
        ("text", "Sloupec")
    } else if k == 5 {
        ("checkbox", "Zamknout")
    } else if k == 6 {
        ("button", "Filtr")
    } else {
        ("tab", "Sešit")
    };
    let n: String = number(i);
    let x: i64 = (120 + (i % 9) * 180) as i64;
    let y: i64 = (96 + (i / 9) * 24) as i64;
    let at: String = point(x, y);
    let mut out: String = cat6(pair.0, " \"", pair.1, " ", n.as_str(), "\"");
    out.append(at.as_str());
    out.append("\n");
    out
}

/// The screen read: what is in front of everything else, then one line for each
/// control.
pub fn control_tree() -> (r: String)
    ensures
        r@ == tree_text(),
{
    let mut s: String = cat7(
        "MODAL (handle this before anything behind it):\n  dialog \"Uložit změny v sešitu?\" (960,472)\n  button \"",
        HEAD_CONTROL,
        "\" (872,604)\n  button \"Zahodit změny\" (976,604)\n  button \"Zrušit\" (1080,604)\nbutton \"",
        SEARCH_CONTROL,
        "\" (1240,96)\nbutton \"",
        RESULT_CONTROL,
        "\" (1360,96)\n",
    );
    let at: String = point(TAIL_X, TAIL_Y);
    let tail: String = cat5("button \"", TAIL_CONTROL, "\"", at.as_str(), "\n");
    let behind: usize = chars_of(tail.as_str()).len();
    let mut len: usize = chars_of(s.as_str()).len();
    let mut i: u64 = 0;
    while len < RECORDED_CHARS && behind < RECORDED_CHARS - len
        invariant
            len == s@.len(),
            behind == tail@.len(),
            tail@ == tail_text(),
            i <= len,
            with_rows(s@, i as nat) == with_rows(head_text(), 0),
        ensures
            with_rows(s@, i as nat) == s@,
        decreases room_in(len as nat),
    {
        let line: String = row(i);
        proof {
            lemma_filler_row(i as nat);
        }
        s.append(line.as_str());
        len = chars_of(s.as_str()).len();
        i = i + 1;
    }
    s.append(tail.as_str());
    s
}

// ---------------------------------------------------------------------------
// What is under the pointer
// ---------------------------------------------------------------------------

/// The first of `lines` that ends with `p`.
pub open spec fn first_ending(lines: Seq<Seq<char>>, p: Seq<char>) -> Option<Seq<char>>
    decreases lines.len(),
{
    if lines.len() == 0 {
        None
    } else if text::ends(lines[0], p) {
        Some(lines[0])
    } else {
        first_ending(lines.drop_first(), p)
    }
}

/// `s` without the copies of `p` that end it.
pub open spec fn without_ends(s: Seq<char>, p: Seq<char>) -> Seq<char>
    decreases s.len(),
{
    if p.len() > 0 && text::ends(s, p) {
        without_ends(s.take(s.len() - p.len()), p)
    } else {
        s
    }
}

/// The control that `screen` shows at a point.
pub open spec fn control_in(screen: Seq<char>, x: int, y: int) -> Option<Seq<char>> {
    match first_ending(text::lines_of(screen), point_text(x, y)) {
        Some(line) => Some(without_ends(text::trimmed(line), point_text(x, y))),
        None => None,
    }
}

fn strip_ends(s: &str, p: &str) -> (r: String)
    requires
        p@.len() > 0,
    ensures
        r@ == without_ends(s@, p@),
    decreases s@.len(),
{
    if ends_with(s, p) {
        let cs: Vec<char> = chars_of(s);
        let n: usize = chars_of(p).len();
        let rest: String = text_of(&cs, 0, cs.len() - n);
        proof {
            assert(rest@ =~= s@.take(s@.len() - p@.len()));
        }
        strip_ends(rest.as_str(), p)
    } else {
        s.to_owned()
    }
}

/// The control at a point of the screen, as the screen read names it; none where
/// a click hits nothing.
pub fn control_at(x: i64, y: i64) -> (r: Option<String>)
    ensures
        r.deep_view() == control_in(tree_text(), x as int, y as int),
{
    let at: String = point(x, y);
    let screen: String = control_tree();
    let lines: Vec<String> = split_lines(screen.as_str());
    let ghost all = lines.deep_view();
    proof {
        reveal_strlit(" (");
        assert(at@.len() > 0);
        assert(all.skip(0) =~= all);
    }
    let mut i: usize = 0;
    while i < lines.len()
        invariant
            i <= lines@.len(),
            all == lines.deep_view(),
            all == text::lines_of(tree_text()),
            at@ == point_text(x as int, y as int),
            at@.len() > 0,
            first_ending(all, at@) == first_ending(all.skip(i as int), at@),
        decreases lines@.len() - i,
    {
        proof {
            assert(all.skip(i as int)[0] == lines@[i as int]@);
            assert(all.skip(i as int).drop_first() =~= all.skip(i + 1));
        }
        if ends_with(lines[i].as_str(), at.as_str()) {
            let line: String = trim(lines[i].as_str());
            let control: String = strip_ends(line.as_str(), at.as_str());
            return Some(control);
        }
        i = i + 1;
    }
    proof {
        assert(all.skip(i as int) =~= seq![]);
    }
    None
}

// ---------------------------------------------------------------------------
// The pointer
// ---------------------------------------------------------------------------

/// What a desktop turn is made of.
#[derive(Debug, Clone, Copy, PartialEq, Eq, Structural)]
pub enum Desk {
    Read,
    Click,
    Type,
}

/// One of the three tools of the desktop.
#[derive(Debug)]
pub struct DeskTool {
    act: Desk,
    spec: ActionSpec,
}

pub open spec fn read_schema() -> ActionSpecV {
    specs::plain_spec(
        "pointer_ui_read"@,
        "The remote machine's controls as text — role, name and a clickable point each. Anything blocking the screen is listed first under MODAL."@,
        "{\"properties\":{\"query\":{\"type\":\"string\"}},\"required\":[\"query\"],\"type\":\"object\"}"@,
        SideEffect::Pure,
    )
}

pub open spec fn click_schema() -> ActionSpecV {
    specs::plain_spec(
        "pointer_click"@,
        "Click on the remote machine. Irreversible: whatever is under the pointer will be activated."@,
        "{\"properties\":{\"x\":{\"type\":\"integer\"},\"y\":{\"type\":\"integer\"}},\"required\":[\"x\",\"y\"],\"type\":\"object\"}"@,
        SideEffect::Irreversible,
    )
}

pub open spec fn typing_schema() -> ActionSpecV {
    specs::plain_spec(
        "pointer_type"@,
        "Type text on the remote machine. Irreversible: it goes to whatever has focus."@,
        "{\"properties\":{\"text\":{\"type\":\"string\"}},\"required\":[\"text\"],\"type\":\"object\"}"@,
        SideEffect::Irreversible,
    )
}

/// What the desktop answers: the whole screen to a read, whatever it asks for;
/// the control under the pointer to a click; the text to a keystroke.
pub open spec fn answered(act: Desk, x: Option<i64>, y: Option<i64>, typed: Option<Seq<char>>) -> ToolOutcomeV {
    let place = |x: i64, y: i64| "("@ + text::signed(x as int) + ","@ + text::signed(y as int) + ")"@;
    match act {
        Desk::Read => done(tree_text()),
        Desk::Click => match (x, y) {
            (Some(x), Some(y)) => match control_in(tree_text(), x as int, y as int) {
                Some(control) => done("clicked "@ + control + " at "@ + place(x, y)),
                None => ToolOutcomeV::Failed { kind: "miss"@, detail: "no control at "@ + place(x, y) },
            },
            _ => ToolOutcomeV::Failed { kind: "args"@, detail: "needs numeric x and y"@ },
        },
        Desk::Type => done("typed "@ + unicode::quoted(match typed {
            Some(s) => s,
            None => seq![],
        })),
    }
}

/// What the remote machine reports.
pub open spec fn done(summary: Seq<char>) -> ToolOutcomeV {
    ToolOutcomeV::Done { output: ToolOutputV { summary, artifact: None, trust: Trust::System } }
}

/// What the desktop answers to a call whose arguments have been read.
pub fn answer(act: Desk, x: Option<i64>, y: Option<i64>, typed: Option<String>) -> (r: Result<ToolOutput, ToolFailure>)
    ensures
        tools::outcome_from(r) == answered(act, x, y, typed.deep_view()),
{
    let summary: String = match act {
        Desk::Read => control_tree(),
        Desk::Click => match (x, y) {
            (Some(x), Some(y)) => {
                let xs: String = signed_number(x);
                let ys: String = signed_number(y);
                let place: String = cat5("(", xs.as_str(), ",", ys.as_str(), ")");
                match control_at(x, y) {
                    Some(control) => cat4("clicked ", control.as_str(), " at ", place.as_str()),
                    None => {
                        return Err(ToolFailure {
                            kind: "miss".to_owned(),
                            detail: cat2("no control at ", place.as_str()),
                        });
                    },
                }
            },
            _ => {
                return Err(ToolFailure { kind: "args".to_owned(), detail: "needs numeric x and y".to_owned() });
            },
        },
        Desk::Type => {
            let shown: String = match typed {
                Some(s) => debug_text(s.as_str()),
                None => {
                    proof {
                        reveal_strlit("");
                        assert(""@ =~= Seq::<char>::empty());
                    }
                    debug_text("")
                },
            };
            cat2("typed ", shown.as_str())
        },
    };
    Ok(ToolOutput { summary, artifact: None, trust: Trust::System })
}

impl DeskTool {
    pub closed spec fn acts(&self) -> Desk {
        self.act
    }

    pub closed spec fn schema(&self) -> ActionSpecV {
        self.spec.deep_view()
    }

    /// The tool that reads the screen.
    pub fn read() -> (r: Self)
        ensures
            r.acts() == Desk::Read,
            r.schema() == read_schema(),
    {
        DeskTool {
            act: Desk::Read,
            spec: plain(
                "pointer_ui_read",
                "The remote machine's controls as text — role, name and a clickable point each. Anything blocking the screen is listed first under MODAL.",
                "{\"properties\":{\"query\":{\"type\":\"string\"}},\"required\":[\"query\"],\"type\":\"object\"}",
                SideEffect::Pure,
            ),
        }
    }

    /// The tool that clicks.
    pub fn click() -> (r: Self)
        ensures
            r.acts() == Desk::Click,
            r.schema() == click_schema(),
    {
        DeskTool {
            act: Desk::Click,
            spec: plain(
                "pointer_click",
                "Click on the remote machine. Irreversible: whatever is under the pointer will be activated.",
                "{\"properties\":{\"x\":{\"type\":\"integer\"},\"y\":{\"type\":\"integer\"}},\"required\":[\"x\",\"y\"],\"type\":\"object\"}",
                SideEffect::Irreversible,
            ),
        }
    }

    /// The tool that types.
    pub fn typing() -> (r: Self)
        ensures
            r.acts() == Desk::Type,
            r.schema() == typing_schema(),
    {
        DeskTool {
            act: Desk::Type,
            spec: plain(
                "pointer_type",
                "Type text on the remote machine. Irreversible: it goes to whatever has focus.",
                "{\"properties\":{\"text\":{\"type\":\"string\"}},\"required\":[\"text\"],\"type\":\"object\"}",
                SideEffect::Irreversible,
            ),
        }
    }

    pub fn spec(&self) -> (r: &ActionSpec)
        ensures
            r.deep_view() == self.schema(),
    {
        &self.spec
    }

    pub fn call(&self, args: &Json) -> (r: Result<ToolOutput, ToolFailure>)
        ensures
            tools::outcome_from(r) == answered(
                self.acts(),
                json::json_int_at(args.deep_view(), "/x"@),
                json::json_int_at(args.deep_view(), "/y"@),
                json::json_str_at(args.deep_view(), "/text"@),
            ),
    {
        let x: Option<i64> = integer_arg(args, "/x");
        let y: Option<i64> = integer_arg(args, "/y");
        let typed: Option<String> = string_arg(args, "/text");
        answer(self.act, x, y, typed)
    }
}

// ---------------------------------------------------------------------------
// What the double finds in its prompt
// ---------------------------------------------------------------------------

/// The text behind the first `opener` of a trace.
pub open spec fn behind(trace: Seq<char>, opener: Seq<char>) -> Option<Seq<char>> {
    match text::found(trace, opener) {
        Some(at) => Some(trace.skip(at + opener.len())),
        None => None,
    }
}

/// The point that a text opens with, up to its closing bracket.
pub open spec fn point_at(rest: Seq<char>) -> Option<(int, int)> {
    match text::found(rest, seq![')']) {
        None => None,
        Some(close) => match text::found(rest.take(close), seq![',']) {
            None => None,
            Some(comma) => {
                let x = text::parsed_signed(text::trimmed(rest.take(comma)));
                let y = text::parsed_signed(text::trimmed(rest.subrange(comma + 1, close)));
                match (x, y) {
                    (Some(x), Some(y)) => Some((x, y)),
                    _ => None,
                }
            },
        },
    }
}

/// The point that a trace shows for a control. A line that was cut inside the
/// point shows none.
pub open spec fn shown_point(trace: Seq<char>, name: Seq<char>) -> Option<(int, int)> {
    match behind(trace, "\""@ + name + "\" ("@) {
        Some(rest) => point_at(rest),
        None => None,
    }
}

/// A single character, to search for.
fn single(c: char) -> (r: Vec<char>)
    ensures
        r@ == seq![c],
{
    let mut v: Vec<char> = Vec::new();
    v.push(c);
    proof {
        assert(v@ =~= seq![c]);
    }
    v
}

/// The click point that the trace shows for a control, where it shows one.
pub fn point_of(trace: &str, name: &str) -> (r: Option<(i64, i64)>)
    ensures
        match r {
            Some(p) => shown_point(trace@, name@) == Some((p.0 as int, p.1 as int)),
            None => shown_point(trace@, name@) is None,
        },
{
    let opener: String = cat3("\"", name, "\" (");
    let at: usize = match find(trace, opener.as_str()) {
        Some(at) => at,
        None => {
            return None;
        },
    };
    let cs: Vec<char> = chars_of(trace);
    let n: usize = chars_of(opener.as_str()).len();
    proof {
        text::lemma_found(trace@, opener@);
    }
    assert(at + n <= cs.len());
    let rest: String = text_of(&cs, at + n, cs.len());
    let ghost tail = trace@.skip(at + n);
    proof {
        assert(rest@ =~= tail);
    }
    let rs: Vec<char> = chars_of(rest.as_str());
    let bracket: Vec<char> = single(')');
    let close: usize = match find_from(&rs, &bracket, 0) {
        Some(close) => close,
        None => {
            return None;
        },
    };
    proof {
        text::lemma_found(tail, seq![')']);
    }
    let inner: String = text_of(&rs, 0, close);
    proof {
        assert(inner@ =~= tail.take(close as int));
    }
    let is: Vec<char> = chars_of(inner.as_str());
    let mark: Vec<char> = single(',');
    let comma: usize = match find_from(&is, &mark, 0) {
        Some(comma) => comma,
        None => {
            return None;
        },
    };
    proof {
        text::lemma_found(inner@, seq![',']);
    }
    assert(comma + 1 <= is.len());
    let left: String = text_of(&is, 0, comma);
    let right: String = text_of(&is, comma + 1, is.len());
    proof {
        assert(left@ =~= tail.take(comma as int));
        assert(right@ =~= tail.subrange(comma + 1, close as int));
    }
    let x: Option<i64> = parse_signed(trim(left.as_str()).as_str());
    let y: Option<i64> = parse_signed(trim(right.as_str()).as_str());
    match (x, y) {
        (Some(x), Some(y)) => Some((x, y)),
        _ => None,
    }
}

pub open spec fn in_handle(c: char) -> bool {
    c == 'r' || text::is_digit(c)
}

/// How many characters a handle has that a text opens with.
pub open spec fn handle_len(s: Seq<char>) -> nat
    decreases s.len(),
{
    if s.len() > 0 && in_handle(s[0]) {
        1 + handle_len(s.drop_first())
    } else {
        0
    }
}

/// The handle that a clipped line of the trace names.
pub open spec fn shown_handle(trace: Seq<char>) -> Option<Seq<char>> {
    match text::found(trace, seq!['[', 'r']) {
        Some(at) => {
            let rest = trace.skip(at + 1);
            if handle_len(rest) > 1 {
                Some(rest.take(handle_len(rest) as int))
            } else {
                None
            }
        },
        None => None,
    }
}

/// The handle of the first clipped line of a trace, where there is one.
pub fn handle_in(trace: &str) -> (r: Option<String>)
    ensures
        r.deep_view() == shown_handle(trace@),
{
    let cs: Vec<char> = chars_of(trace);
    let mut opener: Vec<char> = Vec::new();
    opener.push('[');
    opener.push('r');
    proof {
        assert(opener@ =~= seq!['[', 'r']);
    }
    let at: usize = match find_from(&cs, &opener, 0) {
        Some(at) => at,
        None => {
            return None;
        },
    };
    proof {
        text::lemma_found(trace@, opener@);
    }
    assert(at + 2 <= cs.len());
    let ghost rest = trace@.skip(at + 1);
    let mut end: usize = at + 1;
    proof {
        assert(rest.skip(0) =~= rest);
    }
    while end < cs.len() && (cs[end] == 'r' || ('0' <= cs[end] && cs[end] <= '9'))
        invariant
            at + 1 <= end <= cs@.len(),
            cs@ == trace@,
            rest == trace@.skip(at + 1),
            handle_len(rest) == (end - at - 1) + handle_len(rest.skip(end - at - 1)),
        decreases cs@.len() - end,
    {
        proof {
            assert(rest.skip(end - at - 1)[0] == cs@[end as int]);
            assert(rest.skip(end - at - 1).drop_first() =~= rest.skip(end - at));
        }
        end = end + 1;
    }
    proof {
        let left = rest.skip(end - at - 1);
        if end < cs.len() {
            assert(left[0] == cs@[end as int]);
        }
        assert(handle_len(left) == 0);
    }
    if end - at - 1 > 1 {
        let handle: String = text_of(&cs, at + 1, end);
        proof {
            assert(handle@ =~= rest.take(handle_len(rest) as int));
        }
        Some(handle)
    } else {
        None
    }
}

/// The line of a trace says how a call came out, or counts older ones.
pub open spec fn tells_outcome(line: Seq<char>) -> bool {
    text::contains(line, "ToolReturned("@) || text::starts(line, "earlier this turn"@)
}

/// The outcomes that a trace shows, one under the other.
pub open spec fn outcomes_shown(trace: Seq<Seq<char>>) -> Seq<char> {
    text::joined(trace.filter(|line: Seq<char>| tells_outcome(line)), "\n"@)
}

/// The lines of a trace that say how a call came out, the one that counts the
/// folded ones among them.
pub fn outcomes_in(trace: &Vec<String>) -> (r: String)
    ensures
        r@ == outcomes_shown(trace.deep_view()),
{
    let ghost all = trace.deep_view();
    let ghost keep = |line: Seq<char>| tells_outcome(line);
    let mut out: Vec<String> = Vec::new();
    let mut i: usize = 0;
    proof {
        reveal(Seq::filter);
        assert(out.deep_view() =~= all.take(0).filter(keep));
    }
    while i < trace.len()
        invariant
            i <= trace@.len(),
            all == trace.deep_view(),
            keep == (|line: Seq<char>| tells_outcome(line)),
            out.deep_view() == all.take(i as int).filter(keep),
        decreases trace@.len() - i,
    {
        let ghost before = out.deep_view();
        let line: &str = trace[i].as_str();
        proof {
            reveal(Seq::filter);
            assert(all.take(i + 1).drop_last() =~= all.take(i as int));
            assert(all.take(i + 1).last() == line@);
        }
        if has(line, "ToolReturned(") || starts_with(line, "earlier this turn") {
            out.push(trace[i].clone());
            proof {
                assert(out.deep_view() =~= before.push(line@));
            }
        }
        i = i + 1;
    }
    proof {
        assert(all.take(i as int) =~= all);
    }
    join(&out, "\n")
}

/// The line reports a click on a control.
pub open spec fn reports_click(line: Seq<char>, name: Seq<char>) -> bool {
    text::contains(line, "ok: clicked "@) && text::contains(line, name)
}

/// Some line of the outcomes reports a click on the control.
pub open spec fn was_reached(outcomes: Seq<char>, name: Seq<char>) -> bool {
    exists|i: int|
        0 <= i < text::lines_of(outcomes).len() && reports_click(#[trigger] text::lines_of(outcomes)[i], name)
}

/// Whether the outcomes show the click that reaches a control: the report and
/// the name on one line.
pub fn reached(outcomes: &str, name: &str) -> (r: bool)
    ensures
        r == was_reached(outcomes@, name@),
{
    let lines: Vec<String> = split_lines(outcomes);
    let ghost all = lines.deep_view();
    let mut i: usize = 0;
    while i < lines.len()
        invariant
            i <= lines@.len(),
            all == lines.deep_view(),
            all == text::lines_of(outcomes@),
            forall|k: int| 0 <= k < i ==> !reports_click(#[trigger] all[k], name@),
        decreases lines@.len() - i,
    {
        assert(all[i as int] == lines@[i as int]@);
        if has(lines[i].as_str(), "ok: clicked ") && has(lines[i].as_str(), name) {
            return true;
        }
        i = i + 1;
    }
    false
}

// ---------------------------------------------------------------------------
// The double
// ---------------------------------------------------------------------------

/// One thing that the double sets out to do. Only the intent is given: every
/// argument it sends comes out of what it is shown.
#[derive(Debug)]
pub enum Step {
    Read { query: String },
    Reach { name: String },
    Type { text: String },
}

pub enum StepV {
    Read { query: Seq<char> },
    Reach { name: Seq<char> },
    Type { text: Seq<char> },
}

impl DeepView for Step {
    type V = StepV;

    open spec fn deep_view(&self) -> StepV {
        match self {
            Step::Read { query } => StepV::Read { query: query.deep_view() },
            Step::Reach { name } => StepV::Reach { name: name.deep_view() },
            Step::Type { text } => StepV::Type { text: text.deep_view() },
        }
    }
}

impl Clone for Step {
    fn clone(&self) -> (r: Self)
        ensures
            r.deep_view() == self.deep_view(),
    {
        match self {
            Step::Read { query } => Step::Read { query: query.clone() },
            Step::Reach { name } => Step::Reach { name: name.clone() },
            Step::Type { text } => Step::Type { text: text.clone() },
        }
    }
}

/// What the double has still to do, what it is at, and the outcomes that were
/// in sight when it took that up.
#[derive(Debug)]
pub struct Plan {
    pub steps: Vec<Step>,
    pub current: Option<Step>,
    pub seen: String,
}

pub struct PlanV {
    pub steps: Seq<StepV>,
    pub current: Option<StepV>,
    pub seen: Seq<char>,
}

impl DeepView for Plan {
    type V = PlanV;

    open spec fn deep_view(&self) -> PlanV {
        PlanV {
            steps: self.steps.deep_view(),
            current: self.current.deep_view(),
            seen: self.seen.deep_view(),
        }
    }
}

impl Clone for Plan {
    fn clone(&self) -> (r: Self)
        ensures
            r.deep_view() == self.deep_view(),
    {
        let r: Plan = Plan {
            steps: self.steps.clone(),
            current: self.current.clone(),
            seen: self.seen.clone(),
        };
        proof {
            assert(r.steps.deep_view() =~= self.steps.deep_view());
            assert(r.current.deep_view() =~= self.current.deep_view());
        }
        r
    }
}

/// The step that the double is at has happened: a control is reached by the
/// click alone, anything else by any new outcome.
pub open spec fn is_finished(plan: PlanV, outcomes: Seq<char>) -> bool {
    match plan.current {
        None => true,
        Some(StepV::Reach { name }) => was_reached(outcomes, name),
        Some(_) => plan.seen != outcomes,
    }
}

/// The plan after a look at the outcomes: the next step is taken up where the
/// one at hand has happened.
pub open spec fn taken_up(plan: PlanV, outcomes: Seq<char>) -> PlanV {
    if is_finished(plan, outcomes) {
        if plan.steps.len() == 0 {
            PlanV { steps: plan.steps, current: None, seen: outcomes }
        } else {
            PlanV { steps: plan.steps.drop_first(), current: Some(plan.steps[0]), seen: outcomes }
        }
    } else {
        plan
    }
}

pub open spec fn asks_for(action: Seq<char>, args: Seq<char>) -> ProposalV {
    ProposalV { rationale: "desktop task"@, action, args }
}

/// Click at a point.
pub open spec fn click_args(x: int, y: int) -> Seq<char> {
    "{\"x\":"@ + text::signed(x) + ",\"y\":"@ + text::signed(y) + "}"@
}

/// Look into a clipped result for a control.
pub open spec fn inspect_args(id: Seq<char>, name: Seq<char>) -> Seq<char> {
    "{\"id\":"@ + json::json_string(id) + ",\"query\":"@ + json::json_string(name) + "}"@
}

/// How the double goes about a control: click it where the trace shows it, look
/// behind the handle where something is clipped and may be inspected, and give
/// up otherwise.
pub open spec fn reaching(plan: PlanV, name: Seq<char>, trace: Seq<char>, may_inspect: bool) -> (PlanV, ProposalV) {
    match shown_point(trace, name) {
        Some(p) => (plan, asks_for("pointer_click"@, click_args(p.0, p.1))),
        None => match shown_handle(trace) {
            Some(id) => if may_inspect {
                (plan, asks_for(INSPECT_RESULT@, inspect_args(id, name)))
            } else {
                gives_up(plan)
            },
            None => gives_up(plan),
        },
    }
}

pub open spec fn gives_up(plan: PlanV) -> (PlanV, ProposalV) {
    (PlanV { steps: seq![], current: None, seen: plan.seen }, asks_for("respond_directly"@, "{}"@))
}

/// What the double proposes on a trace, and its plan then.
pub open spec fn acts_on(plan: PlanV, lines: Seq<Seq<char>>, may_inspect: bool) -> (PlanV, ProposalV) {
    let now = taken_up(plan, outcomes_shown(lines));
    match now.current {
        None => (now, asks_for("respond_directly"@, "{}"@)),
        Some(StepV::Read { query }) => (now, asks_for("pointer_ui_read"@, json::object_of("query"@, query))),
        Some(StepV::Type { text }) => (now, asks_for("pointer_type"@, json::object_of("text"@, text))),
        Some(StepV::Reach { name }) => reaching(now, name, text::joined(lines, "\n"@), may_inspect),
    }
}

fn proposal(action: &str, args: Json) -> (r: Proposal)
    ensures
        r.deep_view() == asks_for(action@, args.deep_view()),
{
    Proposal { rationale: "desktop task".to_owned(), action: action.to_owned(), args }
}

fn settle() -> (r: Proposal)
    ensures
        r.deep_view() == asks_for("respond_directly"@, "{}"@),
{
    proposal("respond_directly", Json { text: "{}".to_owned() })
}

/// The emitter of the desktop tasks, with every trace that it was shown.
#[derive(Debug)]
pub struct DesktopEmitter {
    pub traces: Vec<Vec<String>>,
    pub plan: Plan,
}

impl DesktopEmitter {
    pub fn new(steps: Vec<Step>) -> (r: Self)
        ensures
            r.traces.deep_view() == Seq::<Seq<Seq<char>>>::empty(),
            r.plan.deep_view() == (PlanV { steps: steps.deep_view(), current: None, seen: seq![] }),
    {
        let r: DesktopEmitter = DesktopEmitter {
            traces: Vec::new(),
            plan: Plan { steps, current: None, seen: String::new() },
        };
        proof {
            assert(r.traces.deep_view() =~= Seq::<Seq<Seq<char>>>::empty());
            assert(r.plan.seen@ =~= seq![]);
            assert(r.plan.current.deep_view() == None::<StepV>);
        }
        r
    }

    /// Take up the next step where the one at hand has happened.
    fn take_up(&mut self, outcomes: String)
        ensures
            final(self).traces == old(self).traces,
            final(self).plan.deep_view() == taken_up(old(self).plan.deep_view(), outcomes@),
    {
        let ghost before = self.plan.deep_view();
        let finished: bool = match &self.plan.current {
            None => true,
            Some(Step::Reach { name }) => reached(outcomes.as_str(), name.as_str()),
            Some(_) => !same(self.plan.seen.as_str(), outcomes.as_str()),
        };
        if finished {
            if self.plan.steps.len() == 0 {
                self.plan.current = None;
            } else {
                let ghost steps = self.plan.steps@;
                let step: Step = self.plan.steps.remove(0);
                proof {
                    assert(self.plan.steps.deep_view() =~= before.steps.drop_first());
                    assert(step.deep_view() == before.steps[0]);
                }
                self.plan.current = Some(step);
            }
            self.plan.seen = outcomes;
        }
    }

    /// Drop what is left to do and settle.
    fn give_up(&mut self) -> (r: Proposal)
        ensures
            final(self).traces == old(self).traces,
            (final(self).plan.deep_view(), r.deep_view()) == gives_up(old(self).plan.deep_view()),
    {
        self.plan.steps = Vec::new();
        self.plan.current = None;
        proof {
            assert(self.plan.steps.deep_view() =~= seq![]);
        }
        settle()
    }

    /// What to do next, by the trace that is shown and the actions on offer.
    pub fn propose(&mut self, trace_so_far: &Vec<String>, legal: &Vec<ActionSpec>) -> (r: Proposal)
        ensures
            final(self).traces.deep_view() == old(self).traces.deep_view().push(trace_so_far.deep_view()),
            (final(self).plan.deep_view(), r.deep_view()) == acts_on(
                old(self).plan.deep_view(),
                trace_so_far.deep_view(),
                legal::offers(legal.deep_view(), INSPECT_RESULT@),
            ),
    {
        let copy: Vec<String> = clone_texts(trace_so_far);
        self.traces.push(copy);
        proof {
            assert(self.traces.deep_view() =~= old(self).traces.deep_view().push(trace_so_far.deep_view()));
        }
        let trace: String = join(trace_so_far, "\n");
        let outcomes: String = outcomes_in(trace_so_far);
        self.take_up(outcomes);
        let step: Option<Step> = self.plan.current.clone();
        proof {
            assert(step.deep_view() == self.plan.current.deep_view());
        }
        match step {
            None => settle(),
            Some(Step::Read { query }) => proposal("pointer_ui_read", object("query", query.as_str())),
            Some(Step::Type { text }) => proposal("pointer_type", object("text", text.as_str())),
            Some(Step::Reach { name }) => match point_of(trace.as_str(), name.as_str()) {
                Some((x, y)) => {
                    let xs: String = signed_number(x);
                    let ys: String = signed_number(y);
                    let args: String = cat5("{\"x\":", xs.as_str(), ",\"y\":", ys.as_str(), "}");
                    proposal("pointer_click", Json { text: args })
                },
                None => match handle_in(trace.as_str()) {
                    Some(id) => if is_offered(legal, INSPECT_RESULT) {
                        let ids: String = quote(id.as_str());
                        let names: String = quote(name.as_str());
                        let args: String = cat5("{\"id\":", ids.as_str(), ",\"query\":", names.as_str(), "}");
                        proposal(INSPECT_RESULT, Json { text: args })
                    } else {
                        self.give_up()
                    },
                    None => self.give_up(),
                },
            },
        }
    }
}

// ---------------------------------------------------------------------------
// Laws
// ---------------------------------------------------------------------------

/// Every character of a written number is a digit or the minus sign.
proof fn lemma_signed_plain(n: int)
    ensures
        text::signed(n).len() > 0,
        forall|i: int|
            0 <= i < text::signed(n).len() ==> #[trigger] text::signed(n)[i] == '-' || text::is_digit(text::signed(n)[i]),
{
    if n < 0 {
        text::lemma_decimal((-n) as nat);
        assert forall|i: int| 0 <= i < text::signed(n).len() implies #[trigger] text::signed(n)[i] == '-'
            || text::is_digit(text::signed(n)[i]) by {
            if i > 0 {
                assert(text::signed(n)[i] == text::decimal((-n) as nat)[i - 1]);
            }
        }
    } else {
        text::lemma_decimal(n as nat);
    }
}

proof fn lemma_signed_trimmed(n: int)
    ensures
        text::trimmed(text::signed(n)) == text::signed(n),
{
    lemma_signed_plain(n);
    let s = text::signed(n);
    assert(s[0] == '-' || text::is_digit(s[0]));
    assert(s[s.len() - 1] == '-' || text::is_digit(s[s.len() - 1]));
    assert(s.skip(0) =~= s);
}

/// A character that the text `a` lacks is first found where `a` ends.
proof fn lemma_found_behind(a: Seq<char>, c: char, b: Seq<char>)
    requires
        forall|i: int| 0 <= i < a.len() ==> #[trigger] a[i] != c,
    ensures
        text::found(a + seq![c] + b, seq![c]) == Some(a.len() as int),
{
    let s = a + seq![c] + b;
    text::lemma_found_from(s, seq![c], 0);
    assert(s.subrange(a.len() as int, (a.len() + 1) as int) =~= seq![c]);
    assert(text::occurs_at(s, seq![c], a.len() as int));
    assert forall|i: int| 0 <= i < a.len() implies !text::occurs_at(s, seq![c], i) by {
        if text::occurs_at(s, seq![c], i) {
            assert(s.subrange(i, i + 1)[0] == s[i]);
            assert(s[i] == a[i]);
        }
    }
}

/// A point that the screen shows behind a control is the point that the double
/// reads, where the trace does not name the control earlier.
pub proof fn a_shown_point_reads_back(before: Seq<char>, name: Seq<char>, x: i64, y: i64, after: Seq<char>)
    requires
        text::found(
            before + ("\""@ + name + "\""@ + point_text(x as int, y as int)) + after,
            "\""@ + name + "\" ("@,
        ) == Some(before.len() as int),
    ensures
        shown_point(before + ("\""@ + name + "\""@ + point_text(x as int, y as int)) + after, name) == Some(
            (x as int, y as int),
        ),
{
    let xs = text::signed(x as int);
    let ys = text::signed(y as int);
    let opener = "\""@ + name + "\" ("@;
    let trace = before + ("\""@ + name + "\""@ + point_text(x as int, y as int)) + after;
    let rest = trace.skip((before.len() + opener.len()) as int);
    reveal_strlit("\"");
    reveal_strlit("\" (");
    reveal_strlit(" (");
    reveal_strlit(",");
    reveal_strlit(")");
    assert(rest =~= (xs + seq![','] + ys) + seq![')'] + after);
    lemma_signed_plain(x as int);
    lemma_signed_plain(y as int);
    let inner = xs + seq![','] + ys;
    assert forall|i: int| 0 <= i < inner.len() implies #[trigger] inner[i] != ')' by {
        if i < xs.len() {
            assert(inner[i] == xs[i]);
        } else if i > xs.len() {
            assert(inner[i] == ys[i - xs.len() - 1]);
        }
    }
    lemma_found_behind(inner, ')', after);
    let close = inner.len() as int;
    assert(rest.take(close) =~= inner);
    lemma_found_behind(xs, ',', ys);
    assert(rest.take(xs.len() as int) =~= xs);
    assert(rest.subrange((xs.len() + 1) as int, close) =~= ys);
    lemma_signed_trimmed(x as int);
    lemma_signed_trimmed(y as int);
    text::lemma_signed_round_trip(x);
    text::lemma_signed_round_trip(y);
}

/// Giving up is the end of the plan: from then on the double settles, whatever
/// it is shown.
pub proof fn giving_up_is_final(plan: PlanV, lines: Seq<Seq<char>>, may_inspect: bool)
    ensures
        acts_on(gives_up(plan).0, lines, may_inspect).1 == asks_for("respond_directly"@, "{}"@),
        acts_on(gives_up(plan).0, lines, may_inspect).0.steps.len() == 0,
{
}

/// Looking behind a handle never counts as reaching the control: until a click
/// on it is reported the double stays at the step.
pub proof fn only_a_click_reaches(plan: PlanV, name: Seq<char>, outcomes: Seq<char>)
    requires
        plan.current == Some((StepV::Reach { name })),
        !was_reached(outcomes, name),
    ensures
        taken_up(plan, outcomes) == plan,
{
}

/// The double follows its plan: it takes up the next step once the one at hand has happened,
/// reads, types and reaches as the step says, and settles where none is left.
pub proof fn the_double_follows_its_plan(plan: PlanV, lines: Seq<Seq<char>>, may_inspect: bool)
    ensures
        ({
            let seen = outcomes_shown(lines);
            let done = match plan.current {
                None => true,
                Some(StepV::Reach { name }) => was_reached(seen, name),
                Some(_) => plan.seen != seen,
            };
            let now = if done {
                if plan.steps.len() == 0 {
                    PlanV { current: None, seen, ..plan }
                } else {
                    PlanV { steps: plan.steps.skip(1), current: Some(plan.steps[0]), seen }
                }
            } else {
                plan
            };
            let trace = text::joined(lines, "\n"@);
            let (next, said) = acts_on(plan, lines, may_inspect);
            &&& said.rationale == "desktop task"@
            &&& match now.current {
                None => next == now && said.action == "respond_directly"@ && said.args == "{}"@,
                Some(StepV::Read { query }) => next == now && said.action == "pointer_ui_read"@ && said.args
                    == json::object_of("query"@, query),
                Some(StepV::Type { text }) => next == now && said.action == "pointer_type"@ && said.args == json::object_of(
                    "text"@,
                    text,
                ),
                Some(StepV::Reach { name }) => {
                    &&& shown_point(trace, name) matches Some(p) ==> next == now && said.action == "pointer_click"@ && said.args
                        == "{\"x\":"@ + text::signed(p.0) + ",\"y\":"@ + text::signed(p.1) + "}"@
                    &&& shown_point(trace, name) is None && shown_handle(trace) is Some && may_inspect ==> next == now && said.action
                        == "inspect_result"@ && said.args == "{\"id\":"@ + json::json_string(shown_handle(trace)->0)
                        + ",\"query\":"@ + json::json_string(name) + "}"@
                    &&& shown_point(trace, name) is None && (shown_handle(trace) is None || !may_inspect) ==> next.steps.len() == 0
                        && next.current is None && said.action == "respond_directly"@
                },
            }
        }),
{
    if plan.steps.len() > 0 {
        assert(plan.steps.drop_first() =~= plan.steps.skip(1));
    }
}

/// The control at a point is the first line of the screen that ends with it, by what stands
/// in front.
pub proof fn the_control_at_a_point(screen: Seq<char>, x: int, y: int, k: int)
    requires
        0 <= k <= text::lines_of(screen).len(),
        forall|j: int| 0 <= j < k ==> !text::ends(#[trigger] text::lines_of(screen)[j], point_text(x, y)),
    ensures
        k == text::lines_of(screen).len() ==> control_in(screen, x, y) is None,
        k < text::lines_of(screen).len() && text::ends(text::lines_of(screen)[k], point_text(x, y)) ==> control_in(screen, x, y)
            == Some(without_ends(text::trimmed(text::lines_of(screen)[k]), point_text(x, y))),
{
    lemma_first_ending(text::lines_of(screen), point_text(x, y), k);
}

proof fn lemma_first_ending(lines: Seq<Seq<char>>, p: Seq<char>, k: int)
    requires
        0 <= k <= lines.len(),
        forall|j: int| 0 <= j < k ==> !text::ends(#[trigger] lines[j], p),
    ensures
        k == lines.len() ==> first_ending(lines, p) is None,
        k < lines.len() && text::ends(lines[k], p) ==> first_ending(lines, p) == Some(lines[k]),
    decreases lines.len(),
{
    if k > 0 {
        let rest = lines.drop_first();
        assert(!text::ends(lines[0], p));
        assert forall|j: int| 0 <= j < k - 1 implies !text::ends(#[trigger] rest[j], p) by {
            assert(rest[j] == lines[j + 1]);
        }
        lemma_first_ending(rest, p, k - 1);
    }
}

/// What ends a text is taken off, however often, and nothing else.
pub proof fn what_ends_a_text_is_taken_off(s: Seq<char>, p: Seq<char>)
    requires
        p.len() > 0,
    ensures
        !text::ends(without_ends(s, p), p),
        without_ends(s, p).is_prefix_of(s),
        !text::ends(s, p) ==> without_ends(s, p) == s,
        without_ends(s + p, p) == without_ends(s, p),
    decreases s.len(),
{
    if text::ends(s, p) {
        let rest = s.take(s.len() - p.len());
        what_ends_a_text_is_taken_off(rest, p);
        let w = without_ends(rest, p);
        assert(w =~= s.take(w.len() as int));
    } else {
        assert(s.take(s.len() as int) =~= s);
    }
    assert((s + p).skip((s + p).len() - p.len()) =~= p);
    assert((s + p).take((s + p).len() - p.len()) =~= s);
}

/// What the desktop answers: the whole screen to a read, the control to a click that meets
/// one, a miss to one that meets none, and the text to a keystroke.
pub proof fn what_the_desktop_answers(x: i64, y: i64, typed: Seq<char>)
    ensures
        ({
            let place = "("@ + text::signed(x as int) + ","@ + text::signed(y as int) + ")"@;
            let under = control_in(tree_text(), x as int, y as int);
            &&& answered(Desk::Read, None, None, None) == (ToolOutcomeV::Done {
                output: ToolOutputV { summary: tree_text(), artifact: None, trust: Trust::System },
            })
            &&& under matches Some(c) ==> answered(Desk::Click, Some(x), Some(y), None) == (ToolOutcomeV::Done {
                output: ToolOutputV { summary: "clicked "@ + c + " at "@ + place, artifact: None, trust: Trust::System },
            })
            &&& under is None ==> answered(Desk::Click, Some(x), Some(y), None) == (ToolOutcomeV::Failed {
                kind: "miss"@,
                detail: "no control at "@ + place,
            })
            &&& answered(Desk::Click, None, Some(y), None) == (ToolOutcomeV::Failed {
                kind: "args"@,
                detail: "needs numeric x and y"@,
            })
            &&& answered(Desk::Type, None, None, Some(typed)) == (ToolOutcomeV::Done {
                output: ToolOutputV { summary: "typed "@ + unicode::quoted(typed), artifact: None, trust: Trust::System },
            })
        }),
{
}

/// The tools of the desktop by name, and which of them can be undone.
pub proof fn what_the_desktop_tools_may_change()
    ensures
        read_schema().name == "pointer_ui_read"@ && read_schema().side_effect == SideEffect::Pure,
        click_schema().name == "pointer_click"@ && click_schema().side_effect == SideEffect::Irreversible,
        typing_schema().name == "pointer_type"@ && typing_schema().side_effect == SideEffect::Irreversible,
{
}

/// A handle that a clipped line names is read back, up to what is no digit.
pub proof fn a_shown_handle_reads_back(before: Seq<char>, n: nat, after: Seq<char>)
    requires
        text::found(before + seq!['['] + ("r"@ + text::decimal(n)) + after, seq!['[', 'r']) == Some(before.len() as int),
        after.len() > 0,
        after[0] != 'r',
        !text::is_digit(after[0]),
    ensures
        shown_handle(before + seq!['['] + ("r"@ + text::decimal(n)) + after) == Some("r"@ + text::decimal(n)),
{
    let h = "r"@ + text::decimal(n);
    let trace = before + seq!['['] + h + after;
    let rest = trace.skip(before.len() as int + 1);
    reveal_strlit("r");
    text::lemma_decimal(n);
    assert(rest =~= h + after);
    assert forall|i: int| 0 <= i < h.len() implies in_handle(#[trigger] h[i]) by {
        if i > 0 {
            assert(text::is_digit(text::decimal(n)[i - 1]));
        }
    }
    lemma_handle_len(h, after);
    assert(rest.take(h.len() as int) =~= h);
}

proof fn lemma_handle_len(h: Seq<char>, after: Seq<char>)
    requires
        forall|i: int| 0 <= i < h.len() ==> in_handle(#[trigger] h[i]),
        after.len() > 0,
        !in_handle(after[0]),
    ensures
        handle_len(h + after) == h.len(),
    decreases h.len(),
{
    if h.len() > 0 {
        let rest = h.drop_first();
        assert((h + after).drop_first() =~= rest + after);
        assert(in_handle(h[0]));
        assert forall|i: int| 0 <= i < rest.len() implies in_handle(#[trigger] rest[i]) by {
            assert(rest[i] == h[i + 1]);
        }
        lemma_handle_len(rest, after);
    } else {
        assert(h + after =~= after);
    }
}

/// A control is reached where one line of the outcomes reports a click and names it.
pub proof fn when_a_control_is_reached(outcomes: Seq<char>, name: Seq<char>)
    ensures
        was_reached(outcomes, name) <==> exists|i: int|
            0 <= i < text::lines_of(outcomes).len() && text::contains(
                #[trigger] text::lines_of(outcomes)[i],
                "ok: clicked "@,
            ) && text::contains(text::lines_of(outcomes)[i], name),
{
    if was_reached(outcomes, name) {
        let i = choose|i: int|
            0 <= i < text::lines_of(outcomes).len() && reports_click(#[trigger] text::lines_of(outcomes)[i], name);
        assert(text::contains(text::lines_of(outcomes)[i], "ok: clicked "@));
    }
    if exists|i: int|
        0 <= i < text::lines_of(outcomes).len() && text::contains(
            #[trigger] text::lines_of(outcomes)[i],
            "ok: clicked "@,
        ) && text::contains(text::lines_of(outcomes)[i], name) {
        let i = choose|i: int|
            0 <= i < text::lines_of(outcomes).len() && text::contains(
                #[trigger] text::lines_of(outcomes)[i],
                "ok: clicked "@,
            ) && text::contains(text::lines_of(outcomes)[i], name);
        assert(reports_click(text::lines_of(outcomes)[i], name));
    }
}

/// What a trace shows of outcomes: the lines that say how a call came out and the one that
/// counts older ones, in order, and no others.
pub proof fn which_lines_show_outcomes(trace: Seq<Seq<char>>, line: Seq<char>)
    ensures
        tells_outcome(line) <==> text::contains(line, "ToolReturned("@) || text::starts(line, "earlier this turn"@),
        outcomes_shown(trace) == text::joined(
            trace.filter(
                |l: Seq<char>| text::contains(l, "ToolReturned("@) || text::starts(l, "earlier this turn"@),
            ),
            "\n"@,
        ),
{
    let a = |l: Seq<char>| tells_outcome(l);
    let b = |l: Seq<char>| text::contains(l, "ToolReturned("@) || text::starts(l, "earlier this turn"@);
    assert(a =~= b);
}

} // verus!
