//! A turn's events as the text that a model is shown.
//!
//! The steps, in the order a turn applies them: one entry per event that says
//! something ([`trace_entries`]), the older outcomes folded into one counted line
//! ([`fold_older_steps`]), every line clipped with a handle to the rest
//! ([`clip_trace_line`]), and the rest paged through on request
//! ([`result_window`]).

use vstd::prelude::*;

use crate::events;
use crate::events::{Event, EventKind, EventKindV, EventV, RejectReason, RejectReasonV, ToolOutcome, ToolOutcomeV, TurnRecord, TurnRecordV};
use crate::json;
use crate::text;
use crate::text::{
    cat2, cat3, cat4, cat5, cat7, chars_of, find_from, join, number, parse_number, same, starts_with, text_of, trim,
};
use crate::turn::specs::INSPECT_RESULT;
use crate::types::{EventId, Tagged, TaggedV, Trust};
use crate::unicode;

verus! {

/// Longest that one trace line may be in a prompt unless configured otherwise.
pub const DEFAULT_TOOL_RESULT_MAX_CHARS: usize = 1200;

/// One line of a turn's trace, with what decides how much of it is sent.
#[derive(Debug)]
pub struct TraceEntry {
    /// The result that this line can be paged through with `inspect_result`.
    pub handle: Option<EventId>,
    /// The action behind the line.
    pub action: Option<String>,
    /// A refusal, which is never folded.
    pub rejection: bool,
    /// An outcome, which the fold may count.
    pub foldable: bool,
    pub line: String,
}

pub struct TraceEntryV {
    pub handle: Option<EventId>,
    pub action: Option<Seq<char>>,
    pub rejection: bool,
    pub foldable: bool,
    pub line: Seq<char>,
}

impl DeepView for TraceEntry {
    type V = TraceEntryV;

    open spec fn deep_view(&self) -> TraceEntryV {
        TraceEntryV {
            handle: self.handle,
            action: self.action.deep_view(),
            rejection: self.rejection,
            foldable: self.foldable,
            line: self.line.deep_view(),
        }
    }
}

impl Clone for TraceEntry {
    fn clone(&self) -> (r: Self)
        ensures
            r.deep_view() == self.deep_view(),
    {
        let r: TraceEntry = TraceEntry {
            handle: self.handle,
            action: self.action.clone(),
            rejection: self.rejection,
            foldable: self.foldable,
            line: self.line.clone(),
        };
        proof {
            assert(r.action.deep_view() =~= self.action.deep_view());
        }
        r
    }
}

// ---------------------------------------------------------------------------
// Entries
// ---------------------------------------------------------------------------

/// The action of the call made in event `id` of the turn.
pub open spec fn action_called(events: Seq<EventV>, turn: u32, id: EventId) -> Option<Seq<char>>
    decreases events.len(),
{
    if events.len() == 0 {
        None
    } else {
        match events.last().kind {
            EventKindV::ToolCalled { action, args } => if events.last().turn == turn && events.last().id == id {
                Some(action)
            } else {
                action_called(events.drop_last(), turn, id)
            },
            _ => action_called(events.drop_last(), turn, id),
        }
    }
}

/// The trace line of a refusal.
pub open spec fn rejected_line(reason: RejectReasonV) -> Seq<char> {
    match reason {
        RejectReasonV::Malformed { detail } => "Rejected(malformed: "@ + detail + ")"@,
        RejectReasonV::ProviderUnavailable { status, detail } => "(provider unavailable: HTTP "@ + text::decimal(
            status as nat,
        ) + ": "@ + detail + ")"@,
        RejectReasonV::IllegalAction { action } => "Rejected(illegal action: "@ + action + ")"@,
        RejectReasonV::GuardDenied { guard, reason } => "Rejected(guard "@ + guard + ": "@ + reason + ")"@,
    }
}

/// The trace line of an outcome.
pub open spec fn returned_line(outcome: ToolOutcomeV) -> Seq<char> {
    match outcome {
        ToolOutcomeV::Done { output } => "ToolReturned(ok: "@ + output.summary + ")"@,
        ToolOutcomeV::Failed { kind, detail } => "ToolReturned(err "@ + kind + ": "@ + detail + ")"@,
    }
}

/// What an event of the turn adds to its trace. Only a result that came back
/// can be paged through.
pub open spec fn entry_of(events: Seq<EventV>, turn: u32, e: EventV) -> Option<TraceEntryV> {
    if e.turn != turn {
        None
    } else {
        match e.kind {
            EventKindV::Proposed { proposal } => Some(
                TraceEntryV {
                    handle: None,
                    action: Some(proposal.action),
                    rejection: false,
                    foldable: false,
                    line: "Proposed("@ + proposal.action + ")"@,
                },
            ),
            EventKindV::Rejected { proposal_of, reason } => Some(
                TraceEntryV {
                    handle: None,
                    action: None,
                    rejection: true,
                    foldable: false,
                    line: rejected_line(reason),
                },
            ),
            EventKindV::ToolReturned { call, outcome } => Some(
                TraceEntryV {
                    handle: if outcome is Done {
                        Some(e.id)
                    } else {
                        None
                    },
                    action: action_called(events, turn, call),
                    rejection: false,
                    foldable: true,
                    line: returned_line(outcome),
                },
            ),
            _ => None,
        }
    }
}

/// The entries of the first `n` events.
pub open spec fn entries_upto(events: Seq<EventV>, turn: u32, n: nat) -> Seq<TraceEntryV>
    decreases n,
{
    if n == 0 {
        seq![]
    } else {
        let rest = entries_upto(events, turn, (n - 1) as nat);
        match entry_of(events, turn, events[n - 1]) {
            Some(entry) => rest.push(entry),
            None => rest,
        }
    }
}

/// One entry per event of the turn that has something to say.
pub open spec fn entries(events: Seq<EventV>, turn: u32) -> Seq<TraceEntryV> {
    entries_upto(events, turn, events.len())
}

fn find_called(events: &Vec<Event>, turn: u32, id: EventId) -> (r: Option<String>)
    ensures
        r.deep_view() == action_called(events.deep_view(), turn, id),
{
    let ghost all = events.deep_view();
    let mut i: usize = events.len();
    proof {
        assert(all.take(all.len() as int) =~= all);
    }
    while i > 0
        invariant
            i <= events@.len(),
            all == events.deep_view(),
            action_called(all, turn, id) == action_called(all.take(i as int), turn, id),
        decreases i,
    {
        i = i - 1;
        let e: &Event = &events[i];
        proof {
            assert(all.take(i + 1).drop_last() =~= all.take(i as int));
            assert(all.take(i + 1).last() == e.deep_view());
        }
        if let EventKind::ToolCalled { action, args } = &e.kind {
            if e.turn == turn && e.id == id {
                return Some(action.clone());
            }
        }
    }
    None
}

fn write_rejected(reason: &RejectReason) -> (r: String)
    ensures
        r@ == rejected_line(reason.deep_view()),
{
    match reason {
        RejectReason::Malformed { detail } => cat3("Rejected(malformed: ", detail.as_str(), ")"),
        RejectReason::ProviderUnavailable { status, detail } => {
            let code: String = number(*status as u64);
            cat5("(provider unavailable: HTTP ", code.as_str(), ": ", detail.as_str(), ")")
        },
        RejectReason::IllegalAction { action } => cat3("Rejected(illegal action: ", action.as_str(), ")"),
        RejectReason::GuardDenied { guard, reason } => cat5(
            "Rejected(guard ",
            guard.as_str(),
            ": ",
            reason.as_str(),
            ")",
        ),
    }
}

fn write_returned(outcome: &ToolOutcome) -> (r: String)
    ensures
        r@ == returned_line(outcome.deep_view()),
{
    match outcome {
        ToolOutcome::Done { output } => cat3("ToolReturned(ok: ", output.summary.as_str(), ")"),
        ToolOutcome::Failed { kind, detail } => cat5(
            "ToolReturned(err ",
            kind.as_str(),
            ": ",
            detail.as_str(),
            ")",
        ),
    }
}

fn write_entry(events: &Vec<Event>, turn: u32, e: &Event) -> (r: Option<TraceEntry>)
    ensures
        r.deep_view() == entry_of(events.deep_view(), turn, e.deep_view()),
{
    if e.turn != turn {
        return None;
    }
    match &e.kind {
        EventKind::Proposed { proposal } => Some(
            TraceEntry {
                handle: None,
                action: Some(proposal.action.clone()),
                rejection: false,
                foldable: false,
                line: cat3("Proposed(", proposal.action.as_str(), ")"),
            },
        ),
        EventKind::Rejected { proposal_of, reason } => Some(
            TraceEntry {
                handle: None,
                action: None,
                rejection: true,
                foldable: false,
                line: write_rejected(reason),
            },
        ),
        EventKind::ToolReturned { call, outcome } => {
            let handle: Option<EventId> = match outcome {
                ToolOutcome::Done { output } => Some(e.id),
                ToolOutcome::Failed { kind, detail } => None,
            };
            Some(
                TraceEntry {
                    handle,
                    action: find_called(events, turn, *call),
                    rejection: false,
                    foldable: true,
                    line: write_returned(outcome),
                },
            )
        },
        _ => None,
    }
}

pub fn trace_entries(events: &Vec<Event>, turn: u32) -> (r: Vec<TraceEntry>)
    ensures
        r.deep_view() == entries(events.deep_view(), turn),
{
    let ghost all = events.deep_view();
    let mut out: Vec<TraceEntry> = Vec::new();
    let mut i: usize = 0;
    proof {
        assert(out.deep_view() =~= seq![]);
    }
    while i < events.len()
        invariant
            i <= events@.len(),
            all == events.deep_view(),
            out.deep_view() == entries_upto(all, turn, i as nat),
        decreases events@.len() - i,
    {
        let ghost before = out.deep_view();
        assert(all[i as int] == events@[i as int].deep_view());
        if let Some(entry) = write_entry(events, turn, &events[i]) {
            out.push(entry);
            proof {
                assert(out.deep_view() =~= before.push(entry.deep_view()));
            }
        }
        i = i + 1;
    }
    out
}

// ---------------------------------------------------------------------------
// Handles
// ---------------------------------------------------------------------------

/// How a tool result is named in a prompt.
pub open spec fn handle_text(id: EventId) -> Seq<char> {
    "r"@ + text::decimal(id.0 as nat)
}

pub fn result_handle(id: EventId) -> (r: String)
    ensures
        r@ == handle_text(id),
{
    let n: String = number(id.0);
    cat2("r", n.as_str())
}

/// `s` without the letters r and R in front.
pub open spec fn without_r(s: Seq<char>) -> Seq<char>
    decreases s.len(),
{
    if s.len() > 0 && (s[0] == 'r' || s[0] == 'R') {
        without_r(s.drop_first())
    } else {
        s
    }
}

/// The event behind a handle: the number, with or without its letter.
pub open spec fn handle_of(raw: Seq<char>) -> Option<EventId> {
    match text::parsed(without_r(text::trimmed(raw))) {
        Some(n) => Some(EventId(n as u64)),
        None => None,
    }
}

pub fn parse_result_handle(raw: &str) -> (r: Option<EventId>)
    ensures
        r == handle_of(raw@),
{
    let trimmed: String = trim(raw);
    let cs: Vec<char> = chars_of(trimmed.as_str());
    let mut i: usize = 0;
    proof {
        assert(cs@.skip(0) =~= cs@);
    }
    while i < cs.len() && (cs[i] == 'r' || cs[i] == 'R')
        invariant
            i <= cs@.len(),
            without_r(cs@) == without_r(cs@.skip(i as int)),
        decreases cs@.len() - i,
    {
        proof {
            assert(cs@.skip(i as int).drop_first() =~= cs@.skip(i + 1));
        }
        i = i + 1;
    }
    let digits: String = text_of(&cs, i, cs.len());
    proof {
        assert(cs@.subrange(i as int, cs@.len() as int) =~= cs@.skip(i as int));
    }
    match parse_number(digits.as_str()) {
        Some(n) => Some(EventId(n)),
        None => None,
    }
}

proof fn lemma_trimmed_is_whole(s: Seq<char>)
    requires
        s.len() > 0,
        !unicode::whitespace(s[0]),
        !unicode::whitespace(s.last()),
    ensures
        text::trimmed(s) == s,
{
    text::lemma_run_is(s, text::Sort::White, true, 0);
    assert(s.skip(0) =~= s);
}

/// A handle reads back as the event it names, with or without its letter.
pub proof fn handles_round_trip(id: EventId)
    ensures
        handle_of(handle_text(id)) == Some(id),
        handle_of(text::decimal(id.0 as nat)) == Some(id),
{
    let d = text::decimal(id.0 as nat);
    let h = handle_text(id);
    reveal_strlit("r");
    text::lemma_decimal(id.0 as nat);
    text::lemma_number_round_trip(id.0);
    assert(text::is_digit(d[0]));
    assert(text::is_digit(d[d.len() - 1]));
    assert(h.last() == d.last());
    lemma_trimmed_is_whole(d);
    lemma_trimmed_is_whole(h);
    assert(h.drop_first() =~= d);
    assert(without_r(d) == d);
    assert(without_r(h) == d);
}

// ---------------------------------------------------------------------------
// Folding older steps
// ---------------------------------------------------------------------------

/// How one folded outcome is counted. A clipped result keeps its handle.
pub open spec fn descriptor(entry: TraceEntryV, max_chars: nat) -> Seq<char> {
    let action = match entry.action {
        Some(a) => a,
        None => "action"@,
    };
    let outcome = if text::starts(entry.line, "ToolReturned(err"@) {
        "err"@
    } else {
        "ok"@
    };
    match entry.handle {
        Some(id) => if entry.line.len() > max_chars {
            action + " "@ + outcome + " ("@ + handle_text(id) + ", clipped)"@
        } else {
            action + " "@ + outcome
        },
        None => action + " "@ + outcome,
    }
}

/// How many of the entries are outcomes.
pub open spec fn outcomes_in(es: Seq<TraceEntryV>) -> nat
    decreases es.len(),
{
    if es.len() == 0 {
        0
    } else {
        outcomes_in(es.drop_last()) + if es.last().foldable { 1nat } else { 0nat }
    }
}

/// Where the last `verbatim` outcomes begin.
pub open spec fn keep_from(es: Seq<TraceEntryV>, verbatim: nat) -> int
    decreases es.len(),
{
    if es.len() == 0 || verbatim == 0 {
        es.len() as int
    } else if es.last().foldable {
        if verbatim == 1 {
            es.len() - 1
        } else {
            keep_from(es.drop_last(), (verbatim - 1) as nat)
        }
    } else {
        keep_from(es.drop_last(), verbatim)
    }
}

/// The entries that stay: the ones from `from` on, and every refusal.
pub open spec fn kept(es: Seq<TraceEntryV>, from: int, n: nat) -> Seq<TraceEntryV>
    decreases n,
{
    if n == 0 {
        seq![]
    } else {
        let rest = kept(es, from, (n - 1) as nat);
        if n - 1 >= from || es[n - 1].rejection {
            rest.push(es[n - 1])
        } else {
            rest
        }
    }
}

/// How many of the first `n` entries are folded away.
pub open spec fn folded_steps(es: Seq<TraceEntryV>, from: int, n: nat) -> nat
    decreases n,
{
    if n == 0 {
        0
    } else {
        folded_steps(es, from, (n - 1) as nat) + if n - 1 >= from || es[n - 1].rejection {
            0nat
        } else {
            1nat
        }
    }
}

/// The descriptors of the outcomes that are folded away.
pub open spec fn folded_outcomes(es: Seq<TraceEntryV>, from: int, max_chars: nat, n: nat) -> Seq<Seq<char>>
    decreases n,
{
    if n == 0 {
        seq![]
    } else {
        let rest = folded_outcomes(es, from, max_chars, (n - 1) as nat);
        if n - 1 >= from || es[n - 1].rejection || !es[n - 1].foldable {
            rest
        } else {
            rest.push(descriptor(es[n - 1], max_chars))
        }
    }
}

/// Where `d` is counted.
pub open spec fn counted_at(counts: Seq<(Seq<char>, nat)>, d: Seq<char>) -> Option<int>
    decreases counts.len(),
{
    if counts.len() == 0 {
        None
    } else {
        match counted_at(counts.drop_last(), d) {
            Some(i) => Some(i),
            None => if counts.last().0 == d {
                Some(counts.len() - 1)
            } else {
                None
            },
        }
    }
}

/// Each different text once, in the order of first appearance, with how often
/// it appears.
pub open spec fn tally(ds: Seq<Seq<char>>) -> Seq<(Seq<char>, nat)>
    decreases ds.len(),
{
    if ds.len() == 0 {
        seq![]
    } else {
        let rest = tally(ds.drop_last());
        match counted_at(rest, ds.last()) {
            Some(i) => rest.update(i, (rest[i].0, rest[i].1 + 1)),
            None => rest.push((ds.last(), 1)),
        }
    }
}

/// A counted step: the count only where it is more than one.
pub open spec fn counted(c: (Seq<char>, nat)) -> Seq<char> {
    if c.1 > 1 {
        c.0 + " ×"@ + text::decimal(c.1)
    } else {
        c.0
    }
}

/// The one line that stands for the folded steps.
pub open spec fn fold_line(steps: nat, counts: Seq<(Seq<char>, nat)>) -> Seq<char> {
    let summary = text::joined(Seq::new(counts.len(), |i: int| counted(counts[i])), " · "@);
    if summary.len() == 0 {
        "earlier this turn: "@ + text::decimal(steps) + " steps"@
    } else {
        "earlier this turn ("@ + text::decimal(steps) + " steps): "@ + summary
    }
}

/// The entries with the older steps folded into one counted line. The budget
/// counts outcomes: the last `verbatim` of them and every refusal stay; zero
/// switches the fold off.
pub open spec fn refolded(es: Seq<TraceEntryV>, verbatim: nat, max_chars: nat) -> Seq<TraceEntryV> {
    if verbatim == 0 || outcomes_in(es) <= verbatim {
        es
    } else {
        let from = keep_from(es, verbatim);
        let steps = folded_steps(es, from, es.len());
        if steps == 0 {
            kept(es, from, es.len())
        } else {
            seq![
                TraceEntryV {
                    handle: None,
                    action: None,
                    rejection: false,
                    foldable: false,
                    line: fold_line(steps, tally(folded_outcomes(es, from, max_chars, es.len()))),
                },
            ] + kept(es, from, es.len())
        }
    }
}

fn fold_descriptor(entry: &TraceEntry, max_chars: usize) -> (r: String)
    ensures
        r@ == descriptor(entry.deep_view(), max_chars as nat),
{
    let action: String = match &entry.action {
        Some(a) => a.clone(),
        None => "action".to_owned(),
    };
    let outcome: &str = if starts_with(entry.line.as_str(), "ToolReturned(err") { "err" } else { "ok" };
    let plain: String = cat3(action.as_str(), " ", outcome);
    match entry.handle {
        Some(id) => {
            let total: usize = chars_of(entry.line.as_str()).len();
            if total > max_chars {
                let handle: String = result_handle(id);
                cat4(plain.as_str(), " (", handle.as_str(), ", clipped)")
            } else {
                plain
            }
        },
        None => plain,
    }
}

proof fn lemma_keep_from(es: Seq<TraceEntryV>, verbatim: nat)
    requires
        1 <= verbatim <= outcomes_in(es),
    ensures
        0 <= keep_from(es, verbatim) < es.len(),
        es[keep_from(es, verbatim)].foldable,
        outcomes_in(es.skip(keep_from(es, verbatim))) == verbatim,
    decreases es.len(),
{
    let k = keep_from(es, verbatim);
    if es.last().foldable && verbatim == 1 {
        assert(es.skip(k).drop_last() =~= seq![]);
        assert(es.skip(k).last() == es.last());
        reveal_with_fuel(outcomes_in, 2);
    } else {
        let v = if es.last().foldable { (verbatim - 1) as nat } else { verbatim };
        lemma_keep_from(es.drop_last(), v);
        assert(es.skip(k).drop_last() =~= es.drop_last().skip(k));
        assert(es.skip(k).last() == es.last());
    }
}

fn find_keep_from(es: &Vec<TraceEntry>, verbatim: usize) -> (r: usize)
    requires
        1 <= verbatim <= outcomes_in(es.deep_view()),
    ensures
        r == keep_from(es.deep_view(), verbatim as nat),
{
    let ghost all = es.deep_view();
    let mut left: usize = verbatim;
    let mut i: usize = es.len();
    proof {
        assert(all.take(all.len() as int) =~= all);
    }
    loop
        invariant
            i <= es@.len(),
            all == es.deep_view(),
            1 <= left <= outcomes_in(all.take(i as int)),
            keep_from(all, verbatim as nat) == keep_from(all.take(i as int), left as nat),
        decreases i,
    {
        proof {
            if i == 0 {
                assert(all.take(0) =~= seq![]);
            }
            assert(all.take(i as int).drop_last() =~= all.take(i - 1));
            assert(all.take(i as int).last() == es@[i - 1].deep_view());
        }
        i = i - 1;
        if es[i].foldable {
            if left == 1 {
                return i;
            }
            left = left - 1;
        }
    }
}

fn count_outcomes(es: &Vec<TraceEntry>) -> (r: usize)
    ensures
        r == outcomes_in(es.deep_view()),
        r <= es@.len(),
{
    let ghost all = es.deep_view();
    let mut n: usize = 0;
    let mut i: usize = 0;
    proof {
        assert(all.take(0) =~= seq![]);
    }
    while i < es.len()
        invariant
            i <= es@.len(),
            all == es.deep_view(),
            n == outcomes_in(all.take(i as int)),
            n <= i,
        decreases es@.len() - i,
    {
        proof {
            assert(all.take(i + 1).drop_last() =~= all.take(i as int));
            assert(all.take(i + 1).last() == es@[i as int].deep_view());
        }
        if es[i].foldable {
            n = n + 1;
        }
        i = i + 1;
    }
    proof {
        assert(all.take(all.len() as int) =~= all);
    }
    n
}

/// The counts as the specification sees them.
pub open spec fn counts_view(counts: Seq<(String, usize)>) -> Seq<(Seq<char>, nat)> {
    Seq::new(counts.len(), |i: int| (counts[i].0@, counts[i].1 as nat))
}

fn find_count(counts: &Vec<(String, usize)>, d: &str) -> (r: Option<usize>)
    ensures
        match r {
            Some(i) => i < counts@.len() && counted_at(counts_view(counts@), d@) == Some(i as int),
            None => counted_at(counts_view(counts@), d@) is None,
        },
{
    let ghost all = counts_view(counts@);
    let mut i: usize = 0;
    proof {
        assert(all.take(0) =~= seq![]);
    }
    while i < counts.len()
        invariant
            i <= counts@.len(),
            all == counts_view(counts@),
            counted_at(all.take(i as int), d@) is None,
        decreases counts@.len() - i,
    {
        proof {
            assert(all.take(i + 1).drop_last() =~= all.take(i as int));
            assert(all.take(i + 1).last() == all[i as int]);
        }
        if same(counts[i].0.as_str(), d) {
            proof {
                lemma_counted_at_prefix(all, d@, i + 1);
            }
            return Some(i);
        }
        i = i + 1;
    }
    proof {
        assert(all.take(all.len() as int) =~= all);
    }
    None
}

proof fn lemma_counted_at_prefix(counts: Seq<(Seq<char>, nat)>, d: Seq<char>, n: int)
    requires
        0 <= n <= counts.len(),
        counted_at(counts.take(n), d) is Some,
    ensures
        counted_at(counts, d) == counted_at(counts.take(n), d),
    decreases counts.len() - n,
{
    if n < counts.len() {
        assert(counts.take(n + 1).drop_last() =~= counts.take(n));
        lemma_counted_at_prefix(counts, d, n + 1);
    } else {
        assert(counts.take(n) =~= counts);
    }
}

proof fn lemma_tally_small(ds: Seq<Seq<char>>)
    ensures
        tally(ds).len() <= ds.len(),
        forall|i: int| 0 <= i < tally(ds).len() ==> 1 <= (#[trigger] tally(ds)[i]).1 <= ds.len(),
    decreases ds.len(),
{
    if ds.len() > 0 {
        lemma_tally_small(ds.drop_last());
        lemma_counted_at_bound(tally(ds.drop_last()), ds.last());
    }
}

proof fn lemma_counted_at_bound(counts: Seq<(Seq<char>, nat)>, d: Seq<char>)
    ensures
        counted_at(counts, d) matches Some(i) ==> 0 <= i < counts.len() && counts[i].0 == d,
    decreases counts.len(),
{
    if counts.len() > 0 {
        lemma_counted_at_bound(counts.drop_last(), d);
    }
}

fn write_tally(ds: &Vec<String>) -> (r: Vec<String>)
    ensures
        r.deep_view() == Seq::new(tally(ds.deep_view()).len(), |i: int| counted(tally(ds.deep_view())[i])),
{
    let ghost all = ds.deep_view();
    let mut counts: Vec<(String, usize)> = Vec::new();
    let mut i: usize = 0;
    proof {
        assert(all.take(0) =~= seq![]);
        assert(counts_view(counts@) =~= seq![]);
    }
    while i < ds.len()
        invariant
            i <= ds@.len(),
            all == ds.deep_view(),
            counts_view(counts@) == tally(all.take(i as int)),
        decreases ds@.len() - i,
    {
        let ghost before = counts_view(counts@);
        proof {
            assert(all.take(i + 1).drop_last() =~= all.take(i as int));
            assert(all.take(i + 1).last() == ds@[i as int]@);
            lemma_tally_small(all.take(i as int));
        }
        match find_count(&counts, ds[i].as_str()) {
            Some(k) => {
                let n: usize = counts[k].1;
                let d: String = counts[k].0.clone();
                assert(before[k as int].1 == n);
                assert(n < ds.len());
                counts.set(k, (d, n + 1));
                proof {
                    assert(counts_view(counts@) =~= before.update(k as int, (before[k as int].0, (n + 1) as nat)));
                }
            },
            None => {
                counts.push((ds[i].clone(), 1));
                proof {
                    assert(counts_view(counts@) =~= before.push((ds@[i as int]@, 1)));
                }
            },
        }
        i = i + 1;
    }
    proof {
        assert(all.take(all.len() as int) =~= all);
    }
    let ghost t = tally(all);
    let mut out: Vec<String> = Vec::new();
    let mut j: usize = 0;
    proof {
        assert(out.deep_view() =~= Seq::new(0, |i: int| counted(t[i])));
    }
    while j < counts.len()
        invariant
            j <= counts@.len(),
            counts_view(counts@) == t,
            out.deep_view() == Seq::new(j as nat, |i: int| counted(t[i])),
        decreases counts@.len() - j,
    {
        let ghost before = out.deep_view();
        assert(t[j as int] == (counts@[j as int].0@, counts@[j as int].1 as nat));
        let one: String = if counts[j].1 > 1 {
            let n: String = number(counts[j].1 as u64);
            cat3(counts[j].0.as_str(), " ×", n.as_str())
        } else {
            counts[j].0.clone()
        };
        out.push(one);
        proof {
            assert(out.deep_view() =~= before.push(one@));
            assert(out.deep_view() =~= Seq::new((j + 1) as nat, |i: int| counted(t[i])));
        }
        j = j + 1;
    }
    out
}

pub fn fold_older_steps(es: Vec<TraceEntry>, verbatim: usize, max_chars: usize) -> (r: Vec<TraceEntry>)
    ensures
        r.deep_view() == refolded(es.deep_view(), verbatim as nat, max_chars as nat),
{
    let ghost all = es.deep_view();
    if verbatim == 0 || count_outcomes(&es) <= verbatim {
        return es;
    }
    let from: usize = find_keep_from(&es, verbatim);
    let mut folded: Vec<String> = Vec::new();
    let mut steps: usize = 0;
    let mut keep: Vec<TraceEntry> = Vec::new();
    let mut i: usize = 0;
    proof {
        assert(folded.deep_view() =~= seq![]);
        assert(keep.deep_view() =~= seq![]);
    }
    while i < es.len()
        invariant
            i <= es@.len(),
            all == es.deep_view(),
            keep.deep_view() == kept(all, from as int, i as nat),
            steps == folded_steps(all, from as int, i as nat),
            steps <= i,
            folded.deep_view() == folded_outcomes(all, from as int, max_chars as nat, i as nat),
        decreases es@.len() - i,
    {
        let entry: &TraceEntry = &es[i];
        assert(all[i as int] == entry.deep_view());
        if i >= from || entry.rejection {
            let ghost before = keep.deep_view();
            let one: TraceEntry = entry.clone();
            keep.push(one);
            proof {
                assert(keep.deep_view() =~= before.push(one.deep_view()));
            }
        } else {
            steps = steps + 1;
            if entry.foldable {
                let ghost before = folded.deep_view();
                let d: String = fold_descriptor(entry, max_chars);
                folded.push(d);
                proof {
                    assert(folded.deep_view() =~= before.push(d@));
                }
            }
        }
        i = i + 1;
    }
    if steps == 0 {
        return keep;
    }
    let parts: Vec<String> = write_tally(&folded);
    let summary: String = join(&parts, " · ");
    let n: String = number(steps as u64);
    let line: String = if summary.as_str().is_empty() {
        cat3("earlier this turn: ", n.as_str(), " steps")
    } else {
        cat4("earlier this turn (", n.as_str(), " steps): ", summary.as_str())
    };
    let mut out: Vec<TraceEntry> = Vec::new();
    let head: TraceEntry = TraceEntry { handle: None, action: None, rejection: false, foldable: false, line };
    out.push(head);
    let ghost tail = keep.deep_view();
    out.append(&mut keep);
    proof {
        assert(out.deep_view() =~= seq![head.deep_view()] + tail);
    }
    out
}

// ---------------------------------------------------------------------------
// Clipping
// ---------------------------------------------------------------------------

/// A line at most `max` characters long, or its head and what was dropped: with
/// a handle how to get it, without one how much it was.
pub open spec fn clip(line: Seq<char>, max: nat, handle: Option<EventId>) -> Seq<char> {
    if line.len() <= max {
        line
    } else {
        match handle {
            Some(id) => line.take(max as int) + "… ["@ + handle_text(id) + ": "@ + text::decimal(line.len())
                + " chars, "@ + text::decimal(max) + " shown — "@ + INSPECT_RESULT@ + " to see more]"@,
            None => line.take(max as int) + "… ["@ + text::decimal((line.len() - max) as nat)
                + " more characters]"@,
        }
    }
}

pub fn clip_trace_line(line: &str, max: usize, handle: Option<EventId>) -> (r: String)
    ensures
        r@ == clip(line@, max as nat, handle),
{
    let cs: Vec<char> = chars_of(line);
    let total: usize = cs.len();
    if total <= max {
        return line.to_owned();
    }
    let head: String = text_of(&cs, 0, max);
    proof {
        assert(cs@.subrange(0, max as int) =~= line@.take(max as int));
    }
    match handle {
        Some(id) => {
            let name: String = result_handle(id);
            let all: String = number(total as u64);
            let shown: String = number(max as u64);
            let mut out: String = cat7(
                head.as_str(),
                "… [",
                name.as_str(),
                ": ",
                all.as_str(),
                " chars, ",
                shown.as_str(),
            );
            out.append(" shown — ");
            out.append(INSPECT_RESULT);
            out.append(" to see more]");
            out
        },
        None => {
            let more: String = number((total - max) as u64);
            cat4(head.as_str(), "… [", more.as_str(), " more characters]")
        },
    }
}

/// The lines of entries, each clipped.
pub open spec fn clipped_lines(es: Seq<TraceEntryV>, max: nat) -> Seq<Seq<char>> {
    Seq::new(es.len(), |i: int| clip(es[i].line, max, es[i].handle))
}

/// How many characters the cap keeps out of the first `n` entries.
pub open spec fn dropped_chars(es: Seq<TraceEntryV>, max: nat, n: nat) -> nat
    decreases n,
{
    if n == 0 {
        0
    } else {
        dropped_chars(es, max, (n - 1) as nat) + if es[n - 1].line.len() > max {
            (es[n - 1].line.len() - max) as nat
        } else {
            0
        }
    }
}

/// `n`, or the largest count that a machine word holds.
pub open spec fn as_count(n: nat) -> nat {
    if n <= usize::MAX {
        n
    } else {
        usize::MAX as nat
    }
}

/// The trace as a model is shown it, and how many characters the cap kept out.
pub fn trace_for_prompt(events: &Vec<Event>, turn: u32, verbatim_lines: usize, max_chars: usize) -> (r: (
    Vec<String>,
    usize,
))
    ensures
        ({
            let es = refolded(entries(events.deep_view(), turn), verbatim_lines as nat, max_chars as nat);
            &&& r.0.deep_view() == clipped_lines(es, max_chars as nat)
            &&& r.1 == as_count(dropped_chars(es, max_chars as nat, es.len()))
        }),
{
    let es: Vec<TraceEntry> = fold_older_steps(trace_entries(events, turn), verbatim_lines, max_chars);
    let ghost all = es.deep_view();
    let mut lines: Vec<String> = Vec::new();
    let mut dropped: usize = 0;
    let mut i: usize = 0;
    while i < es.len()
        invariant
            i <= es@.len(),
            all == es.deep_view(),
            lines@.len() == i,
            forall|k: int| 0 <= k < i ==> (#[trigger] lines@[k])@ == clip(all[k].line, max_chars as nat, all[k].handle),
            dropped == as_count(dropped_chars(all, max_chars as nat, i as nat)),
        decreases es@.len() - i,
    {
        let entry: &TraceEntry = &es[i];
        assert(all[i as int] == entry.deep_view());
        let total: usize = chars_of(entry.line.as_str()).len();
        if total > max_chars {
            dropped = dropped.saturating_add(total - max_chars);
        }
        lines.push(clip_trace_line(entry.line.as_str(), max_chars, entry.handle));
        i = i + 1;
    }
    proof {
        assert(lines.deep_view() =~= clipped_lines(all, max_chars as nat));
    }
    (lines, dropped)
}

/// The lines of entries.
pub open spec fn lines_of(es: Seq<TraceEntryV>) -> Seq<Seq<char>> {
    Seq::new(es.len(), |i: int| es[i].line)
}

/// One line per event of the turn that has something to say, none folded and
/// none clipped.
pub fn turn_trace(events: &Vec<Event>, turn: u32) -> (r: String)
    ensures
        r@ == text::joined(lines_of(entries(events.deep_view(), turn)), "\n"@),
{
    let es: Vec<TraceEntry> = trace_entries(events, turn);
    let ghost all = es.deep_view();
    let mut lines: Vec<String> = Vec::new();
    let mut i: usize = 0;
    while i < es.len()
        invariant
            i <= es@.len(),
            all == es.deep_view(),
            lines@.len() == i,
            forall|k: int| 0 <= k < i ==> (#[trigger] lines@[k])@ == all[k].line,
        decreases es@.len() - i,
    {
        assert(all[i as int] == es@[i as int].deep_view());
        lines.push(es[i].line.clone());
        i = i + 1;
    }
    proof {
        assert(lines.deep_view() =~= lines_of(all));
    }
    join(&lines, "\n")
}

// ---------------------------------------------------------------------------
// Paging
// ---------------------------------------------------------------------------

/// How many characters the lowercase of the first `n` characters takes, counted
/// character by character.
pub open spec fn lowered_width(s: Seq<char>, n: int) -> nat
    decreases n,
{
    if n <= 0 {
        0
    } else {
        lowered_width(s, n - 1) + unicode::lowered(seq![s[n - 1]]).len()
    }
}

/// The character of the text that a place in its lowercase comes from: the first
/// at or after `i` whose own lowercase reaches past the place; the last where none
/// does.
pub open spec fn source_of(s: Seq<char>, place: nat, i: int) -> nat
    decreases s.len() - i,
{
    if i < 0 || i + 1 >= s.len() || lowered_width(s, i + 1) > place {
        i as nat
    } else {
        source_of(s, place, i + 1)
    }
}

/// Where the query first stands in the text, case aside: it is looked for in the
/// lowercase of the whole text, and the place is counted in characters of the text
/// itself.
pub open spec fn first_match(s: Seq<char>, q: Seq<char>) -> Option<nat> {
    match text::found(unicode::lowered(s), unicode::lowered(q)) {
        Some(place) => Some(source_of(s, place as nat, 0)),
        None => None,
    }
}

/// Where a window on `text` starts: an eighth of a window before the first
/// match of the query, case aside, or at the page; nowhere where nothing
/// matches.
pub open spec fn window_start(s: Seq<char>, query: Option<Seq<char>>, page: nat, max: nat) -> Option<nat> {
    match query {
        Some(q) => if text::trimmed(q).len() > 0 {
            match first_match(s, text::trimmed(q)) {
                Some(i) => Some(if i <= max / 8 { 0 } else { (i - max / 8) as nat }),
                None => None,
            }
        } else {
            Some(as_count(page * max))
        },
        None => Some(as_count(page * max)),
    }
}

/// The window: at most `max` characters from its start, with where it starts
/// and ends.
pub open spec fn window(s: Seq<char>, query: Option<Seq<char>>, page: nat, max: nat) -> (Seq<char>, nat, nat) {
    match window_start(s, query, page, max) {
        None => (seq![], 0, s.len()),
        Some(start) => if start >= s.len() {
            (seq![], start, s.len())
        } else {
            let end = if start + max <= s.len() {
                start + max
            } else {
                s.len()
            };
            (s.subrange(start as int, end as int), start, end)
        },
    }
}

/// The character that a place in the lowercase comes from.
fn find_source(cs: &Vec<char>, place: usize) -> (r: usize)
    requires
        cs@.len() > 0,
    ensures
        r == source_of(cs@, place as nat, 0),
        r < cs@.len(),
{
    let mut i: usize = 0;
    let mut width: usize = 0;
    while i < cs.len() - 1
        invariant
            i < cs@.len(),
            width <= place,
            width == lowered_width(cs@, i as int),
            source_of(cs@, place as nat, 0) == source_of(cs@, place as nat, i as int),
        decreases cs@.len() - i,
    {
        let one: String = text_of(cs, i, i + 1);
        let low: String = one.as_str().to_lowercase();
        let own: usize = chars_of(low.as_str()).len();
        proof {
            assert(one@ =~= seq![cs@[i as int]]);
        }
        if own > place - width {
            return i;
        }
        width = width + own;
        i = i + 1;
    }
    i
}

/// Where the query first stands in the text, case aside.
fn find_match(text: &str, cs: &Vec<char>, q: &str) -> (r: Option<usize>)
    requires
        cs@ == text@,
        q@.len() > 0,
    ensures
        match r {
            Some(i) => first_match(text@, q@) == Some(i as nat) && i < text@.len(),
            None => first_match(text@, q@) is None,
        },
{
    let low: String = text.to_lowercase();
    let needle: String = q.to_lowercase();
    let hay: Vec<char> = chars_of(low.as_str());
    let wanted: Vec<char> = chars_of(needle.as_str());
    let found: Option<usize> = find_from(&hay, &wanted, 0);
    match found {
        Some(place) => {
            proof {
                text::lemma_found(low@, needle@);
                assert(low@.len() > 0);
            }
            Some(find_source(cs, place))
        },
        None => None,
    }
}

pub fn result_window(text: &str, query: Option<&str>, page: usize, max: usize) -> (r: (String, usize, usize))
    ensures
        (r.0@, r.1 as nat, r.2 as nat) == window(text@, query.deep_view(), page as nat, max as nat),
{
    let cs: Vec<char> = chars_of(text);
    let paged: usize = match page.checked_mul(max) {
        Some(n) => n,
        None => usize::MAX,
    };
    let start: usize = match query {
        Some(q) => {
            let wanted: String = trim(q);
            if wanted.as_str().is_empty() {
                paged
            } else {
                match find_match(text, &cs, wanted.as_str()) {
                    Some(at) => if at <= max / 8 {
                        0
                    } else {
                        at - max / 8
                    },
                    None => return (String::new(), 0, cs.len()),
                }
            }
        },
        None => paged,
    };
    if start >= cs.len() {
        return (String::new(), start, cs.len());
    }
    let end: usize = if max <= cs.len() - start { start + max } else { cs.len() };
    (text_of(&cs, start, end), start, end)
}

/// The string value of the argument `name`, where it is there and is a string.
pub open spec fn arg_string(args: TaggedV, name: Seq<char>) -> Option<Seq<char>>
    decreases args.len(),
{
    if args.len() == 0 {
        None
    } else if args[0].0 == name {
        json::json_str_at(args[0].1.value, ""@)
    } else {
        arg_string(args.drop_first(), name)
    }
}

fn find_arg_string(args: &Tagged, name: &str) -> (r: Option<String>)
    ensures
        r.deep_view() == arg_string(args.deep_view(), name@),
{
    let ghost all = args.deep_view();
    let mut i: usize = 0;
    proof {
        assert(all.skip(0) =~= all);
    }
    while i < args.len()
        invariant
            i <= args@.len(),
            all == args.deep_view(),
            arg_string(all, name@) == arg_string(all.skip(i as int), name@),
        decreases args@.len() - i,
    {
        proof {
            assert(all.skip(i as int)[0] == args@[i as int].deep_view());
            assert(all.skip(i as int).drop_first() =~= all.skip(i + 1));
        }
        if same(args[i].0.as_str(), name) {
            return json::string_arg(&args[i].1.value, "");
        }
        i = i + 1;
    }
    None
}

/// An inspection of result `id` that asked for its next page.
pub open spec fn pages(e: EventV, turn: u32, id: EventId) -> bool {
    e.turn == turn && (e.kind matches EventKindV::ToolCalled { action, args } && action == INSPECT_RESULT@ && (
    arg_string(args, "id"@) matches Some(raw) && handle_of(raw) == Some(id)) && (match arg_string(
        args,
        "query"@,
    ) {
        Some(q) => text::trimmed(q).len() == 0,
        None => true,
    }))
}

/// How many pages of result `id` the turn has already asked for.
pub open spec fn pages_seen(events: Seq<EventV>, turn: u32, id: EventId) -> nat
    decreases events.len(),
{
    if events.len() == 0 {
        0
    } else {
        pages_seen(events.drop_last(), turn, id) + if pages(events.last(), turn, id) { 1nat } else { 0nat }
    }
}

fn is_page(e: &Event, turn: u32, id: EventId) -> (r: bool)
    ensures
        r == pages(e.deep_view(), turn, id),
{
    if e.turn != turn {
        return false;
    }
    match &e.kind {
        EventKind::ToolCalled { action, args } => {
            if !same(action.as_str(), INSPECT_RESULT) {
                return false;
            }
            let named: bool = match find_arg_string(args, "id") {
                Some(raw) => match parse_result_handle(raw.as_str()) {
                    Some(found) => found == id,
                    None => false,
                },
                None => false,
            };
            let unqueried: bool = match find_arg_string(args, "query") {
                Some(q) => trim(q.as_str()).as_str().is_empty(),
                None => true,
            };
            named && unqueried
        },
        _ => false,
    }
}

pub fn inspect_page(events: &Vec<Event>, turn: u32, id: EventId) -> (r: usize)
    ensures
        r == pages_seen(events.deep_view(), turn, id),
{
    let ghost all = events.deep_view();
    let mut n: usize = 0;
    let mut i: usize = 0;
    proof {
        assert(all.take(0) =~= seq![]);
    }
    while i < events.len()
        invariant
            i <= events@.len(),
            all == events.deep_view(),
            n == pages_seen(all.take(i as int), turn, id),
            n <= i,
        decreases events@.len() - i,
    {
        proof {
            assert(all.take(i + 1).drop_last() =~= all.take(i as int));
            assert(all.take(i + 1).last() == events@[i as int].deep_view());
        }
        if is_page(&events[i], turn, id) {
            n = n + 1;
        }
        i = i + 1;
    }
    proof {
        assert(all.take(all.len() as int) =~= all);
    }
    n
}

/// The first event with this number on this turn.
pub open spec fn event_at(events: Seq<EventV>, turn: u32, id: EventId) -> Option<EventV>
    decreases events.len(),
{
    if events.len() == 0 {
        None
    } else if events[0].id == id && events[0].turn == turn {
        Some(events[0])
    } else {
        event_at(events.drop_first(), turn, id)
    }
}

/// The output recorded in an event, where one came back.
pub open spec fn output_of(e: Option<EventV>) -> Option<(Seq<char>, Trust)> {
    match e {
        Some(e) => match e.kind {
            EventKindV::ToolReturned { call, outcome } => match outcome {
                ToolOutcomeV::Done { output } => Some((output.summary, output.trust)),
                _ => None,
            },
            _ => None,
        },
        None => None,
    }
}

fn find_output(events: &Vec<Event>, turn: u32, id: EventId) -> (r: Option<(String, Trust)>)
    ensures
        match r {
            Some(o) => output_of(event_at(events.deep_view(), turn, id)) == Some((o.0@, o.1)),
            None => output_of(event_at(events.deep_view(), turn, id)) is None,
        },
{
    let ghost all = events.deep_view();
    let mut i: usize = 0;
    proof {
        assert(all.skip(0) =~= all);
    }
    while i < events.len()
        invariant
            i <= events@.len(),
            all == events.deep_view(),
            event_at(all, turn, id) == event_at(all.skip(i as int), turn, id),
        decreases events@.len() - i,
    {
        let e: &Event = &events[i];
        proof {
            assert(all.skip(i as int)[0] == e.deep_view());
            assert(all.skip(i as int).drop_first() =~= all.skip(i + 1));
        }
        if e.id == id && e.turn == turn {
            return match &e.kind {
                EventKind::ToolReturned { call, outcome } => match outcome {
                    ToolOutcome::Done { output } => Some((output.summary.clone(), output.trust)),
                    _ => None,
                },
                _ => None,
            };
        }
        i = i + 1;
    }
    None
}

/// The full text of a result that came back this turn.
pub fn result_text(events: &Vec<Event>, turn: u32, id: EventId) -> (r: Option<String>)
    ensures
        r.deep_view() == (match output_of(event_at(events.deep_view(), turn, id)) {
            Some(o) => Some(o.0),
            None => None,
        }),
{
    match find_output(events, turn, id) {
        Some(o) => Some(o.0),
        None => None,
    }
}

/// The trust of the result behind a handle.
pub fn result_trust(events: &Vec<Event>, turn: u32, id: EventId) -> (r: Trust)
    ensures
        r == (match output_of(event_at(events.deep_view(), turn, id)) {
            Some(o) => o.1,
            None => Trust::System,
        }),
{
    match find_output(events, turn, id) {
        Some(o) => o.1,
        None => Trust::System,
    }
}

/// The handles of the entries that the cap shortened.
pub open spec fn clipped_handles(es: Seq<TraceEntryV>, max: nat, n: nat) -> Seq<EventId>
    decreases n,
{
    if n == 0 {
        seq![]
    } else {
        let rest = clipped_handles(es, max, (n - 1) as nat);
        match es[n - 1].handle {
            Some(id) => if es[n - 1].line.len() > max {
                rest.push(id)
            } else {
                rest
            },
            None => rest,
        }
    }
}

/// The results of the turn that are worth inspecting.
pub open spec fn inspectable(events: Seq<EventV>, turn: u32, max: nat) -> Seq<EventId> {
    clipped_handles(entries(events, turn), max, entries(events, turn).len())
}

pub fn clipped_results(events: &Vec<Event>, turn: u32, max_chars: usize) -> (r: Vec<EventId>)
    ensures
        r@ == inspectable(events.deep_view(), turn, max_chars as nat),
{
    let es: Vec<TraceEntry> = trace_entries(events, turn);
    let ghost all = es.deep_view();
    let mut out: Vec<EventId> = Vec::new();
    let mut i: usize = 0;
    while i < es.len()
        invariant
            i <= es@.len(),
            all == es.deep_view(),
            out@ == clipped_handles(all, max_chars as nat, i as nat),
        decreases es@.len() - i,
    {
        assert(all[i as int] == es@[i as int].deep_view());
        let total: usize = chars_of(es[i].line.as_str()).len();
        if let Some(id) = es[i].handle {
            if total > max_chars {
                out.push(id);
            }
        }
        i = i + 1;
    }
    out
}

/// First and last turn of some records.
pub open spec fn turn_range(records: Seq<TurnRecordV>) -> Option<(u32, u32)> {
    if records.len() == 0 {
        None
    } else {
        Some((records[0].turn, records.last().turn))
    }
}

/// First and last turn of a window of records.
pub fn window_range(window: &Vec<TurnRecord>) -> (r: Option<(u32, u32)>)
    ensures
        r == turn_range(window.deep_view()),
{
    proof {
        if window@.len() > 0 {
            assert(window.deep_view()[0] == window@[0].deep_view());
            assert(window.deep_view().last() == window@.last().deep_view());
        }
    }
    if window.len() == 0 {
        None
    } else {
        Some((window[0].turn, window[window.len() - 1].turn))
    }
}

// ---------------------------------------------------------------------------
// Laws
// ---------------------------------------------------------------------------

proof fn lemma_kept_has(es: Seq<TraceEntryV>, from: int, n: nat, i: int)
    requires
        0 <= i < n <= es.len(),
        i >= from || es[i].rejection,
    ensures
        kept(es, from, n).contains(es[i]),
    decreases n,
{
    let rest = kept(es, from, (n - 1) as nat);
    let all = kept(es, from, n);
    if i == n - 1 {
        assert(all[rest.len() as int] == es[i]);
    } else {
        lemma_kept_has(es, from, (n - 1) as nat, i);
        let j = choose|j: int| 0 <= j < rest.len() && rest[j] == es[i];
        assert(all[j] == es[i]);
    }
}

proof fn lemma_refolded_has(es: Seq<TraceEntryV>, verbatim: nat, max_chars: nat, i: int)
    requires
        0 <= i < es.len(),
        es[i].rejection || verbatim == 0 || outcomes_in(es) <= verbatim || i >= keep_from(es, verbatim),
    ensures
        refolded(es, verbatim, max_chars).contains(es[i]),
{
    let out = refolded(es, verbatim, max_chars);
    if verbatim == 0 || outcomes_in(es) <= verbatim {
        assert(out[i] == es[i]);
    } else {
        let from = keep_from(es, verbatim);
        lemma_kept_has(es, from, es.len(), i);
        let k = kept(es, from, es.len());
        let j = choose|j: int| 0 <= j < k.len() && k[j] == es[i];
        if folded_steps(es, from, es.len()) == 0 {
            assert(out[j] == es[i]);
        } else {
            assert(out[j + 1] == es[i]);
        }
    }
}

/// The fold never drops a refusal: it is what steers the next proposal.
pub proof fn refusals_survive_the_fold(es: Seq<TraceEntryV>, verbatim: nat, max_chars: nat, i: int)
    requires
        0 <= i < es.len(),
        es[i].rejection,
    ensures
        refolded(es, verbatim, max_chars).contains(es[i]),
{
    lemma_refolded_has(es, verbatim, max_chars, i);
}

proof fn lemma_outcomes_skip(es: Seq<TraceEntryV>, i: int, j: int)
    requires
        0 <= i <= j <= es.len(),
    ensures
        outcomes_in(es.skip(j)) <= outcomes_in(es.skip(i)),
        i < j && es[i].foldable ==> outcomes_in(es.skip(j)) < outcomes_in(es.skip(i)),
    decreases es.len(),
{
    if j < es.len() {
        lemma_outcomes_skip(es.drop_last(), i, j);
        assert(es.skip(i).drop_last() =~= es.drop_last().skip(i));
        assert(es.skip(j).drop_last() =~= es.drop_last().skip(j));
        assert(es.skip(i).last() == es.last());
        assert(es.skip(j).last() == es.last());
    } else if i < j {
        assert(es.skip(j) =~= seq![]);
        lemma_outcomes_positive(es.skip(i));
        assert(es.skip(i)[0] == es[i]);
    } else {
        assert(es.skip(i) =~= es.skip(j));
    }
}

proof fn lemma_outcomes_positive(es: Seq<TraceEntryV>)
    requires
        es.len() > 0,
    ensures
        es[0].foldable ==> outcomes_in(es) > 0,
    decreases es.len(),
{
    if es.len() > 1 {
        lemma_outcomes_positive(es.drop_last());
        assert(es.drop_last()[0] == es[0]);
    }
}

/// The last `verbatim` outcomes of a turn stay in full, however much else the
/// turn recorded around them.
pub proof fn recent_outcomes_survive_the_fold(es: Seq<TraceEntryV>, verbatim: nat, max_chars: nat, i: int)
    requires
        0 <= i < es.len(),
        es[i].foldable,
        outcomes_in(es.skip(i)) <= verbatim,
    ensures
        refolded(es, verbatim, max_chars).contains(es[i]),
{
    if verbatim > 0 && outcomes_in(es) > verbatim {
        lemma_keep_from(es, verbatim);
        let from = keep_from(es, verbatim);
        if i < from {
            lemma_outcomes_skip(es, i, from);
        }
    }
    lemma_refolded_has(es, verbatim, max_chars, i);
}

/// A turn's only outcome is never folded away.
pub proof fn the_only_outcome_survives_the_fold(es: Seq<TraceEntryV>, verbatim: nat, max_chars: nat, i: int)
    requires
        0 <= i < es.len(),
        es[i].foldable,
        outcomes_in(es) == 1,
    ensures
        refolded(es, verbatim, max_chars).contains(es[i]),
{
    lemma_refolded_has(es, verbatim, max_chars, i);
}

/// The fold is off at zero and below its budget.
pub proof fn the_fold_is_off_below_its_budget(es: Seq<TraceEntryV>, verbatim: nat, max_chars: nat)
    requires
        verbatim == 0 || outcomes_in(es) <= verbatim,
    ensures
        refolded(es, verbatim, max_chars) == es,
{
}

/// A line that fits is left alone, and one that does not keeps its head.
pub proof fn clipping_keeps_the_head(line: Seq<char>, max: nat, handle: Option<EventId>)
    ensures
        line.len() <= max ==> clip(line, max, handle) == line,
        line.len() > max ==> clip(line, max, handle).len() > max && clip(line, max, handle).take(max as int)
            == line.take(max as int),
{
    if line.len() > max {
        reveal_strlit("… [");
        let c = clip(line, max, handle);
        assert(c.take(max as int) =~= line.take(max as int));
    }
}

/// A window is a stretch of the text no longer than asked for, and it says
/// where it stands.
pub proof fn a_window_is_a_stretch_of_the_text(s: Seq<char>, query: Option<Seq<char>>, page: nat, max: nat)
    ensures
        ({
            let w = window(s, query, page, max);
            &&& w.0.len() <= max
            &&& w.0.len() > 0 ==> w.1 + w.0.len() == w.2 && w.2 <= s.len() && w.0 == s.subrange(
                w.1 as int,
                w.2 as int,
            )
        }),
{
}

/// Pages follow one another without gap or overlap, and the page after the last
/// is empty.
pub proof fn pages_tile_the_text(s: Seq<char>, page: nat, max: nat)
    requires
        0 < max,
        s.len() <= usize::MAX,
    ensures
        ({
            let here = window(s, None, page, max);
            let next = window(s, None, page + 1, max);
            &&& page * max < s.len() ==> here.1 == page * max && here.0.len() > 0
            &&& page * max >= s.len() ==> here.0.len() == 0
            &&& here.0.len() > 0 && next.0.len() > 0 ==> here.2 == next.1
            &&& here.0.len() > 0 && next.0.len() == 0 ==> here.2 == s.len()
        }),
{
    assert((page + 1) * max == page * max + max) by (nonlinear_arith);
}

/// A character that a place comes from is one of the text, the lowercase of what
/// comes before it ends at the place or earlier, and its own reaches past it.
pub proof fn a_place_comes_from_one_character(s: Seq<char>, place: nat)
    requires
        s.len() > 0,
        place < lowered_width(s, s.len() as int),
    ensures
        source_of(s, place, 0) < s.len(),
        lowered_width(s, source_of(s, place, 0) as int) <= place < lowered_width(
            s,
            source_of(s, place, 0) as int + 1,
        ),
{
    lemma_source(s, place, 0);
}

proof fn lemma_source(s: Seq<char>, place: nat, i: int)
    requires
        0 <= i < s.len(),
        lowered_width(s, i) <= place < lowered_width(s, s.len() as int),
    ensures
        i <= source_of(s, place, i) < s.len(),
        lowered_width(s, source_of(s, place, i) as int) <= place < lowered_width(
            s,
            source_of(s, place, i) as int + 1,
        ),
    decreases s.len() - i,
{
    if i + 1 < s.len() && lowered_width(s, i + 1) <= place {
        lemma_source(s, place, i + 1);
    }
}

/// The window on a query begins at most an eighth of a window before the first
/// match and never after it.
pub proof fn a_queried_window_is_anchored_on_the_match(s: Seq<char>, q: Seq<char>, page: nat, max: nat)
    requires
        text::trimmed(q).len() > 0,
    ensures
        first_match(s, text::trimmed(q)) matches Some(i) ==> (window_start(s, Some(q), page, max) matches Some(start)
            && start <= i <= start + max / 8),
{
}

/// A blank query is no query. Any other looks past the pages: every page gives the
/// first one's window, and that is empty, with the text's length as its end, exactly
/// where the lowercase of the text does not hold the lowercase of the trimmed query.
pub proof fn a_query_looks_past_the_pages(s: Seq<char>, q: Seq<char>, page: nat, max: nat)
    ensures
        text::trimmed(q).len() == 0 ==> window(s, Some(q), page, max) == window(s, None, page, max),
        text::trimmed(q).len() > 0 ==> window(s, Some(q), page, max) == window(s, Some(q), 0, max),
        text::trimmed(q).len() > 0 && !text::contains(unicode::lowered(s), unicode::lowered(text::trimmed(q)))
            ==> window(s, Some(q), page, max) == (Seq::<char>::empty(), 0nat, s.len()),
        text::trimmed(q).len() > 0 && text::contains(unicode::lowered(s), unicode::lowered(text::trimmed(q)))
            && s.len() > 0 && max > 0 ==> window(s, Some(q), page, max).0.len() > 0,
{
    text::lemma_found(unicode::lowered(s), unicode::lowered(text::trimmed(q)));
    if text::trimmed(q).len() > 0 && s.len() > 0 {
        if let Some(place) = text::found(unicode::lowered(s), unicode::lowered(text::trimmed(q))) {
            lemma_source_within(s, place as nat, 0);
        }
    }
}

proof fn lemma_source_within(s: Seq<char>, place: nat, i: int)
    requires
        0 <= i < s.len(),
    ensures
        i <= source_of(s, place, i) < s.len(),
    decreases s.len() - i,
{
    if i + 1 < s.len() && lowered_width(s, i + 1) <= place {
        lemma_source_within(s, place, i + 1);
    }
}

/// The event is one of the turn's that a trace has a line for.
pub open spec fn traced(e: EventV, turn: u32) -> bool {
    e.turn == turn && (e.kind is Proposed || e.kind is Rejected || e.kind is ToolReturned)
}

/// With the fold off a trace has one line for each proposal, refusal and outcome
/// of the turn, in the log's order, and what the cap keeps out of each is counted;
/// where no line is longer than the cap nothing is kept out, and the lines are
/// those of the whole trace.
pub proof fn without_the_fold_nothing_is_left_out(events: Seq<EventV>, turn: u32, max: nat)
    ensures
        ({
            let es = refolded(entries(events, turn), 0, max);
            let of = events.filter(|e: EventV| traced(e, turn));
            &&& es == entries(events, turn)
            &&& es.len() == of.len()
            &&& clipped_lines(es, max).len() == of.len()
            &&& forall|i: int|
                0 <= i < of.len() ==> entry_of(events, turn, #[trigger] of[i]) == Some(es[i]) && clipped_lines(es, max)[i]
                    == clip(es[i].line, max, es[i].handle)
            &&& (forall|i: int| 0 <= i < es.len() ==> (#[trigger] es[i]).line.len() <= max) ==> dropped_chars(
                es,
                max,
                es.len(),
            ) == 0 && text::joined(clipped_lines(es, max), "\n"@) == text::joined(lines_of(es), "\n"@)
        }),
{
    let es = entries(events, turn);
    lemma_entries(events, turn, events.len());
    assert(events.take(events.len() as int) =~= events);
    if forall|i: int| 0 <= i < es.len() ==> (#[trigger] es[i]).line.len() <= max {
        lemma_none_dropped(es, max, es.len());
        assert(clipped_lines(es, max) =~= lines_of(es));
    }
}

/// What the cap keeps out of a trace is what each line is longer than it, summed.
pub proof fn the_cap_is_counted_line_by_line(es: Seq<TraceEntryV>, e: TraceEntryV, max: nat)
    ensures
        dropped_chars(seq![], max, 0) == 0,
        dropped_chars(es.push(e), max, es.len() + 1) == dropped_chars(es, max, es.len()) + (if e.line.len() > max {
            e.line.len() - max
        } else {
            0
        }),
{
    lemma_dropped_prefix(es, e, max, es.len());
}

proof fn lemma_dropped_prefix(es: Seq<TraceEntryV>, e: TraceEntryV, max: nat, n: nat)
    requires
        n <= es.len(),
    ensures
        dropped_chars(es.push(e), max, n) == dropped_chars(es, max, n),
    decreases n,
{
    if n > 0 {
        lemma_dropped_prefix(es, e, max, (n - 1) as nat);
    }
}

pub proof fn lemma_none_dropped(es: Seq<TraceEntryV>, max: nat, n: nat)
    requires
        n <= es.len(),
        forall|i: int| 0 <= i < es.len() ==> (#[trigger] es[i]).line.len() <= max,
    ensures
        dropped_chars(es, max, n) == 0,
    decreases n,
{
    if n > 0 {
        lemma_none_dropped(es, max, (n - 1) as nat);
    }
}

proof fn lemma_entries(events: Seq<EventV>, turn: u32, n: nat)
    requires
        n <= events.len(),
    ensures
        ({
            let es = entries_upto(events, turn, n);
            let of = events.take(n as int).filter(|e: EventV| traced(e, turn));
            &&& es.len() == of.len()
            &&& forall|i: int| 0 <= i < of.len() ==> entry_of(events, turn, #[trigger] of[i]) == Some(es[i])
        }),
    decreases n,
{
    reveal(Seq::filter);
    if n > 0 {
        lemma_entries(events, turn, (n - 1) as nat);
        assert(events.take(n as int).drop_last() =~= events.take(n - 1));
        assert(events.take(n as int).last() == events[n - 1]);
    }
}

// ---------------------------------------------------------------------------
// What a trace says, by what happened
// ---------------------------------------------------------------------------

proof fn lemma_action_called(events: Seq<EventV>, turn: u32, id: EventId, c: int)
    requires
        0 <= c < events.len(),
        events[c].turn == turn && events[c].id == id && events[c].kind is ToolCalled,
        forall|j: int|
            c < j < events.len() ==> !((#[trigger] events[j]).turn == turn && events[j].id == id && events[j].kind
                is ToolCalled),
    ensures
        action_called(events, turn, id) == Some(events[c].kind->ToolCalled_action),
    decreases events.len(),
{
    let n = events.len() - 1;
    if c < n {
        let past = events.drop_last();
        assert(!(events[n].turn == turn && events[n].id == id && events[n].kind is ToolCalled));
        assert(past[c] == events[c]);
        assert forall|j: int| c < j < past.len() implies !((#[trigger] past[j]).turn == turn && past[j].id == id
            && past[j].kind is ToolCalled) by {
            assert(past[j] == events[j]);
        }
        lemma_action_called(past, turn, id, c);
    }
}

/// A trace line says what happened: what was proposed, why something was refused, and how
/// a call came out. A result that came back can be paged through by its number; refusals
/// are never folded and outcomes may be.
pub proof fn a_trace_line_says_what_happened(events: Seq<EventV>, e: EventV)
    ensures
        ({
            let entry = entry_of(events, e.turn, e);
            match e.kind {
                EventKindV::Proposed { proposal } => entry == Some(
                    TraceEntryV {
                        handle: None,
                        action: Some(proposal.action),
                        rejection: false,
                        foldable: false,
                        line: "Proposed("@ + proposal.action + ")"@,
                    },
                ),
                EventKindV::Rejected { reason, .. } => entry == Some(
                    TraceEntryV {
                        handle: None,
                        action: None,
                        rejection: true,
                        foldable: false,
                        line: match reason {
                            RejectReasonV::Malformed { detail } => "Rejected(malformed: "@ + detail + ")"@,
                            RejectReasonV::ProviderUnavailable { status, detail } => "(provider unavailable: HTTP "@
                                + text::decimal(status as nat) + ": "@ + detail + ")"@,
                            RejectReasonV::IllegalAction { action } => "Rejected(illegal action: "@ + action + ")"@,
                            RejectReasonV::GuardDenied { guard, reason } => "Rejected(guard "@ + guard + ": "@ + reason
                                + ")"@,
                        },
                    },
                ),
                EventKindV::ToolReturned { outcome: ToolOutcomeV::Done { output }, .. } => entry matches Some(r) && r.handle
                    == Some(e.id) && !r.rejection && r.foldable && r.line == "ToolReturned(ok: "@ + output.summary + ")"@,
                EventKindV::ToolReturned { outcome: ToolOutcomeV::Failed { kind, detail }, .. } => entry matches Some(r)
                    && r.handle is None && !r.rejection && r.foldable && r.line == "ToolReturned(err "@ + kind + ": "@
                    + detail + ")"@,
                _ => entry is None,
            }
        }),
{
}

/// An outcome is told of the action that was called on the turn under its number.
pub proof fn an_outcome_is_told_of_its_action(events: Seq<EventV>, e: EventV, c: int)
    requires
        e.kind is ToolReturned,
        0 <= c < events.len(),
        events[c].turn == e.turn && events[c].id == e.kind->ToolReturned_call && events[c].kind is ToolCalled,
        forall|j: int|
            c < j < events.len() ==> !((#[trigger] events[j]).turn == e.turn && events[j].id == e.kind->ToolReturned_call
                && events[j].kind is ToolCalled),
    ensures
        entry_of(events, e.turn, e) matches Some(r) && r.action == Some(events[c].kind->ToolCalled_action),
{
    lemma_action_called(events, e.turn, e.kind->ToolReturned_call, c);
}

/// A folded outcome is counted by its action and how it came out, and keeps its handle
/// where it was clipped.
pub proof fn a_folded_outcome_keeps_its_name(events: Seq<EventV>, e: EventV, max: nat)
    requires
        e.kind is ToolReturned,
    ensures
        ({
            let entry = entry_of(events, e.turn, e)->0;
            let action = match entry.action {
                Some(a) => a,
                None => "action"@,
            };
            match e.kind->ToolReturned_outcome {
                ToolOutcomeV::Failed { .. } => descriptor(entry, max) == action + " "@ + "err"@,
                ToolOutcomeV::Done { output } => descriptor(entry, max) == if output.summary.len() + 18 > max {
                    action + " "@ + "ok"@ + " ("@ + "r"@ + text::decimal(e.id.0 as nat) + ", clipped)"@
                } else {
                    action + " "@ + "ok"@
                },
            }
        }),
{
    reveal_strlit("ToolReturned(ok: ");
    reveal_strlit("ToolReturned(err ");
    reveal_strlit("ToolReturned(err");
    reveal_strlit(")");
    let entry = entry_of(events, e.turn, e)->0;
    match e.kind->ToolReturned_outcome {
        ToolOutcomeV::Failed { kind, detail } => {
            assert(entry.line.take(16) =~= "ToolReturned(err"@);
        },
        ToolOutcomeV::Done { output } => {
            assert(entry.line[13] == 'o');
            if text::starts(entry.line, "ToolReturned(err"@) {
                assert(entry.line.take(16)[13] == 'e');
            }
            let action = match entry.action {
                Some(a) => a,
                None => "action"@,
            };
            assert(action + " "@ + "ok"@ + " ("@ + "r"@ + text::decimal(e.id.0 as nat) + ", clipped)"@ =~= action + " "@
                + "ok"@ + " ("@ + handle_text(e.id) + ", clipped)"@);
        },
    }
}

pub open spec fn like(d: Seq<char>) -> spec_fn(Seq<char>) -> bool {
    |x: Seq<char>| x == d
}

/// How often a text stands in a list.
pub open spec fn times(ds: Seq<Seq<char>>, d: Seq<char>) -> nat {
    ds.filter(like(d)).len()
}

proof fn lemma_counted_at(counts: Seq<(Seq<char>, nat)>, d: Seq<char>)
    ensures
        match counted_at(counts, d) {
            Some(i) => 0 <= i < counts.len() && counts[i].0 == d && forall|j: int| 0 <= j < i ==> (#[trigger] counts[j]).0 != d,
            None => forall|j: int| 0 <= j < counts.len() ==> (#[trigger] counts[j]).0 != d,
        },
    decreases counts.len(),
{
    if counts.len() > 0 {
        let rest = counts.drop_last();
        lemma_counted_at(rest, d);
        match counted_at(rest, d) {
            Some(i) => {
                assert forall|j: int| 0 <= j < i implies (#[trigger] counts[j]).0 != d by {
                    assert(rest[j] == counts[j]);
                }
            },
            None => {
                assert forall|j: int| 0 <= j < counts.len() - 1 implies (#[trigger] counts[j]).0 != d by {
                    assert(rest[j] == counts[j]);
                }
            },
        }
    }
}

/// Every folded outcome is counted: each different one once, as often as it came.
pub proof fn every_folded_outcome_is_counted(ds: Seq<Seq<char>>)
    ensures
        forall|i: int| 0 <= i < tally(ds).len() ==> (#[trigger] tally(ds)[i]).1 == times(ds, tally(ds)[i].0) && tally(ds)[i].1 > 0,
        forall|i: int, j: int| 0 <= i < j < tally(ds).len() ==> (#[trigger] tally(ds)[i]).0 != (#[trigger] tally(ds)[j]).0,
        forall|k: int| 0 <= k < ds.len() ==> exists|i: int| 0 <= i < tally(ds).len() && (#[trigger] tally(ds)[i]).0 == #[trigger] ds[k],
    decreases ds.len(),
{
    reveal(Seq::filter);
    if ds.len() > 0 {
        let past = ds.drop_last();
        let d = ds.last();
        every_folded_outcome_is_counted(past);
        let rest = tally(past);
        let all = tally(ds);
        lemma_counted_at(rest, d);
        assert forall|x: Seq<char>| #[trigger] times(ds, x) == times(past, x) + if x == d {
            1nat
        } else {
            0nat
        } by {}
        match counted_at(rest, d) {
            Some(at) => {
                assert forall|i: int| 0 <= i < all.len() implies (#[trigger] all[i]).1 == times(ds, all[i].0) && all[i].1 > 0 by {
                    assert(rest[i].1 == times(past, rest[i].0));
                    if i != at {
                        assert(rest[i].0 != rest[at].0) by {
                            if i < at {
                                assert(rest[i].0 != rest[at].0);
                            } else {
                                assert(rest[at].0 != rest[i].0);
                            }
                        }
                    }
                }
                assert forall|i: int, j: int| 0 <= i < j < all.len() implies (#[trigger] all[i]).0 != (#[trigger] all[j]).0 by {
                    assert(rest[i].0 != rest[j].0);
                }
                assert forall|k: int| 0 <= k < ds.len() implies exists|i: int|
                    0 <= i < all.len() && (#[trigger] all[i]).0 == #[trigger] ds[k] by {
                    if k < past.len() {
                        assert(past[k] == ds[k]);
                        let i = choose|i: int| 0 <= i < rest.len() && (#[trigger] rest[i]).0 == past[k];
                        assert(all[i].0 == ds[k]);
                    } else {
                        assert(all[at].0 == ds[k]);
                    }
                }
            },
            None => {
                assert(times(past, d) == 0) by {
                    lemma_absent(past, d);
                }
                assert forall|i: int| 0 <= i < all.len() implies (#[trigger] all[i]).1 == times(ds, all[i].0) && all[i].1 > 0 by {
                    if i < rest.len() {
                        assert(rest[i].1 == times(past, rest[i].0));
                        assert(rest[i].0 != d);
                    }
                }
                assert forall|i: int, j: int| 0 <= i < j < all.len() implies (#[trigger] all[i]).0 != (#[trigger] all[j]).0 by {
                    assert(all[i] == rest[i]);
                    if j < rest.len() {
                        assert(rest[i].0 != rest[j].0);
                    } else {
                        assert(rest[i].0 != d);
                    }
                }
                assert forall|k: int| 0 <= k < ds.len() implies exists|i: int|
                    0 <= i < all.len() && (#[trigger] all[i]).0 == #[trigger] ds[k] by {
                    if k < past.len() {
                        assert(past[k] == ds[k]);
                        let i = choose|i: int| 0 <= i < rest.len() && (#[trigger] rest[i]).0 == past[k];
                        assert(all[i].0 == ds[k]);
                    } else {
                        assert(all[rest.len() as int].0 == ds[k]);
                    }
                }
            },
        }
    }
}

proof fn lemma_absent(ds: Seq<Seq<char>>, d: Seq<char>)
    requires
        forall|i: int| 0 <= i < tally(ds).len() ==> (#[trigger] tally(ds)[i]).0 != d,
        forall|k: int| 0 <= k < ds.len() ==> exists|i: int| 0 <= i < tally(ds).len() && (#[trigger] tally(ds)[i]).0 == #[trigger] ds[k],
    ensures
        times(ds, d) == 0,
{
    let p = like(d);
    if ds.filter(p).len() > 0 {
        ds.lemma_filter_pred(p, 0);
        ds.lemma_filter_contains_rev(p, ds.filter(p)[0]);
        let k = choose|k: int| 0 <= k < ds.len() && ds[k] == ds.filter(p)[0];
        let i = choose|i: int| 0 <= i < tally(ds).len() && (#[trigger] tally(ds)[i]).0 == ds[k];
        assert(tally(ds)[i].0 == d);
    }
}

/// The fold takes the steps before the last `verbatim` outcomes, all but the refusals, and
/// puts one line in their place that says how many they were; what it leaves stays in
/// order. `from` is where the first of those outcomes stands.
pub proof fn the_fold_takes_the_older_steps(es: Seq<TraceEntryV>, verbatim: nat, max_chars: nat, from: int)
    requires
        0 < verbatim < outcomes_in(es),
        0 <= from < es.len(),
        es[from].foldable,
        outcomes_in(es.skip(from)) == verbatim,
    ensures
        ({
            let refusals = es.take(from).filter(|e: TraceEntryV| e.rejection);
            let out = refolded(es, verbatim, max_chars);
            let steps = from - refusals.len();
            &&& steps == 0 ==> out == refusals + es.skip(from)
            &&& steps > 0 ==> out == seq![out[0]] + refusals + es.skip(from)
            &&& steps > 0 ==> out[0].handle is None && !out[0].rejection && !out[0].foldable && (text::starts(
                out[0].line,
                "earlier this turn ("@ + text::decimal(steps as nat) + " steps): "@,
            ) || out[0].line == "earlier this turn: "@ + text::decimal(steps as nat) + " steps"@)
        }),
{
    lemma_keep_from(es, verbatim);
    let at = keep_from(es, verbatim);
    assert(at == from) by {
        if at < from {
            lemma_outcomes_skip(es, at, from);
        } else if from < at {
            lemma_outcomes_skip(es, from, at);
        }
    }
    lemma_kept(es, from, es.len());
    assert(es.take(from).len() == from);
    let refusals = es.take(from).filter(|e: TraceEntryV| e.rejection);
    assert(es.subrange(from, es.len() as int) =~= es.skip(from));
    let out = refolded(es, verbatim, max_chars);
    let steps = folded_steps(es, from, es.len());
    if steps > 0 {
        assert(out =~= seq![out[0]] + refusals + es.skip(from));
        let counts = tally(folded_outcomes(es, from, max_chars, es.len()));
        let head = "earlier this turn ("@ + text::decimal(steps) + " steps): "@;
        let summary = text::joined(Seq::new(counts.len(), |i: int| counted(counts[i])), " · "@);
        assert((head + summary).take(head.len() as int) =~= head);
    }
}

proof fn lemma_kept(es: Seq<TraceEntryV>, from: int, n: nat)
    requires
        0 <= from <= es.len(),
        n <= es.len(),
    ensures
        ({
            let k = if n < from {
                n as int
            } else {
                from
            };
            let refusals = es.take(k).filter(|e: TraceEntryV| e.rejection);
            &&& kept(es, from, n) == refusals + es.subrange(k, n as int)
            &&& folded_steps(es, from, n) == k - refusals.len()
        }),
    decreases n,
{
    reveal(Seq::filter);
    if n > 0 {
        lemma_kept(es, from, (n - 1) as nat);
        let refuses = |e: TraceEntryV| e.rejection;
        if n <= from {
            assert(es.take(n as int).drop_last() =~= es.take(n - 1));
            assert(es.take(n as int).last() == es[n - 1]);
            assert(es.subrange(n - 1, n - 1) =~= seq![]);
            assert(es.subrange(n as int, n as int) =~= seq![]);
            assert(es.take(n - 1).filter(refuses) + Seq::<TraceEntryV>::empty() =~= es.take(n - 1).filter(refuses));
            assert(es.take(n as int).filter(refuses) + Seq::<TraceEntryV>::empty() =~= es.take(n as int).filter(refuses));
        } else {
            let k = from;
            assert(es.subrange(k, n as int) =~= es.subrange(k, n - 1).push(es[n - 1]));
            let r = es.take(k).filter(refuses);
            assert((r + es.subrange(k, n - 1)).push(es[n - 1]) =~= r + es.subrange(k, n as int));
        }
    } else {
        assert(es.take(0) =~= seq![]);
        assert(es.subrange(0, 0) =~= seq![]);
        assert(kept(es, from, n) =~= es.take(0).filter(|e: TraceEntryV| e.rejection) + es.subrange(0, 0));
    }
}

/// Only outcomes are counted in the line that stands for older steps, each by its own
/// description and in order.
pub proof fn the_fold_counts_outcomes_only(es: Seq<TraceEntryV>, from: int, max_chars: nat)
    requires
        0 <= from <= es.len(),
    ensures
        ({
            let folded = es.take(from).filter(|e: TraceEntryV| e.foldable && !e.rejection);
            &&& folded_outcomes(es, from, max_chars, es.len()).len() == folded.len()
            &&& forall|i: int|
                0 <= i < folded.len() ==> #[trigger] folded_outcomes(es, from, max_chars, es.len())[i] == descriptor(
                    folded[i],
                    max_chars,
                )
        }),
{
    lemma_folded(es, from, max_chars, es.len());
}

proof fn lemma_folded(es: Seq<TraceEntryV>, from: int, max_chars: nat, n: nat)
    requires
        0 <= from <= es.len(),
        n <= es.len(),
    ensures
        ({
            let k = if n < from {
                n as int
            } else {
                from
            };
            let folded = es.take(k).filter(|e: TraceEntryV| e.foldable && !e.rejection);
            &&& folded_outcomes(es, from, max_chars, n).len() == folded.len()
            &&& forall|i: int|
                0 <= i < folded.len() ==> #[trigger] folded_outcomes(es, from, max_chars, n)[i] == descriptor(
                    folded[i],
                    max_chars,
                )
        }),
    decreases n,
{
    reveal(Seq::filter);
    if n > 0 {
        lemma_folded(es, from, max_chars, (n - 1) as nat);
        if n <= from {
            assert(es.take(n as int).drop_last() =~= es.take(n - 1));
            assert(es.take(n as int).last() == es[n - 1]);
        }
    } else {
        assert(es.take(0) =~= seq![]);
    }
}

/// What a count reads like.
pub proof fn a_count_is_shown_above_one(d: Seq<char>, n: nat)
    ensures
        n == 1 ==> counted((d, n)) == d,
        n > 1 ==> counted((d, n)) == d + " ×"@ + text::decimal(n),
{
}

/// What a clipped line says behind its head: how long the result is, how much is shown and
/// how to see more, or how much is missing where there is no way to.
pub proof fn a_clipped_line_says_what_is_missing(line: Seq<char>, max: nat, id: EventId)
    requires
        line.len() > max,
    ensures
        clip(line, max, None) == line.take(max as int) + "… ["@ + text::decimal((line.len() - max) as nat)
            + " more characters]"@,
        clip(line, max, Some(id)) == line.take(max as int) + "… ["@ + ("r"@ + text::decimal(id.0 as nat)) + ": "@
            + text::decimal(line.len()) + " chars, "@ + text::decimal(max) + " shown — "@ + "inspect_result"@
            + " to see more]"@,
{
}

/// A window is as long as it may be: to its end or to that of the text.
pub proof fn a_window_is_as_long_as_it_may_be(s: Seq<char>, query: Option<Seq<char>>, page: nat, max: nat)
    ensures
        ({
            let w = window(s, query, page, max);
            match window_start(s, query, page, max) {
                Some(start) => w.1 == start && (start < s.len() ==> w.0.len() == if start + max <= s.len() {
                    max as int
                } else {
                    s.len() - start
                }) && (start >= s.len() ==> w.0.len() == 0),
                None => w.0.len() == 0,
            }
        }),
{
}

/// A queried window begins an eighth of a window before the first match, or with the text.
pub proof fn a_queried_window_begins_before_the_match(s: Seq<char>, q: Seq<char>, page: nat, max: nat)
    requires
        text::trimmed(q).len() > 0,
        first_match(s, text::trimmed(q)) is Some,
    ensures
        ({
            let i = first_match(s, text::trimmed(q))->0;
            &&& i > max / 8 ==> window_start(s, Some(q), page, max) == Some((i - max / 8) as nat)
            &&& i <= max / 8 ==> window_start(s, Some(q), page, max) == Some(0nat)
        }),
{
}

/// The event asks for the next page of the result: an inspection that names it and has no
/// query, or a blank one.
pub open spec fn asks_for_a_page(e: EventV, turn: u32, id: EventId) -> bool {
    &&& e.turn == turn
    &&& e.kind matches EventKindV::ToolCalled { action, args } && action == "inspect_result"@ && arg_string(args, "id"@)
        is Some && handle_of(arg_string(args, "id"@)->0) == Some(id) && (arg_string(args, "query"@) is None
        || text::trimmed(arg_string(args, "query"@)->0).len() == 0)
}

/// The pages of a result that were seen are the times that the turn asked for one.
pub proof fn pages_are_counted_by_asking(events: Seq<EventV>, turn: u32, id: EventId)
    ensures
        pages_seen(events, turn, id) == events.filter(|e: EventV| asks_for_a_page(e, turn, id)).len(),
    decreases events.len(),
{
    reveal(Seq::filter);
    if events.len() > 0 {
        pages_are_counted_by_asking(events.drop_last(), turn, id);
    }
}

/// An argument reads as the string that the first of its name holds.
pub proof fn an_argument_is_read_by_its_name(args: TaggedV, name: Seq<char>, i: int)
    ensures
        0 <= i < args.len() && args[i].0 == name && (forall|j: int| 0 <= j < i ==> (#[trigger] args[j]).0 != name)
            ==> arg_string(args, name) == json::json_str_at(args[i].1.value, ""@),
        (forall|j: int| 0 <= j < args.len() ==> (#[trigger] args[j]).0 != name) ==> arg_string(args, name) is None,
    decreases args.len(),
{
    if args.len() > 0 {
        let rest = args.drop_first();
        an_argument_is_read_by_its_name(rest, name, i - 1);
        assert forall|j: int| 0 <= j < rest.len() implies rest[j] == args[j + 1] by {}
        if forall|j: int| 0 <= j < args.len() ==> (#[trigger] args[j]).0 != name {
            assert(args[0].0 != name);
            assert forall|j: int| 0 <= j < rest.len() implies (#[trigger] rest[j]).0 != name by {
                assert(args[j + 1].0 != name);
            }
        }
        if 0 < i < args.len() && args[i].0 == name && (forall|j: int| 0 <= j < i ==> (#[trigger] args[j]).0 != name) {
            assert(args[0].0 != name);
            assert(rest[i - 1] == args[i]);
            assert forall|j: int| 0 <= j < i - 1 implies (#[trigger] rest[j]).0 != name by {
                assert(args[j + 1].0 != name);
            }
        }
    }
}

/// A result is worth inspecting exactly where it came back on the turn and its line is
/// longer than what is shown.
pub proof fn what_is_worth_inspecting(events: Seq<EventV>, turn: u32, max: nat, id: EventId)
    ensures
        inspectable(events, turn, max).contains(id) <==> exists|i: int|
            0 <= i < events.len() && #[trigger] came_back_long(events[i], turn, max) && events[i].id == id,
{
    let es = entries(events, turn);
    let n = es.len();
    lemma_entries(events, turn, events.len());
    assert(events.take(events.len() as int) =~= events);
    let keep = |e: EventV| traced(e, turn);
    let of = events.filter(keep);
    lemma_clipped(es, max, n, id);
    reveal_strlit("ToolReturned(ok: ");
    reveal_strlit(")");
    if inspectable(events, turn, max).contains(id) {
        let k = choose|k: int| 0 <= k < n && (#[trigger] es[k]).handle == Some(id) && es[k].line.len() > max;
        let e = of[k];
        assert(entry_of(events, turn, e) == Some(es[k]));
        events.lemma_filter_contains_rev(keep, e);
        let i = choose|i: int| 0 <= i < events.len() && events[i] == e;
        assert(came_back_long(events[i], turn, max));
    }
    if exists|i: int| 0 <= i < events.len() && #[trigger] came_back_long(events[i], turn, max) && events[i].id == id {
        let i = choose|i: int| 0 <= i < events.len() && #[trigger] came_back_long(events[i], turn, max) && events[i].id == id;
        assert(keep(events[i]));
        events.lemma_filter_contains(keep, i);
        let k = choose|k: int| 0 <= k < of.len() && of[k] == events[i];
        assert(entry_of(events, turn, of[k]) == Some(es[k]));
        assert(es[k].handle == Some(id) && es[k].line.len() > max);
    }
}

/// The event is an output of the turn whose line is longer than what is shown.
pub open spec fn came_back_long(e: EventV, turn: u32, max: nat) -> bool {
    e.turn == turn && (e.kind matches EventKindV::ToolReturned { outcome, .. } && (outcome matches ToolOutcomeV::Done {
        output,
    } && output.summary.len() + 18 > max))
}

proof fn lemma_clipped(es: Seq<TraceEntryV>, max: nat, n: nat, id: EventId)
    requires
        n <= es.len(),
    ensures
        clipped_handles(es, max, n).contains(id) <==> exists|k: int|
            0 <= k < n && (#[trigger] es[k]).handle == Some(id) && es[k].line.len() > max,
    decreases n,
{
    if n > 0 {
        lemma_clipped(es, max, (n - 1) as nat, id);
        let was = clipped_handles(es, max, (n - 1) as nat);
        let now = clipped_handles(es, max, n);
        if was.contains(id) {
            let j = choose|j: int| 0 <= j < was.len() && was[j] == id;
            assert(now[j] == id);
        }
        if es[n - 1].handle == Some(id) && es[n - 1].line.len() > max {
            assert(now[was.len() as int] == id);
        }
        if now.contains(id) && !was.contains(id) {
            let j = choose|j: int| 0 <= j < now.len() && now[j] == id;
            if j < was.len() {
                assert(was[j] == id);
            }
        }
    }
}

/// What is read back of a result is what its call returned: the output of the first event
/// of the number on the turn, with its trust.
pub proof fn a_result_is_read_back_as_it_came(events: Seq<EventV>, turn: u32, id: EventId, k: int)
    requires
        0 <= k < events.len(),
        events[k].id == id && events[k].turn == turn,
        forall|j: int| 0 <= j < k ==> !((#[trigger] events[j]).id == id && events[j].turn == turn),
    ensures
        output_of(event_at(events, turn, id)) == (match events[k].kind {
            EventKindV::ToolReturned { outcome: ToolOutcomeV::Done { output }, .. } => Some(
                (output.summary, output.trust),
            ),
            _ => None,
        }),
    decreases events.len(),
{
    if k > 0 {
        let rest = events.drop_first();
        assert(!(events[0].id == id && events[0].turn == turn));
        assert forall|j: int| 0 <= j < k - 1 implies !((#[trigger] rest[j]).id == id && rest[j].turn == turn) by {
            assert(rest[j] == events[j + 1]);
        }
        assert(rest[k - 1] == events[k]);
        a_result_is_read_back_as_it_came(rest, turn, id, k - 1);
    }
}

/// The folded line says how many steps it stands for and lists the outcomes, each once with
/// its count.
pub proof fn the_folded_line_lists_outcomes(steps: nat, counts: Seq<(Seq<char>, nat)>)
    ensures
        counts.len() == 0 ==> fold_line(steps, counts) == "earlier this turn: "@ + text::decimal(steps) + " steps"@,
        ({
            let list = Seq::new(counts.len(), |i: int| counted(counts[i]));
            let summary = text::joined(list, " · "@);
            summary.len() > 0 ==> fold_line(steps, counts) == "earlier this turn ("@ + text::decimal(steps) + " steps): "@
                + summary
        }),
{
    if counts.len() == 0 {
        assert(Seq::new(counts.len(), |i: int| counted(counts[i])) =~= seq![]);
        assert(text::joined(seq![], " · "@).len() == 0);
    }
}

} // verus!
