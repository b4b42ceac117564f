//! The numbers of a run, read back off its event logs, and the report.

use vstd::prelude::*;

use crate::eval::shown::{Shown, ShownV};
use crate::events::{Event, EventKind, EventKindV, EventV, Manifest, ManifestV, ToolOutcome, ToolOutcomeV};
use crate::text;
use crate::text::{cat5, chars_of, count_times, join, number, same};
use crate::turn::specs::{ASK_CLARIFICATION, INSPECT_RESULT, RECALL};
use crate::types::Tier;

verus! {

// ---------------------------------------------------------------------------
// Counting
// ---------------------------------------------------------------------------

/// What the logs of a run add up to.
#[derive(Debug, Clone, Copy, PartialEq, Eq, Structural)]
pub struct Counters {
    pub turns: usize,
    pub emitter_calls: usize,
    pub tool_calls: usize,
    pub recall_calls: usize,
    pub recall_hits: usize,
    pub flags: usize,
    pub clarifications: usize,
    pub clipped_chars: usize,
    pub inspections: usize,
    pub budget_drops: usize,
    pub escalations: usize,
    pub chat_calls: usize,
}

impl DeepView for Counters {
    type V = Counters;

    open spec fn deep_view(&self) -> Counters {
        *self
    }
}

/// Nothing counted yet.
pub open spec fn nothing() -> Counters {
    Counters {
        turns: 0,
        emitter_calls: 0,
        tool_calls: 0,
        recall_calls: 0,
        recall_hits: 0,
        flags: 0,
        clarifications: 0,
        clipped_chars: 0,
        inspections: 0,
        budget_drops: 0,
        escalations: 0,
        chat_calls: 0,
    }
}

impl Default for Counters {
    fn default() -> (r: Self)
        ensures
            r == nothing(),
    {
        Counters {
            turns: 0,
            emitter_calls: 0,
            tool_calls: 0,
            recall_calls: 0,
            recall_hits: 0,
            flags: 0,
            clarifications: 0,
            clipped_chars: 0,
            inspections: 0,
            budget_drops: 0,
            escalations: 0,
            chat_calls: 0,
        }
    }
}

/// `a` and `n` more, up to the largest number there is room for.
pub open spec fn up(a: usize, n: int) -> usize {
    if a + n <= usize::MAX {
        (a + n) as usize
    } else {
        usize::MAX
    }
}

/// The calls of a log that searched the memory.
pub open spec fn recall_ids(events: Seq<EventV>) -> Set<u64>
    decreases events.len(),
{
    if events.len() == 0 {
        Set::empty()
    } else {
        let before = recall_ids(events.drop_last());
        match events.last().kind {
            EventKindV::ToolCalled { action, .. } => if action == RECALL@ {
                before.insert(events.last().id.0)
            } else {
                before
            },
            _ => before,
        }
    }
}

/// How many findings a search's result lists.
pub open spec fn hits(summary: Seq<char>) -> nat {
    if summary == "no matches"@ {
        0
    } else {
        text::times_in(summary, "; "@) + 1
    }
}

/// The counts so far, with the tier of the last model call and its turn.
pub struct Tally {
    pub c: Counters,
    pub tier: Option<(u32, Tier)>,
}

/// The blocks that a call's budget dropped.
pub open spec fn drops(m: ManifestV) -> nat {
    match m.budget {
        Some(dropped) => dropped.len(),
        None => 0,
    }
}

/// What one model call adds: what its manifest says of it, and a rise of the
/// tier since the call before it where both are of one turn.
pub open spec fn call_tallied(t: Tally, turn: u32, m: ManifestV) -> Tally {
    let c = Counters {
        clipped_chars: up(t.c.clipped_chars, m.clipped_chars as int),
        budget_drops: up(t.c.budget_drops, drops(m) as int),
        ..t.c
    };
    match m.tier {
        None => Tally { c, tier: t.tier },
        Some(tier) => {
            let risen = t.tier matches Some(was) && was.0 == turn && tier.rank() > was.1.rank();
            Tally {
                c: Counters {
                    chat_calls: if tier == Tier::Chat {
                        up(c.chat_calls, 1)
                    } else {
                        c.chat_calls
                    },
                    escalations: if risen {
                        up(c.escalations, 1)
                    } else {
                        c.escalations
                    },
                    ..c
                },
                tier: Some((turn, tier)),
            }
        },
    }
}

/// What one event adds.
pub open spec fn tallied(t: Tally, recalls: Set<u64>, e: EventV) -> Tally {
    let c = t.c;
    match e.kind {
        EventKindV::UserSaid { .. } => Tally { c: Counters { turns: up(c.turns, 1), ..c }, tier: t.tier },
        EventKindV::Proposed { proposal } => Tally {
            c: Counters {
                emitter_calls: up(c.emitter_calls, 1),
                clarifications: if proposal.action == ASK_CLARIFICATION@ {
                    up(c.clarifications, 1)
                } else {
                    c.clarifications
                },
                ..c
            },
            tier: t.tier,
        },
        EventKindV::ToolCalled { action, .. } => Tally {
            c: Counters {
                tool_calls: up(c.tool_calls, 1),
                inspections: if action == INSPECT_RESULT@ {
                    up(c.inspections, 1)
                } else {
                    c.inspections
                },
                ..c
            },
            tier: t.tier,
        },
        EventKindV::ReplyFlagged { .. } => Tally { c: Counters { flags: up(c.flags, 1), ..c }, tier: t.tier },
        EventKindV::ModelCall { manifest, .. } => call_tallied(t, e.turn, manifest),
        EventKindV::ToolReturned { call, outcome: ToolOutcomeV::Done { output } } => if recalls.contains(call.0) {
            Tally { c: Counters { recall_hits: up(c.recall_hits, hits(output.summary) as int), ..c }, tier: t.tier }
        } else {
            t
        },
        _ => t,
    }
}

/// What the events of a log add, in order.
pub open spec fn all_tallied(t: Tally, recalls: Set<u64>, events: Seq<EventV>) -> Tally
    decreases events.len(),
{
    if events.len() == 0 {
        t
    } else {
        tallied(all_tallied(t, recalls, events.drop_last()), recalls, events.last())
    }
}

/// What one log adds. A tier carries over between calls of one log only.
pub open spec fn log_counted(c: Counters, events: Seq<EventV>) -> Counters {
    let recalls = recall_ids(events);
    let t = all_tallied(Tally { c, tier: None }, recalls, events).c;
    Counters { recall_calls: up(t.recall_calls, recalls.len() as int), ..t }
}

/// What the logs of a run add up to.
pub open spec fn counted(logs: Seq<Seq<EventV>>) -> Counters
    decreases logs.len(),
{
    if logs.len() == 0 {
        nothing()
    } else {
        log_counted(counted(logs.drop_last()), logs.last())
    }
}

fn holds(ids: &Vec<u64>, id: u64) -> (r: bool)
    ensures
        r == ids@.contains(id),
{
    let mut i: usize = 0;
    while i < ids.len()
        invariant
            i <= ids@.len(),
            forall|k: int| 0 <= k < i ==> ids@[k] != id,
        decreases ids@.len() - i,
    {
        if ids[i] == id {
            return true;
        }
        i = i + 1;
    }
    false
}

fn recalls_of(events: &Vec<Event>) -> (r: Vec<u64>)
    ensures
        r@.to_set() == recall_ids(events.deep_view()),
        r@.len() == recall_ids(events.deep_view()).len(),
{
    let ghost all = events.deep_view();
    let mut ids: Vec<u64> = Vec::new();
    let mut i: usize = 0;
    proof {
        assert(ids@.to_set() =~= Set::empty());
    }
    while i < events.len()
        invariant
            i <= events@.len(),
            all == events.deep_view(),
            ids@.no_duplicates(),
            ids@.to_set() == recall_ids(all.take(i as int)),
        decreases events@.len() - i,
    {
        proof {
            assert(all.take(i + 1).drop_last() =~= all.take(i as int));
            assert(all.take(i + 1).last() == events@[i as int].deep_view());
        }
        if let EventKind::ToolCalled { action, .. } = &events[i].kind {
            if same(action.as_str(), RECALL) {
                let id: u64 = events[i].id.0;
                let ghost before = ids@;
                if !holds(&ids, id) {
                    ids.push(id);
                    proof {
                        assert(ids@.to_set() =~= before.to_set().insert(id)) by {
                            assert forall|x: u64| ids@.to_set().contains(x) == before.to_set().insert(id).contains(
                                x,
                            ) by {
                                if before.contains(x) {
                                    let k = choose|k: int| 0 <= k < before.len() && before[k] == x;
                                    assert(ids@[k] == x);
                                }
                                assert(ids@[before.len() as int] == id);
                            }
                        }
                    }
                } else {
                    proof {
                        assert(before.to_set().insert(id) =~= before.to_set());
                    }
                }
            }
        }
        i = i + 1;
    }
    proof {
        assert(all.take(i as int) =~= all);
        ids@.unique_seq_to_set();
    }
    ids
}

fn tally_call(c: &mut Counters, was: Option<(u32, Tier)>, turn: u32, m: &Manifest) -> (r: Option<(u32, Tier)>)
    ensures
        (Tally { c: *final(c), tier: r }) == call_tallied(Tally { c: *old(c), tier: was }, turn, m.deep_view()),
{
    c.clipped_chars = c.clipped_chars.saturating_add(m.clipped_chars);
    if let Some(dropped) = &m.budget {
        c.budget_drops = c.budget_drops.saturating_add(dropped.len());
    }
    match m.tier {
        None => was,
        Some(tier) => {
            if tier == Tier::Chat {
                c.chat_calls = c.chat_calls.saturating_add(1);
            }
            if let Some((at, before)) = was {
                let higher: bool = match (before, tier) {
                    (Tier::Chat, Tier::Task) => true,
                    (Tier::Chat, Tier::Deep) => true,
                    (Tier::Task, Tier::Deep) => true,
                    _ => false,
                };
                if at == turn && higher {
                    c.escalations = c.escalations.saturating_add(1);
                }
            }
            Some((turn, tier))
        },
    }
}

fn tally(c: &mut Counters, was: Option<(u32, Tier)>, recalls: &Vec<u64>, e: &Event) -> (r: Option<(u32, Tier)>)
    ensures
        (Tally { c: *final(c), tier: r }) == tallied(
            Tally { c: *old(c), tier: was },
            recalls@.to_set(),
            e.deep_view(),
        ),
{
    match &e.kind {
        EventKind::UserSaid { .. } => {
            c.turns = c.turns.saturating_add(1);
            was
        },
        EventKind::Proposed { proposal } => {
            c.emitter_calls = c.emitter_calls.saturating_add(1);
            if same(proposal.action.as_str(), ASK_CLARIFICATION) {
                c.clarifications = c.clarifications.saturating_add(1);
            }
            was
        },
        EventKind::ToolCalled { action, .. } => {
            c.tool_calls = c.tool_calls.saturating_add(1);
            if same(action.as_str(), INSPECT_RESULT) {
                c.inspections = c.inspections.saturating_add(1);
            }
            was
        },
        EventKind::ReplyFlagged { .. } => {
            c.flags = c.flags.saturating_add(1);
            was
        },
        EventKind::ModelCall { manifest, .. } => tally_call(c, was, e.turn, manifest),
        EventKind::ToolReturned { call, outcome } => {
            if let ToolOutcome::Done { output } = outcome {
                if holds(recalls, call.0) {
                    if !same(output.summary.as_str(), "no matches") {
                        proof {
                            reveal_strlit("; ");
                        }
                        let n: usize = count_times(output.summary.as_str(), "; ");
                        c.recall_hits = c.recall_hits.saturating_add(n).saturating_add(1);
                    }
                }
            }
            was
        },
        _ => was,
    }
}

/// Add what one log holds.
fn count_log(c: &mut Counters, events: &Vec<Event>)
    ensures
        *final(c) == log_counted(*old(c), events.deep_view()),
{
    let ghost all = events.deep_view();
    let ghost start = Tally { c: *c, tier: None };
    let recalls: Vec<u64> = recalls_of(events);
    let mut was: Option<(u32, Tier)> = None;
    let mut i: usize = 0;
    while i < events.len()
        invariant
            i <= events@.len(),
            all == events.deep_view(),
            (Tally { c: *c, tier: was }) == all_tallied(start, recalls@.to_set(), all.take(i as int)),
        decreases events@.len() - i,
    {
        proof {
            assert(all.take(i + 1).drop_last() =~= all.take(i as int));
            assert(all.take(i + 1).last() == events@[i as int].deep_view());
        }
        was = tally(c, was, &recalls, &events[i]);
        i = i + 1;
    }
    proof {
        assert(all.take(i as int) =~= all);
    }
    c.recall_calls = c.recall_calls.saturating_add(recalls.len());
}

// ---------------------------------------------------------------------------
// A run
// ---------------------------------------------------------------------------

/// What a task's run left behind: every reply context, every trace that the
/// emitter was shown, and the log of every session.
#[derive(Debug)]
pub struct Harness {
    pub shown: Vec<Shown>,
    pub traces: Vec<Vec<String>>,
    pub logs: Vec<Vec<Event>>,
}

pub struct HarnessV {
    pub shown: Seq<ShownV>,
    pub traces: Seq<Seq<Seq<char>>>,
    pub logs: Seq<Seq<EventV>>,
}

impl DeepView for Harness {
    type V = HarnessV;

    open spec fn deep_view(&self) -> HarnessV {
        HarnessV {
            shown: self.shown.deep_view(),
            traces: self.traces.deep_view(),
            logs: self.logs.deep_view(),
        }
    }
}

/// The larger of two.
pub open spec fn larger(a: usize, b: usize) -> usize {
    if a < b {
        b
    } else {
        a
    }
}

/// The largest reply prompt.
pub open spec fn peak_prompt(shown: Seq<ShownV>) -> usize
    decreases shown.len(),
{
    if shown.len() == 0 {
        0
    } else {
        larger(peak_prompt(shown.drop_last()), up(0, shown.last().prompt.len() as int))
    }
}

/// The characters of a trace.
pub open spec fn trace_size(lines: Seq<Seq<char>>) -> usize
    decreases lines.len(),
{
    if lines.len() == 0 {
        0
    } else {
        up(trace_size(lines.drop_last()), lines.last().len() as int)
    }
}

/// The largest trace.
pub open spec fn peak_trace(traces: Seq<Seq<Seq<char>>>) -> usize
    decreases traces.len(),
{
    if traces.len() == 0 {
        0
    } else {
        larger(peak_trace(traces.drop_last()), trace_size(traces.last()))
    }
}

/// What the calls of a log that came out well reported, in order.
pub open spec fn reports_in(events: Seq<EventV>) -> Seq<Seq<char>>
    decreases events.len(),
{
    if events.len() == 0 {
        seq![]
    } else {
        let before = reports_in(events.drop_last());
        match events.last().kind {
            EventKindV::ToolReturned { outcome: ToolOutcomeV::Done { output }, .. } => before.push(output.summary),
            _ => before,
        }
    }
}

pub open spec fn reports(logs: Seq<Seq<EventV>>) -> Seq<Seq<char>>
    decreases logs.len(),
{
    if logs.len() == 0 {
        seq![]
    } else {
        reports(logs.drop_last()) + reports_in(logs.last())
    }
}

fn size_of_trace(lines: &Vec<String>) -> (r: usize)
    ensures
        r == trace_size(lines.deep_view()),
{
    let ghost all = lines.deep_view();
    let mut n: usize = 0;
    let mut i: usize = 0;
    while i < lines.len()
        invariant
            i <= lines@.len(),
            all == lines.deep_view(),
            n == trace_size(all.take(i as int)),
        decreases lines@.len() - i,
    {
        proof {
            assert(all.take(i + 1).drop_last() =~= all.take(i as int));
            assert(all.take(i + 1).last() == lines@[i as int]@);
        }
        n = n.saturating_add(chars_of(lines[i].as_str()).len());
        i = i + 1;
    }
    proof {
        assert(all.take(i as int) =~= all);
    }
    n
}

impl Harness {
    /// Calls of the reply model: one for each context.
    pub fn reply_calls(&self) -> (r: usize)
        ensures
            r == self.deep_view().shown.len(),
    {
        self.shown.len()
    }

    /// The largest reply prompt, in characters.
    pub fn peak_chars(&self) -> (r: usize)
        ensures
            r == peak_prompt(self.deep_view().shown),
    {
        let ghost all = self.shown.deep_view();
        let mut peak: usize = 0;
        let mut i: usize = 0;
        while i < self.shown.len()
            invariant
                i <= self.shown@.len(),
                all == self.shown.deep_view(),
                peak == peak_prompt(all.take(i as int)),
            decreases self.shown@.len() - i,
        {
            proof {
                assert(all.take(i + 1).drop_last() =~= all.take(i as int));
                assert(all.take(i + 1).last() == self.shown@[i as int].deep_view());
            }
            let n: usize = self.shown[i].chars();
            if peak < n {
                peak = n;
            }
            i = i + 1;
        }
        proof {
            assert(all.take(i as int) =~= all);
        }
        peak
    }

    /// The largest trace that the emitter was shown, in characters.
    pub fn peak_trace_chars(&self) -> (r: usize)
        ensures
            r == peak_trace(self.deep_view().traces),
    {
        let ghost all = self.traces.deep_view();
        let mut peak: usize = 0;
        let mut i: usize = 0;
        while i < self.traces.len()
            invariant
                i <= self.traces@.len(),
                all == self.traces.deep_view(),
                peak == peak_trace(all.take(i as int)),
            decreases self.traces@.len() - i,
        {
            proof {
                assert(all.take(i + 1).drop_last() =~= all.take(i as int));
                assert(all.take(i + 1).last() == self.traces@[i as int].deep_view());
            }
            let n: usize = size_of_trace(&self.traces[i]);
            if peak < n {
                peak = n;
            }
            i = i + 1;
        }
        proof {
            assert(all.take(i as int) =~= all);
        }
        peak
    }

    /// What every call that came out well reported, in the order of the logs.
    pub fn outcomes(&self) -> (r: Vec<String>)
        ensures
            r.deep_view() == reports(self.deep_view().logs),
    {
        let ghost all = self.logs.deep_view();
        let mut out: Vec<String> = Vec::new();
        let mut i: usize = 0;
        proof {
            assert(out.deep_view() =~= reports(all.take(0)));
        }
        while i < self.logs.len()
            invariant
                i <= self.logs@.len(),
                all == self.logs.deep_view(),
                out.deep_view() == reports(all.take(i as int)),
            decreases self.logs@.len() - i,
        {
            let ghost before = out.deep_view();
            let events: &Vec<Event> = &self.logs[i];
            let ghost log = events.deep_view();
            proof {
                assert(all.take(i + 1).drop_last() =~= all.take(i as int));
                assert(all.take(i + 1).last() == log);
            }
            let mut j: usize = 0;
            proof {
                assert(before + reports_in(log.take(0)) =~= before);
            }
            while j < events.len()
                invariant
                    j <= events@.len(),
                    log == events.deep_view(),
                    out.deep_view() == before + reports_in(log.take(j as int)),
                decreases events@.len() - j,
            {
                let ghost so_far = out.deep_view();
                proof {
                    assert(log.take(j + 1).drop_last() =~= log.take(j as int));
                    assert(log.take(j + 1).last() == events@[j as int].deep_view());
                }
                if let EventKind::ToolReturned { outcome, .. } = &events[j].kind {
                    if let ToolOutcome::Done { output } = outcome {
                        out.push(output.summary.clone());
                        proof {
                            assert(out.deep_view() =~= so_far.push(output.summary@));
                            assert(so_far.push(output.summary@) =~= before + reports_in(log.take(j as int)).push(
                                output.summary@,
                            ));
                        }
                    }
                }
                j = j + 1;
            }
            proof {
                assert(log.take(j as int) =~= log);
            }
            i = i + 1;
        }
        proof {
            assert(all.take(i as int) =~= all);
        }
        out
    }

    /// The numbers of the run.
    pub fn counters(&self) -> (r: Counters)
        ensures
            r == counted(self.deep_view().logs),
    {
        let ghost all = self.logs.deep_view();
        let mut c: Counters = Counters::default();
        let mut i: usize = 0;
        while i < self.logs.len()
            invariant
                i <= self.logs@.len(),
                all == self.logs.deep_view(),
                c == counted(all.take(i as int)),
            decreases self.logs@.len() - i,
        {
            proof {
                assert(all.take(i + 1).drop_last() =~= all.take(i as int));
                assert(all.take(i + 1).last() == self.logs@[i as int].deep_view());
            }
            count_log(&mut c, &self.logs[i]);
            i = i + 1;
        }
        proof {
            assert(all.take(i as int) =~= all);
        }
        c
    }
}

// ---------------------------------------------------------------------------
// One row
// ---------------------------------------------------------------------------

/// One ability, graded, with the numbers of its run.
#[derive(Debug, PartialEq)]
pub struct Ability {
    pub ability: &'static str,
    pub passed: bool,
    pub turns: usize,
    /// Emitter iterations and reply calls together: model requests.
    pub requests: usize,
    /// The reply prompt on the turn that decides the ability.
    pub prompt_chars: usize,
    pub prompt_tokens: u32,
    /// The largest reply prompt of the task.
    pub peak_chars: usize,
    pub tool_calls: usize,
    pub recall_fired: bool,
    pub recall_hits: usize,
    /// Replies that stated something nothing supports.
    pub flags: usize,
    /// Characters that the cap kept out of a prompt, over every call.
    pub clipped_chars: usize,
    /// Looks behind a handle.
    pub inspections: usize,
    /// Blocks that the budget dropped, or would have.
    pub budget_drops: usize,
    /// Rises of the tier inside a turn.
    pub escalations: usize,
    /// Empty on a pass; every condition that failed otherwise.
    pub detail: String,
}

pub struct AbilityV {
    pub ability: Seq<char>,
    pub passed: bool,
    pub turns: usize,
    pub requests: usize,
    pub prompt_chars: usize,
    pub prompt_tokens: u32,
    pub peak_chars: usize,
    pub tool_calls: usize,
    pub recall_fired: bool,
    pub recall_hits: usize,
    pub flags: usize,
    pub clipped_chars: usize,
    pub inspections: usize,
    pub budget_drops: usize,
    pub escalations: usize,
    pub detail: Seq<char>,
}

impl DeepView for Ability {
    type V = AbilityV;

    open spec fn deep_view(&self) -> AbilityV {
        AbilityV {
            ability: self.ability@,
            passed: self.passed,
            turns: self.turns,
            requests: self.requests,
            prompt_chars: self.prompt_chars,
            prompt_tokens: self.prompt_tokens,
            peak_chars: self.peak_chars,
            tool_calls: self.tool_calls,
            recall_fired: self.recall_fired,
            recall_hits: self.recall_hits,
            flags: self.flags,
            clipped_chars: self.clipped_chars,
            inspections: self.inspections,
            budget_drops: self.budget_drops,
            escalations: self.escalations,
            detail: self.detail@,
        }
    }
}

impl Clone for Ability {
    fn clone(&self) -> (r: Self)
        ensures
            r.deep_view() == self.deep_view(),
    {
        Ability {
            ability: self.ability,
            passed: self.passed,
            turns: self.turns,
            requests: self.requests,
            prompt_chars: self.prompt_chars,
            prompt_tokens: self.prompt_tokens,
            peak_chars: self.peak_chars,
            tool_calls: self.tool_calls,
            recall_fired: self.recall_fired,
            recall_hits: self.recall_hits,
            flags: self.flags,
            clipped_chars: self.clipped_chars,
            inspections: self.inspections,
            budget_drops: self.budget_drops,
            escalations: self.escalations,
            detail: self.detail.clone(),
        }
    }
}

/// The row of a run, by the conditions that failed.
pub open spec fn row_of(
    ability: Seq<char>,
    graded: ShownV,
    h: HarnessV,
    prompt_tokens: u32,
    fails: Seq<Seq<char>>,
) -> AbilityV {
    let c = counted(h.logs);
    AbilityV {
        ability,
        passed: fails.len() == 0,
        turns: c.turns,
        requests: up(c.emitter_calls, h.shown.len() as int),
        prompt_chars: up(0, graded.prompt.len() as int),
        prompt_tokens,
        peak_chars: peak_prompt(h.shown),
        tool_calls: c.tool_calls,
        recall_fired: c.recall_calls > 0,
        recall_hits: c.recall_hits,
        flags: c.flags,
        clipped_chars: c.clipped_chars,
        inspections: c.inspections,
        budget_drops: c.budget_drops,
        escalations: c.escalations,
        detail: text::joined(fails, "; "@),
    }
}

impl Ability {
    /// The row of a run. `prompt_tokens` is the estimate for the graded prompt.
    pub fn build(
        ability: &'static str,
        graded: &Shown,
        h: &Harness,
        prompt_tokens: u32,
        fails: &Vec<String>,
    ) -> (r: Self)
        ensures
            r.deep_view() == row_of(ability@, graded.deep_view(), h.deep_view(), prompt_tokens, fails.deep_view()),
    {
        let c: Counters = h.counters();
        Ability {
            ability,
            passed: fails.len() == 0,
            turns: c.turns,
            requests: c.emitter_calls.saturating_add(h.reply_calls()),
            prompt_chars: graded.chars(),
            prompt_tokens,
            peak_chars: h.peak_chars(),
            tool_calls: c.tool_calls,
            recall_fired: c.recall_calls > 0,
            recall_hits: c.recall_hits,
            flags: c.flags,
            clipped_chars: c.clipped_chars,
            inspections: c.inspections,
            budget_drops: c.budget_drops,
            escalations: c.escalations,
            detail: join(fails, "; "),
        }
    }
}

/// What one graded condition leaves: nothing where it holds, the reason
/// otherwise.
pub open spec fn unless(ok: bool, why: Seq<char>) -> Seq<Seq<char>> {
    if ok {
        seq![]
    } else {
        seq![why]
    }
}

/// One graded condition. The reasons are gathered, so that the first condition
/// to fail hides none of the others.
pub fn require(fails: &mut Vec<String>, ok: bool, why: String)
    ensures
        final(fails).deep_view() == old(fails).deep_view() + unless(ok, why@),
{
    let ghost before = fails.deep_view();
    if !ok {
        fails.push(why);
    }
    proof {
        assert(fails.deep_view() =~= before + unless(ok, why@));
    }
}

// ---------------------------------------------------------------------------
// The table
// ---------------------------------------------------------------------------

/// `n` blanks.
pub open spec fn blanks(n: nat) -> Seq<char> {
    Seq::new(n, |i: int| ' ')
}

/// A cell brought to its width: at the left of its column, or at the right.
pub open spec fn padded(s: Seq<char>, width: nat, left: bool) -> Seq<char> {
    if s.len() >= width {
        s
    } else if left {
        s + blanks((width - s.len()) as nat)
    } else {
        blanks((width - s.len()) as nat) + s
    }
}

/// The width of a column.
pub open spec fn column_width(i: nat) -> nat {
    if i == 0 {
        24
    } else if i == 2 || i == 7 || i == 10 || i == 12 || i == 13 {
        5
    } else if i == 4 || i == 8 {
        6
    } else if i == 11 {
        7
    } else {
        4
    }
}

/// The first two columns and the ninth hold words.
pub open spec fn column_left(i: nat) -> bool {
    i == 0 || i == 1 || i == 8
}

/// The cells of a row, each in its column.
pub open spec fn in_columns(cells: Seq<Seq<char>>) -> Seq<Seq<char>> {
    Seq::new(cells.len(), |i: int| padded(cells[i], column_width(i as nat), column_left(i as nat)))
}

pub open spec fn row_text(cells: Seq<Seq<char>>) -> Seq<char> {
    "  "@ + text::joined(in_columns(cells), "  "@) + "\n"@
}

pub open spec fn headings() -> Seq<Seq<char>> {
    seq![
        "ability"@,
        "pass"@,
        "turns"@,
        "reqs"@,
        "prompt"@,
        "~tok"@,
        "peak"@,
        "tools"@,
        "recall"@,
        "hits"@,
        "flags"@,
        "clipped"@,
        "insp"@,
        "drops"@,
        "esc"@,
    ]
}

pub open spec fn rules() -> Seq<Seq<char>> {
    seq![
        "------------------------"@,
        "----"@,
        "-----"@,
        "----"@,
        "------"@,
        "----"@,
        "----"@,
        "-----"@,
        "------"@,
        "----"@,
        "-----"@,
        "-------"@,
        "-----"@,
        "-----"@,
        "----"@,
    ]
}

pub open spec fn cells_of(r: AbilityV) -> Seq<Seq<char>> {
    seq![
        r.ability,
        if r.passed {
            "ok"@
        } else {
            "FAIL"@
        },
        text::decimal(r.turns as nat),
        text::decimal(r.requests as nat),
        text::decimal(r.prompt_chars as nat),
        text::decimal(r.prompt_tokens as nat),
        text::decimal(r.peak_chars as nat),
        text::decimal(r.tool_calls as nat),
        if r.recall_fired {
            "yes"@
        } else {
            "no"@
        },
        text::decimal(r.recall_hits as nat),
        text::decimal(r.flags as nat),
        text::decimal(r.clipped_chars as nat),
        text::decimal(r.inspections as nat),
        text::decimal(r.budget_drops as nat),
        text::decimal(r.escalations as nat),
    ]
}

pub open spec fn rows_text(rows: Seq<AbilityV>) -> Seq<char>
    decreases rows.len(),
{
    if rows.len() == 0 {
        seq![]
    } else {
        rows_text(rows.drop_last()) + row_text(cells_of(rows.last()))
    }
}

pub open spec fn passes(rows: Seq<AbilityV>) -> nat
    decreases rows.len(),
{
    if rows.len() == 0 {
        0
    } else {
        passes(rows.drop_last()) + if rows.last().passed { 1nat } else { 0nat }
    }
}

/// The line that names a failed ability and what failed of it.
pub open spec fn failure_line(r: AbilityV) -> Seq<char> {
    "  "@ + r.ability + " FAILED: "@ + r.detail + "\n"@
}

pub open spec fn failures_text(rows: Seq<AbilityV>) -> Seq<char>
    decreases rows.len(),
{
    if rows.len() == 0 {
        seq![]
    } else if rows.last().passed {
        failures_text(rows.drop_last())
    } else {
        failures_text(rows.drop_last()) + failure_line(rows.last())
    }
}

/// The report: a row for each ability, how many passed, and every condition
/// that failed.
pub open spec fn table_text(rows: Seq<AbilityV>) -> Seq<char> {
    "\nM7 T5.1 — memory and desktop abilities, scripted model\n\n"@ + row_text(headings()) + row_text(rules())
        + rows_text(rows) + ("\n  "@ + text::decimal(passes(rows)) + "/"@ + text::decimal(rows.len())
        + " abilities pass.\n"@) + failures_text(rows)
}

fn pad(s: &str, width: usize, left: bool) -> (r: String)
    ensures
        r@ == padded(s@, width as nat, left),
{
    let n: usize = chars_of(s).len();
    if n >= width {
        return s.to_owned();
    }
    let mut space: String = String::new();
    let mut i: usize = 0;
    while i < width - n
        invariant
            n < width,
            i <= width - n,
            space@ == blanks(i as nat),
        decreases width - n - i,
    {
        space.push(' ');
        i = i + 1;
        proof {
            assert(space@ =~= blanks(i as nat));
        }
    }
    if left {
        let mut out: String = s.to_owned();
        out.append(space.as_str());
        out
    } else {
        space.append(s);
        space
    }
}

fn row_line(cells: &Vec<String>) -> (r: String)
    ensures
        r@ == row_text(cells.deep_view()),
{
    let ghost all = cells.deep_view();
    let mut out: Vec<String> = Vec::new();
    let mut i: usize = 0;
    while i < cells.len()
        invariant
            i <= cells@.len(),
            all == cells.deep_view(),
            out@.len() == i,
            forall|k: int| 0 <= k < i ==> (#[trigger] out@[k])@ == in_columns(all)[k],
        decreases cells@.len() - i,
    {
        let width: usize = if i == 0 {
            24
        } else if i == 2 || i == 7 || i == 10 || i == 12 || i == 13 {
            5
        } else if i == 4 || i == 8 {
            6
        } else if i == 11 {
            7
        } else {
            4
        };
        let left: bool = i == 0 || i == 1 || i == 8;
        out.push(pad(cells[i].as_str(), width, left));
        i = i + 1;
    }
    proof {
        assert(out.deep_view() =~= in_columns(all));
    }
    let line: String = join(&out, "  ");
    crate::text::cat3("  ", line.as_str(), "\n")
}

fn heading_cells() -> (r: Vec<String>)
    ensures
        r.deep_view() == headings(),
{
    let r: Vec<String> = vec![
        "ability".to_owned(),
        "pass".to_owned(),
        "turns".to_owned(),
        "reqs".to_owned(),
        "prompt".to_owned(),
        "~tok".to_owned(),
        "peak".to_owned(),
        "tools".to_owned(),
        "recall".to_owned(),
        "hits".to_owned(),
        "flags".to_owned(),
        "clipped".to_owned(),
        "insp".to_owned(),
        "drops".to_owned(),
        "esc".to_owned(),
    ];
    proof {
        assert(r.deep_view() =~= headings());
    }
    r
}

fn rule_cells() -> (r: Vec<String>)
    ensures
        r.deep_view() == rules(),
{
    let r: Vec<String> = vec![
        "------------------------".to_owned(),
        "----".to_owned(),
        "-----".to_owned(),
        "----".to_owned(),
        "------".to_owned(),
        "----".to_owned(),
        "----".to_owned(),
        "-----".to_owned(),
        "------".to_owned(),
        "----".to_owned(),
        "-----".to_owned(),
        "-------".to_owned(),
        "-----".to_owned(),
        "-----".to_owned(),
        "----".to_owned(),
    ];
    proof {
        assert(r.deep_view() =~= rules());
    }
    r
}

fn ability_cells(r: &Ability) -> (cells: Vec<String>)
    ensures
        cells.deep_view() == cells_of(r.deep_view()),
{
    let passed: &'static str = if r.passed {
        "ok"
    } else {
        "FAIL"
    };
    let fired: &'static str = if r.recall_fired {
        "yes"
    } else {
        "no"
    };
    let cells: Vec<String> = vec![
        r.ability.to_owned(),
        passed.to_owned(),
        number(r.turns as u64),
        number(r.requests as u64),
        number(r.prompt_chars as u64),
        number(r.prompt_tokens as u64),
        number(r.peak_chars as u64),
        number(r.tool_calls as u64),
        fired.to_owned(),
        number(r.recall_hits as u64),
        number(r.flags as u64),
        number(r.clipped_chars as u64),
        number(r.inspections as u64),
        number(r.budget_drops as u64),
        number(r.escalations as u64),
    ];
    proof {
        assert(cells.deep_view() =~= cells_of(r.deep_view()));
    }
    cells
}

/// The report of a set of rows.
pub fn render_table(rows: &Vec<Ability>) -> (r: String)
    ensures
        r@ == table_text(rows.deep_view()),
{
    let ghost all = rows.deep_view();
    let mut lines: String = String::new();
    let mut failed: String = String::new();
    let mut passed: usize = 0;
    let mut i: usize = 0;
    proof {
        assert(lines@ =~= rows_text(all.take(0)));
        assert(failed@ =~= failures_text(all.take(0)));
    }
    while i < rows.len()
        invariant
            i <= rows@.len(),
            all == rows.deep_view(),
            passed <= i,
            lines@ == rows_text(all.take(i as int)),
            failed@ == failures_text(all.take(i as int)),
            passed == passes(all.take(i as int)),
        decreases rows@.len() - i,
    {
        proof {
            assert(all.take(i + 1).drop_last() =~= all.take(i as int));
            assert(all.take(i + 1).last() == rows@[i as int].deep_view());
        }
        let cells: Vec<String> = ability_cells(&rows[i]);
        let line: String = row_line(&cells);
        lines.append(line.as_str());
        if rows[i].passed {
            passed = passed + 1;
        } else {
            let why: String = cat5("  ", rows[i].ability, " FAILED: ", rows[i].detail.as_str(), "\n");
            failed.append(why.as_str());
        }
        i = i + 1;
    }
    proof {
        assert(all.take(i as int) =~= all);
    }
    let head: Vec<String> = heading_cells();
    let rule: Vec<String> = rule_cells();
    let head_line: String = row_line(&head);
    let rule_line: String = row_line(&rule);
    let p: String = number(passed as u64);
    let n: String = number(rows.len() as u64);
    let score: String = cat5("\n  ", p.as_str(), "/", n.as_str(), " abilities pass.\n");
    let mut out: String = "\nM7 T5.1 — memory and desktop abilities, scripted model\n\n".to_owned();
    out.append(head_line.as_str());
    out.append(rule_line.as_str());
    out.append(lines.as_str());
    out.append(score.as_str());
    out.append(failed.as_str());
    out
}

// ---------------------------------------------------------------------------
// Laws
// ---------------------------------------------------------------------------

proof fn lemma_failures_named(rows: Seq<AbilityV>, i: int) -> (at: int)
    requires
        0 <= i < rows.len(),
        !rows[i].passed,
    ensures
        text::occurs_at(failures_text(rows), failure_line(rows[i]), at),
    decreases rows.len(),
{
    let before = failures_text(rows.drop_last());
    let line = failure_line(rows[i]);
    if i == rows.len() - 1 {
        let s = failures_text(rows);
        assert(s =~= before + line);
        assert(s.subrange(before.len() as int, (before.len() + line.len()) as int) =~= line);
        before.len() as int
    } else {
        assert(rows.drop_last()[i] == rows[i]);
        let at = lemma_failures_named(rows.drop_last(), i);
        let s = failures_text(rows);
        assert(s.subrange(at, at + line.len()) =~= before.subrange(at, at + line.len()));
        at
    }
}

/// A run that failed names, for each ability that did, the ability and every
/// condition that failed.
pub proof fn the_report_names_every_failure(rows: Seq<AbilityV>, i: int)
    requires
        0 <= i < rows.len(),
        !rows[i].passed,
    ensures
        text::contains(table_text(rows), failure_line(rows[i])),
{
    let at = lemma_failures_named(rows, i);
    let tail = failures_text(rows);
    let whole = table_text(rows);
    let line = failure_line(rows[i]);
    let from = whole.len() - tail.len();
    assert(whole.subrange(from + at, from + at + line.len()) =~= tail.subrange(at, at + line.len()));
    assert(text::occurs_at(whole, line, from + at));
}

/// The rows all pass exactly where as many pass as there are.
pub proof fn the_score_is_full_where_all_pass(rows: Seq<AbilityV>)
    ensures
        passes(rows) <= rows.len(),
        passes(rows) == rows.len() <==> (forall|i: int| 0 <= i < rows.len() ==> (#[trigger] rows[i]).passed),
    decreases rows.len(),
{
    if rows.len() > 0 {
        let before = rows.drop_last();
        the_score_is_full_where_all_pass(before);
        if passes(rows) == rows.len() {
            assert forall|i: int| 0 <= i < rows.len() implies (#[trigger] rows[i]).passed by {
                if i < before.len() {
                    assert(before[i].passed);
                }
            }
        }
        if forall|i: int| 0 <= i < rows.len() ==> (#[trigger] rows[i]).passed {
            assert forall|i: int| 0 <= i < before.len() implies (#[trigger] before[i]).passed by {
                assert(rows[i].passed);
            }
            assert(rows[rows.len() - 1].passed);
        }
    }
}

/// A row passes exactly where no condition failed.
pub proof fn a_row_passes_without_a_failure(
    ability: Seq<char>,
    graded: ShownV,
    h: HarnessV,
    prompt_tokens: u32,
    before: Seq<Seq<char>>,
    ok: bool,
    why: Seq<char>,
)
    ensures
        row_of(ability, graded, h, prompt_tokens, before + unless(ok, why)).passed == (row_of(
            ability,
            graded,
            h,
            prompt_tokens,
            before,
        ).passed && ok),
        row_of(ability, graded, h, prompt_tokens, seq![]).passed,
{
}

/// One more, while there is room for it.
pub open spec fn one_more(n: usize) -> usize {
    if n < usize::MAX {
        (n + 1) as usize
    } else {
        n
    }
}

/// What an event counts for: a message for a turn, a proposal for a call of the emitter and,
/// where it asks, for a clarification, a call for a tool call and, where it looks into a
/// result, for an inspection, a flag for a flag, and what a search gave for its findings.
pub proof fn what_an_event_counts_for(t: Tally, recalls: Set<u64>, e: EventV)
    ensures
        ({
            let c = t.c;
            let u = tallied(t, recalls, e);
            match e.kind {
                EventKindV::UserSaid { .. } => u == (Tally { c: Counters { turns: one_more(c.turns), ..c }, ..t }),
                EventKindV::Proposed { proposal } => u == (Tally {
                    c: Counters {
                        emitter_calls: one_more(c.emitter_calls),
                        clarifications: if proposal.action == "ask_clarification"@ {
                            one_more(c.clarifications)
                        } else {
                            c.clarifications
                        },
                        ..c
                    },
                    ..t
                }),
                EventKindV::ToolCalled { action, .. } => u == (Tally {
                    c: Counters {
                        tool_calls: one_more(c.tool_calls),
                        inspections: if action == "inspect_result"@ {
                            one_more(c.inspections)
                        } else {
                            c.inspections
                        },
                        ..c
                    },
                    ..t
                }),
                EventKindV::ReplyFlagged { .. } => u == (Tally { c: Counters { flags: one_more(c.flags), ..c }, ..t }),
                EventKindV::ToolReturned { call, outcome: ToolOutcomeV::Done { output } } => {
                    let found = if output.summary == "no matches"@ {
                        0
                    } else {
                        text::times_in(output.summary, "; "@) + 1
                    };
                    &&& !recalls.contains(call.0) ==> u == t
                    &&& recalls.contains(call.0) && c.recall_hits + found <= usize::MAX ==> u == (Tally {
                        c: Counters { recall_hits: (c.recall_hits + found) as usize, ..c },
                        ..t
                    })
                },
                EventKindV::ModelCall { .. } => u.c.turns == c.turns && u.c.tool_calls == c.tool_calls && u.c.emitter_calls
                    == c.emitter_calls && u.c.recall_hits == c.recall_hits && u.c.flags == c.flags,
                _ => u == t,
            }
        }),
{
}

/// What a model call counts for: what it clipped and what its budget dropped; at the chat
/// tier for a chat call; and for an escalation where its tier is above that of the call
/// before it on the same turn.
pub proof fn what_a_model_call_counts_for(t: Tally, turn: u32, m: ManifestV)
    requires
        t.c.clipped_chars + m.clipped_chars <= usize::MAX,
        t.c.budget_drops + drops(m) <= usize::MAX,
    ensures
        ({
            let u = call_tallied(t, turn, m);
            let risen = m.tier is Some && t.tier is Some && (t.tier matches Some(was) && was.0 == turn) && match ({ let was = t.tier->0; was.1 }, m.tier->0) {
                (Tier::Chat, Tier::Task) => true,
                (Tier::Chat, Tier::Deep) => true,
                (Tier::Task, Tier::Deep) => true,
                _ => false,
            };
            &&& u.c.clipped_chars == t.c.clipped_chars + m.clipped_chars
            &&& u.c.budget_drops == t.c.budget_drops + match m.budget {
                Some(list) => list.len(),
                None => 0,
            }
            &&& u.c.chat_calls == if m.tier == Some(Tier::Chat) {
                one_more(t.c.chat_calls)
            } else {
                t.c.chat_calls
            }
            &&& u.c.escalations == if risen {
                one_more(t.c.escalations)
            } else {
                t.c.escalations
            }
            &&& m.tier is None ==> u.tier == t.tier
            &&& m.tier matches Some(tier) ==> u.tier == Some((turn, tier))
        }),
{
}

/// A call counts as a search where it is one by its action.
pub proof fn which_calls_search(events: Seq<EventV>, id: u64)
    ensures
        recall_ids(events).contains(id) <==> exists|i: int|
            0 <= i < events.len() && (#[trigger] events[i]).id.0 == id && (events[i].kind matches EventKindV::ToolCalled {
                action,
                ..
            } && action == "recall"@),
    decreases events.len(),
{
    if events.len() > 0 {
        let past = events.drop_last();
        which_calls_search(past, id);
        if recall_ids(past).contains(id) {
            let i = choose|i: int|
                0 <= i < past.len() && (#[trigger] past[i]).id.0 == id && (past[i].kind matches EventKindV::ToolCalled {
                    action,
                    ..
                } && action == "recall"@);
            assert(events[i] == past[i]);
        }
        assert(events[events.len() - 1] == events.last());
        if exists|i: int|
            0 <= i < events.len() && (#[trigger] events[i]).id.0 == id && (events[i].kind matches EventKindV::ToolCalled {
                action,
                ..
            } && action == "recall"@) {
            let i = choose|i: int|
                0 <= i < events.len() && (#[trigger] events[i]).id.0 == id && (events[i].kind matches EventKindV::ToolCalled {
                    action,
                    ..
                } && action == "recall"@);
            if i < past.len() {
                assert(past[i] == events[i]);
            }
        }
    }
}

/// A row says what was counted over the logs, with a failed condition where it did not pass.
pub proof fn a_row_says_what_was_counted(
    ability: Seq<char>,
    graded: ShownV,
    h: HarnessV,
    prompt_tokens: u32,
    fails: Seq<Seq<char>>,
)
    requires
        graded.prompt.len() <= usize::MAX,
        counted(h.logs).emitter_calls + h.shown.len() <= usize::MAX,
    ensures
        ({
            let r = row_of(ability, graded, h, prompt_tokens, fails);
            let c = counted(h.logs);
            &&& r.ability == ability && r.prompt_tokens == prompt_tokens && r.detail == text::joined(fails, "; "@)
            &&& r.passed <==> fails.len() == 0
            &&& r.turns == c.turns && r.tool_calls == c.tool_calls && r.recall_hits == c.recall_hits && r.flags == c.flags
            &&& r.clipped_chars == c.clipped_chars && r.inspections == c.inspections && r.budget_drops == c.budget_drops
            &&& r.escalations == c.escalations
            &&& r.recall_fired <==> c.recall_calls > 0
            &&& r.requests == c.emitter_calls + h.shown.len()
            &&& r.prompt_chars == graded.prompt.len()
        }),
{
}

/// The largest prompt and the largest trace are those of the run, and none is larger.
pub proof fn peaks_are_the_largest(shown: Seq<ShownV>, traces: Seq<Seq<Seq<char>>>)
    requires
        forall|i: int| 0 <= i < shown.len() ==> (#[trigger] shown[i]).prompt.len() <= usize::MAX,
    ensures
        forall|i: int| 0 <= i < shown.len() ==> (#[trigger] shown[i]).prompt.len() <= peak_prompt(shown),
        shown.len() > 0 ==> exists|i: int| 0 <= i < shown.len() && (#[trigger] shown[i]).prompt.len() == peak_prompt(shown),
        forall|i: int| 0 <= i < traces.len() ==> trace_size(#[trigger] traces[i]) <= peak_trace(traces),
        traces.len() > 0 ==> exists|i: int| 0 <= i < traces.len() && trace_size(#[trigger] traces[i]) == peak_trace(traces),
    decreases shown.len() + traces.len(),
{
    if shown.len() > 0 {
        let past = shown.drop_last();
        assert forall|i: int| 0 <= i < past.len() implies (#[trigger] past[i]).prompt.len() <= usize::MAX by {
            assert(past[i] == shown[i]);
        }
        peaks_are_the_largest(past, traces);
        assert(shown[shown.len() - 1] == shown.last());
        assert forall|i: int| 0 <= i < shown.len() implies (#[trigger] shown[i]).prompt.len() <= peak_prompt(shown) by {
            if i < past.len() {
                assert(past[i] == shown[i]);
            }
        }
        if peak_prompt(shown) != shown.last().prompt.len() {
            let i = choose|i: int| 0 <= i < past.len() && (#[trigger] past[i]).prompt.len() == peak_prompt(past);
            assert(shown[i] == past[i]);
        }
    } else if traces.len() > 0 {
        let past = traces.drop_last();
        peaks_are_the_largest(shown, past);
        assert(traces[traces.len() - 1] == traces.last());
        assert forall|i: int| 0 <= i < traces.len() implies trace_size(#[trigger] traces[i]) <= peak_trace(traces) by {
            if i < past.len() {
                assert(past[i] == traces[i]);
            }
        }
        if peak_trace(traces) != trace_size(traces.last()) {
            let i = choose|i: int| 0 <= i < past.len() && trace_size(#[trigger] past[i]) == peak_trace(past);
            assert(traces[i] == past[i]);
        }
    }
}

/// What was reported are the summaries of the calls that came out well, in order.
pub proof fn what_was_reported(events: Seq<EventV>)
    ensures
        ({
            let well = events.filter(|e: EventV| e.kind matches EventKindV::ToolReturned { outcome, .. } && outcome is Done);
            &&& reports_in(events).len() == well.len()
            &&& forall|i: int|
                0 <= i < well.len() ==> ((#[trigger] well[i]).kind matches EventKindV::ToolReturned {
                    outcome: ToolOutcomeV::Done { output },
                    ..
                } && reports_in(events)[i] == output.summary)
        }),
    decreases events.len(),
{
    reveal(Seq::filter);
    if events.len() > 0 {
        what_was_reported(events.drop_last());
    }
}

/// A condition that holds leaves nothing, and one that fails leaves its reason.
pub proof fn what_a_condition_leaves(why: Seq<char>)
    ensures
        unless(true, why).len() == 0,
        unless(false, why) == seq![why],
{
}

/// A cell fills its column: the text at one side, blanks at the other, and a text that is
/// longer than the column as it is.
pub proof fn a_cell_fills_its_column(s: Seq<char>, width: nat)
    ensures
        ({
            let l = padded(s, width, true);
            let r = padded(s, width, false);
            let n = if s.len() < width { width } else { s.len() };
            &&& l.len() == n && r.len() == n
            &&& l.take(s.len() as int) == s && r.skip(n - s.len()) == s
            &&& forall|i: int| s.len() <= i < n ==> #[trigger] l[i] == ' '
            &&& forall|i: int| 0 <= i < n - s.len() ==> #[trigger] r[i] == ' '
        }),
{
    assert(padded(s, width, true).take(s.len() as int) =~= s);
    let r = padded(s, width, false);
    assert(r.skip(r.len() - s.len()) =~= s);
}

/// What a row shows of an ability, column by column.
pub proof fn what_a_row_shows(r: AbilityV)
    ensures
        ({
            let c = cells_of(r);
            &&& c.len() == headings().len() && c.len() == rules().len()
            &&& c[0] == r.ability
            &&& c[1] == if r.passed { "ok"@ } else { "FAIL"@ }
            &&& c[2] == text::decimal(r.turns as nat) && c[3] == text::decimal(r.requests as nat)
            &&& c[4] == text::decimal(r.prompt_chars as nat) && c[5] == text::decimal(r.prompt_tokens as nat)
            &&& c[6] == text::decimal(r.peak_chars as nat) && c[7] == text::decimal(r.tool_calls as nat)
            &&& c[8] == if r.recall_fired { "yes"@ } else { "no"@ }
            &&& c[9] == text::decimal(r.recall_hits as nat) && c[10] == text::decimal(r.flags as nat)
            &&& c[11] == text::decimal(r.clipped_chars as nat) && c[12] == text::decimal(r.inspections as nat)
            &&& c[13] == text::decimal(r.budget_drops as nat) && c[14] == text::decimal(r.escalations as nat)
        }),
{
}

/// Which number stands under which heading.
pub proof fn what_stands_above_a_column()
    ensures
        ({
            let h = headings();
            &&& h[0] == "ability"@ && h[1] == "pass"@ && h[2] == "turns"@ && h[3] == "reqs"@ && h[4] == "prompt"@
            &&& h[5] == "~tok"@ && h[6] == "peak"@ && h[7] == "tools"@ && h[8] == "recall"@ && h[9] == "hits"@
            &&& h[10] == "flags"@ && h[11] == "clipped"@ && h[12] == "insp"@ && h[13] == "drops"@ && h[14] == "esc"@
        }),
{
}

/// The score is how many rows passed, and only what failed is named behind it.
pub proof fn the_score_counts_what_passed(rows: Seq<AbilityV>)
    ensures
        passes(rows) == rows.filter(|r: AbilityV| r.passed).len(),
        (forall|i: int| 0 <= i < rows.len() ==> (#[trigger] rows[i]).passed) ==> failures_text(rows).len() == 0,
        rows.len() > 0 ==> rows_text(rows) == rows_text(rows.drop_last()) + ("  "@ + text::joined(
            in_columns(cells_of(rows.last())),
            "  "@,
        ) + "\n"@),
    decreases rows.len(),
{
    reveal(Seq::filter);
    if rows.len() > 0 {
        let past = rows.drop_last();
        the_score_counts_what_passed(past);
        if forall|i: int| 0 <= i < rows.len() ==> (#[trigger] rows[i]).passed {
            assert forall|i: int| 0 <= i < past.len() implies (#[trigger] past[i]).passed by {
                assert(rows[i].passed);
            }
            assert(rows[rows.len() - 1].passed);
        }
    }
}

/// Every log is counted for itself: what it adds does not hang on the tier that another log
/// ended at, and its searches are counted once each.
pub proof fn every_log_is_counted_for_itself(logs: Seq<Seq<EventV>>, events: Seq<EventV>)
    ensures
        counted(seq![]) == nothing(),
        ({
            let before = counted(logs);
            let after = counted(logs.push(events));
            let one = all_tallied(Tally { c: before, tier: None }, recall_ids(events), events).c;
            &&& after == (Counters { recall_calls: after.recall_calls, ..one })
            &&& one.recall_calls + recall_ids(events).len() <= usize::MAX ==> after.recall_calls == one.recall_calls
                + recall_ids(events).len()
        }),
        events.len() > 0 ==> forall|t: Tally, ids: Set<u64>| #[trigger]
            all_tallied(t, ids, events) == tallied(all_tallied(t, ids, events.drop_last()), ids, events.last()),
        forall|t: Tally, ids: Set<u64>| #[trigger] all_tallied(t, ids, seq![]) == t,
{
    assert(logs.push(events).drop_last() =~= logs);
}

/// Every column is as wide as the rule under its heading, and words stand at the left in it.
pub proof fn a_column_is_as_wide_as_its_rule(i: int)
    requires
        0 <= i < 15,
    ensures
        column_width(i as nat) == rules()[i].len(),
        column_left(i as nat) <==> headings()[i] == "ability"@ || headings()[i] == "pass"@ || headings()[i] == "recall"@,
        forall|j: int| 0 <= j < rules()[i].len() ==> #[trigger] rules()[i][j] == '-',
{
    reveal_strlit("------------------------");
    reveal_strlit("-------");
    reveal_strlit("------");
    reveal_strlit("-----");
    reveal_strlit("----");
    reveal_strlit("ability");
    reveal_strlit("pass");
    reveal_strlit("turns");
    reveal_strlit("reqs");
    reveal_strlit("prompt");
    reveal_strlit("~tok");
    reveal_strlit("peak");
    reveal_strlit("tools");
    reveal_strlit("recall");
    reveal_strlit("hits");
    reveal_strlit("flags");
    reveal_strlit("clipped");
    reveal_strlit("insp");
    reveal_strlit("drops");
    reveal_strlit("esc");
    let h = headings()[i];
    assert(h.len() == "ability"@.len() && h[0] == 'a' ==> i == 0);
    assert(i == 0 || h != "ability"@) by {
        assert(i != 0 ==> h.len() != 7 || h[0] != 'a');
    }
    assert(i == 1 || h != "pass"@) by {
        assert(i != 1 ==> h.len() != 4 || h[1] != 'a');
    }
    assert(i == 8 || h != "recall"@) by {
        assert(i != 8 ==> h.len() != 6 || h[0] != 'r');
    }
}

} // verus!
