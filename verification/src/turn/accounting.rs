//! Counting what a turn spent, and what of it is still to be stored.

use vstd::prelude::*;

use crate::events;
use crate::events::{Event, EventKind, EventKindV, EventLog, EventV, Manifest, ManifestV, Usage, UsageV};
use crate::text;
use crate::text::{cat2, cat4, number};
use crate::types::Timestamp;

verus! {

/// Why the engine could not run a turn.
#[derive(Debug)]
pub enum EngineError {
    Store { detail: String },
    Channel { detail: String },
    /// The request budget is spent; no call was made.
    RequestCap { spent: u32, cap: u32 },
}

impl EngineError {
    pub open spec fn says(&self) -> Seq<char> {
        match self {
            EngineError::Store { detail } => "store: "@ + detail@,
            EngineError::Channel { detail } => "channel: "@ + detail@,
            EngineError::RequestCap { spent, cap } => "request cap "@ + text::decimal(*cap as nat) + " reached after "@
                + text::decimal(*spent as nat) + " requests"@,
        }
    }

    pub fn message(&self) -> (r: String)
        ensures
            r@ == self.says(),
    {
        match self {
            EngineError::Store { detail } => cat2("store: ", detail.as_str()),
            EngineError::Channel { detail } => cat2("channel: ", detail.as_str()),
            EngineError::RequestCap { spent, cap } => {
                let c: String = number(*cap as u64);
                let s: String = number(*spent as u64);
                let head: String = cat4("request cap ", c.as_str(), " reached after ", s.as_str());
                cat2(head.as_str(), " requests")
            },
        }
    }
}

/// Room for `n` more events: their numbers fit, and so does their count.
pub open spec fn room(events: Seq<EventV>, n: int) -> bool {
    events.len() + n <= u32::MAX && events::next_id(events) + n <= u64::MAX
}

/// Whether a log has room for `n` more events.
pub fn has_room(log: &EventLog, n: u32) -> (r: bool)
    ensures
        r == room(log.deep_view().events, n as int),
{
    let len: usize = log.events.len();
    let last: u64 = if len == 0 { 0 } else { log.events[len - 1].id.0 };
    proof {
        if len > 0 {
            assert(log.deep_view().events.last() == log.events@[len - 1].deep_view());
        }
    }
    if len > u32::MAX as usize || n > u32::MAX - len as u32 {
        return false;
    }
    last < u64::MAX && n as u64 <= u64::MAX - last - 1
}

/// Whether the proposal that the turn decided on last was run: of the turn's own
/// events, read backwards, a result says yes and a refusal says no.
pub open spec fn last_ran(events: Seq<EventV>, turn: u32) -> bool
    decreases events.len(),
{
    if events.len() == 0 || events.last().turn != turn {
        false
    } else {
        match events.last().kind {
            EventKindV::ToolReturned { .. } => true,
            EventKindV::Rejected { .. } => false,
            _ => last_ran(events.drop_last(), turn),
        }
    }
}

pub fn last_proposal_ran(events: &Vec<Event>, turn: u32) -> (r: bool)
    ensures
        r == last_ran(events.deep_view(), turn),
{
    let ghost all = events.deep_view();
    let mut i: usize = events.len();
    proof {
        assert(all.take(i as int) =~= all);
    }
    while i > 0
        invariant
            i <= events@.len(),
            all == events.deep_view(),
            last_ran(all, turn) == last_ran(all.take(i as int), turn),
        decreases i,
    {
        proof {
            assert(all.take(i as int).drop_last() =~= all.take(i - 1));
            assert(all.take(i as int).last() == events@[i - 1].deep_view());
        }
        let e: &Event = &events[i - 1];
        if e.turn != turn {
            return false;
        }
        match &e.kind {
            EventKind::ToolReturned { .. } => return true,
            EventKind::Rejected { .. } => return false,
            _ => {},
        }
        i = i - 1;
    }
    false
}

/// A call to a model: what it cost, and when that was booked.
#[derive(Debug)]
pub struct BookedCall {
    pub usage: Usage,
    pub at: Timestamp,
}

pub struct BookedCallV {
    pub usage: UsageV,
    pub at: Timestamp,
}

impl DeepView for BookedCall {
    type V = BookedCallV;

    open spec fn deep_view(&self) -> BookedCallV {
        BookedCallV {
            usage: self.usage.deep_view(),
            at: self.at,
        }
    }
}

impl Clone for BookedCall {
    fn clone(&self) -> (r: Self)
        ensures
            r.deep_view() == self.deep_view(),
    {
        let r: BookedCall = BookedCall {
            usage: self.usage.clone(),
            at: self.at,
        };
        r
    }
}

/// The log with one event for every call, each with the manifest of what the
/// model was shown.
pub open spec fn booked(events: Seq<EventV>, turn: u32, calls: Seq<BookedCallV>, manifest: ManifestV) -> Seq<EventV>
    decreases calls.len(),
{
    if calls.len() == 0 {
        events
    } else {
        events::appended(
            booked(events, turn, calls.drop_last(), manifest),
            turn,
            calls.last().at,
            EventKindV::ModelCall { usage: calls.last().usage, manifest },
        )
    }
}

/// How many requests are spent after `n` more; the counter wraps.
pub open spec fn spent_after(spent: u32, n: nat) -> u32 {
    ((spent + n) % 0x1_0000_0000) as u32
}

proof fn lemma_room(events: Seq<EventV>, turn: u32, at: Timestamp, kind: EventKindV, n: int)
    requires
        room(events, n),
        n >= 1,
    ensures
        room(events::appended(events, turn, at, kind), n - 1),
{
}

/// Record what the calls cost; how many requests are spent with them.
pub fn record_model_calls(log: &mut EventLog, turn: u32, calls: &Vec<BookedCall>, manifest: &Manifest, spent: u32) -> (r:
    u32)
    requires
        room(old(log).deep_view().events, calls@.len() as int),
    ensures
        final(log).deep_view().session == old(log).deep_view().session,
        final(log).deep_view().events == booked(old(log).deep_view().events, turn, calls.deep_view(), manifest.deep_view()),
        r == spent_after(spent, calls@.len()),
{
    let ghost before = log.deep_view().events;
    let ghost all = calls.deep_view();
    let mut i: usize = 0;
    let mut total: u32 = spent;
    proof {
        assert(all.take(0) =~= seq![]);
    }
    while i < calls.len()
        invariant
            i <= calls@.len(),
            all == calls.deep_view(),
            calls@.len() <= u32::MAX,
            log.deep_view().session == old(log).deep_view().session,
            log.deep_view().events == booked(before, turn, all.take(i as int), manifest.deep_view()),
            room(log.deep_view().events, calls@.len() - i),
            total == spent_after(spent, i as nat),
        decreases calls@.len() - i,
    {
        proof {
            assert(all.take(i + 1).drop_last() =~= all.take(i as int));
            assert(all.take(i + 1).last() == calls@[i as int].deep_view());
        }
        let call: BookedCall = calls[i].clone();
        let kind: EventKind = EventKind::ModelCall { usage: call.usage, manifest: manifest.clone() };
        proof {
            lemma_room(log.deep_view().events, turn, call.at, kind.deep_view(), calls@.len() - i);
        }
        log.append(turn, call.at, kind);
        total = total.wrapping_add(1);
        i = i + 1;
    }
    proof {
        assert(all.take(all.len() as int) =~= all);
    }
    total
}

/// Whether another turn may start.
pub fn cap_reached(max_requests: Option<u32>, spent: u32) -> (r: Result<(), EngineError>)
    ensures
        r == (match max_requests {
            Some(cap) => if spent >= cap {
                Err::<(), EngineError>(EngineError::RequestCap { spent, cap })
            } else {
                Ok(())
            },
            None => Ok(()),
        }),
{
    match max_requests {
        Some(cap) => if spent >= cap {
            Err(EngineError::RequestCap { spent, cap })
        } else {
            Ok(())
        },
        None => Ok(()),
    }
}

/// The events that a turn added to what was loaded.
pub fn unsaved(log: &EventLog, loaded: usize) -> (r: Vec<Event>)
    requires
        loaded <= log.events@.len(),
    ensures
        r.deep_view() == log.deep_view().events.skip(loaded as int),
{
    let ghost all = log.deep_view().events;
    let mut out: Vec<Event> = Vec::new();
    let mut i: usize = loaded;
    proof {
        assert(out.deep_view() =~= all.subrange(loaded as int, loaded as int));
    }
    while i < log.events.len()
        invariant
            loaded <= i <= log.events@.len(),
            all == log.events.deep_view(),
            out.deep_view() == all.subrange(loaded as int, i as int),
        decreases log.events@.len() - i,
    {
        let ghost before = out.deep_view();
        let one: Event = log.events[i].clone();
        out.push(one);
        proof {
            assert(out.deep_view() =~= before.push(one.deep_view()));
            assert(all.subrange(loaded as int, i + 1) =~= all.subrange(loaded as int, i as int).push(all[i as int]));
        }
        i = i + 1;
    }
    proof {
        assert(all.subrange(loaded as int, all.len() as int) =~= all.skip(loaded as int));
    }
    out
}

/// Booking calls adds exactly one event each and keeps what was there.
pub proof fn every_call_is_booked_once(events: Seq<EventV>, turn: u32, calls: Seq<BookedCallV>, manifest: ManifestV)
    ensures
        booked(events, turn, calls, manifest).len() == events.len() + calls.len(),
        events.is_prefix_of(booked(events, turn, calls, manifest)),
        forall|i: int|
            0 <= i < calls.len() ==> (#[trigger] booked(events, turn, calls, manifest)[events.len() + i]).kind
                == (EventKindV::ModelCall { usage: calls[i].usage, manifest }),
    decreases calls.len(),
{
    if calls.len() > 0 {
        every_call_is_booked_once(events, turn, calls.drop_last(), manifest);
        let rest = booked(events, turn, calls.drop_last(), manifest);
        let all = booked(events, turn, calls, manifest);
        assert forall|i: int| 0 <= i < calls.len() implies (#[trigger] all[events.len() + i]).kind
            == (EventKindV::ModelCall { usage: calls[i].usage, manifest }) by {
            if i < calls.len() - 1 {
                assert(all[events.len() + i] == rest[events.len() + i]);
                assert(calls.drop_last()[i] == calls[i]);
            }
        }
    }
}

/// A call is booked on the turn that made it, at the time it was booked, with what it used
/// and what the model was shown; the numbers go on without a gap.
pub proof fn a_call_is_booked_when_it_was_made(
    events: Seq<EventV>,
    turn: u32,
    calls: Seq<BookedCallV>,
    manifest: ManifestV,
    i: int,
)
    requires
        0 <= i < calls.len(),
        events::next_id(events) + calls.len() <= u64::MAX,
    ensures
        ({
            let e = booked(events, turn, calls, manifest)[events.len() + i];
            e.turn == turn && e.at == calls[i].at && e.kind == (EventKindV::ModelCall { usage: calls[i].usage, manifest })
                && e.id.0 == events::next_id(events) + i
        }),
{
    lemma_booked(events, turn, calls, manifest);
}

proof fn lemma_booked(events: Seq<EventV>, turn: u32, calls: Seq<BookedCallV>, manifest: ManifestV)
    requires
        events::next_id(events) + calls.len() <= u64::MAX,
    ensures
        booked(events, turn, calls, manifest).len() == events.len() + calls.len(),
        events::next_id(booked(events, turn, calls, manifest)) == events::next_id(events) + calls.len(),
        forall|i: int|
            0 <= i < calls.len() ==> #[trigger] booked(events, turn, calls, manifest)[events.len() + i] == (EventV {
                id: crate::types::EventId((events::next_id(events) + i) as u64),
                turn,
                at: calls[i].at,
                kind: EventKindV::ModelCall { usage: calls[i].usage, manifest },
            }),
    decreases calls.len(),
{
    if calls.len() > 0 {
        let less = calls.drop_last();
        lemma_booked(events, turn, less, manifest);
        let rest = booked(events, turn, less, manifest);
        let all = booked(events, turn, calls, manifest);
        assert forall|i: int| 0 <= i < calls.len() implies #[trigger] all[events.len() + i] == (EventV {
            id: crate::types::EventId((events::next_id(events) + i) as u64),
            turn,
            at: calls[i].at,
            kind: EventKindV::ModelCall { usage: calls[i].usage, manifest },
        }) by {
            if i < less.len() {
                assert(all[events.len() + i] == rest[events.len() + i]);
                assert(less[i] == calls[i]);
            }
        }
    }
}

/// The last decision of a turn ran exactly where, of the results and refusals that stand
/// last on the turn, the last is a result.
pub proof fn the_last_decision_ran_where_a_result_came_last(events: Seq<EventV>, turn: u32, k: int)
    requires
        0 <= k <= events.len(),
        forall|i: int|
            k <= i < events.len() ==> (#[trigger] events[i]).turn == turn && !(events[i].kind is ToolReturned)
                && !(events[i].kind is Rejected),
    ensures
        k == 0 || events[k - 1].turn != turn ==> !last_ran(events, turn),
        k > 0 && events[k - 1].turn == turn && events[k - 1].kind is ToolReturned ==> last_ran(events, turn),
        k > 0 && events[k - 1].turn == turn && events[k - 1].kind is Rejected ==> !last_ran(events, turn),
    decreases events.len(),
{
    if k < events.len() {
        assert(events[events.len() - 1].turn == turn);
        assert(!(events[events.len() - 1].kind is ToolReturned));
        let past = events.drop_last();
        assert forall|i: int| k <= i < past.len() implies (#[trigger] past[i]).turn == turn && !(past[i].kind is ToolReturned)
            && !(past[i].kind is Rejected) by {
            assert(events[i] == past[i]);
        }
        the_last_decision_ran_where_a_result_came_last(past, turn, k);
    }
}

/// Requests are counted one for a call, as far as the counter goes.
pub proof fn requests_are_counted(spent: u32, n: nat, m: nat)
    ensures
        spent_after(spent, 0) == spent,
        spent + n <= u32::MAX ==> spent_after(spent, n) == spent + n,
        spent + n + m <= u32::MAX ==> spent_after(spent_after(spent, n), m) == spent_after(spent, n + m),
{
}

/// There is room for more events where both their count and their numbers go on.
pub proof fn when_there_is_room(events: Seq<EventV>, n: nat)
    ensures
        events.len() == 0 ==> (room(events, n as int) <==> n <= u32::MAX),
        events.len() > 0 ==> (room(events, n as int) <==> events.len() + n <= u32::MAX && events.last().id.0 + 1 + n
            <= u64::MAX),
{
}

/// An engine that stops says what stopped it.
pub proof fn an_engine_says_what_stopped_it(detail: String, spent: u32, cap: u32)
    ensures
        (EngineError::Store { detail }).says() == "store: "@ + detail@,
        (EngineError::Channel { detail }).says() == "channel: "@ + detail@,
        (EngineError::RequestCap { spent, cap }).says() == "request cap "@ + text::decimal(cap as nat) + " reached after "@
            + text::decimal(spent as nat) + " requests"@,
{
}

} // verus!
