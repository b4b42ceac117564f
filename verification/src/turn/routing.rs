//! What kind of turn this is, decided once and before any model call.

use vstd::prelude::*;

use crate::events::{Event, EventKind, EventV};
use crate::router::{Route, RouteInput, RouteInputV, RouteV, Router};
use crate::state;
use crate::state::{fold, SessionState, SessionStateV};
use crate::types::Tier;

verus! {

/// Whether the turn before this one called a tool.
pub open spec fn tools_used_before(events: Seq<EventV>, turn: u32) -> bool {
    exists|i: int|
        0 <= i < events.len() && (#[trigger] events[i]).turn + 1 == turn && events[i].kind is ToolCalled
}

fn used_tools_before(events: &Vec<Event>, turn: u32) -> (r: bool)
    ensures
        r == tools_used_before(events.deep_view(), turn),
{
    let ghost all = events.deep_view();
    if turn == 0 {
        return false;
    }
    let mut i: usize = 0;
    while i < events.len()
        invariant
            i <= events@.len(),
            turn > 0,
            all == events.deep_view(),
            forall|k: int| 0 <= k < i ==> !((#[trigger] all[k]).turn + 1 == turn && all[k].kind is ToolCalled),
        decreases events@.len() - i,
    {
        assert(all[i as int] == events@[i as int].deep_view());
        let called: bool = match &events[i].kind {
            EventKind::ToolCalled { .. } => true,
            _ => false,
        };
        if called && events[i].turn == turn - 1 {
            return true;
        }
        i = i + 1;
    }
    false
}

/// Whether what was staged can still be confirmed on a turn that follows: on
/// the very next one only.
pub open spec fn waits(s: SessionStateV, turn: u32) -> bool {
    s.pending_confirmation is Some && (match s.pending_turn {
        Some(pt) => pt + 1 == turn,
        None => false,
    })
}

fn is_waiting(s: &SessionState, turn: u32) -> (r: bool)
    ensures
        r == waits(s.deep_view(), turn),
{
    match (s.pending_confirmation, s.pending_turn) {
        (Some(_), Some(pt)) => turn > 0 && pt == turn - 1,
        _ => false,
    }
}

/// What the router is told of a turn.
pub open spec fn routing_input(user_text: Seq<char>, events: Seq<EventV>, turn: u32, tools: Seq<Seq<char>>) -> RouteInputV {
    RouteInputV {
        user_text,
        pending_confirmation: waits(state::folded(events), turn),
        previous_turn_used_tools: tools_used_before(events, turn),
        tool_names: tools,
    }
}

/// The route of a turn where no router is installed: an ordinary turn with every
/// tool.
pub open spec fn unrouted() -> RouteV {
    RouteV { tier: Tier::Task, cues: seq![], tools: None }
}

/// Route a turn.
pub fn route_turn<R: Router>(
    router: Option<&R>,
    user_text: &str,
    events: &Vec<Event>,
    turn: u32,
    tool_names: &Vec<String>,
) -> (r: Route)
    requires
        events@.len() <= u32::MAX,
    ensures
        r.deep_view() == (match router {
            Some(k) => k.routes(
                routing_input(user_text@, events.deep_view(), turn, tool_names.deep_view()),
            ),
            None => unrouted(),
        }),
{
    match router {
        Some(k) => {
            let s: SessionState = fold(events);
            let input: RouteInput = RouteInput {
                user_text,
                pending_confirmation: is_waiting(&s, turn),
                previous_turn_used_tools: used_tools_before(events, turn),
                tool_names,
            };
            k.route(&input)
        },
        None => {
            let r: Route = Route { tier: Tier::Task, cues: Vec::new(), tools: None };
            proof {
                assert(r.cues.deep_view() =~= seq![]);
            }
            r
        },
    }
}

/// A turn that nothing routes is a task with every tool.
pub proof fn what_nothing_routes_is_a_task()
    ensures
        unrouted().tier == Tier::Task && unrouted().tools is None && unrouted().cues.len() == 0,
{
}

} // verus!
