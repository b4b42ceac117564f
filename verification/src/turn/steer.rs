//! Steering a turn: after everything that comes from outside, what the turn needs
//! next.
//!
//! A turn asks for a proposal, looks at what came, and runs it or refuses it,
//! until something settles it. What the models, the tools and the store do is
//! outside; every decision between two of those is taken here.

use vstd::prelude::*;

use crate::contexts::{ReplyContext, ReplyContextV};
use crate::events::{
    ActionSpec, ActionSpecV, EventKindV, EventV, Manifest, ManifestV, Proposal, ProposalV, RejectReason, RejectReasonV,
    ReplyPolicy, ReplyPolicyV, StagedEffect, ToolOutcome, ToolOutcomeV, ToolOutput,
};
use crate::events;
use crate::facts::{Fact, FactV};
use crate::json;
use crate::state;
use crate::state::{SessionState, SessionStateV};
use crate::text::{cat2, same};
use crate::turn::accounting;
use crate::turn::accounting::{has_room, record_model_calls, BookedCall, BookedCallV};
use crate::turn::builtins;
use crate::turn::builtins::{run_builtin, Builtin, FactWrite, FactWriteV, Forgetting, ForgettingV, Lookup, LookupV};
use crate::turn::config::{EngineConfig, EngineConfigV};
use crate::turn::gate::{Objection, ObjectionV};
use crate::turn::legal;
use crate::turn::legal::{is_offered, legal_actions, Offer, OfferV};
use crate::turn::progress;
use crate::turn::progress::{Ctx, CtxV, Turn, TurnV};
use crate::turn::reply;
use crate::turn::reply::{echo_of, final_reply, redraft, Redraft, RedraftV};
use crate::turn::run;
use crate::turn::run::{offers_answer, still_pending, taken, Admission, AdmissionV, EmitFailure, EmitFailureV};
use crate::turn::specs::{CONFIRM_PENDING, RESPOND_DIRECTLY};
use crate::turn::tools;
use crate::turn::tools::{ToolFailure, ToolStep, ToolStepV};
use crate::types::{EventId, SideEffect, Tagged, TaggedV, Timestamp};

verus! {

// ---------------------------------------------------------------------------
// What a turn needs
// ---------------------------------------------------------------------------

/// What a turn needs from outside before it can go on.
#[derive(Debug)]
#[allow(inconsistent_fields)]
pub enum Need {
    Proposal { state: SessionState, actions: Vec<ActionSpec>, pending: Option<EventId> },
    Repair { cx: Ctx },
    Arguments { cx: Ctx },
    Write { write: FactWrite },
    Search { lookup: Lookup },
    Forget { it: Forgetting },
    Purge { call: EventId },
    DryRun { cx: Ctx, prompt: String },
    Call { cx: Ctx, call: EventId },
    Nothing { policy: ReplyPolicy },
}

#[allow(inconsistent_fields)]
pub enum NeedV {
    Proposal { state: SessionStateV, actions: Seq<ActionSpecV>, pending: Option<EventId> },
    Repair { cx: CtxV },
    Arguments { cx: CtxV },
    Write { write: FactWriteV },
    Search { lookup: LookupV },
    Forget { it: ForgettingV },
    Purge { call: EventId },
    DryRun { cx: CtxV, prompt: Seq<char> },
    Call { cx: CtxV, call: EventId },
    Nothing { policy: ReplyPolicyV },
}

impl DeepView for Need {
    type V = NeedV;

    open spec fn deep_view(&self) -> NeedV {
        match self {
            Need::Proposal { state, actions, pending } => NeedV::Proposal { state: state.deep_view(), actions: actions.deep_view(), pending: *pending },
            Need::Repair { cx } => NeedV::Repair { cx: cx.deep_view() },
            Need::Arguments { cx } => NeedV::Arguments { cx: cx.deep_view() },
            Need::Write { write } => NeedV::Write { write: write.deep_view() },
            Need::Search { lookup } => NeedV::Search { lookup: lookup.deep_view() },
            Need::Forget { it } => NeedV::Forget { it: it.deep_view() },
            Need::Purge { call } => NeedV::Purge { call: *call },
            Need::DryRun { cx, prompt } => NeedV::DryRun { cx: cx.deep_view(), prompt: prompt.deep_view() },
            Need::Call { cx, call } => NeedV::Call { cx: cx.deep_view(), call: *call },
            Need::Nothing { policy } => NeedV::Nothing { policy: policy.deep_view() },
        }
    }
}

impl Clone for Need {
    fn clone(&self) -> (r: Self)
        ensures
            r.deep_view() == self.deep_view(),
    {
        match self {
            Need::Proposal { state, actions, pending } => {
                let actions_copy: Vec<ActionSpec> = actions.clone();
                proof {
                    assert(actions_copy.deep_view() =~= actions.deep_view());
                }
                Need::Proposal { state: state.clone(), actions: actions_copy, pending: *pending }
            },
            Need::Repair { cx } => Need::Repair { cx: cx.clone() },
            Need::Arguments { cx } => Need::Arguments { cx: cx.clone() },
            Need::Write { write } => Need::Write { write: write.clone() },
            Need::Search { lookup } => Need::Search { lookup: lookup.clone() },
            Need::Forget { it } => Need::Forget { it: it.clone() },
            Need::Purge { call } => Need::Purge { call: *call },
            Need::DryRun { cx, prompt } => Need::DryRun { cx: cx.clone(), prompt: prompt.clone() },
            Need::Call { cx, call } => Need::Call { cx: cx.clone(), call: *call },
            Need::Nothing { policy } => Need::Nothing { policy: policy.clone() },
        }
    }
}

/// What surrounds a turn and does not change while it runs.
#[derive(Debug)]
pub struct Around<'a> {
    pub cfg: &'a EngineConfig,
    /// The registered tools.
    pub tools: &'a Vec<ActionSpec>,
    /// Whether there is anything out of sight to recall.
    pub recall_applies: bool,
    /// Whether there is any fact to forget.
    pub scope_holds_facts: bool,
}

pub struct AroundV {
    pub cfg: EngineConfigV,
    pub tools: Seq<ActionSpecV>,
    pub recall_applies: bool,
    pub scope_holds_facts: bool,
}

impl<'a> DeepView for Around<'a> {
    type V = AroundV;

    open spec fn deep_view(&self) -> AroundV {
        AroundV {
            cfg: self.cfg.deep_view(),
            tools: self.tools.deep_view(),
            recall_applies: self.recall_applies,
            scope_holds_facts: self.scope_holds_facts,
        }
    }
}

impl AroundV {
    /// No tool takes the name under which an action is confirmed.
    pub open spec fn wf(self) -> bool {
        !legal::offers(self.tools, CONFIRM_PENDING@)
    }
}

impl<'a> Around<'a> {
    /// Whether no tool takes the name under which an action is confirmed.
    pub fn is_wf(&self) -> (r: bool)
        ensures
            r == self.deep_view().wf(),
    {
        !is_offered(self.tools, CONFIRM_PENDING)
    }
}

/// What is known of a proposal once its arguments were looked at.
#[derive(Debug)]
pub struct Arguments {
    /// Where each comes from and how far it is trusted.
    pub args: Tagged,
    /// What the tool's schema has against them.
    pub invalid: Option<String>,
    /// What the harness's own guards answered.
    pub plugins: Vec<Objection>,
    /// The facts of the scope, where the action is about one.
    pub current: Vec<Fact>,
    /// The key of each of them without its separators.
    pub squashed: Vec<String>,
    /// The key that the proposal names, without its separators.
    pub squashed_key: String,
}

pub struct ArgumentsV {
    pub args: TaggedV,
    pub invalid: Option<Seq<char>>,
    pub plugins: Seq<ObjectionV>,
    pub current: Seq<FactV>,
    pub squashed: Seq<Seq<char>>,
    pub squashed_key: Seq<char>,
}

impl DeepView for Arguments {
    type V = ArgumentsV;

    open spec fn deep_view(&self) -> ArgumentsV {
        ArgumentsV {
            args: self.args.deep_view(),
            invalid: self.invalid.deep_view(),
            plugins: self.plugins.deep_view(),
            current: self.current.deep_view(),
            squashed: self.squashed.deep_view(),
            squashed_key: self.squashed_key.deep_view(),
        }
    }
}

impl ArgumentsV {
    /// There is a spelling for each fact, and no fact begins at the end of time.
    pub open spec fn wf(self) -> bool {
        &&& self.current.len() == self.squashed.len()
        &&& forall|i: int| 0 <= i < self.current.len() ==> (#[trigger] self.current[i]).valid_from.0 < u64::MAX
    }
}

impl Arguments {
    /// Whether there is a spelling for each fact, and none begins at the end of
    /// time.
    pub fn is_wf(&self) -> (r: bool)
        ensures
            r == self.deep_view().wf(),
    {
        if self.current.len() != self.squashed.len() {
            return false;
        }
        let ghost all = self.current.deep_view();
        let mut i: usize = 0;
        while i < self.current.len()
            invariant
                i <= self.current@.len(),
                all == self.current.deep_view(),
                forall|k: int| 0 <= k < i ==> (#[trigger] all[k]).valid_from.0 < u64::MAX,
            decreases self.current@.len() - i,
        {
            assert(all[i as int] == self.current@[i as int].deep_view());
            if self.current[i].valid_from.0 == u64::MAX {
                return false;
            }
            i = i + 1;
        }
        true
    }
}

// ---------------------------------------------------------------------------
// Room
// ---------------------------------------------------------------------------

/// Events that one step may add, model calls apart.
pub const STEP_ROOM: u32 = 8;

/// A turn that one more step fits into, with `calls` model calls.
pub open spec fn fits(t: TurnV, calls: int) -> bool {
    &&& accounting::room(t.log, STEP_ROOM + calls)
    &&& t.emit_failures < u32::MAX
    &&& t.book.forget_misses < u32::MAX
}

/// The log grew by at most `n` events.
pub open spec fn grown(before: Seq<EventV>, after: Seq<EventV>, n: int) -> bool {
    after.len() <= before.len() + n && events::next_id(after) <= events::next_id(before) + n
}

proof fn lemma_grown(before: Seq<EventV>, after: Seq<EventV>, n: int, k: int)
    requires
        grown(before, after, n),
        accounting::room(before, k),
        n <= k,
    ensures
        accounting::room(after, k - n),
{
}

proof fn lemma_booked(log: Seq<EventV>, turn: u32, calls: Seq<BookedCallV>, manifest: ManifestV)
    requires
        accounting::room(log, calls.len() as int),
    ensures
        grown(log, accounting::booked(log, turn, calls, manifest), calls.len() as int),
    decreases calls.len(),
{
    if calls.len() > 0 {
        lemma_booked(log, turn, calls.drop_last(), manifest);
        lemma_grown(
            log,
            accounting::booked(log, turn, calls.drop_last(), manifest),
            calls.len() - 1,
            calls.len() as int,
        );
    }
}

impl Turn {
    /// Whether one more step fits, with `calls` model calls.
    pub fn has_step(&self, calls: u32) -> (r: bool)
        ensures
            r == fits(self.deep_view(), calls as int),
    {
        if calls > u32::MAX - STEP_ROOM {
            return false;
        }
        has_room(&self.log, STEP_ROOM + calls) && self.emit_failures < u32::MAX && self.book.forget_misses < u32::MAX
    }
}

// ---------------------------------------------------------------------------
// The head of the loop
// ---------------------------------------------------------------------------

/// What can be staged away now.
pub open spec fn pending_now(t: TurnV) -> Option<EventId> {
    run::active_pending(state::folded(t.log), t.turn)
}

/// What the offer is made from.
pub open spec fn offer_now(t: TurnV, w: AroundV) -> OfferV {
    OfferV {
        book: t.book,
        events: t.log,
        turn: t.turn,
        tier: t.tier,
        selected_tools: t.selected,
        recall_applies: w.recall_applies,
        scope_holds_facts: w.scope_holds_facts,
        active_pending: pending_now(t) is Some,
    }
}

/// The actions on offer now.
pub open spec fn actions_now(t: TurnV, w: AroundV) -> Seq<ActionSpecV> {
    legal::on_offer(offer_now(t, w), w.cfg, w.tools)
}

/// The end of the loop: the turn is settled, one way or another.
pub open spec fn ends(t: TurnV, cfg: EngineConfigV, at: Timestamp) -> (TurnV, NeedV) {
    let u = run::concluded(t, cfg, at);
    (u, NeedV::Nothing { policy: u.settled->0 })
}

/// The loop once more: a further proposal, unless the turn is settled or has no
/// iteration left.
pub open spec fn goes_round(t: TurnV, w: AroundV, at: Timestamp) -> (TurnV, NeedV) {
    if t.settled is None && t.iterations < w.cfg.max_iterations {
        let u = run::begun(t, at);
        if u.settled is Some {
            ends(u, w.cfg, at)
        } else {
            (
                u,
                NeedV::Proposal { state: state::folded(u.log), actions: actions_now(u, w), pending: pending_now(u) },
            )
        }
    } else {
        ends(t, w.cfg, at)
    }
}

impl Turn {
    fn offer(&self, w: &Around, pending: Option<EventId>) -> (r: Vec<ActionSpec>)
        requires
            pending == pending_now(self.deep_view()),
        ensures
            r.deep_view() == actions_now(self.deep_view(), w.deep_view()),
    {
        let o: Offer = Offer {
            book: &self.book,
            events: &self.log.events,
            turn: self.turn,
            tier: self.tier,
            selected_tools: match &self.selected {
                Some(names) => Some(names),
                None => None,
            },
            recall_applies: w.recall_applies,
            scope_holds_facts: w.scope_holds_facts,
            active_pending: pending.is_some(),
        };
        proof {
            assert(o.deep_view().selected_tools == self.deep_view().selected);
        }
        legal_actions(&o, w.cfg, w.tools)
    }

    /// End the loop.
    pub fn end(&mut self, cfg: &EngineConfig, at: Timestamp) -> (need: Need)
        requires
            accounting::room(old(self).deep_view().log, 1),
        ensures
            (final(self).deep_view(), need.deep_view()) == ends(old(self).deep_view(), cfg.deep_view(), at),
    {
        let policy: ReplyPolicy = self.conclude(cfg, at);
        Need::Nothing { policy }
    }

    /// Go round the loop.
    pub fn go_round(&mut self, w: &Around, at: Timestamp) -> (need: Need)
        requires
            accounting::room(old(self).deep_view().log, 2),
        ensures
            (final(self).deep_view(), need.deep_view()) == goes_round(old(self).deep_view(), w.deep_view(), at),
    {
        if !self.goes_on(w.cfg) {
            return self.end(w.cfg, at);
        }
        let ghost before = self.deep_view();
        self.begin(at);
        proof {
            assert(grown(before.log, self.deep_view().log, 1));
            lemma_grown(before.log, self.deep_view().log, 1, 2);
        }
        if self.settled.is_some() {
            return self.end(w.cfg, at);
        }
        let state: SessionState = self.project();
        let pending: Option<EventId> = still_pending(&state, self.turn);
        let actions: Vec<ActionSpec> = self.offer(w, pending);
        Need::Proposal { state, actions, pending }
    }
}

// ---------------------------------------------------------------------------
// What came of asking for a proposal
// ---------------------------------------------------------------------------

/// The turn with the model calls booked that were made for it.
pub open spec fn with_calls(t: TurnV, calls: Seq<BookedCallV>, manifest: ManifestV) -> TurnV {
    TurnV { log: accounting::booked(t.log, t.turn, calls, manifest), ..t }
}

/// No proposal came.
pub open spec fn unproposed(
    t: TurnV,
    w: AroundV,
    failure: EmitFailureV,
    said: Seq<char>,
    retryable: bool,
    at: Timestamp,
) -> (TurnV, NeedV) {
    let u = run::emit_fails(t, at, failure, said);
    if !retryable || t.emit_failures + 1 >= w.cfg.max_emit_retries {
        ends(u, w.cfg, at)
    } else {
        goes_round(u, w, at)
    }
}

/// A text that came beside a proposal, where one was asked for.
pub open spec fn asked_for(t: TurnV, w: AroundV, text: Option<Seq<char>>) -> Option<Seq<char>> {
    if run::may_answer(w.cfg, t.tier) {
        text
    } else {
        None
    }
}

/// What the user is told at once, before the action that was proposed runs; a
/// proposal to reply tells nothing beforehand.
pub open spec fn told(t: TurnV, w: AroundV, said: ProposalV, line: Option<Seq<char>>) -> Option<Seq<char>> {
    if t.settled is None && said.action != RESPOND_DIRECTLY@ {
        asked_for(t, w, line)
    } else {
        None
    }
}

/// What a proposal that goes on to be run needs next. The one that was staged is
/// in the log as the model made it, so it is read once more with the learned
/// repairs before it is run.
pub open spec fn wanted(cx: CtxV) -> NeedV {
    if cx.confirmed_now {
        NeedV::Repair { cx }
    } else {
        NeedV::Arguments { cx }
    }
}

/// A proposal came: `raw` as the model made it, `said` as it is read once the
/// learned repairs are applied, and the texts beside it, an answer and a line to
/// be told at once, which count only where they were asked for.
pub open spec fn weighed(
    t: TurnV,
    w: AroundV,
    raw: ProposalV,
    said: ProposalV,
    answer: Option<Seq<char>>,
    line: Option<Seq<char>>,
    state: SessionStateV,
    actions: Seq<ActionSpecV>,
    pending: Option<EventId>,
    at: Timestamp,
) -> (TurnV, NeedV) {
    let text = asked_for(t, w, answer);
    let pid = progress::next(t);
    let u = run::answers(run::proposes(t, at, raw), w.cfg, said.action, text, at);
    if u.settled is Some {
        ends(u, w.cfg, at)
    } else {
        let s = run::tells(u, asked_for(t, w, line), at);
        let v = run::considered(s, at, pid, said, actions, legal::offers(w.tools, said.action), pending);
        match v.1 {
            AdmissionV::Refused => goes_round(v.0, w, at),
            AdmissionV::Admitted { proposal, confirmed_now } => (
                v.0,
                wanted(CtxV { state, proposal, pid, confirmed_now, active_pending: pending, at }),
            ),
        }
    }
}

impl Turn {
    pub fn book(&mut self, calls: &Vec<BookedCall>, manifest: &Manifest, spent: u32) -> (r: u32)
        requires
            fits(old(self).deep_view(), calls@.len() as int),
        ensures
            final(self).deep_view() == with_calls(old(self).deep_view(), calls.deep_view(), manifest.deep_view()),
            fits(final(self).deep_view(), 0),
            r == accounting::spent_after(spent, calls@.len()),
    {
        let ghost before = self.deep_view();
        let r: u32 = record_model_calls(&mut self.log, self.turn, calls, manifest, spent);
        proof {
            lemma_booked(before.log, before.turn, calls.deep_view(), manifest.deep_view());
            lemma_grown(before.log, self.deep_view().log, calls@.len() as int, STEP_ROOM + calls@.len());
        }
        r
    }

    /// No proposal came. `said` is the failure in words, `retryable` whether
    /// asking again can mend it. Also how many requests are spent.
    pub fn no_proposal(
        &mut self,
        w: &Around,
        failure: EmitFailure,
        said: String,
        retryable: bool,
        calls: &Vec<BookedCall>,
        manifest: &Manifest,
        spent: u32,
        at: Timestamp,
    ) -> (r: (Need, u32))
        requires
            fits(old(self).deep_view(), calls@.len() as int),
        ensures
            (final(self).deep_view(), r.0.deep_view()) == unproposed(
                with_calls(old(self).deep_view(), calls.deep_view(), manifest.deep_view()),
                w.deep_view(),
                failure.deep_view(),
                said@,
                retryable,
                at,
            ),
            r.1 == accounting::spent_after(spent, calls@.len()),
    {
        let spent: u32 = self.book(calls, manifest, spent);
        let ghost before = self.deep_view();
        let stop: bool = self.emit_failed(w.cfg, failure, said, retryable, at);
        proof {
            assert(grown(before.log, self.deep_view().log, 1));
            lemma_grown(before.log, self.deep_view().log, 1, STEP_ROOM as int);
        }
        let need: Need = if stop {
            self.end(w.cfg, at)
        } else {
            self.go_round(w, at)
        };
        (need, spent)
    }

    /// A proposal came: `raw` as the model made it, `said` as it is read once the
    /// learned repairs are applied. Also how many requests are spent, and what
    /// the user is to be told at once.
    pub fn proposal(
        &mut self,
        w: &Around,
        raw: &Proposal,
        said: Proposal,
        answer: Option<String>,
        line: Option<String>,
        calls: &Vec<BookedCall>,
        manifest: &Manifest,
        spent: u32,
        at: Timestamp,
    ) -> (r: (Need, u32, Option<String>))
        requires
            w.deep_view().wf(),
            fits(old(self).deep_view(), calls@.len() as int),
        ensures
            (final(self).deep_view(), r.0.deep_view()) == weighed(
                with_calls(old(self).deep_view(), calls.deep_view(), manifest.deep_view()),
                w.deep_view(),
                raw.deep_view(),
                said.deep_view(),
                answer.deep_view(),
                line.deep_view(),
                state::folded(old(self).deep_view().log),
                actions_now(old(self).deep_view(), w.deep_view()),
                pending_now(old(self).deep_view()),
                at,
            ),
            r.1 == accounting::spent_after(spent, calls@.len()),
            r.2.deep_view() == told(old(self).deep_view(), w.deep_view(), said.deep_view(), line.deep_view()),
    {
        let ghost first = self.deep_view();
        let state: SessionState = self.project();
        let pending: Option<EventId> = still_pending(&state, self.turn);
        let actions: Vec<ActionSpec> = self.offer(w, pending);
        proof {
            if legal::offers(actions.deep_view(), CONFIRM_PENDING@) {
                legal::confirming_needs_something_to_confirm(
                    offer_now(first, w.deep_view()),
                    w.deep_view().cfg,
                    w.deep_view().tools,
                );
            }
        }
        let spent: u32 = self.book(calls, manifest, spent);
        let ghost t = self.deep_view();
        let offers: bool = offers_answer(w.cfg, self.tier);
        let text: Option<String> = taken(offers, answer);
        let spoken: Option<String> = taken(offers, line);
        let ghost offered = text.deep_view();
        let pid: EventId = self.proposed(raw, at);
        let ghost a = self.deep_view();
        proof {
            assert(grown(t.log, a.log, 1));
            lemma_grown(t.log, a.log, 1, STEP_ROOM as int);
        }
        self.answer_or_act(w.cfg, said.action.as_str(), text, at);
        let ghost u = self.deep_view();
        proof {
            assert(grown(a.log, u.log, 1));
            lemma_grown(a.log, u.log, 1, STEP_ROOM - 1);
            assert(u == run::answers(
                run::proposes(t, at, raw.deep_view()),
                w.deep_view().cfg,
                said.deep_view().action,
                offered,
                at,
            ));
        }
        if self.settled.is_some() {
            let need: Need = self.end(w.cfg, at);
            return (need, spent, None);
        }
        self.tell(&spoken, at);
        let ghost s = self.deep_view();
        proof {
            assert(grown(u.log, s.log, 1));
            lemma_grown(u.log, s.log, 1, STEP_ROOM - 2);
        }
        let registered: bool = is_offered(w.tools, said.action.as_str());
        let ghost sv = said.deep_view();
        let admission: Admission = self.consider(said, pid, &actions, registered, pending, at);
        let ghost v = self.deep_view();
        proof {
            lemma_considered_grows(s, at, pid, sv, actions.deep_view(), registered, pending);
            lemma_grown(s.log, v.log, 2, STEP_ROOM - 3);
        }
        let need: Need = match admission {
            Admission::Refused => self.go_round(w, at),
            Admission::Admitted { proposal, confirmed_now } => {
                let cx: Ctx = Ctx { state, proposal, pid, confirmed_now, active_pending: pending, at };
                if confirmed_now {
                    Need::Repair { cx }
                } else {
                    Need::Arguments { cx }
                }
            },
        };
        (need, spent, spoken)
    }
}

proof fn lemma_considered_grows(
    t: TurnV,
    at: Timestamp,
    pid: EventId,
    p: ProposalV,
    actions: Seq<ActionSpecV>,
    registered: bool,
    pending: Option<EventId>,
)
    requires
        accounting::room(t.log, 2),
    ensures
        grown(t.log, run::considered(t, at, pid, p, actions, registered, pending).0.log, 2),
{
}

// ---------------------------------------------------------------------------
// Running what was proposed
// ---------------------------------------------------------------------------

/// The first tool of a name.
pub open spec fn tool_named(tools: Seq<ActionSpecV>, name: Seq<char>) -> Option<ActionSpecV>
    decreases tools.len(),
{
    if tools.len() == 0 {
        None
    } else if tools[0].name == name {
        Some(tools[0])
    } else {
        tool_named(tools.drop_first(), name)
    }
}

/// There is something that runs the action.
pub open spec fn runs(w: AroundV, action: Seq<char>) -> bool {
    builtins::builtin_named(action) is Some || tool_named(w.tools, action) is Some
}

fn find_tool<'a>(tools: &'a Vec<ActionSpec>, name: &str) -> (r: Option<&'a ActionSpec>)
    ensures
        match r {
            Some(s) => tool_named(tools.deep_view(), name@) == Some(s.deep_view()),
            None => tool_named(tools.deep_view(), name@) is None,
        },
{
    let ghost all = tools.deep_view();
    let mut i: usize = 0;
    proof {
        assert(all.skip(0) =~= all);
    }
    while i < tools.len()
        invariant
            i <= tools@.len(),
            all == tools.deep_view(),
            tool_named(all, name@) == tool_named(all.skip(i as int), name@),
        decreases tools@.len() - i,
    {
        proof {
            assert(all.skip(i as int)[0] == tools@[i as int].deep_view());
            assert(all.skip(i as int).drop_first() =~= all.skip(i + 1));
        }
        if same(tools[i].name.as_str(), name) {
            return Some(&tools[i]);
        }
        i = i + 1;
    }
    None
}

impl<'a> Around<'a> {
    /// Whether there is something that runs the action.
    pub fn can_run(&self, action: &str) -> (r: bool)
        ensures
            r == runs(self.deep_view(), action@),
    {
        run_builtin(action).is_some() || find_tool(self.tools, action).is_some()
    }
}

/// What was confirmed, as it is read once the learned repairs are applied: it
/// takes the place of what was staged, and where nothing runs it any more it is
/// refused.
pub open spec fn repaired(t: TurnV, w: AroundV, cx: CtxV, said: ProposalV) -> (TurnV, NeedV) {
    if runs(w, said.action) {
        (t, NeedV::Arguments { cx: CtxV { proposal: said, ..cx } })
    } else {
        goes_round(
            progress::barred(
                progress::refused(
                    t,
                    cx.at,
                    cx.pid,
                    RejectReasonV::IllegalAction { action: said.action },
                    "illegal action: "@ + said.action,
                ),
                said.action,
            ),
            w,
            cx.at,
        )
    }
}

impl Turn {
    /// The confirmed proposal was read with the learned repairs: go on with it.
    pub fn repaired(&mut self, w: &Around, cx: Ctx, said: Proposal) -> (need: Need)
        requires
            fits(old(self).deep_view(), 0),
        ensures
            (final(self).deep_view(), need.deep_view()) == repaired(
                old(self).deep_view(),
                w.deep_view(),
                cx.deep_view(),
                said.deep_view(),
            ),
            need matches Need::Arguments { cx } ==> runs(w.deep_view(), cx.proposal.action@),
    {
        if w.can_run(said.action.as_str()) {
            return Need::Arguments { cx: Ctx { proposal: said, ..cx } };
        }
        let ghost t = self.deep_view();
        let action: String = said.action;
        let line: String = cat2("illegal action: ", action.as_str());
        self.refuse(cx.at, cx.pid, RejectReason::IllegalAction { action: action.clone() }, line);
        self.bar(action.as_str());
        proof {
            assert(grown(t.log, self.deep_view().log, 1));
            lemma_grown(t.log, self.deep_view().log, 1, STEP_ROOM as int);
        }
        self.go_round(w, cx.at)
    }
}

/// A tool that was proposed.
pub open spec fn tool_tried(t: TurnV, w: AroundV, cx: CtxV, spec: ActionSpecV, h: ArgumentsV) -> (TurnV, NeedV) {
    let u = tools::judged(t, cx, w.cfg, spec, h.invalid, h.args, h.plugins);
    match u.1 {
        ToolStepV::Refused => goes_round(u.0, w, cx.at),
        ToolStepV::Stage { prompt } => (u.0, NeedV::DryRun { cx, prompt }),
        ToolStepV::Call { call } => (u.0, NeedV::Call { cx, call }),
    }
}

/// A proposal whose arguments were looked at: it is run as far as the turn can
/// run it by itself.
pub open spec fn tried(t: TurnV, w: AroundV, cx: CtxV, h: ArgumentsV) -> (TurnV, NeedV) {
    let args = cx.proposal.args;
    match builtins::builtin_named(cx.proposal.action) {
        Some(Builtin::AskClarification) => goes_round(
            builtins::asks(t, cx, w.cfg, json::json_str_at(args, "/question"@), h.args, h.plugins),
            w,
            cx.at,
        ),
        Some(Builtin::RememberFact) => {
            let u = builtins::remembers(
                t,
                cx,
                w.cfg,
                json::json_str_at(args, "/key"@),
                json::json_str_at(args, "/value"@),
                h.args,
                h.current,
                h.squashed,
                h.squashed_key,
            );
            match u.1 {
                Some(write) => (u.0, NeedV::Write { write }),
                None => goes_round(u.0, w, cx.at),
            }
        },
        Some(Builtin::Recall) => {
            let u = builtins::recalls(t, cx, json::json_str_at(args, "/query"@), h.args);
            match u.1 {
                Some(lookup) => (u.0, NeedV::Search { lookup }),
                None => goes_round(u.0, w, cx.at),
            }
        },
        Some(Builtin::InspectResult) => goes_round(
            builtins::inspects(
                t,
                cx,
                w.cfg.tool_result_max_chars as nat,
                json::json_str_at(args, "/id"@),
                json::json_str_at(args, "/query"@),
                h.args,
            ),
            w,
            cx.at,
        ),
        Some(Builtin::ForgetFact) => {
            let u = builtins::forgets(
                t,
                cx,
                json::json_str_at(args, "/key"@),
                h.args,
                h.current,
                h.squashed,
                h.squashed_key,
            );
            match u.1 {
                Some(it) => (u.0, NeedV::Forget { it }),
                None => goes_round(u.0, w, cx.at),
            }
        },
        Some(Builtin::ForgetAll) => {
            let u = builtins::purges(t, cx);
            if cx.confirmed(t.turn) {
                (u, NeedV::Purge { call: progress::next(t) })
            } else {
                goes_round(u, w, cx.at)
            }
        },
        None => match tool_named(w.tools, cx.proposal.action) {
            Some(spec) => tool_tried(t, w, cx, spec, h),
            None => goes_round(t, w, cx.at),
        },
    }
}

impl Turn {
    fn try_tool(&mut self, w: &Around, cx: Ctx, spec: &ActionSpec, h: Arguments) -> (need: Need)
        requires
            fits(old(self).deep_view(), 0),
        ensures
            (final(self).deep_view(), need.deep_view()) == tool_tried(
                old(self).deep_view(),
                w.deep_view(),
                cx.deep_view(),
                spec.deep_view(),
                h.deep_view(),
            ),
    {
        let ghost t = self.deep_view();
        let step: ToolStep = self.run_tool(&cx, w.cfg, spec, h.invalid, h.args, &h.plugins);
        proof {
            assert(grown(t.log, self.deep_view().log, 1));
            lemma_grown(t.log, self.deep_view().log, 1, STEP_ROOM as int);
        }
        match step {
            ToolStep::Refused => self.go_round(w, cx.at),
            ToolStep::Stage { prompt } => Need::DryRun { cx, prompt },
            ToolStep::Call { call } => Need::Call { cx, call },
        }
    }

    /// The arguments of a proposal were looked at: run it, as far as the turn can
    /// by itself.
    pub fn arguments(&mut self, w: &Around, cx: Ctx, h: Arguments) -> (need: Need)
        requires
            h.deep_view().wf(),
            fits(old(self).deep_view(), 0),
            runs(w.deep_view(), cx.proposal.action@),
        ensures
            (final(self).deep_view(), need.deep_view()) == tried(
                old(self).deep_view(),
                w.deep_view(),
                cx.deep_view(),
                h.deep_view(),
            ),
    {
        let ghost t = self.deep_view();
        let ghost hv = h.deep_view();
        let at: Timestamp = cx.at;
        proof {
            assert forall|i: int| 0 <= i < h.current@.len() implies (#[trigger] h.current@[i]).valid_from.0
                < u64::MAX by {
                assert(hv.current[i] == h.current@[i].deep_view());
            }
        }
        match run_builtin(cx.proposal.action.as_str()) {
            Some(Builtin::AskClarification) => {
                self.ask_clarification(&cx, w.cfg, h.args, &h.plugins);
                proof {
                    assert(grown(t.log, self.deep_view().log, 1));
                    lemma_grown(t.log, self.deep_view().log, 1, STEP_ROOM as int);
                }
                self.go_round(w, at)
            },
            Some(Builtin::RememberFact) => {
                let write: Option<FactWrite> = self.remember_fact(
                    &cx,
                    w.cfg,
                    h.args,
                    &h.current,
                    &h.squashed,
                    h.squashed_key.as_str(),
                );
                proof {
                    assert(grown(t.log, self.deep_view().log, 1));
                    lemma_grown(t.log, self.deep_view().log, 1, STEP_ROOM as int);
                }
                match write {
                    Some(write) => Need::Write { write },
                    None => self.go_round(w, at),
                }
            },
            Some(Builtin::Recall) => {
                let lookup: Option<Lookup> = self.recall(&cx, h.args);
                proof {
                    assert(grown(t.log, self.deep_view().log, 1));
                    lemma_grown(t.log, self.deep_view().log, 1, STEP_ROOM as int);
                }
                match lookup {
                    Some(lookup) => Need::Search { lookup },
                    None => self.go_round(w, at),
                }
            },
            Some(Builtin::InspectResult) => {
                self.inspect_result(&cx, w.cfg.tool_result_max_chars, h.args);
                proof {
                    assert(grown(t.log, self.deep_view().log, 2));
                    lemma_grown(t.log, self.deep_view().log, 2, STEP_ROOM as int);
                }
                self.go_round(w, at)
            },
            Some(Builtin::ForgetFact) => {
                let it: Option<Forgetting> = self.forget_fact(
                    &cx,
                    h.args,
                    &h.current,
                    &h.squashed,
                    h.squashed_key.as_str(),
                );
                proof {
                    assert(grown(t.log, self.deep_view().log, 1));
                    lemma_grown(t.log, self.deep_view().log, 1, STEP_ROOM as int);
                }
                match it {
                    Some(it) => Need::Forget { it },
                    None => self.go_round(w, at),
                }
            },
            Some(Builtin::ForgetAll) => {
                let call: Option<EventId> = self.forget_all(&cx);
                proof {
                    assert(grown(t.log, self.deep_view().log, 2));
                    lemma_grown(t.log, self.deep_view().log, 2, STEP_ROOM as int);
                }
                match call {
                    Some(call) => Need::Purge { call },
                    None => self.go_round(w, at),
                }
            },
            None => match find_tool(w.tools, cx.proposal.action.as_str()) {
                Some(spec) => self.try_tool(w, cx, spec, h),
                None => self.go_round(w, at),
            },
        }
    }
}

// ---------------------------------------------------------------------------
// What came of running it
// ---------------------------------------------------------------------------

/// A call came out one way or another.
pub open spec fn came_back(t: TurnV, w: AroundV, call: EventId, outcome: ToolOutcomeV, at: Timestamp) -> (TurnV, NeedV) {
    goes_round(progress::returns_with(t, at, call, outcome), w, at)
}

impl Turn {
    /// A call came back.
    pub fn came_back(&mut self, w: &Around, call: EventId, outcome: ToolOutcome, at: Timestamp) -> (need: Need)
        requires
            fits(old(self).deep_view(), 0),
        ensures
            (final(self).deep_view(), need.deep_view()) == came_back(
                old(self).deep_view(),
                w.deep_view(),
                call,
                outcome.deep_view(),
                at,
            ),
    {
        let ghost t = self.deep_view();
        self.returned(at, call, outcome);
        proof {
            assert(grown(t.log, self.deep_view().log, 1));
            lemma_grown(t.log, self.deep_view().log, 1, STEP_ROOM as int);
        }
        self.go_round(w, at)
    }

    /// A fact was written; `failure` is what the store had against it.
    pub fn written(&mut self, w: &Around, write: &FactWrite, failure: Option<String>, at: Timestamp) -> (need: Need)
        requires
            fits(old(self).deep_view(), 0),
        ensures
            (final(self).deep_view(), need.deep_view()) == came_back(
                old(self).deep_view(),
                w.deep_view(),
                write.call,
                builtins::stored("remembered "@ + write.key@, failure.deep_view()),
                at,
            ),
    {
        let ghost t = self.deep_view();
        self.remembered(at, write.call, write.key.as_str(), failure);
        proof {
            assert(grown(t.log, self.deep_view().log, 1));
            lemma_grown(t.log, self.deep_view().log, 1, STEP_ROOM as int);
        }
        self.go_round(w, at)
    }

    /// A fact was forgotten; `failure` is what the store had against it.
    pub fn forgotten(&mut self, w: &Around, it: &Forgetting, failure: Option<String>, at: Timestamp) -> (need: Need)
        requires
            fits(old(self).deep_view(), 0),
        ensures
            (final(self).deep_view(), need.deep_view()) == came_back(
                old(self).deep_view(),
                w.deep_view(),
                it.call,
                builtins::stored("forgot "@ + it.key@, failure.deep_view()),
                at,
            ),
    {
        let ghost t = self.deep_view();
        self.forgot_fact(at, it.call, it.key.as_str(), failure);
        proof {
            assert(grown(t.log, self.deep_view().log, 1));
            lemma_grown(t.log, self.deep_view().log, 1, STEP_ROOM as int);
        }
        self.go_round(w, at)
    }

    /// Everything was forgotten, or the store had something against it.
    pub fn all_forgotten(&mut self, w: &Around, call: EventId, result: Result<usize, String>, at: Timestamp) -> (need: Need)
        requires
            fits(old(self).deep_view(), 0),
        ensures
            (final(self).deep_view(), need.deep_view()) == came_back(
                old(self).deep_view(),
                w.deep_view(),
                call,
                builtins::purge_outcome(result),
                at,
            ),
    {
        let ghost t = self.deep_view();
        self.purged(at, call, result);
        proof {
            assert(grown(t.log, self.deep_view().log, 1));
            lemma_grown(t.log, self.deep_view().log, 1, STEP_ROOM as int);
        }
        self.go_round(w, at)
    }

    /// A tool answered. Also whether the turn must be stored at once, because
    /// something outside may have changed.
    pub fn tool_answered(
        &mut self,
        w: &Around,
        cx: &Ctx,
        call: EventId,
        result: Result<ToolOutput, ToolFailure>,
        at: Timestamp,
    ) -> (r: (Need, bool))
        requires
            fits(old(self).deep_view(), 0),
        ensures
            (final(self).deep_view(), r.0.deep_view()) == came_back(
                old(self).deep_view(),
                w.deep_view(),
                call,
                tools::outcome_from(result),
                at,
            ),
            r.1 == (match tool_named(w.deep_view().tools, cx.proposal.action@) {
                Some(spec) => spec.side_effect != SideEffect::Pure,
                None => false,
            }),
    {
        let flush: bool = match find_tool(w.tools, cx.proposal.action.as_str()) {
            Some(spec) => spec.side_effect != SideEffect::Pure,
            None => false,
        };
        let outcome: ToolOutcome = match result {
            Ok(output) => ToolOutcome::Done { output },
            Err(e) => ToolOutcome::Failed { kind: e.kind, detail: e.detail },
        };
        let need: Need = self.came_back(w, call, outcome, at);
        (need, flush)
    }

    /// The tool said what it would do, or could not: the turn ends on the
    /// question whether to go on.
    pub fn staged(&mut self, w: &Around, cx: &Ctx, prompt: &str, staged: Option<StagedEffect>, at: Timestamp) -> (need: Need)
        requires
            fits(old(self).deep_view(), 0),
        ensures
            (final(self).deep_view(), need.deep_view()) == ends(
                tools::stages(old(self).deep_view(), cx.deep_view(), prompt@, staged.deep_view()),
                w.deep_view().cfg,
                at,
            ),
    {
        let ghost t = self.deep_view();
        self.stage(cx, prompt, staged);
        proof {
            assert(grown(t.log, self.deep_view().log, 2));
            lemma_grown(t.log, self.deep_view().log, 2, STEP_ROOM as int);
        }
        self.end(w.cfg, at)
    }

    /// Record a search that the turn made unasked, before its first proposal.
    pub fn searched_unasked(&mut self, action: &str, args: Tagged, outcome: ToolOutcome, at: Timestamp)
        requires
            fits(old(self).deep_view(), 0),
        ensures
            final(self).deep_view() == progress::returns_with(
                progress::logged(
                    old(self).deep_view(),
                    at,
                    EventKindV::ToolCalled { action: action@, args: args.deep_view() },
                ),
                at,
                progress::next(old(self).deep_view()),
                outcome.deep_view(),
            ),
    {
        let ghost t = self.deep_view();
        let call: EventId = self.call_unasked(at, action, args);
        proof {
            assert(grown(t.log, self.deep_view().log, 1));
            lemma_grown(t.log, self.deep_view().log, 1, STEP_ROOM as int);
        }
        self.returned(at, call, outcome);
    }
}

// ---------------------------------------------------------------------------
// The reply
// ---------------------------------------------------------------------------

/// A draft that was looked at: where it copies its prompt that is noted, where it
/// states what nothing supports it is flagged, and where it stands it is recorded
/// what it drew on.
pub open spec fn looked_at(
    t: TurnV,
    cfg: EngineConfigV,
    ctx: ReplyContextV,
    draft: Seq<char>,
    copies: bool,
    addressed: Seq<bool>,
    at: Timestamp,
) -> (TurnV, RedraftV) {
    if !cfg.reply_grounding_check {
        (t, RedraftV::Stands)
    } else {
        let u = match reply::echo_in(ctx, draft) {
            Some(e) => if copies {
                progress::logged(
                    t,
                    at,
                    EventKindV::ReplyEchoed { draft, span: e.span, copied: e.copied, words: e.words },
                )
            } else {
                t
            },
            None => t,
        };
        let spans = reply::unsupported_in(ctx, draft);
        let v = reply::flags(u, draft, spans, at);
        let r = reply::redrafted(cfg, spans, ctx.obligations, addressed);
        match r {
            RedraftV::Stands => (reply::cites(v, ctx, draft, at), r),
            _ => (v, r),
        }
    }
}

impl Turn {
    /// Look at a draft. `copies` says whether what it shares with its prompt is
    /// too much of it, `addressed` of each obligation whether it addresses the
    /// clause.
    pub fn look_at(
        &mut self,
        cfg: &EngineConfig,
        ctx: &ReplyContext,
        draft: &str,
        copies: bool,
        addressed: &Vec<bool>,
        at: Timestamp,
    ) -> (r: Redraft)
        requires
            fits(old(self).deep_view(), 0),
            addressed@.len() == ctx.obligations@.len(),
        ensures
            (final(self).deep_view(), r.deep_view()) == looked_at(
                old(self).deep_view(),
                cfg.deep_view(),
                ctx.deep_view(),
                draft@,
                copies,
                addressed@,
                at,
            ),
    {
        if !cfg.reply_grounding_check {
            return Redraft::Stands;
        }
        let ghost t = self.deep_view();
        if copies {
            if let Some(e) = echo_of(ctx, draft) {
                self.note_echo(draft, e, at);
            }
        }
        let ghost u = self.deep_view();
        proof {
            assert(grown(t.log, u.log, 1));
            lemma_grown(t.log, u.log, 1, STEP_ROOM as int);
        }
        let spans: Vec<String> = self.flag(ctx, draft, at);
        let ghost v = self.deep_view();
        proof {
            assert(grown(u.log, v.log, 1));
            lemma_grown(u.log, v.log, 1, STEP_ROOM - 1);
        }
        let r: Redraft = redraft(cfg, spans, &ctx.obligations, addressed);
        if let Redraft::Stands = &r {
            self.record_cited(ctx, draft, at);
        }
        r
    }

    /// The reply was asked for once more: what came stands, or the draft where
    /// nothing came, and it is recorded what it drew on. Also how many requests
    /// are spent.
    pub fn redrafted(
        &mut self,
        ctx: &ReplyContext,
        draft: String,
        second: Option<String>,
        calls: &Vec<BookedCall>,
        manifest: &Manifest,
        spent: u32,
        at: Timestamp,
    ) -> (r: (String, u32))
        requires
            fits(old(self).deep_view(), calls@.len() as int),
        ensures
            r.0@ == (match second {
                Some(s) => s@,
                None => draft@,
            }),
            final(self).deep_view() == reply::cites(
                with_calls(old(self).deep_view(), calls.deep_view(), manifest.deep_view()),
                ctx.deep_view(),
                r.0@,
                at,
            ),
            r.1 == accounting::spent_after(spent, calls@.len()),
    {
        let spent: u32 = self.book(calls, manifest, spent);
        let text: String = final_reply(draft, second);
        self.record_cited(ctx, text.as_str(), at);
        (text, spent)
    }
}

} // verus!
