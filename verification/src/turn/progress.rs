//! What a turn accumulates as it goes, and the moves that change it.

use vstd::prelude::*;

use crate::events;
use crate::events::{
    EventKind, EventKindV, EventLog, EventV, Proposal, ProposalV, RejectReason, RejectReasonV, ReplyPolicy,
    ReplyPolicyV, ToolOutcome, ToolOutcomeV,
};
use crate::state::{SessionState, SessionStateV};
use crate::text;
use crate::text::{cat2, cat3, listed, starts_with};
use crate::turn::accounting;
use crate::turn::specs::REMEMBER_FACT;
use crate::types::{clone_texts, EventId, Tagged, TaggedV, Tier, Timestamp};

verus! {

// ---------------------------------------------------------------------------
// Bookkeeping
// ---------------------------------------------------------------------------

/// A list with `s` in it; nothing is listed twice.
pub open spec fn with_text(list: Seq<Seq<char>>, s: Seq<char>) -> Seq<Seq<char>> {
    if list.contains(s) {
        list
    } else {
        list.push(s)
    }
}

/// Put a text on a list where it is not there yet.
pub fn insert_text(list: &mut Vec<String>, s: &str)
    ensures
        final(list).deep_view() == with_text(old(list).deep_view(), s@),
{
    if !listed(list, s) {
        let ghost before = list.deep_view();
        list.push(s.to_owned());
        proof {
            assert(list.deep_view() =~= before.push(s@));
        }
    }
}

/// What one turn has learned of its own proposals.
#[derive(Debug)]
pub struct Bookkeeping {
    /// Why earlier proposals did not run, as the next prompt says it.
    pub rejections: Vec<String>,
    /// Actions that are not offered again on this turn, each once.
    pub denied: Vec<String>,
    /// The calls that ran, by action and arguments, each once.
    pub calls: Vec<String>,
    /// An argument was refused that nothing grounds: only asking is left.
    pub never_residual: bool,
    /// Calls to forget a fact that is not there.
    pub forget_misses: u32,
}

pub struct BookkeepingV {
    pub rejections: Seq<Seq<char>>,
    pub denied: Seq<Seq<char>>,
    pub calls: Seq<Seq<char>>,
    pub never_residual: bool,
    pub forget_misses: u32,
}

impl DeepView for Bookkeeping {
    type V = BookkeepingV;

    open spec fn deep_view(&self) -> BookkeepingV {
        BookkeepingV {
            rejections: self.rejections.deep_view(),
            denied: self.denied.deep_view(),
            calls: self.calls.deep_view(),
            never_residual: self.never_residual,
            forget_misses: self.forget_misses,
        }
    }
}

impl Clone for Bookkeeping {
    fn clone(&self) -> (r: Self)
        ensures
            r.deep_view() == self.deep_view(),
    {
        let r: Bookkeeping = Bookkeeping {
            rejections: clone_texts(&self.rejections),
            denied: clone_texts(&self.denied),
            calls: clone_texts(&self.calls),
            never_residual: self.never_residual,
            forget_misses: self.forget_misses,
        };
        r
    }
}

/// A turn that has decided nothing yet.
pub open spec fn clean_book() -> BookkeepingV {
    BookkeepingV { rejections: seq![], denied: seq![], calls: seq![], never_residual: false, forget_misses: 0 }
}

impl Default for Bookkeeping {
    fn default() -> (r: Self)
        ensures
            r.deep_view() == clean_book(),
    {
        let r: Bookkeeping = Bookkeeping {
            rejections: Vec::new(),
            denied: Vec::new(),
            calls: Vec::new(),
            never_residual: false,
            forget_misses: 0,
        };
        proof {
            assert(r.rejections.deep_view() =~= seq![]);
            assert(r.denied.deep_view() =~= seq![]);
            assert(r.calls.deep_view() =~= seq![]);
        }
        r
    }
}

/// Some call begins with the text.
pub open spec fn some_call(calls: Seq<Seq<char>>, prefix: Seq<char>) -> bool {
    exists|i: int| 0 <= i < calls.len() && text::starts(#[trigger] calls[i], prefix)
}

fn any_call(calls: &Vec<String>, prefix: &str) -> (r: bool)
    ensures
        r == some_call(calls.deep_view(), prefix@),
{
    let ghost all = calls.deep_view();
    let mut i: usize = 0;
    while i < calls.len()
        invariant
            i <= calls@.len(),
            all == calls.deep_view(),
            forall|k: int| 0 <= k < i ==> !text::starts(#[trigger] all[k], prefix@),
        decreases calls@.len() - i,
    {
        assert(all[i as int] == calls@[i as int]@);
        if starts_with(calls[i].as_str(), prefix) {
            return true;
        }
        i = i + 1;
    }
    false
}

impl BookkeepingV {
    /// A fact was written on this turn.
    pub open spec fn fact_written(self) -> bool {
        some_call(self.calls, REMEMBER_FACT@ + "\u{0}"@)
    }

    /// Something was forgotten on this turn.
    pub open spec fn something_forgotten(self) -> bool {
        some_call(self.calls, "forget_"@)
    }
}

impl Bookkeeping {
    /// Record a refusal: in the log, and for the next prompt.
    pub fn reject(
        &mut self,
        log: &mut EventLog,
        turn: u32,
        at: Timestamp,
        pid: EventId,
        reason: RejectReason,
        line: String,
    )
        requires
            accounting::room(old(log).deep_view().events, 1),
        ensures
            final(log).deep_view().session == old(log).deep_view().session,
            final(log).deep_view().events == events::appended(
                old(log).deep_view().events,
                turn,
                at,
                EventKindV::Rejected { proposal_of: pid, reason: reason.deep_view() },
            ),
            final(self).deep_view() == (BookkeepingV {
                rejections: old(self).deep_view().rejections.push(line@),
                ..old(self).deep_view()
            }),
    {
        log.append(turn, at, EventKind::Rejected { proposal_of: pid, reason });
        let ghost before = self.rejections.deep_view();
        self.rejections.push(line);
        proof {
            assert(self.rejections.deep_view() =~= before.push(line@));
        }
    }

    /// Did this turn already write a fact?
    pub fn wrote_fact(&self) -> (r: bool)
        ensures
            r == self.deep_view().fact_written(),
    {
        let prefix: String = cat2(REMEMBER_FACT, "\u{0}");
        any_call(&self.calls, prefix.as_str())
    }

    /// Did this turn already forget something?
    pub fn forgot(&self) -> (r: bool)
        ensures
            r == self.deep_view().something_forgotten(),
    {
        any_call(&self.calls, "forget_")
    }
}

/// What tells one call from another on a turn: the action and its arguments.
pub open spec fn key_of(p: ProposalV) -> Seq<char> {
    p.action + "\u{0}"@ + p.args
}

pub fn call_key(p: &Proposal) -> (r: String)
    ensures
        r@ == key_of(p.deep_view()),
{
    cat3(p.action.as_str(), "\u{0}", p.args.text.as_str())
}

// ---------------------------------------------------------------------------
// The turn
// ---------------------------------------------------------------------------

/// A turn in progress.
#[derive(Debug)]
pub struct Turn {
    pub log: EventLog,
    pub turn: u32,
    /// How many events were stored when the turn began.
    pub loaded: usize,
    pub scope: String,
    pub user_text: String,
    /// What kind of turn this is; it only rises.
    pub tier: Tier,
    /// The tools that ride the turn; all of them where absent.
    pub selected: Option<Vec<String>>,
    /// What decided the route.
    pub cues: Vec<String>,
    pub book: Bookkeeping,
    /// Proposals asked for so far.
    pub iterations: u32,
    /// Calls that gave no proposal.
    pub emit_failures: u32,
    pub last_error: Option<String>,
    /// Whether a proposal ever came.
    pub proposed: bool,
    /// The reply that came with a proposal.
    pub draft: Option<String>,
    /// An answer that came beside an action that has not run yet.
    pub held: Option<String>,
    /// How the turn ends, once it is decided.
    pub settled: Option<ReplyPolicy>,
}

pub struct TurnV {
    pub session: Seq<char>,
    pub log: Seq<EventV>,
    pub turn: u32,
    pub loaded: usize,
    pub scope: Seq<char>,
    pub user_text: Seq<char>,
    pub tier: Tier,
    pub selected: Option<Seq<Seq<char>>>,
    pub cues: Seq<Seq<char>>,
    pub book: BookkeepingV,
    pub iterations: u32,
    pub emit_failures: u32,
    pub last_error: Option<Seq<char>>,
    pub proposed: bool,
    pub draft: Option<Seq<char>>,
    pub held: Option<Seq<char>>,
    pub settled: Option<ReplyPolicyV>,
}

impl DeepView for Turn {
    type V = TurnV;

    open spec fn deep_view(&self) -> TurnV {
        TurnV {
            session: self.log.session.deep_view(),
            log: self.log.deep_view().events,
            turn: self.turn,
            loaded: self.loaded,
            scope: self.scope.deep_view(),
            user_text: self.user_text.deep_view(),
            tier: self.tier,
            selected: self.selected.deep_view(),
            cues: self.cues.deep_view(),
            book: self.book.deep_view(),
            iterations: self.iterations,
            emit_failures: self.emit_failures,
            last_error: self.last_error.deep_view(),
            proposed: self.proposed,
            draft: self.draft.deep_view(),
            held: self.held.deep_view(),
            settled: self.settled.deep_view(),
        }
    }
}

/// What the loop does after an action had its say.
#[derive(Debug)]
pub enum Step {
    Again,
    Settled { policy: ReplyPolicy },
}

pub enum StepV {
    Again,
    Settled { policy: ReplyPolicyV },
}

impl DeepView for Step {
    type V = StepV;

    open spec fn deep_view(&self) -> StepV {
        match self {
            Step::Again => StepV::Again,
            Step::Settled { policy } => StepV::Settled { policy: policy.deep_view() },
        }
    }
}

impl Clone for Step {
    fn clone(&self) -> (r: Self)
        ensures
            r.deep_view() == self.deep_view(),
    {
        match self {
            Step::Again => Step::Again,
            Step::Settled { policy } => Step::Settled { policy: policy.clone() },
        }
    }
}

/// What a turn says to the loop: it is over once it is settled.
pub open spec fn step_of(t: TurnV) -> StepV {
    match t.settled {
        Some(policy) => StepV::Settled { policy },
        None => StepV::Again,
    }
}

/// One proposal on its way through the turn.
#[derive(Debug)]
pub struct Ctx {
    /// The session as it was when the proposal was asked for.
    pub state: SessionState,
    pub proposal: Proposal,
    /// The event that recorded the proposal.
    pub pid: EventId,
    /// Whether the user just confirmed it.
    pub confirmed_now: bool,
    /// What is staged and can still be confirmed.
    pub active_pending: Option<EventId>,
    pub at: Timestamp,
}

pub struct CtxV {
    pub state: SessionStateV,
    pub proposal: ProposalV,
    pub pid: EventId,
    pub confirmed_now: bool,
    pub active_pending: Option<EventId>,
    pub at: Timestamp,
}

impl DeepView for Ctx {
    type V = CtxV;

    open spec fn deep_view(&self) -> CtxV {
        CtxV {
            state: self.state.deep_view(),
            proposal: self.proposal.deep_view(),
            pid: self.pid,
            confirmed_now: self.confirmed_now,
            active_pending: self.active_pending,
            at: self.at,
        }
    }
}

impl Clone for Ctx {
    fn clone(&self) -> (r: Self)
        ensures
            r.deep_view() == self.deep_view(),
    {
        let r: Ctx = Ctx {
            state: self.state.clone(),
            proposal: self.proposal.clone(),
            pid: self.pid,
            confirmed_now: self.confirmed_now,
            active_pending: self.active_pending,
            at: self.at,
        };
        r
    }
}

impl CtxV {
    /// The user confirmed an action on this turn, by this proposal or before.
    pub open spec fn confirmed(self, turn: u32) -> bool {
        self.confirmed_now || self.state.confirmed_this_turn_of == Some(turn)
    }
}

impl Ctx {
    pub fn now(&self) -> (r: Timestamp)
        ensures
            r == self.at,
    {
        self.at
    }

    pub fn is_confirmed(&self, turn: u32) -> (r: bool)
        ensures
            r == self.deep_view().confirmed(turn),
    {
        self.confirmed_now || (match self.state.confirmed_this_turn_of {
            Some(t) => t == turn,
            None => false,
        })
    }
}

// ---------------------------------------------------------------------------
// Moves
// ---------------------------------------------------------------------------

/// The number that the next event gets.
pub open spec fn next(t: TurnV) -> EventId {
    EventId(events::next_id(t.log) as u64)
}

/// The turn with one more event.
pub open spec fn logged(t: TurnV, at: Timestamp, kind: EventKindV) -> TurnV {
    TurnV { log: events::appended(t.log, t.turn, at, kind), ..t }
}

/// The turn after a proposal was refused.
pub open spec fn refused(t: TurnV, at: Timestamp, of: EventId, reason: RejectReasonV, line: Seq<char>) -> TurnV {
    let u = logged(t, at, EventKindV::Rejected { proposal_of: of, reason });
    TurnV { book: BookkeepingV { rejections: u.book.rejections.push(line), ..u.book }, ..u }
}

/// The turn after an action was taken off the list.
pub open spec fn barred(t: TurnV, action: Seq<char>) -> TurnV {
    TurnV { book: BookkeepingV { denied: with_text(t.book.denied, action), ..t.book }, ..t }
}

/// The turn after it was decided how it ends.
pub open spec fn settles(t: TurnV, at: Timestamp, policy: ReplyPolicyV) -> TurnV {
    TurnV { settled: Some(policy), ..logged(t, at, EventKindV::Settled { policy }) }
}

/// The turn after a call was made for a proposal.
pub open spec fn calls_for(t: TurnV, at: Timestamp, p: ProposalV, action: Seq<char>, args: TaggedV) -> TurnV {
    let u = logged(t, at, EventKindV::ToolCalled { action, args });
    TurnV { book: BookkeepingV { calls: with_text(u.book.calls, key_of(p)), ..u.book }, ..u }
}

/// The turn after a call returned.
pub open spec fn returns_with(t: TurnV, at: Timestamp, call: EventId, outcome: ToolOutcomeV) -> TurnV {
    logged(t, at, EventKindV::ToolReturned { call, outcome })
}

impl Turn {
    /// Add an event to the log.
    pub fn record(&mut self, at: Timestamp, kind: EventKind) -> (id: EventId)
        requires
            accounting::room(old(self).deep_view().log, 1),
        ensures
            final(self).deep_view() == logged(old(self).deep_view(), at, kind.deep_view()),
            id == next(old(self).deep_view()),
    {
        self.log.append(self.turn, at, kind)
    }

    /// Refuse a proposal.
    pub fn refuse(&mut self, at: Timestamp, of: EventId, reason: RejectReason, line: String)
        requires
            accounting::room(old(self).deep_view().log, 1),
        ensures
            final(self).deep_view() == refused(old(self).deep_view(), at, of, reason.deep_view(), line@),
    {
        self.book.reject(&mut self.log, self.turn, at, of, reason, line);
    }

    /// Refuse a proposal as malformed; the action stays on offer.
    pub fn malformed(&mut self, at: Timestamp, of: EventId, detail: String, line: String)
        requires
            accounting::room(old(self).deep_view().log, 1),
        ensures
            final(self).deep_view() == refused(
                old(self).deep_view(),
                at,
                of,
                RejectReasonV::Malformed { detail: detail@ },
                line@,
            ),
    {
        self.refuse(at, of, RejectReason::Malformed { detail }, line);
    }

    /// Do not offer an action again on this turn.
    pub fn bar(&mut self, action: &str)
        ensures
            final(self).deep_view() == barred(old(self).deep_view(), action@),
    {
        insert_text(&mut self.book.denied, action);
    }

    /// Decide how the turn ends.
    pub fn settle(&mut self, at: Timestamp, policy: ReplyPolicy)
        requires
            accounting::room(old(self).deep_view().log, 1),
        ensures
            final(self).deep_view() == settles(old(self).deep_view(), at, policy.deep_view()),
    {
        self.record(at, EventKind::Settled { policy: policy.clone() });
        self.settled = Some(policy);
    }

    /// Record that an action was called.
    pub fn called(&mut self, at: Timestamp, p: &Proposal, action: &str, args: Tagged) -> (id: EventId)
        requires
            accounting::room(old(self).deep_view().log, 1),
        ensures
            final(self).deep_view() == calls_for(
                old(self).deep_view(),
                at,
                p.deep_view(),
                action@,
                args.deep_view(),
            ),
            id == next(old(self).deep_view()),
    {
        let id: EventId = self.record(at, EventKind::ToolCalled { action: action.to_owned(), args });
        let key: String = call_key(p);
        insert_text(&mut self.book.calls, key.as_str());
        id
    }

    /// Record what a call returned.
    pub fn returned(&mut self, at: Timestamp, call: EventId, outcome: ToolOutcome)
        requires
            accounting::room(old(self).deep_view().log, 1),
        ensures
            final(self).deep_view() == returns_with(old(self).deep_view(), at, call, outcome.deep_view()),
    {
        self.record(at, EventKind::ToolReturned { call, outcome });
    }

    /// What the loop does next.
    pub fn step(&self) -> (r: Step)
        ensures
            r.deep_view() == step_of(self.deep_view()),
    {
        match &self.settled {
            Some(policy) => Step::Settled { policy: policy.clone() },
            None => Step::Again,
        }
    }
}

/// A call that writes a fact is remembered as one, and so is a call that forgets; a call of
/// another action is neither.
pub proof fn what_was_called_is_known(t: TurnV, at: Timestamp, p: ProposalV, args: TaggedV)
    ensures
        ({
            let u = calls_for(t, at, p, p.action, args).book;
            &&& t.book.fact_written() ==> u.fact_written()
            &&& p.action == "remember_fact"@ ==> u.fact_written()
            &&& t.book.something_forgotten() ==> u.something_forgotten()
            &&& p.action == "forget_fact"@ || p.action == "forget_all"@ ==> u.something_forgotten()
            &&& p.action == "recall"@ || p.action == "inspect_result"@ ==> u.fact_written() == t.book.fact_written()
                && u.something_forgotten() == t.book.something_forgotten()
        }),
{
    let was = t.book.calls;
    let key = p.action + "\u{0}"@ + p.args;
    let now = calls_for(t, at, p, p.action, args).book.calls;
    assert(key == key_of(p));
    lemma_more_calls(was, key, "remember_fact"@ + "\u{0}"@);
    lemma_more_calls(was, key, "forget_"@);
    assert(now == with_text(was, key));
    reveal_strlit("remember_fact");
    reveal_strlit("forget_");
    reveal_strlit("forget_fact");
    reveal_strlit("forget_all");
    reveal_strlit("recall");
    reveal_strlit("inspect_result");
    reveal_strlit("\u{0}");
    if p.action == "remember_fact"@ {
        assert(key.subrange(0, 14) =~= "remember_fact"@ + "\u{0}"@);
        assert(text::starts(key, "remember_fact"@ + "\u{0}"@));
    }
    if p.action == "forget_fact"@ || p.action == "forget_all"@ {
        assert(key.subrange(0, 7) =~= "forget_"@);
        assert(text::starts(key, "forget_"@));
    }
    if p.action == "recall"@ || p.action == "inspect_result"@ {
        assert(key[0] != 'f' && key[2] != 'm');
        assert("forget_"@[0] == 'f' && ("remember_fact"@ + "\u{0}"@)[2] == 'm');
        assert(!text::starts(key, "forget_"@)) by {
            assert(key.subrange(0, 7)[0] == key[0]);
        }
        assert(!text::starts(key, "remember_fact"@ + "\u{0}"@)) by {
            if key.len() >= 14 {
                assert(key.subrange(0, 14)[2] == key[2]);
            }
        }
    }
}

proof fn lemma_more_calls(was: Seq<Seq<char>>, key: Seq<char>, prefix: Seq<char>)
    ensures
        some_call(with_text(was, key), prefix) <==> some_call(was, prefix) || text::starts(key, prefix),
{
    let now = with_text(was, key);
    if some_call(was, prefix) {
        let i = choose|i: int| 0 <= i < was.len() && text::starts(#[trigger] was[i], prefix);
        assert(now[i] == was[i]);
    }
    if text::starts(key, prefix) {
        if was.contains(key) {
            let i = choose|i: int| 0 <= i < was.len() && was[i] == key;
            assert(text::starts(now[i], prefix));
        } else {
            assert(now[was.len() as int] == key);
        }
    }
    if some_call(now, prefix) {
        let i = choose|i: int| 0 <= i < now.len() && text::starts(#[trigger] now[i], prefix);
        if i < was.len() {
            assert(was[i] == now[i]);
        }
    }
}

/// A list takes a text in once, at its end.
pub proof fn a_list_takes_a_text_once(list: Seq<Seq<char>>, s: Seq<char>)
    ensures
        with_text(list, s).contains(s),
        list.is_prefix_of(with_text(list, s)),
        with_text(list, s).len() == list.len() + if list.contains(s) { 0int } else { 1int },
{
    if !list.contains(s) {
        assert(list.push(s)[list.len() as int] == s);
        assert(list.push(s).take(list.len() as int) =~= list);
    } else {
        assert(list.take(list.len() as int) =~= list);
    }
}

} // verus!
