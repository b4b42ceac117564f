//! One turn at a time per session, and several sessions at once.
//!
//! Each active session has a mailbox and one task that drains it, so a turn of a
//! session cannot begin before the one before it has ended. The decisions are
//! here: which mailbox a message goes to, what a stopping task leaves behind,
//! what a failure costs. Whoever drives them waits and runs the tasks.

use vstd::prelude::*;

use crate::text;
use crate::text::{cat4, same};
use crate::turn::accounting::EngineError;
use crate::types::SessionId;

verus! {

/// How many messages a mailbox holds before its sender waits.
pub const MAILBOX_DEPTH: usize = 16;

/// A message of a session.
#[derive(Debug)]
pub struct Incoming {
    pub session: SessionId,
    pub text: String,
}

pub struct IncomingV {
    pub session: Seq<char>,
    pub text: Seq<char>,
}

impl DeepView for Incoming {
    type V = IncomingV;

    open spec fn deep_view(&self) -> IncomingV {
        IncomingV {
            session: self.session.deep_view(),
            text: self.text.deep_view(),
        }
    }
}

impl Clone for Incoming {
    fn clone(&self) -> (r: Self)
        ensures
            r.deep_view() == self.deep_view(),
    {
        let r: Incoming = Incoming {
            session: self.session.clone(),
            text: self.text.clone(),
        };
        r
    }
}

// ---------------------------------------------------------------------------
// What a failure costs
// ---------------------------------------------------------------------------

/// What is done about a turn that failed.
#[derive(Debug, Clone, Copy, PartialEq, Eq, Structural)]
pub enum TurnFailure {
    /// A failed turn ends the run.
    Fatal,
    /// A failed session ends, and the others go on.
    Isolate,
}

impl Default for TurnFailure {
    fn default() -> (r: Self)
        ensures
            r == TurnFailure::Fatal,
    {
        TurnFailure::Fatal
    }
}

/// What one failure costs.
#[derive(Debug, Clone, Copy, PartialEq, Eq, Structural)]
pub enum Cost {
    Run,
    Session,
}

impl TurnFailure {
    /// A lost store ends the run and so does a spent budget. A lost connection
    /// is one session's, where sessions are kept apart.
    pub open spec fn costs(self, e: EngineError) -> Cost {
        match e {
            EngineError::Store { .. } => Cost::Run,
            EngineError::RequestCap { .. } => Cost::Run,
            EngineError::Channel { .. } => match self {
                TurnFailure::Fatal => Cost::Run,
                TurnFailure::Isolate => Cost::Session,
            },
        }
    }

    pub fn verdict(self, e: &EngineError) -> (r: Cost)
        ensures
            r == self.costs(*e),
    {
        match e {
            EngineError::Store { .. } => Cost::Run,
            EngineError::RequestCap { .. } => Cost::Run,
            EngineError::Channel { .. } => match self {
                TurnFailure::Fatal => Cost::Run,
                TurnFailure::Isolate => Cost::Session,
            },
        }
    }
}

/// What a panic was raised with, as far as it can be read.
#[derive(Debug)]
pub enum PanicPayload {
    Owned { text: String },
    Borrowed { literal: &'static str },
    Other,
}

impl PanicPayload {
    pub open spec fn says(&self) -> Seq<char> {
        match self {
            PanicPayload::Owned { text } => text@,
            PanicPayload::Borrowed { literal } => literal@,
            PanicPayload::Other => "a panic payload of neither String nor &str"@,
        }
    }
}

/// What a panic says. One that cannot be read is described.
pub fn panic_message(payload: &PanicPayload) -> (r: String)
    ensures
        r@ == payload.says(),
{
    match payload {
        PanicPayload::Owned { text } => text.clone(),
        PanicPayload::Borrowed { literal } => (*literal).to_owned(),
        PanicPayload::Other => "a panic payload of neither String nor &str".to_owned(),
    }
}

/// Why a session stopped, when it stopped badly.
#[derive(Debug)]
pub enum Failure {
    Turn { error: EngineError },
    /// The turn panicked, and the panic was contained.
    Panic { message: String },
}

// ---------------------------------------------------------------------------
// Slots
// ---------------------------------------------------------------------------

/// How many turns may run at once: at least one, or none ever would.
pub fn slots_for(asked: usize) -> (r: usize)
    ensures
        r == (if asked == 0 {
            1
        } else {
            asked
        }),
{
    if asked == 0 {
        1
    } else {
        asked
    }
}

/// Whether the consolidator may run: a turn has ended since its last pass, and
/// none is running.
pub fn may_consolidate(turns_since_pass: u32, free_slots: usize, slots: usize) -> (r: bool)
    ensures
        r == (turns_since_pass > 0 && free_slots >= slots),
{
    turns_since_pass > 0 && free_slots >= slots
}

// ---------------------------------------------------------------------------
// Mailboxes
// ---------------------------------------------------------------------------

/// The mailbox of a session, and which task drains it.
#[derive(Debug)]
pub struct Mailbox {
    pub session: SessionId,
    pub generation: u64,
}

pub struct MailboxV {
    pub session: Seq<char>,
    pub generation: u64,
}

impl DeepView for Mailbox {
    type V = MailboxV;

    open spec fn deep_view(&self) -> MailboxV {
        MailboxV {
            session: self.session.deep_view(),
            generation: self.generation,
        }
    }
}

impl Clone for Mailbox {
    fn clone(&self) -> (r: Self)
        ensures
            r.deep_view() == self.deep_view(),
    {
        let r: Mailbox = Mailbox {
            session: self.session.clone(),
            generation: self.generation,
        };
        r
    }
}

/// The live sessions. Tasks are numbered, so that a late report of an old one
/// cannot be taken for one of the task that followed it.
#[derive(Debug)]
pub struct Mailboxes {
    pub open: Vec<Mailbox>,
    pub generations: u64,
}

pub struct MailboxesV {
    pub open: Seq<MailboxV>,
    pub generations: u64,
}

impl DeepView for Mailboxes {
    type V = MailboxesV;

    open spec fn deep_view(&self) -> MailboxesV {
        MailboxesV { open: self.open.deep_view(), generations: self.generations }
    }
}

/// No session has two mailboxes, and no task number is beyond the last given.
pub open spec fn orderly(m: MailboxesV) -> bool {
    &&& forall|i: int, j: int|
        #![trigger m.open[i], m.open[j]]
        0 <= i < j < m.open.len() ==> m.open[i].session != m.open[j].session && m.open[i].generation
            != m.open[j].generation
    &&& forall|i: int| 0 <= i < m.open.len() ==> (#[trigger] m.open[i]).generation <= m.generations
}

/// The task of a session.
pub open spec fn task_of(open: Seq<MailboxV>, session: Seq<char>) -> Option<u64>
    decreases open.len(),
{
    if open.len() == 0 {
        None
    } else if open[0].session == session {
        Some(open[0].generation)
    } else {
        task_of(open.drop_first(), session)
    }
}

/// The mailboxes with one for the session: a session without one gets a new
/// task.
pub open spec fn opened(m: MailboxesV, session: Seq<char>) -> MailboxesV {
    if task_of(m.open, session) is Some {
        m
    } else {
        MailboxesV {
            open: m.open.push(MailboxV { session, generation: (m.generations + 1) as u64 }),
            generations: (m.generations + 1) as u64,
        }
    }
}

/// The mailboxes without that of a session, where it is the one that the task
/// drained.
pub open spec fn evicted(open: Seq<MailboxV>, session: Seq<char>, generation: u64) -> Seq<MailboxV> {
    open.filter(|m: MailboxV| !(m.session == session && m.generation == generation))
}

/// A mailbox and whether a task is to be started for it.
#[derive(Debug, Clone, Copy, PartialEq, Eq, Structural)]
pub struct Opened {
    pub generation: u64,
    pub fresh: bool,
}

impl Mailboxes {
    pub fn new() -> (r: Self)
        ensures
            r.deep_view() == (MailboxesV { open: seq![], generations: 0 }),
            orderly(r.deep_view()),
    {
        let r: Mailboxes = Mailboxes { open: Vec::new(), generations: 0 };
        proof {
            assert(r.open.deep_view() =~= seq![]);
        }
        r
    }

    fn find(&self, session: &SessionId) -> (r: Option<u64>)
        ensures
            r == task_of(self.deep_view().open, session.deep_view()),
    {
        let ghost all = self.open.deep_view();
        let mut i: usize = 0;
        proof {
            assert(all.skip(0) =~= all);
        }
        while i < self.open.len()
            invariant
                i <= self.open@.len(),
                all == self.open.deep_view(),
                task_of(all, session.deep_view()) == task_of(all.skip(i as int), session.deep_view()),
            decreases self.open@.len() - i,
        {
            proof {
                assert(all.skip(i as int)[0] == self.open@[i as int].deep_view());
                assert(all.skip(i as int).drop_first() =~= all.skip(i + 1));
            }
            if same(self.open[i].session.0.as_str(), session.0.as_str()) {
                return Some(self.open[i].generation);
            }
            i = i + 1;
        }
        None
    }

    /// The mailbox of a session, opened where it has none.
    pub fn mailbox(&mut self, session: &SessionId) -> (r: Opened)
        requires
            orderly(old(self).deep_view()),
            old(self).generations < u64::MAX,
        ensures
            final(self).deep_view() == opened(old(self).deep_view(), session.deep_view()),
            orderly(final(self).deep_view()),
            r.fresh == (task_of(old(self).deep_view().open, session.deep_view()) is None),
            task_of(final(self).deep_view().open, session.deep_view()) == Some(r.generation),
    {
        let ghost before = self.deep_view();
        match self.find(session) {
            Some(generation) => Opened { generation, fresh: false },
            None => {
                self.generations = self.generations + 1;
                let one: Mailbox = Mailbox { session: session.clone(), generation: self.generations };
                self.open.push(one);
                proof {
                    assert(self.open.deep_view() =~= before.open.push(one.deep_view()));
                    opening_keeps_order(before, session.deep_view());
                }
                Opened { generation: self.generations, fresh: true }
            },
        }
    }

    /// Take away the mailbox that a task drained. A report of an older task
    /// takes away nothing.
    pub fn evict(&mut self, session: &SessionId, generation: u64)
        ensures
            final(self).deep_view() == (MailboxesV {
                open: evicted(old(self).deep_view().open, session.deep_view(), generation),
                ..old(self).deep_view()
            }),
            orderly(old(self).deep_view()) ==> orderly(final(self).deep_view()),
    {
        let ghost all = self.open.deep_view();
        let ghost sv = session.deep_view();
        let ghost keep = |m: MailboxV| !(m.session == sv && m.generation == generation);
        let mut out: Vec<Mailbox> = Vec::new();
        let mut i: usize = 0;
        proof {
            reveal(Seq::filter);
            assert(all.take(0).filter(keep) =~= seq![]);
            assert(out.deep_view() =~= seq![]);
        }
        while i < self.open.len()
            invariant
                i <= self.open@.len(),
                all == self.open.deep_view(),
                *self == *old(self),
                sv == session.deep_view(),
                keep == (|m: MailboxV| !(m.session == sv && m.generation == generation)),
                out.deep_view() == all.take(i as int).filter(keep),
            decreases self.open@.len() - i,
        {
            proof {
                reveal(Seq::filter);
                assert(all.take(i + 1).drop_last() =~= all.take(i as int));
                assert(all.take(i + 1).last() == self.open@[i as int].deep_view());
            }
            let gone: bool = self.open[i].generation == generation && same(
                self.open[i].session.0.as_str(),
                session.0.as_str(),
            );
            if !gone {
                let ghost before = out.deep_view();
                let one: Mailbox = self.open[i].clone();
                out.push(one);
                proof {
                    assert(out.deep_view() =~= before.push(one.deep_view()));
                }
            }
            i = i + 1;
        }
        proof {
            assert(all.take(all.len() as int) =~= all);
            if orderly(self.deep_view()) {
                evicting_keeps_order(self.deep_view(), sv, generation);
            }
        }
        self.open = out;
    }

    /// Take away the mailbox of a session, whatever task drains it.
    pub fn forget(&mut self, session: &SessionId)
        ensures
            final(self).deep_view() == (match task_of(old(self).deep_view().open, session.deep_view()) {
                Some(g) => MailboxesV {
                    open: evicted(old(self).deep_view().open, session.deep_view(), g),
                    ..old(self).deep_view()
                },
                None => old(self).deep_view(),
            }),
            orderly(old(self).deep_view()) ==> orderly(final(self).deep_view()),
    {
        if let Some(g) = self.find(session) {
            self.evict(session, g);
        }
    }

    /// Close every mailbox.
    pub fn clear(&mut self)
        ensures
            final(self).deep_view() == (MailboxesV { open: seq![], ..old(self).deep_view() }),
            orderly(final(self).deep_view()),
    {
        self.open = Vec::new();
        proof {
            assert(self.open.deep_view() =~= seq![]);
        }
    }
}

/// What a task leaves behind when it stops.
#[derive(Debug)]
pub struct Stopped {
    pub session: SessionId,
    pub generation: u64,
    /// Messages that came after it had decided to stop.
    pub leftovers: Vec<Incoming>,
    pub failure: Option<Failure>,
}

/// What is left to do about a task that stopped: deliver what it left, and say
/// what went wrong.
#[derive(Debug)]
pub struct Reaped {
    pub leftovers: Vec<Incoming>,
    pub notice: Option<String>,
}

/// Whether a stopped task ends the run.
pub open spec fn ends_the_run(policy: TurnFailure, failure: Option<Failure>) -> bool {
    failure matches Some(Failure::Turn { error }) && policy.costs(error) == Cost::Run
}

/// What is said of a session that went wrong.
pub open spec fn notice_of(session: Seq<char>, failure: Option<Failure>) -> Option<Seq<char>> {
    match failure {
        None => None,
        Some(Failure::Turn { error }) => Some("session "@ + session + ": "@ + error.says()),
        Some(Failure::Panic { message }) => Some("session "@ + session + ": the turn panicked: "@ + message@),
    }
}

impl Mailboxes {
    /// Take in what a stopped task left. A failure that ends the run is handed
    /// on; every other one costs its session alone.
    pub fn reap(&mut self, policy: TurnFailure, stopped: Stopped) -> (r: Result<Reaped, EngineError>)
        ensures
            ends_the_run(policy, stopped.failure) ==> *final(self) == *old(self) && r == Err::<Reaped, EngineError>(
                stopped.failure->0->error,
            ),
            !ends_the_run(policy, stopped.failure) ==> (r matches Ok(x) && x.leftovers == stopped.leftovers
                && x.notice.deep_view() == notice_of(stopped.session.deep_view(), stopped.failure)),
            !ends_the_run(policy, stopped.failure) ==> final(self).deep_view() == (MailboxesV {
                open: evicted(old(self).deep_view().open, stopped.session.deep_view(), stopped.generation),
                ..old(self).deep_view()
            }),
            orderly(old(self).deep_view()) ==> orderly(final(self).deep_view()),
    {
        let notice: Option<String> = match stopped.failure {
            None => None,
            Some(Failure::Turn { error }) => {
                if policy.verdict(&error) == Cost::Run {
                    return Err(error);
                }
                let said: String = error.message();
                Some(cat4("session ", stopped.session.0.as_str(), ": ", said.as_str()))
            },
            Some(Failure::Panic { message }) => Some(
                cat4("session ", stopped.session.0.as_str(), ": the turn panicked: ", message.as_str()),
            ),
        };
        self.evict(&stopped.session, stopped.generation);
        Ok(Reaped { leftovers: stopped.leftovers, notice })
    }
}

// ---------------------------------------------------------------------------
// Delivery
// ---------------------------------------------------------------------------

/// The messages still to be delivered after a mailbox refused one: what the
/// stopped task left comes first, then the refused message, then the rest.
pub open spec fn requeued(leftovers: Seq<IncomingV>, refused: IncomingV, rest: Seq<IncomingV>) -> Seq<IncomingV> {
    leftovers + seq![refused] + rest
}

/// Queue a refused message again, behind what the stopped task left.
pub fn requeue(leftovers: Vec<Incoming>, refused: Incoming, rest: &mut Vec<Incoming>)
    ensures
        final(rest).deep_view() == requeued(leftovers.deep_view(), refused.deep_view(), old(rest).deep_view()),
{
    let ghost lv = leftovers.deep_view();
    let ghost fv = refused.deep_view();
    let ghost rv = rest.deep_view();
    let mut out: Vec<Incoming> = leftovers;
    out.push(refused);
    proof {
        assert(out.deep_view() =~= lv + seq![fv]);
    }
    let ghost a = out.deep_view();
    out.append(rest);
    proof {
        assert(out.deep_view() =~= a + rv);
    }
    *rest = out;
}

/// What came of a wait.
#[derive(Debug)]
pub enum Next {
    Message { incoming: Incoming },
    /// Nothing came in time.
    Idle,
    Closed,
}

/// What a wait on the channel gave.
#[derive(Debug)]
pub enum Received {
    Message { incoming: Incoming },
    Closed,
    Failed { detail: String },
    Elapsed,
}

/// What a wait on the channel means: a closed channel ends the run in order, a
/// failing one ends it with the error.
pub fn wait(received: Received) -> (r: Result<Next, EngineError>)
    ensures
        r == (match received {
            Received::Message { incoming } => Ok::<Next, EngineError>(Next::Message { incoming }),
            Received::Closed => Ok(Next::Closed),
            Received::Elapsed => Ok(Next::Idle),
            Received::Failed { detail } => Err(EngineError::Channel { detail }),
        }),
{
    match received {
        Received::Message { incoming } => Ok(Next::Message { incoming }),
        Received::Closed => Ok(Next::Closed),
        Received::Elapsed => Ok(Next::Idle),
        Received::Failed { detail } => Err(EngineError::Channel { detail }),
    }
}

// ---------------------------------------------------------------------------
// One session
// ---------------------------------------------------------------------------

/// The loop of one session. A summary is owed once a turn has ended, and it is
/// finished before the next turn begins.
#[derive(Debug)]
pub struct SessionLoop {
    pub summary_due: bool,
}

/// What a session does next.
#[derive(Debug)]
pub enum SessionStep {
    RunTurn { incoming: Incoming },
    Send { text: String },
    Wait,
    Stop { failure: Option<Failure> },
}

impl SessionLoop {
    pub fn new() -> (r: Self)
        ensures
            r == (SessionLoop { summary_due: false }),
    {
        SessionLoop { summary_due: false }
    }

    /// Whether a summary is to be finished beside the wait for a message.
    pub fn owes_summary(&self) -> (r: bool)
        ensures
            r == self.summary_due,
    {
        self.summary_due
    }

    /// After a wait: run the message, or stop where there is none.
    pub fn on_next(&self, next: Next) -> (r: SessionStep)
        ensures
            r == (match next {
                Next::Message { incoming } => SessionStep::RunTurn { incoming },
                Next::Idle => SessionStep::Stop { failure: None },
                Next::Closed => SessionStep::Stop { failure: None },
            }),
    {
        match next {
            Next::Message { incoming } => SessionStep::RunTurn { incoming },
            Next::Idle => SessionStep::Stop { failure: None },
            Next::Closed => SessionStep::Stop { failure: None },
        }
    }

    /// After a turn: its reply is sent.
    pub fn on_turn(&self, result: Result<String, EngineError>) -> (r: SessionStep)
        ensures
            r == (match result {
                Ok(text) => SessionStep::Send { text },
                Err(error) => SessionStep::Stop { failure: Some(Failure::Turn { error }) },
            }),
    {
        match result {
            Ok(text) => SessionStep::Send { text },
            Err(error) => SessionStep::Stop { failure: Some(Failure::Turn { error }) },
        }
    }

    /// After the reply was sent: a summary may be owed. A reply that could not
    /// be sent is a failed turn.
    pub fn on_sent(&mut self, result: Result<(), String>) -> (r: SessionStep)
        ensures
            match result {
                Ok(_) => r == SessionStep::Wait && final(self).summary_due,
                Err(detail) => r == (SessionStep::Stop {
                    failure: Some(Failure::Turn { error: EngineError::Channel { detail } }),
                }) && final(self).summary_due == old(self).summary_due,
            },
    {
        match result {
            Ok(_) => {
                self.summary_due = true;
                SessionStep::Wait
            },
            Err(detail) => SessionStep::Stop {
                failure: Some(Failure::Turn { error: EngineError::Channel { detail } }),
            },
        }
    }
}

// ---------------------------------------------------------------------------
// Laws
// ---------------------------------------------------------------------------

proof fn lemma_task_of(open: Seq<MailboxV>, session: Seq<char>)
    ensures
        task_of(open, session) matches Some(g) ==> exists|i: int|
            0 <= i < open.len() && (#[trigger] open[i]).session == session && open[i].generation == g,
        task_of(open, session) is None <==> forall|i: int|
            0 <= i < open.len() ==> (#[trigger] open[i]).session != session,
    decreases open.len(),
{
    if open.len() > 0 && open[0].session != session {
        let rest = open.drop_first();
        lemma_task_of(rest, session);
        if task_of(rest, session) is Some {
            let i = choose|i: int|
                0 <= i < rest.len() && (#[trigger] rest[i]).session == session && rest[i].generation == task_of(
                    rest,
                    session,
                )->0;
            assert(open[i + 1] == rest[i]);
        } else {
            assert forall|i: int| 0 <= i < open.len() implies (#[trigger] open[i]).session != session by {
                if i > 0 {
                    assert(rest[i - 1] == open[i]);
                }
            }
        }
    }
}

proof fn lemma_task_at(open: Seq<MailboxV>, session: Seq<char>, i: int)
    requires
        0 <= i < open.len(),
        open[i].session == session,
        forall|j: int| 0 <= j < i ==> (#[trigger] open[j]).session != session,
    ensures
        task_of(open, session) == Some(open[i].generation),
    decreases open.len(),
{
    if i > 0 {
        let rest = open.drop_first();
        assert(rest[i - 1] == open[i]);
        assert forall|j: int| 0 <= j < i - 1 implies (#[trigger] rest[j]).session != session by {
            assert(rest[j] == open[j + 1]);
        }
        assert(open[0].session != session);
        lemma_task_at(rest, session, i - 1);
    }
}

/// Opening a mailbox keeps sessions and tasks apart: a session has one task at a
/// time, and a new task has a number of its own.
pub proof fn opening_keeps_order(m: MailboxesV, session: Seq<char>)
    requires
        orderly(m),
        m.generations < u64::MAX,
    ensures
        orderly(opened(m, session)),
        task_of(opened(m, session).open, session) is Some,
        task_of(m.open, session) is None ==> task_of(opened(m, session).open, session) == Some(
            (m.generations + 1) as u64,
        ),
{
    lemma_task_of(m.open, session);
    let u = opened(m, session);
    if task_of(m.open, session) is None {
        assert forall|i: int, j: int|
            #![trigger u.open[i], u.open[j]]
            0 <= i < j < u.open.len() implies u.open[i].session != u.open[j].session && u.open[i].generation
            != u.open[j].generation by {
            assert(u.open[i] == m.open[i]);
            if j < m.open.len() {
                assert(u.open[j] == m.open[j]);
            }
        }
        assert forall|i: int| 0 <= i < u.open.len() implies (#[trigger] u.open[i]).generation <= u.generations by {
            if i < m.open.len() {
                assert(u.open[i] == m.open[i]);
            }
        }
        let n = m.open.len() as int;
        assert forall|j: int| 0 <= j < n implies (#[trigger] u.open[j]).session != session by {
            assert(u.open[j] == m.open[j]);
        }
        lemma_task_at(u.open, session, n);
    }
}

proof fn lemma_kept_is_there<A>(s: Seq<A>, keep: spec_fn(A) -> bool, i: int) -> (k: int)
    requires
        0 <= i < s.filter(keep).len(),
    ensures
        0 <= k < s.len(),
        s[k] == s.filter(keep)[i],
    decreases s.len(),
{
    reveal(Seq::filter);
    let rest = s.drop_last();
    if i < rest.filter(keep).len() {
        lemma_kept_is_there(rest, keep, i)
    } else {
        s.len() - 1
    }
}

/// Taking a mailbox away keeps the others as they are, and sessions and tasks
/// apart.
pub proof fn evicting_keeps_order(m: MailboxesV, session: Seq<char>, generation: u64)
    requires
        orderly(m),
    ensures
        orderly(MailboxesV { open: evicted(m.open, session, generation), ..m }),
    decreases m.open.len(),
{
    reveal(Seq::filter);
    let keep = |x: MailboxV| !(x.session == session && x.generation == generation);
    if m.open.len() > 0 {
        let front = m.open.drop_last();
        let n = MailboxesV { open: front, ..m };
        assert(orderly(n)) by {
            assert forall|i: int, j: int|
                #![trigger n.open[i], n.open[j]]
                0 <= i < j < n.open.len() implies n.open[i].session != n.open[j].session && n.open[i].generation
                != n.open[j].generation by {
                assert(n.open[i] == m.open[i] && n.open[j] == m.open[j]);
            }
            assert forall|i: int| 0 <= i < n.open.len() implies (#[trigger] n.open[i]).generation
                <= n.generations by {
                assert(n.open[i] == m.open[i]);
            }
        }
        evicting_keeps_order(n, session, generation);
        let kept = front.filter(keep);
        let last = m.open.last();
        let u = MailboxesV { open: evicted(m.open, session, generation), ..m };
        if keep(last) {
            assert(u.open == kept.push(last));
            assert forall|i: int, j: int|
                #![trigger u.open[i], u.open[j]]
                0 <= i < j < u.open.len() implies u.open[i].session != u.open[j].session && u.open[i].generation
                != u.open[j].generation by {
                let v = MailboxesV { open: kept, ..m };
                if j < kept.len() {
                    assert(v.open[i] == u.open[i] && v.open[j] == u.open[j]);
                } else {
                    let k = lemma_kept_is_there(front, keep, i);
                    assert(m.open[k] == front[k]);
                    assert(m.open[m.open.len() - 1] == last);
                    assert(u.open[i] == m.open[k]);
                }
            }
            assert forall|i: int| 0 <= i < u.open.len() implies (#[trigger] u.open[i]).generation <= u.generations by {
                if i < kept.len() {
                    let v = MailboxesV { open: kept, ..m };
                    assert(v.open[i] == u.open[i]);
                } else {
                    assert(m.open[m.open.len() - 1] == last);
                }
            }
        }
    }
}

/// A late report of a task that was replaced takes no mailbox away.
pub proof fn an_old_task_evicts_nothing(m: MailboxesV, session: Seq<char>, generation: u64)
    requires
        orderly(m),
        task_of(m.open, session) != Some(generation),
    ensures
        evicted(m.open, session, generation) == m.open,
{
    lemma_task_of(m.open, session);
    assert forall|i: int| 0 <= i < m.open.len() implies !((#[trigger] m.open[i]).session == session
        && m.open[i].generation == generation) by {
        if m.open[i].session == session {
            assert forall|j: int| 0 <= j < i implies (#[trigger] m.open[j]).session != session by {}
            lemma_task_at(m.open, session, i);
        }
    }
    lemma_keep_all(m.open, |x: MailboxV| !(x.session == session && x.generation == generation));
}

proof fn lemma_keep_all<A>(s: Seq<A>, keep: spec_fn(A) -> bool)
    requires
        forall|i: int| 0 <= i < s.len() ==> keep(#[trigger] s[i]),
    ensures
        s.filter(keep) == s,
    decreases s.len(),
{
    reveal(Seq::filter);
    if s.len() > 0 {
        let rest = s.drop_last();
        assert forall|i: int| 0 <= i < rest.len() implies keep(#[trigger] rest[i]) by {
            assert(rest[i] == s[i]);
        }
        lemma_keep_all(rest, keep);
        assert(keep(s[s.len() - 1]));
        assert(rest.push(s.last()) =~= s);
    }
}

/// No message is lost to a task that stops: everything that it left, and what it
/// refused, is delivered again, in the order in which it came.
pub proof fn no_message_is_lost(leftovers: Seq<IncomingV>, refused: IncomingV, rest: Seq<IncomingV>)
    ensures
        requeued(leftovers, refused, rest).len() == leftovers.len() + 1 + rest.len(),
        forall|i: int| 0 <= i < leftovers.len() ==> #[trigger] requeued(leftovers, refused, rest)[i] == leftovers[i],
        requeued(leftovers, refused, rest)[leftovers.len() as int] == refused,
        forall|i: int|
            0 <= i < rest.len() ==> requeued(leftovers, refused, rest)[leftovers.len() + 1 + i] == #[trigger] rest[i],
{
    let q = requeued(leftovers, refused, rest);
    assert forall|i: int| 0 <= i < rest.len() implies q[leftovers.len() + 1 + i] == #[trigger] rest[i] by {}
}

/// Under the default policy every failed turn ends the run; where sessions are
/// kept apart, a lost connection costs one session and a lost store still ends
/// the run.
pub proof fn what_failures_cost(e: EngineError)
    ensures
        TurnFailure::Fatal.costs(e) == Cost::Run,
        e is Channel ==> TurnFailure::Isolate.costs(e) == Cost::Session,
        !(e is Channel) ==> TurnFailure::Isolate.costs(e) == Cost::Run,
{
}

/// A task that stopped gives up its session's mailbox, and no other session loses its own.
pub proof fn a_stopped_task_gives_up_its_mailbox(m: MailboxesV, session: Seq<char>, generation: u64, other: Seq<char>)
    requires
        orderly(m),
        task_of(m.open, session) == Some(generation),
    ensures
        task_of(evicted(m.open, session, generation), session) is None,
        other != session ==> task_of(evicted(m.open, session, generation), other) == task_of(m.open, other),
{
    let keep = |x: MailboxV| !(x.session == session && x.generation == generation);
    let left = evicted(m.open, session, generation);
    lemma_task_of(left, session);
    lemma_task_of(m.open, session);
    assert forall|i: int| 0 <= i < left.len() implies (#[trigger] left[i]).session != session by {
        m.open.lemma_filter_pred(keep, i);
        let k = lemma_kept_is_there(m.open, keep, i);
        let c = choose|c: int|
            0 <= c < m.open.len() && (#[trigger] m.open[c]).session == session && m.open[c].generation == generation;
        if left[i].session == session {
            if k < c {
                assert(m.open[k].session != m.open[c].session);
            } else if c < k {
                assert(m.open[c].session != m.open[k].session);
            }
        }
    }
    if other != session {
        lemma_task_filtered(m.open, keep, other);
    }
}

proof fn lemma_task_filtered(open: Seq<MailboxV>, keep: spec_fn(MailboxV) -> bool, other: Seq<char>)
    requires
        forall|x: MailboxV| x.session == other ==> #[trigger] keep(x),
    ensures
        task_of(open.filter(keep), other) == task_of(open, other),
    decreases open.len(),
{
    reveal(Seq::filter);
    if open.len() > 0 {
        let past = open.drop_last();
        let last = open.last();
        lemma_task_filtered(past, keep, other);
        lemma_task_push(past, last, other);
        lemma_task_push(past.filter(keep), last, other);
        assert(past.push(last) =~= open);
    }
}

proof fn lemma_task_push(open: Seq<MailboxV>, last: MailboxV, other: Seq<char>)
    ensures
        task_of(open.push(last), other) == (match task_of(open, other) {
            Some(g) => Some(g),
            None => if last.session == other {
                Some(last.generation)
            } else {
                None
            },
        }),
    decreases open.len(),
{
    if open.len() > 0 {
        let rest = open.drop_first();
        lemma_task_push(rest, last, other);
        assert(open.push(last).drop_first() =~= rest.push(last));
    } else {
        assert(open.push(last).drop_first() =~= seq![]);
        reveal_with_fuel(task_of, 2);
    }
}

/// A session without a mailbox gets one with the next number, and no other changes.
pub proof fn opening_leaves_others_alone(m: MailboxesV, session: Seq<char>, other: Seq<char>)
    requires
        m.generations < u64::MAX,
    ensures
        other != session ==> task_of(opened(m, session).open, other) == task_of(m.open, other),
        task_of(m.open, session) is Some ==> opened(m, session) == m,
        task_of(m.open, session) is None ==> opened(m, session).generations == m.generations + 1,
{
    if task_of(m.open, session) is None {
        lemma_task_push(m.open, MailboxV { session, generation: (m.generations + 1) as u64 }, other);
    }
}

/// Only a failed turn can end the run: a session that stopped in order never does, nor one
/// whose turn panicked; and a failed turn does where the policy or the failure says so.
pub proof fn what_ends_the_run(policy: TurnFailure, failure: Option<Failure>)
    ensures
        failure is None ==> !ends_the_run(policy, failure),
        failure matches Some(Failure::Panic { .. }) ==> !ends_the_run(policy, failure),
        failure matches Some(Failure::Turn { error }) ==> (ends_the_run(policy, failure) <==> policy is Fatal || error is Store
            || error is RequestCap),
{
}

/// What is said of a session that went wrong names it and says why; one that stopped in
/// order is passed over.
pub proof fn what_is_said_of_a_failure(session: Seq<char>, failure: Option<Failure>)
    ensures
        failure is None <==> notice_of(session, failure) is None,
        failure matches Some(Failure::Panic { message }) ==> notice_of(session, failure) == Some(
            "session "@ + session + ": the turn panicked: "@ + message@,
        ),
        failure matches Some(Failure::Turn { error }) ==> notice_of(session, failure) == Some(
            "session "@ + session + ": "@ + match error {
                EngineError::Store { detail } => "store: "@ + detail@,
                EngineError::Channel { detail } => "channel: "@ + detail@,
                EngineError::RequestCap { spent, cap } => "request cap "@ + crate::text::decimal(cap as nat)
                    + " reached after "@ + crate::text::decimal(spent as nat) + " requests"@,
            },
        ),
{
}

} // verus!
