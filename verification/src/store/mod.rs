//! The reference memory: events by session, every version of every fact,
//! artifacts by their digest, one digest per session.

use vstd::prelude::*;

use crate::events::{ArtifactId, Event, EventKind, EventKindV, EventV};
use crate::facts::{Fact, FactV, SessionDigest, SessionDigestV, TurnHit, TurnHitV};
use crate::ranking;
use crate::ranking::{rank, RankKey, RankKeyV};
use crate::text;
use crate::text::{cat5, has, join, same, starts_with};
use crate::types::{FactState, SessionId, Timestamp};
use crate::unicode;

pub mod conformance;
pub mod laws;

verus! {

/// Why a read of the store gave nothing.
#[derive(Debug, Clone, Copy, PartialEq, Eq, Structural)]
pub enum StoreError {
    NotFound,
}

/// The stored events of one session.
#[derive(Debug)]
pub struct SessionLog {
    pub session: SessionId,
    pub events: Vec<Event>,
}

pub struct SessionLogV {
    pub session: Seq<char>,
    pub events: Seq<EventV>,
}

impl DeepView for SessionLog {
    type V = SessionLogV;

    open spec fn deep_view(&self) -> SessionLogV {
        SessionLogV {
            session: self.session.deep_view(),
            events: self.events.deep_view(),
        }
    }
}

impl Clone for SessionLog {
    fn clone(&self) -> (r: Self)
        ensures
            r.deep_view() == self.deep_view(),
    {
        let r: SessionLog = SessionLog {
            session: self.session.clone(),
            events: self.events.clone(),
        };
        proof {
            assert(r.events.deep_view() =~= self.events.deep_view());
        }
        r
    }
}

/// A stored artifact under its digest.
#[derive(Debug)]
pub struct Artifact {
    pub id: ArtifactId,
    pub content: Vec<u8>,
}

pub struct ArtifactV {
    pub id: ArtifactId,
    pub content: Seq<u8>,
}

impl DeepView for Artifact {
    type V = ArtifactV;

    open spec fn deep_view(&self) -> ArtifactV {
        ArtifactV {
            id: self.id,
            content: self.content.deep_view(),
        }
    }
}

impl Clone for Artifact {
    fn clone(&self) -> (r: Self)
        ensures
            r.deep_view() == self.deep_view(),
    {
        let r: Artifact = Artifact {
            id: self.id,
            content: self.content.clone(),
        };
        proof {
            assert(r.content.deep_view() =~= self.content.deep_view());
        }
        r
    }
}

/// A memory that keeps everything in the process.
#[derive(Debug)]
pub struct InMemoryStore {
    pub logs: Vec<SessionLog>,
    /// Every version of every fact, in the order of writing.
    pub facts: Vec<Fact>,
    pub artifacts: Vec<Artifact>,
    /// At most one digest per session.
    pub digests: Vec<SessionDigest>,
}

pub struct StoreV {
    pub logs: Seq<SessionLogV>,
    pub facts: Seq<FactV>,
    pub artifacts: Seq<ArtifactV>,
    pub digests: Seq<SessionDigestV>,
}

impl DeepView for InMemoryStore {
    type V = StoreV;

    open spec fn deep_view(&self) -> StoreV {
        StoreV {
            logs: self.logs.deep_view(),
            facts: self.facts.deep_view(),
            artifacts: self.artifacts.deep_view(),
            digests: self.digests.deep_view(),
        }
    }
}

/// `items` in the order `ord`.
pub open spec fn picked<A>(items: Seq<A>, ord: Seq<int>) -> Seq<A> {
    Seq::new(ord.len(), |i: int| items[ord[i]])
}

/// A list with at most `k` items, from the front.
pub open spec fn at_most<A>(items: Seq<A>, k: nat) -> Seq<A> {
    if items.len() <= k {
        items
    } else {
        items.take(k as int)
    }
}

// ---------------------------------------------------------------------------
// Events
// ---------------------------------------------------------------------------

/// Where the session's log is.
pub open spec fn log_at(logs: Seq<SessionLogV>, session: Seq<char>) -> Option<int>
    decreases logs.len(),
{
    if logs.len() == 0 {
        None
    } else {
        match log_at(logs.drop_last(), session) {
            Some(i) => Some(i),
            None => if logs.last().session == session {
                Some(logs.len() - 1)
            } else {
                None
            },
        }
    }
}

/// The stored events of a session; none where nothing was stored.
pub open spec fn loaded(logs: Seq<SessionLogV>, session: Seq<char>) -> Seq<EventV> {
    match log_at(logs, session) {
        Some(i) => logs[i].events,
        None => seq![],
    }
}

/// The number of the last stored event.
pub open spec fn last_id(events: Seq<EventV>) -> u64 {
    if events.len() == 0 {
        0
    } else {
        events.last().id.0
    }
}

/// `stored` with those of `events` that come after it.
pub open spec fn extended(stored: Seq<EventV>, events: Seq<EventV>) -> Seq<EventV> {
    stored + events.filter(|e: EventV| e.id.0 > last_id(stored))
}

/// The logs after events were appended to a session.
pub open spec fn logs_after(logs: Seq<SessionLogV>, session: Seq<char>, events: Seq<EventV>) -> Seq<SessionLogV> {
    match log_at(logs, session) {
        Some(i) => logs.update(i, SessionLogV { session: logs[i].session, events: extended(logs[i].events, events) }),
        None => logs.push(SessionLogV { session, events: extended(seq![], events) }),
    }
}

pub proof fn lemma_log_at(logs: Seq<SessionLogV>, session: Seq<char>)
    ensures
        match log_at(logs, session) {
            Some(i) => 0 <= i < logs.len() && logs[i].session == session && forall|j: int|
                0 <= j < i ==> (#[trigger] logs[j]).session != session,
            None => forall|j: int| 0 <= j < logs.len() ==> (#[trigger] logs[j]).session != session,
        },
    decreases logs.len(),
{
    if logs.len() > 0 {
        lemma_log_at(logs.drop_last(), session);
        assert forall|j: int| 0 <= j < logs.len() - 1 implies (#[trigger] logs[j]) == logs.drop_last()[j] by {}
    }
}

proof fn lemma_log_at_is(logs: Seq<SessionLogV>, session: Seq<char>, i: int)
    requires
        0 <= i < logs.len(),
        logs[i].session == session,
        forall|j: int| 0 <= j < i ==> (#[trigger] logs[j]).session != session,
    ensures
        log_at(logs, session) == Some(i),
{
    lemma_log_at(logs, session);
}

impl InMemoryStore {
    pub fn new() -> (r: Self)
        ensures
            r.deep_view() == (StoreV { logs: seq![], facts: seq![], artifacts: seq![], digests: seq![] }),
    {
        let r: InMemoryStore = InMemoryStore {
            logs: Vec::new(),
            facts: Vec::new(),
            artifacts: Vec::new(),
            digests: Vec::new(),
        };
        proof {
            assert(r.logs.deep_view() =~= seq![]);
            assert(r.facts.deep_view() =~= seq![]);
            assert(r.artifacts.deep_view() =~= seq![]);
            assert(r.digests.deep_view() =~= seq![]);
        }
        r
    }

    fn find_log(&self, session: &SessionId) -> (r: Option<usize>)
        ensures
            match r {
                Some(i) => i < self.logs@.len() && log_at(self.logs.deep_view(), session.deep_view()) == Some(
                    i as int,
                ),
                None => log_at(self.logs.deep_view(), session.deep_view()) is None,
            },
    {
        let ghost all = self.logs.deep_view();
        let mut i: usize = 0;
        while i < self.logs.len()
            invariant
                i <= self.logs@.len(),
                all == self.logs.deep_view(),
                forall|j: int| 0 <= j < i ==> (#[trigger] all[j]).session != session.deep_view(),
            decreases self.logs@.len() - i,
        {
            assert(all[i as int] == self.logs@[i as int].deep_view());
            if same(self.logs[i].session.0.as_str(), session.0.as_str()) {
                proof {
                    lemma_log_at_is(all, session.deep_view(), i as int);
                }
                return Some(i);
            }
            i = i + 1;
        }
        proof {
            lemma_log_at(all, session.deep_view());
        }
        None
    }

    /// Store those events of a session that are not stored yet.
    pub fn append(&mut self, session: &SessionId, events: &Vec<Event>)
        ensures
            final(self).deep_view() == (StoreV {
                logs: logs_after(old(self).deep_view().logs, session.deep_view(), events.deep_view()),
                ..old(self).deep_view()
            }),
    {
        let ghost before = self.deep_view();
        let found: Option<usize> = self.find_log(session);
        let at: usize = match found {
            Some(i) => i,
            None => self.logs.len(),
        };
        let mut log: SessionLog = match found {
            Some(i) => self.logs[i].clone(),
            None => SessionLog { session: session.clone(), events: Vec::new() },
        };
        let ghost stored = log.events.deep_view();
        let ghost all = events.deep_view();
        let n: usize = log.events.len();
        let last: u64 = if n == 0 { 0 } else { log.events[n - 1].id.0 };
        let ghost keep = |e: EventV| e.id.0 > last_id(stored);
        proof {
            lemma_log_at(before.logs, session.deep_view());
            if found is Some {
                assert(log.deep_view() == before.logs[at as int]);
            }
            if n > 0 {
                assert(stored.last() == log.events@[n - 1].deep_view());
            }
            if found is None {
                assert(stored =~= seq![]);
            }
            reveal(Seq::filter);
            assert(all.take(0).filter(keep) =~= seq![]);
            assert(stored + all.take(0).filter(keep) =~= stored);
        }
        let mut i: usize = 0;
        while i < events.len()
            invariant
                i <= events@.len(),
                all == events.deep_view(),
                keep == (|e: EventV| e.id.0 > last_id(stored)),
                last == last_id(stored),
                log.session.deep_view() == session.deep_view(),
                log.events.deep_view() == stored + all.take(i as int).filter(keep),
            decreases events@.len() - i,
        {
            proof {
                reveal(Seq::filter);
                assert(all.take(i + 1).drop_last() =~= all.take(i as int));
                assert(all.take(i + 1).last() == events@[i as int].deep_view());
            }
            if events[i].id.0 > last {
                let ghost was = log.events.deep_view();
                let one: Event = events[i].clone();
                log.events.push(one);
                proof {
                    assert(log.events.deep_view() =~= was.push(one.deep_view()));
                    assert((stored + all.take(i as int).filter(keep)).push(one.deep_view()) =~= stored + all.take(
                        i as int,
                    ).filter(keep).push(one.deep_view()));
                }
            }
            i = i + 1;
        }
        proof {
            assert(all.take(all.len() as int) =~= all);
            assert(log.events.deep_view() == extended(stored, all));
        }
        let ghost lv = log.deep_view();
        if at < self.logs.len() {
            self.logs.set(at, log);
            proof {
                assert(self.logs.deep_view() =~= before.logs.update(at as int, lv));
            }
        } else {
            self.logs.push(log);
            proof {
                assert(self.logs.deep_view() =~= before.logs.push(lv));
            }
        }
    }

    /// The stored events of a session.
    pub fn load(&self, session: &SessionId) -> (r: Vec<Event>)
        ensures
            r.deep_view() == loaded(self.deep_view().logs, session.deep_view()),
    {
        match self.find_log(session) {
            Some(i) => {
                let r: Vec<Event> = self.logs[i].events.clone();
                proof {
                    assert(r.deep_view() =~= self.logs@[i as int].events.deep_view());
                }
                r
            },
            None => {
                let r: Vec<Event> = Vec::new();
                proof {
                    assert(r.deep_view() =~= seq![]);
                }
                r
            },
        }
    }
}


// ---------------------------------------------------------------------------
// Facts
// ---------------------------------------------------------------------------

/// A version of the fact that still holds.
pub open spec fn live_version(f: FactV, scope: Seq<char>, key: Seq<char>) -> bool {
    f.scope == scope && f.key == key && f.state.live()
}

fn is_live_version(f: &Fact, scope: &str, key: &str) -> (r: bool)
    ensures
        r == live_version(f.deep_view(), scope@, key@),
{
    f.state.is_live() && same(f.scope.as_str(), scope) && same(f.key.as_str(), key)
}

/// The same version of the same fact.
pub open spec fn same_version(a: FactV, b: FactV) -> bool {
    a.scope == b.scope && a.key == b.key && a.valid_from == b.valid_from
}

/// The first row with the version of `fact`.
pub open spec fn version_at(rows: Seq<FactV>, fact: FactV) -> Option<int>
    decreases rows.len(),
{
    if rows.len() == 0 {
        None
    } else {
        match version_at(rows.drop_last(), fact) {
            Some(i) => Some(i),
            None => if same_version(rows.last(), fact) {
                Some(rows.len() - 1)
            } else {
                None
            },
        }
    }
}

/// A row after a newer version of its fact came in.
pub open spec fn outdated(row: FactV, fact: FactV) -> FactV {
    if live_version(row, fact.scope, fact.key) {
        FactV { state: FactState::Superseded, valid_to: Some(fact.valid_from), ..row }
    } else {
        row
    }
}

/// The rows after a fact was written: a version that is there is replaced where
/// it stands, a new one supersedes the live one and is added.
pub open spec fn rows_after(rows: Seq<FactV>, fact: FactV) -> Seq<FactV> {
    match version_at(rows, fact) {
        Some(i) => rows.update(i, fact),
        None => Seq::new(rows.len(), |i: int| outdated(rows[i], fact)).push(fact),
    }
}

pub proof fn lemma_version_at(rows: Seq<FactV>, fact: FactV)
    ensures
        match version_at(rows, fact) {
            Some(i) => 0 <= i < rows.len() && same_version(rows[i], fact) && forall|j: int|
                0 <= j < i ==> !same_version(#[trigger] rows[j], fact),
            None => forall|j: int| 0 <= j < rows.len() ==> !same_version(#[trigger] rows[j], fact),
        },
    decreases rows.len(),
{
    if rows.len() > 0 {
        lemma_version_at(rows.drop_last(), fact);
        assert forall|j: int| 0 <= j < rows.len() - 1 implies (#[trigger] rows[j]) == rows.drop_last()[j] by {}
    }
}

/// The live facts of a scope under a prefix, by key.
pub open spec fn shown_rows(rows: Seq<FactV>, scope: Seq<char>, prefix: Seq<char>) -> Seq<FactV> {
    rows.filter(|f: FactV| f.scope == scope && f.state.live() && text::starts(f.key, prefix))
}

pub open spec fn keys_by_name(rows: Seq<FactV>) -> Seq<RankKeyV> {
    Seq::new(rows.len(), |i: int| RankKeyV { first: 0, second: 0, name: rows[i].key })
}

pub open spec fn facts_in(rows: Seq<FactV>, scope: Seq<char>, prefix: Seq<char>) -> Seq<FactV> {
    let live = shown_rows(rows, scope, prefix);
    picked(live, ranking::order(keys_by_name(live), true))
}

/// Every version of a fact, the newest first.
pub open spec fn version_rows(rows: Seq<FactV>, scope: Seq<char>, key: Seq<char>) -> Seq<FactV> {
    rows.filter(|f: FactV| f.scope == scope && f.key == key)
}

pub open spec fn keys_by_age(rows: Seq<FactV>) -> Seq<RankKeyV> {
    Seq::new(rows.len(), |i: int| RankKeyV { first: rows[i].valid_from.0, second: 0, name: seq![] })
}

pub open spec fn history_in(rows: Seq<FactV>, scope: Seq<char>, key: Seq<char>) -> Seq<FactV> {
    let versions = version_rows(rows, scope, key);
    picked(versions, ranking::order(keys_by_age(versions), true))
}

/// A row with other counters, where it is the live version.
pub open spec fn rescored(row: FactV, scope: Seq<char>, key: Seq<char>, exposures: u32, credits: u32) -> FactV {
    if live_version(row, scope, key) {
        FactV { exposures, credits, ..row }
    } else {
        row
    }
}

/// A row after its fact was forgotten at `at`.
pub open spec fn forgotten(row: FactV, scope: Seq<char>, key: Seq<char>, at: Timestamp) -> FactV {
    if live_version(row, scope, key) {
        FactV { state: FactState::Forgotten, valid_to: Some(at), ..row }
    } else {
        row
    }
}

/// The facts picked by position.
fn pick_facts(rows: &Vec<Fact>, ord: &Vec<usize>) -> (r: Vec<Fact>)
    requires
        forall|i: int| 0 <= i < ord@.len() ==> #[trigger] ord@[i] < rows@.len(),
    ensures
        r.deep_view() == picked(rows.deep_view(), ranking::positions(ord@)),
{
    let ghost all = rows.deep_view();
    let mut out: Vec<Fact> = Vec::new();
    let mut i: usize = 0;
    while i < ord.len()
        invariant
            i <= ord@.len(),
            all == rows.deep_view(),
            forall|k: int| 0 <= k < ord@.len() ==> #[trigger] ord@[k] < rows@.len(),
            out@.len() == i,
            forall|k: int| 0 <= k < i ==> (#[trigger] out@[k]).deep_view() == all[ord@[k] as int],
        decreases ord@.len() - i,
    {
        out.push(rows[ord[i]].clone());
        i = i + 1;
    }
    proof {
        assert(out.deep_view() =~= picked(all, ranking::positions(ord@)));
    }
    out
}

/// Facts by key.
pub(crate) fn sort_by_key(rows: &Vec<Fact>) -> (r: Vec<Fact>)
    ensures
        r.deep_view() == picked(rows.deep_view(), ranking::order(keys_by_name(rows.deep_view()), true)),
{
    let ghost all = rows.deep_view();
    let mut keys: Vec<RankKey> = Vec::new();
    let mut i: usize = 0;
    while i < rows.len()
        invariant
            i <= rows@.len(),
            all == rows.deep_view(),
            keys@.len() == i,
            forall|k: int| 0 <= k < i ==> (#[trigger] keys@[k]).deep_view() == keys_by_name(all)[k],
        decreases rows@.len() - i,
    {
        keys.push(RankKey { first: 0, second: 0, name: rows[i].key.clone() });
        i = i + 1;
    }
    proof {
        assert(keys.deep_view() =~= keys_by_name(all));
    }
    let ord: Vec<usize> = rank(&keys, true);
    pick_facts(rows, &ord)
}

fn sort_by_age(rows: &Vec<Fact>) -> (r: Vec<Fact>)
    ensures
        r.deep_view() == picked(rows.deep_view(), ranking::order(keys_by_age(rows.deep_view()), true)),
{
    let ghost all = rows.deep_view();
    let mut keys: Vec<RankKey> = Vec::new();
    let mut i: usize = 0;
    while i < rows.len()
        invariant
            i <= rows@.len(),
            all == rows.deep_view(),
            keys@.len() == i,
            forall|k: int| 0 <= k < i ==> (#[trigger] keys@[k]).deep_view() == keys_by_age(all)[k],
        decreases rows@.len() - i,
    {
        let key: RankKey = RankKey { first: rows[i].valid_from.0, second: 0, name: String::new() };
        proof {
            assert(key.name@ =~= seq![]);
        }
        keys.push(key);
        i = i + 1;
    }
    proof {
        assert(keys.deep_view() =~= keys_by_age(all));
    }
    let ord: Vec<usize> = rank(&keys, true);
    pick_facts(rows, &ord)
}

impl InMemoryStore {
    /// The live facts of a scope whose keys begin with the prefix, by key.
    pub fn facts(&self, scope: &str, key_prefix: &str) -> (r: Vec<Fact>)
        ensures
            r.deep_view() == facts_in(self.deep_view().facts, scope@, key_prefix@),
    {
        let ghost all = self.facts.deep_view();
        let ghost keep = |f: FactV| f.scope == scope@ && f.state.live() && text::starts(f.key, key_prefix@);
        let mut out: Vec<Fact> = Vec::new();
        let mut i: usize = 0;
        proof {
            reveal(Seq::filter);
            assert(all.take(0).filter(keep) =~= seq![]);
            assert(out.deep_view() =~= seq![]);
        }
        while i < self.facts.len()
            invariant
                i <= self.facts@.len(),
                all == self.facts.deep_view(),
                keep == (|f: FactV| f.scope == scope@ && f.state.live() && text::starts(f.key, key_prefix@)),
                out.deep_view() == all.take(i as int).filter(keep),
            decreases self.facts@.len() - i,
        {
            proof {
                reveal(Seq::filter);
                assert(all.take(i + 1).drop_last() =~= all.take(i as int));
                assert(all.take(i + 1).last() == self.facts@[i as int].deep_view());
            }
            let f: &Fact = &self.facts[i];
            if f.state.is_live() && same(f.scope.as_str(), scope) && starts_with(f.key.as_str(), key_prefix) {
                let ghost before = out.deep_view();
                let one: Fact = f.clone();
                out.push(one);
                proof {
                    assert(out.deep_view() =~= before.push(one.deep_view()));
                }
            }
            i = i + 1;
        }
        proof {
            assert(all.take(all.len() as int) =~= all);
        }
        sort_by_key(&out)
    }

    /// Every version of a fact, the newest first.
    pub fn fact_history(&self, scope: &str, key: &str) -> (r: Vec<Fact>)
        ensures
            r.deep_view() == history_in(self.deep_view().facts, scope@, key@),
    {
        let ghost all = self.facts.deep_view();
        let ghost keep = |f: FactV| f.scope == scope@ && f.key == key@;
        let mut out: Vec<Fact> = Vec::new();
        let mut i: usize = 0;
        proof {
            reveal(Seq::filter);
            assert(all.take(0).filter(keep) =~= seq![]);
            assert(out.deep_view() =~= seq![]);
        }
        while i < self.facts.len()
            invariant
                i <= self.facts@.len(),
                all == self.facts.deep_view(),
                keep == (|f: FactV| f.scope == scope@ && f.key == key@),
                out.deep_view() == all.take(i as int).filter(keep),
            decreases self.facts@.len() - i,
        {
            proof {
                reveal(Seq::filter);
                assert(all.take(i + 1).drop_last() =~= all.take(i as int));
                assert(all.take(i + 1).last() == self.facts@[i as int].deep_view());
            }
            let f: &Fact = &self.facts[i];
            if same(f.scope.as_str(), scope) && same(f.key.as_str(), key) {
                let ghost before = out.deep_view();
                let one: Fact = f.clone();
                out.push(one);
                proof {
                    assert(out.deep_view() =~= before.push(one.deep_view()));
                }
            }
            i = i + 1;
        }
        proof {
            assert(all.take(all.len() as int) =~= all);
        }
        sort_by_age(&out)
    }

    fn find_version(&self, fact: &Fact) -> (r: Option<usize>)
        ensures
            match r {
                Some(i) => i < self.facts@.len() && version_at(self.facts.deep_view(), fact.deep_view()) == Some(
                    i as int,
                ),
                None => version_at(self.facts.deep_view(), fact.deep_view()) is None,
            },
    {
        let ghost all = self.facts.deep_view();
        let mut i: usize = 0;
        while i < self.facts.len()
            invariant
                i <= self.facts@.len(),
                all == self.facts.deep_view(),
                forall|j: int| 0 <= j < i ==> !same_version(#[trigger] all[j], fact.deep_view()),
            decreases self.facts@.len() - i,
        {
            let f: &Fact = &self.facts[i];
            assert(all[i as int] == f.deep_view());
            if f.valid_from == fact.valid_from && same(f.scope.as_str(), fact.scope.as_str()) && same(
                f.key.as_str(),
                fact.key.as_str(),
            ) {
                proof {
                    lemma_version_at(all, fact.deep_view());
                }
                return Some(i);
            }
            i = i + 1;
        }
        proof {
            lemma_version_at(all, fact.deep_view());
        }
        None
    }

    /// Write a fact: its version in place where it is known, a new version
    /// otherwise.
    pub fn put_fact(&mut self, fact: Fact)
        ensures
            final(self).deep_view() == (StoreV {
                facts: rows_after(old(self).deep_view().facts, fact.deep_view()),
                ..old(self).deep_view()
            }),
    {
        let ghost before = self.facts.deep_view();
        let ghost fv = fact.deep_view();
        if let Some(i) = self.find_version(&fact) {
            self.facts.set(i, fact);
            proof {
                assert(self.facts.deep_view() =~= before.update(i as int, fv));
            }
            return ;
        }
        let mut i: usize = 0;
        let ghost others = self.deep_view();
        while i < self.facts.len()
            invariant
                i <= self.facts@.len(),
                self.facts@.len() == before.len(),
                fv == fact.deep_view(),
                others == old(self).deep_view(),
                self.deep_view() == (StoreV { facts: self.facts.deep_view(), ..others }),
                forall|k: int| 0 <= k < i ==> (#[trigger] self.facts@[k]).deep_view() == outdated(before[k], fv),
                forall|k: int| i <= k < before.len() ==> (#[trigger] self.facts@[k]).deep_view() == before[k],
            decreases before.len() - i,
        {
            if is_live_version(&self.facts[i], fact.scope.as_str(), fact.key.as_str()) {
                let mut row: Fact = self.facts[i].clone();
                row.state = FactState::Superseded;
                row.valid_to = Some(fact.valid_from);
                self.facts.set(i, row);
            }
            i = i + 1;
        }
        self.facts.push(fact);
        proof {
            assert(self.facts.deep_view() =~= Seq::new(before.len(), |i: int| outdated(before[i], fv)).push(fv));
        }
    }

    /// Set the two counters of the live version.
    pub fn set_fact_fitness(&mut self, scope: &str, key: &str, exposures: u32, credits: u32)
        ensures
            final(self).deep_view() == (StoreV {
                facts: Seq::new(
                    old(self).deep_view().facts.len(),
                    |i: int| rescored(old(self).deep_view().facts[i], scope@, key@, exposures, credits),
                ),
                ..old(self).deep_view()
            }),
    {
        let ghost before = self.facts.deep_view();
        let ghost others = self.deep_view();
        let mut i: usize = 0;
        while i < self.facts.len()
            invariant
                i <= self.facts@.len(),
                self.facts@.len() == before.len(),
                others == old(self).deep_view(),
                self.deep_view() == (StoreV { facts: self.facts.deep_view(), ..others }),
                forall|k: int|
                    0 <= k < i ==> (#[trigger] self.facts@[k]).deep_view() == rescored(
                        before[k],
                        scope@,
                        key@,
                        exposures,
                        credits,
                    ),
                forall|k: int| i <= k < before.len() ==> (#[trigger] self.facts@[k]).deep_view() == before[k],
            decreases before.len() - i,
        {
            if is_live_version(&self.facts[i], scope, key) {
                let mut row: Fact = self.facts[i].clone();
                row.exposures = exposures;
                row.credits = credits;
                self.facts.set(i, row);
            }
            i = i + 1;
        }
        proof {
            assert(self.facts.deep_view() =~= Seq::new(
                before.len(),
                |i: int| rescored(before[i], scope@, key@, exposures, credits),
            ));
        }
    }

    /// Forget a fact without deleting it; whether there was one to forget.
    pub fn forget_fact(&mut self, scope: &str, key: &str, at: Timestamp) -> (hit: bool)
        ensures
            final(self).deep_view() == (StoreV {
                facts: Seq::new(
                    old(self).deep_view().facts.len(),
                    |i: int| forgotten(old(self).deep_view().facts[i], scope@, key@, at),
                ),
                ..old(self).deep_view()
            }),
            hit == exists|i: int|
                0 <= i < old(self).deep_view().facts.len() && live_version(
                    #[trigger] old(self).deep_view().facts[i],
                    scope@,
                    key@,
                ),
    {
        let ghost before = self.facts.deep_view();
        let ghost others = self.deep_view();
        let mut hit: bool = false;
        let mut i: usize = 0;
        while i < self.facts.len()
            invariant
                i <= self.facts@.len(),
                self.facts@.len() == before.len(),
                others == old(self).deep_view(),
                before == others.facts,
                self.deep_view() == (StoreV { facts: self.facts.deep_view(), ..others }),
                hit == exists|k: int| 0 <= k < i && live_version(#[trigger] before[k], scope@, key@),
                forall|k: int|
                    0 <= k < i ==> (#[trigger] self.facts@[k]).deep_view() == forgotten(before[k], scope@, key@, at),
                forall|k: int| i <= k < before.len() ==> (#[trigger] self.facts@[k]).deep_view() == before[k],
            decreases before.len() - i,
        {
            let ghost was = self.facts@[i as int].deep_view();
            if is_live_version(&self.facts[i], scope, key) {
                let mut row: Fact = self.facts[i].clone();
                row.state = FactState::Forgotten;
                row.valid_to = Some(at);
                self.facts.set(i, row);
                proof {
                    assert(live_version(before[i as int], scope@, key@));
                }
                hit = true;
            }
            i = i + 1;
        }
        proof {
            assert(self.facts.deep_view() =~= Seq::new(before.len(), |i: int| forgotten(before[i], scope@, key@, at)));
        }
        hit
    }

    /// Delete every fact of a scope, all versions; how many rows went.
    pub fn purge_facts(&mut self, scope: &str) -> (removed: usize)
        ensures
            final(self).deep_view() == (StoreV {
                facts: old(self).deep_view().facts.filter(|f: FactV| f.scope != scope@),
                ..old(self).deep_view()
            }),
            removed == old(self).deep_view().facts.len() - final(self).deep_view().facts.len(),
    {
        let ghost all = self.facts.deep_view();
        let ghost keep = |f: FactV| f.scope != scope@;
        let total: usize = self.facts.len();
        let mut out: Vec<Fact> = Vec::new();
        let mut i: usize = 0;
        proof {
            reveal(Seq::filter);
            assert(all.take(0).filter(keep) =~= seq![]);
            assert(out.deep_view() =~= seq![]);
        }
        while i < self.facts.len()
            invariant
                i <= self.facts@.len(),
                all == self.facts.deep_view(),
                *self == *old(self),
                total == self.facts@.len(),
                keep == (|f: FactV| f.scope != scope@),
                out.deep_view() == all.take(i as int).filter(keep),
                out@.len() <= i,
            decreases self.facts@.len() - i,
        {
            proof {
                reveal(Seq::filter);
                assert(all.take(i + 1).drop_last() =~= all.take(i as int));
                assert(all.take(i + 1).last() == self.facts@[i as int].deep_view());
            }
            if !same(self.facts[i].scope.as_str(), scope) {
                let ghost before = out.deep_view();
                let one: Fact = self.facts[i].clone();
                out.push(one);
                proof {
                    assert(out.deep_view() =~= before.push(one.deep_view()));
                }
            }
            i = i + 1;
        }
        proof {
            assert(all.take(all.len() as int) =~= all);
        }
        let left: usize = out.len();
        self.facts = out;
        total - left
    }
}

// ---------------------------------------------------------------------------
// Scopes and artifacts
// ---------------------------------------------------------------------------

/// The scopes in the order in which facts were first written to them.
pub open spec fn scopes_seen(rows: Seq<FactV>) -> Seq<Seq<char>>
    decreases rows.len(),
{
    if rows.len() == 0 {
        seq![]
    } else {
        let rest = scopes_seen(rows.drop_last());
        if rest.contains(rows.last().scope) {
            rest
        } else {
            rest.push(rows.last().scope)
        }
    }
}

pub open spec fn keys_of_names(names: Seq<Seq<char>>) -> Seq<RankKeyV> {
    Seq::new(names.len(), |i: int| RankKeyV { first: 0, second: 0, name: names[i] })
}

/// Texts in dictionary order.
pub open spec fn in_dictionary_order(names: Seq<Seq<char>>) -> Seq<Seq<char>> {
    picked(names, ranking::order(keys_of_names(names), true))
}

fn sort_texts(names: &Vec<String>) -> (r: Vec<String>)
    ensures
        r.deep_view() == in_dictionary_order(names.deep_view()),
{
    let ghost all = names.deep_view();
    let mut keys: Vec<RankKey> = Vec::new();
    let mut i: usize = 0;
    while i < names.len()
        invariant
            i <= names@.len(),
            all == names.deep_view(),
            keys@.len() == i,
            forall|k: int| 0 <= k < i ==> (#[trigger] keys@[k]).deep_view() == keys_of_names(all)[k],
        decreases names@.len() - i,
    {
        keys.push(RankKey { first: 0, second: 0, name: names[i].clone() });
        i = i + 1;
    }
    proof {
        assert(keys.deep_view() =~= keys_of_names(all));
    }
    let ord: Vec<usize> = rank(&keys, true);
    let mut out: Vec<String> = Vec::new();
    let mut j: usize = 0;
    while j < ord.len()
        invariant
            j <= ord@.len(),
            all == names.deep_view(),
            forall|k: int| 0 <= k < ord@.len() ==> #[trigger] ord@[k] < names@.len(),
            out@.len() == j,
            forall|k: int| 0 <= k < j ==> (#[trigger] out@[k])@ == all[ord@[k] as int],
        decreases ord@.len() - j,
    {
        out.push(names[ord[j]].clone());
        j = j + 1;
    }
    proof {
        assert(out.deep_view() =~= picked(all, ranking::positions(ord@)));
    }
    out
}

/// Where the artifact is.
pub open spec fn artifact_at(artifacts: Seq<ArtifactV>, id: ArtifactId) -> Option<int>
    decreases artifacts.len(),
{
    if artifacts.len() == 0 {
        None
    } else {
        match artifact_at(artifacts.drop_last(), id) {
            Some(i) => Some(i),
            None => if artifacts.last().id.0@ == id.0@ {
                Some(artifacts.len() - 1)
            } else {
                None
            },
        }
    }
}

pub proof fn lemma_artifact_at(artifacts: Seq<ArtifactV>, id: ArtifactId)
    ensures
        match artifact_at(artifacts, id) {
            Some(i) => 0 <= i < artifacts.len() && artifacts[i].id.0@ == id.0@ && forall|j: int|
                0 <= j < i ==> (#[trigger] artifacts[j]).id.0@ != id.0@,
            None => forall|j: int| 0 <= j < artifacts.len() ==> (#[trigger] artifacts[j]).id.0@ != id.0@,
        },
    decreases artifacts.len(),
{
    if artifacts.len() > 0 {
        lemma_artifact_at(artifacts.drop_last(), id);
        assert forall|j: int| 0 <= j < artifacts.len() - 1 implies (#[trigger] artifacts[j])
            == artifacts.drop_last()[j] by {}
    }
}

/// The artifacts after one was stored.
pub open spec fn artifacts_after(artifacts: Seq<ArtifactV>, id: ArtifactId, content: Seq<u8>) -> Seq<ArtifactV> {
    match artifact_at(artifacts, id) {
        Some(i) => artifacts.update(i, ArtifactV { id, content }),
        None => artifacts.push(ArtifactV { id, content }),
    }
}

/// The content stored under a digest.
pub open spec fn artifact_in(artifacts: Seq<ArtifactV>, id: ArtifactId) -> Option<Seq<u8>> {
    match artifact_at(artifacts, id) {
        Some(i) => Some(artifacts[i].content),
        None => None,
    }
}

fn same_id(a: &ArtifactId, b: &ArtifactId) -> (r: bool)
    ensures
        r == (a.0@ == b.0@),
{
    let mut i: usize = 0;
    while i < 32
        invariant
            i <= 32,
            forall|k: int| 0 <= k < i ==> a.0@[k] == b.0@[k],
        decreases 32 - i,
    {
        if a.0[i] != b.0[i] {
            return false;
        }
        i = i + 1;
    }
    proof {
        assert(a.0@ =~= b.0@);
    }
    true
}

impl InMemoryStore {
    /// The scopes that hold facts, in dictionary order.
    pub fn scopes(&self) -> (r: Vec<String>)
        ensures
            r.deep_view() == in_dictionary_order(scopes_seen(self.deep_view().facts)),
    {
        let ghost all = self.facts.deep_view();
        let mut out: Vec<String> = Vec::new();
        let mut i: usize = 0;
        proof {
            assert(all.take(0) =~= seq![]);
            assert(out.deep_view() =~= seq![]);
        }
        while i < self.facts.len()
            invariant
                i <= self.facts@.len(),
                all == self.facts.deep_view(),
                out.deep_view() == scopes_seen(all.take(i as int)),
            decreases self.facts@.len() - i,
        {
            proof {
                assert(all.take(i + 1).drop_last() =~= all.take(i as int));
                assert(all.take(i + 1).last() == self.facts@[i as int].deep_view());
            }
            if !crate::text::listed(&out, self.facts[i].scope.as_str()) {
                let ghost before = out.deep_view();
                out.push(self.facts[i].scope.clone());
                proof {
                    assert(out.deep_view() =~= before.push(self.facts@[i as int].scope@));
                }
            }
            i = i + 1;
        }
        proof {
            assert(all.take(all.len() as int) =~= all);
        }
        sort_texts(&out)
    }

    fn find_artifact(&self, id: &ArtifactId) -> (r: Option<usize>)
        ensures
            match r {
                Some(i) => i < self.artifacts@.len() && artifact_at(self.artifacts.deep_view(), *id) == Some(i as int),
                None => artifact_at(self.artifacts.deep_view(), *id) is None,
            },
    {
        let ghost all = self.artifacts.deep_view();
        let mut i: usize = 0;
        while i < self.artifacts.len()
            invariant
                i <= self.artifacts@.len(),
                all == self.artifacts.deep_view(),
                forall|j: int| 0 <= j < i ==> (#[trigger] all[j]).id.0@ != id.0@,
            decreases self.artifacts@.len() - i,
        {
            assert(all[i as int] == self.artifacts@[i as int].deep_view());
            if same_id(&self.artifacts[i].id, id) {
                proof {
                    lemma_artifact_at(all, *id);
                }
                return Some(i);
            }
            i = i + 1;
        }
        proof {
            lemma_artifact_at(all, *id);
        }
        None
    }

    /// The content stored under a digest.
    pub fn artifact(&self, id: &ArtifactId) -> (r: Result<Vec<u8>, StoreError>)
        ensures
            match r {
                Ok(content) => artifact_in(self.deep_view().artifacts, *id) == Some(content.deep_view()),
                Err(_) => artifact_in(self.deep_view().artifacts, *id) is None,
            },
    {
        match self.find_artifact(id) {
            Some(i) => {
                let content: Vec<u8> = self.artifacts[i].content.clone();
                proof {
                    assert(content.deep_view() =~= self.artifacts@[i as int].content.deep_view());
                }
                Ok(content)
            },
            None => Err(StoreError::NotFound),
        }
    }

    /// Store content under `id`, the digest of the content.
    pub fn put_artifact(&mut self, id: ArtifactId, content: Vec<u8>)
        ensures
            final(self).deep_view() == (StoreV {
                artifacts: artifacts_after(old(self).deep_view().artifacts, id, content.deep_view()),
                ..old(self).deep_view()
            }),
    {
        let ghost before = self.artifacts.deep_view();
        let found: Option<usize> = self.find_artifact(&id);
        let one: Artifact = Artifact { id, content };
        let ghost ov = one.deep_view();
        match found {
            Some(i) => {
                self.artifacts.set(i, one);
                proof {
                    assert(self.artifacts.deep_view() =~= before.update(i as int, ov));
                }
            },
            None => {
                self.artifacts.push(one);
                proof {
                    assert(self.artifacts.deep_view() =~= before.push(ov));
                }
            },
        }
    }
}

// ---------------------------------------------------------------------------
// Sessions and searches
// ---------------------------------------------------------------------------

/// The latest time of any of the events.
pub open spec fn latest(events: Seq<EventV>) -> u64
    decreases events.len(),
{
    if events.len() == 0 {
        0
    } else {
        let rest = latest(events.drop_last());
        if events.last().at.0 > rest {
            events.last().at.0
        } else {
            rest
        }
    }
}

fn find_latest(events: &Vec<Event>) -> (r: u64)
    ensures
        r == latest(events.deep_view()),
{
    let ghost all = events.deep_view();
    let mut t: u64 = 0;
    let mut i: usize = 0;
    proof {
        assert(all.take(0) =~= seq![]);
    }
    while i < events.len()
        invariant
            i <= events@.len(),
            all == events.deep_view(),
            t == latest(all.take(i as int)),
        decreases events@.len() - i,
    {
        proof {
            assert(all.take(i + 1).drop_last() =~= all.take(i as int));
            assert(all.take(i + 1).last() == events@[i as int].deep_view());
        }
        if events[i].at.0 > t {
            t = events[i].at.0;
        }
        i = i + 1;
    }
    proof {
        assert(all.take(all.len() as int) =~= all);
    }
    t
}

/// The logs that hold something.
pub open spec fn kept_logs(logs: Seq<SessionLogV>) -> Seq<SessionLogV> {
    logs.filter(|l: SessionLogV| l.events.len() > 0)
}

pub open spec fn keys_by_activity(logs: Seq<SessionLogV>) -> Seq<RankKeyV> {
    Seq::new(
        logs.len(),
        |i: int| RankKeyV { first: latest(logs[i].events), second: 0, name: logs[i].session },
    )
}

/// The sessions with events, the most recently active first, then by name from
/// the end of the alphabet.
pub open spec fn sessions_in(logs: Seq<SessionLogV>) -> Seq<Seq<char>> {
    let ls = kept_logs(logs);
    let ord = ranking::order(keys_by_activity(ls), false);
    Seq::new(ord.len(), |i: int| ls[ord[i]].session)
}

/// How many of the tokens stand in the text.
pub open spec fn hits_in(hay: Seq<char>, tokens: Seq<Seq<char>>) -> nat
    decreases tokens.len(),
{
    if tokens.len() == 0 {
        0
    } else {
        hits_in(hay, tokens.drop_last()) + if text::contains(hay, tokens.last()) { 1nat } else { 0nat }
    }
}

fn count_hits(hay: &str, tokens: &Vec<String>) -> (r: usize)
    ensures
        r == hits_in(hay@, tokens.deep_view()),
{
    let ghost all = tokens.deep_view();
    let mut n: usize = 0;
    let mut i: usize = 0;
    proof {
        assert(all.take(0) =~= seq![]);
    }
    while i < tokens.len()
        invariant
            i <= tokens@.len(),
            all == tokens.deep_view(),
            n == hits_in(hay@, all.take(i as int)),
            n <= i,
        decreases tokens@.len() - i,
    {
        proof {
            assert(all.take(i + 1).drop_last() =~= all.take(i as int));
            assert(all.take(i + 1).last() == tokens@[i as int]@);
        }
        if has(hay, tokens[i].as_str()) {
            n = n + 1;
        }
        i = i + 1;
    }
    proof {
        assert(all.take(all.len() as int) =~= all);
    }
    n
}

/// What was said in an event, and by whom.
pub open spec fn spoken(kind: EventKindV) -> Option<(Seq<char>, Seq<char>)> {
    match kind {
        EventKindV::UserSaid { text } => Some(("user"@, text)),
        EventKindV::Replied { text } => Some(("bot"@, text)),
        _ => None,
    }
}

/// The hit in an event, where what was said holds some of the tokens.
pub open spec fn hit_of(session: Seq<char>, e: EventV, tokens: Seq<Seq<char>>) -> Option<TurnHitV> {
    match spoken(e.kind) {
        Some(line) => {
            let score = hits_in(unicode::lowered(line.1), tokens);
            if score > 0 {
                Some(TurnHitV { session, turn: e.turn, speaker: line.0, text: line.1, score: score as usize })
            } else {
                None
            }
        },
        None => None,
    }
}

/// The hits of a session in the order of the log.
pub open spec fn raw_hits(session: Seq<char>, events: Seq<EventV>, tokens: Seq<Seq<char>>) -> Seq<TurnHitV>
    decreases events.len(),
{
    if events.len() == 0 {
        seq![]
    } else {
        let rest = raw_hits(session, events.drop_last(), tokens);
        match hit_of(session, events.last(), tokens) {
            Some(h) => rest.push(h),
            None => rest,
        }
    }
}

pub open spec fn keys_by_score(hits: Seq<TurnHitV>) -> Seq<RankKeyV> {
    Seq::new(
        hits.len(),
        |i: int| RankKeyV { first: hits[i].score as u64, second: hits[i].turn as u64, name: seq![] },
    )
}

/// Hits by score, ties by the newer turn.
pub open spec fn ranked_hits(hits: Seq<TurnHitV>) -> Seq<TurnHitV> {
    picked(hits, ranking::order(keys_by_score(hits), true))
}

fn find_hits(session: &SessionId, events: &Vec<Event>, tokens: &Vec<String>) -> (r: Vec<TurnHit>)
    ensures
        r.deep_view() == raw_hits(session.deep_view(), events.deep_view(), tokens.deep_view()),
{
    let ghost all = events.deep_view();
    let mut out: Vec<TurnHit> = Vec::new();
    let mut i: usize = 0;
    proof {
        assert(all.take(0) =~= seq![]);
        assert(out.deep_view() =~= seq![]);
    }
    while i < events.len()
        invariant
            i <= events@.len(),
            all == events.deep_view(),
            out.deep_view() == raw_hits(session.deep_view(), all.take(i as int), tokens.deep_view()),
        decreases events@.len() - i,
    {
        proof {
            assert(all.take(i + 1).drop_last() =~= all.take(i as int));
            assert(all.take(i + 1).last() == events@[i as int].deep_view());
        }
        let line: Option<(&str, &String)> = match &events[i].kind {
            EventKind::UserSaid { text } => Some(("user", text)),
            EventKind::Replied { text } => Some(("bot", text)),
            _ => None,
        };
        if let Some((speaker, text)) = line {
            let hay: String = text.as_str().to_lowercase();
            let score: usize = count_hits(hay.as_str(), tokens);
            if score > 0 {
                let ghost before = out.deep_view();
                let one: TurnHit = TurnHit {
                    session: session.clone(),
                    turn: events[i].turn,
                    speaker: speaker.to_owned(),
                    text: text.clone(),
                    score,
                };
                out.push(one);
                proof {
                    assert(out.deep_view() =~= before.push(one.deep_view()));
                }
            }
        }
        i = i + 1;
    }
    proof {
        assert(all.take(all.len() as int) =~= all);
    }
    out
}

/// Hits by score, ties by the newer turn, at most `k`.
pub fn rank_hits(hits: &Vec<TurnHit>, k: usize) -> (r: Vec<TurnHit>)
    ensures
        r.deep_view() == at_most(ranked_hits(hits.deep_view()), k as nat),
{
    let ghost all = hits.deep_view();
    let mut keys: Vec<RankKey> = Vec::new();
    let mut i: usize = 0;
    while i < hits.len()
        invariant
            i <= hits@.len(),
            all == hits.deep_view(),
            keys@.len() == i,
            forall|k: int| 0 <= k < i ==> (#[trigger] keys@[k]).deep_view() == keys_by_score(all)[k],
        decreases hits@.len() - i,
    {
        let key: RankKey = RankKey {
            first: hits[i].score as u64,
            second: hits[i].turn as u64,
            name: String::new(),
        };
        proof {
            assert(key.name@ =~= seq![]);
        }
        keys.push(key);
        i = i + 1;
    }
    proof {
        assert(keys.deep_view() =~= keys_by_score(all));
    }
    let ord: Vec<usize> = rank(&keys, true);
    let ghost full = ranked_hits(all);
    let mut out: Vec<TurnHit> = Vec::new();
    let mut j: usize = 0;
    while j < ord.len() && j < k
        invariant
            j <= ord@.len(),
            j <= k,
            all == hits.deep_view(),
            full == ranked_hits(all),
            ranking::positions(ord@) == ranking::order(keys_by_score(all), true),
            forall|k: int| 0 <= k < ord@.len() ==> #[trigger] ord@[k] < hits@.len(),
            out@.len() == j,
            forall|k: int| 0 <= k < j ==> (#[trigger] out@[k]).deep_view() == full[k],
        decreases ord@.len() - j,
    {
        proof {
            assert(ranking::positions(ord@)[j as int] == ord@[j as int]);
        }
        out.push(hits[ord[j]].clone());
        j = j + 1;
    }
    proof {
        assert(full.len() == ord@.len());
        assert(out.deep_view() =~= at_most(full, k as nat));
    }
    out
}

/// The hits of several sessions, one session after the other.
pub open spec fn hits_across(logs: Seq<SessionLogV>, sessions: Seq<Seq<char>>, tokens: Seq<Seq<char>>) -> Seq<TurnHitV>
    decreases sessions.len(),
{
    if sessions.len() == 0 {
        seq![]
    } else {
        hits_across(logs, sessions.drop_last(), tokens) + raw_hits(
            sessions.last(),
            loaded(logs, sessions.last()),
            tokens,
        )
    }
}

impl InMemoryStore {
    pub fn sessions(&self) -> (r: Vec<SessionId>)
        ensures
            r.deep_view() == sessions_in(self.deep_view().logs),
    {
        let ghost all = self.logs.deep_view();
        let ghost keep = |l: SessionLogV| l.events.len() > 0;
        let mut kept: Vec<SessionId> = Vec::new();
        let mut keys: Vec<RankKey> = Vec::new();
        let mut i: usize = 0;
        proof {
            reveal(Seq::filter);
            assert(all.take(0).filter(keep) =~= seq![]);
        }
        while i < self.logs.len()
            invariant
                i <= self.logs@.len(),
                all == self.logs.deep_view(),
                keep == (|l: SessionLogV| l.events.len() > 0),
                kept@.len() == all.take(i as int).filter(keep).len(),
                keys@.len() == kept@.len(),
                forall|k: int|
                    0 <= k < kept@.len() ==> (#[trigger] kept@[k]).deep_view() == all.take(i as int).filter(
                        keep,
                    )[k].session,
                forall|k: int|
                    0 <= k < keys@.len() ==> (#[trigger] keys@[k]).deep_view() == keys_by_activity(
                        all.take(i as int).filter(keep),
                    )[k],
            decreases self.logs@.len() - i,
        {
            proof {
                reveal(Seq::filter);
                assert(all.take(i + 1).drop_last() =~= all.take(i as int));
                assert(all.take(i + 1).last() == self.logs@[i as int].deep_view());
            }
            if self.logs[i].events.len() > 0 {
                kept.push(self.logs[i].session.clone());
                keys.push(
                    RankKey {
                        first: find_latest(&self.logs[i].events),
                        second: 0,
                        name: self.logs[i].session.0.clone(),
                    },
                );
            }
            i = i + 1;
        }
        let ghost ls = kept_logs(all);
        proof {
            assert(all.take(all.len() as int) =~= all);
            assert(keys.deep_view() =~= keys_by_activity(ls));
        }
        let ord: Vec<usize> = rank(&keys, false);
        let mut out: Vec<SessionId> = Vec::new();
        let mut j: usize = 0;
        while j < ord.len()
            invariant
                j <= ord@.len(),
                kept@.len() == ls.len(),
                forall|k: int| 0 <= k < kept@.len() ==> (#[trigger] kept@[k]).deep_view() == ls[k].session,
                forall|k: int| 0 <= k < ord@.len() ==> #[trigger] ord@[k] < kept@.len(),
                out@.len() == j,
                forall|k: int| 0 <= k < j ==> (#[trigger] out@[k]).deep_view() == ls[ord@[k] as int].session,
            decreases ord@.len() - j,
        {
            out.push(kept[ord[j]].clone());
            j = j + 1;
        }
        proof {
            let o = ranking::order(keys_by_activity(ls), false);
            assert(ranking::positions(ord@) == o);
            assert forall|k: int| 0 <= k < o.len() implies o[k] == ord@[k] by {
                assert(ranking::positions(ord@)[k] == ord@[k]);
            }
            assert(out.deep_view() =~= sessions_in(all));
        }
        out
    }

    /// What was said in a session with any of the tokens in it, by how many,
    /// ties by the newer turn. `tokens` are the words that a query asks for.
    pub fn search_turns(&self, session: &SessionId, tokens: &Vec<String>, k: usize) -> (r: Vec<TurnHit>)
        ensures
            r.deep_view() == at_most(
                ranked_hits(
                    raw_hits(
                        session.deep_view(),
                        loaded(self.deep_view().logs, session.deep_view()),
                        tokens.deep_view(),
                    ),
                ),
                k as nat,
            ),
    {
        let events: Vec<Event> = self.load(session);
        let hits: Vec<TurnHit> = find_hits(session, &events, tokens);
        rank_hits(&hits, k)
    }

    /// The same over several sessions, ranked together.
    pub fn search_turns_in(&self, sessions: &Vec<SessionId>, tokens: &Vec<String>, k: usize) -> (r: Vec<TurnHit>)
        ensures
            r.deep_view() == at_most(
                ranked_hits(hits_across(self.deep_view().logs, sessions.deep_view(), tokens.deep_view())),
                k as nat,
            ),
    {
        let ghost all = sessions.deep_view();
        let ghost logs = self.logs.deep_view();
        let mut hits: Vec<TurnHit> = Vec::new();
        let mut i: usize = 0;
        proof {
            assert(all.take(0) =~= seq![]);
            assert(hits.deep_view() =~= seq![]);
        }
        while i < sessions.len()
            invariant
                i <= sessions@.len(),
                all == sessions.deep_view(),
                logs == self.logs.deep_view(),
                hits.deep_view() == hits_across(logs, all.take(i as int), tokens.deep_view()),
            decreases sessions@.len() - i,
        {
            proof {
                assert(all.take(i + 1).drop_last() =~= all.take(i as int));
                assert(all.take(i + 1).last() == sessions@[i as int].deep_view());
            }
            let events: Vec<Event> = self.load(&sessions[i]);
            let mut more: Vec<TurnHit> = find_hits(&sessions[i], &events, tokens);
            let ghost before = hits.deep_view();
            let ghost added = more.deep_view();
            hits.append(&mut more);
            proof {
                assert(hits.deep_view() =~= before + added);
            }
            i = i + 1;
        }
        proof {
            assert(all.take(all.len() as int) =~= all);
        }
        rank_hits(&hits, k)
    }
}

// ---------------------------------------------------------------------------
// Digests
// ---------------------------------------------------------------------------

/// Where the session's digest is.
pub open spec fn digest_at(digests: Seq<SessionDigestV>, session: Seq<char>) -> Option<int>
    decreases digests.len(),
{
    if digests.len() == 0 {
        None
    } else {
        match digest_at(digests.drop_last(), session) {
            Some(i) => Some(i),
            None => if digests.last().session == session {
                Some(digests.len() - 1)
            } else {
                None
            },
        }
    }
}

pub proof fn lemma_digest_at(digests: Seq<SessionDigestV>, session: Seq<char>)
    ensures
        match digest_at(digests, session) {
            Some(i) => 0 <= i < digests.len() && digests[i].session == session && forall|j: int|
                0 <= j < i ==> (#[trigger] digests[j]).session != session,
            None => forall|j: int| 0 <= j < digests.len() ==> (#[trigger] digests[j]).session != session,
        },
    decreases digests.len(),
{
    if digests.len() > 0 {
        lemma_digest_at(digests.drop_last(), session);
        assert forall|j: int| 0 <= j < digests.len() - 1 implies (#[trigger] digests[j]) == digests.drop_last()[j] by {}
    }
}

/// The digests after one was written: the session's own is replaced.
pub open spec fn digests_after(digests: Seq<SessionDigestV>, d: SessionDigestV) -> Seq<SessionDigestV> {
    match digest_at(digests, d.session) {
        Some(i) => digests.update(i, d),
        None => digests.push(d),
    }
}

pub open spec fn scope_digests(digests: Seq<SessionDigestV>, scope: Seq<char>) -> Seq<SessionDigestV> {
    digests.filter(|d: SessionDigestV| d.scope == scope)
}

pub open spec fn keys_by_date(digests: Seq<SessionDigestV>) -> Seq<RankKeyV> {
    Seq::new(digests.len(), |i: int| RankKeyV { first: digests[i].at.0, second: 0, name: digests[i].session })
}

/// The digests of a scope, the newest first, then by session from the end of
/// the alphabet.
pub open spec fn digests_in(digests: Seq<SessionDigestV>, scope: Seq<char>) -> Seq<SessionDigestV> {
    let ds = scope_digests(digests, scope);
    picked(ds, ranking::order(keys_by_date(ds), false))
}

/// The text that a digest is searched by.
pub open spec fn digest_text(d: SessionDigestV) -> Seq<char> {
    unicode::lowered(
        d.summary.topic + " "@ + text::joined(d.summary.established, " "@) + " "@ + text::joined(
            d.summary.open,
            " "@,
        ),
    )
}

/// Those digests that hold some of the tokens.
pub open spec fn matching(ds: Seq<SessionDigestV>, tokens: Seq<Seq<char>>) -> Seq<SessionDigestV> {
    ds.filter(|d: SessionDigestV| hits_in(digest_text(d), tokens) > 0)
}

pub open spec fn keys_by_match(ds: Seq<SessionDigestV>, tokens: Seq<Seq<char>>) -> Seq<RankKeyV> {
    Seq::new(
        ds.len(),
        |i: int| RankKeyV { first: hits_in(digest_text(ds[i]), tokens) as u64, second: 0, name: seq![] },
    )
}

/// The digests of a scope that hold some of the tokens, by how many, ties as
/// they are listed.
pub open spec fn found_digests(digests: Seq<SessionDigestV>, scope: Seq<char>, tokens: Seq<Seq<char>>) -> Seq<
    SessionDigestV,
> {
    let ds = matching(digests_in(digests, scope), tokens);
    picked(ds, ranking::order(keys_by_match(ds, tokens), true))
}

fn pick_digests(ds: &Vec<SessionDigest>, ord: &Vec<usize>, k: usize) -> (r: Vec<SessionDigest>)
    requires
        forall|i: int| 0 <= i < ord@.len() ==> #[trigger] ord@[i] < ds@.len(),
    ensures
        r.deep_view() == at_most(picked(ds.deep_view(), ranking::positions(ord@)), k as nat),
{
    let ghost all = ds.deep_view();
    let ghost full = picked(all, ranking::positions(ord@));
    let mut out: Vec<SessionDigest> = Vec::new();
    let mut i: usize = 0;
    while i < ord.len() && i < k
        invariant
            i <= ord@.len(),
            i <= k,
            all == ds.deep_view(),
            full == picked(all, ranking::positions(ord@)),
            forall|k: int| 0 <= k < ord@.len() ==> #[trigger] ord@[k] < ds@.len(),
            out@.len() == i,
            forall|k: int| 0 <= k < i ==> (#[trigger] out@[k]).deep_view() == full[k],
        decreases ord@.len() - i,
    {
        out.push(ds[ord[i]].clone());
        i = i + 1;
    }
    proof {
        assert(full.len() == ord@.len());
        assert(out.deep_view() =~= at_most(full, k as nat));
    }
    out
}

fn text_of_digest(d: &SessionDigest) -> (r: String)
    ensures
        r@ == digest_text(d.deep_view()),
{
    let established: String = join(&d.summary.established, " ");
    let open: String = join(&d.summary.open, " ");
    let all: String = cat5(d.summary.topic.as_str(), " ", established.as_str(), " ", open.as_str());
    all.as_str().to_lowercase()
}

impl InMemoryStore {
    fn find_digest(&self, session: &SessionId) -> (r: Option<usize>)
        ensures
            match r {
                Some(i) => i < self.digests@.len() && digest_at(self.digests.deep_view(), session.deep_view()) == Some(
                    i as int,
                ),
                None => digest_at(self.digests.deep_view(), session.deep_view()) is None,
            },
    {
        let ghost all = self.digests.deep_view();
        let mut i: usize = 0;
        while i < self.digests.len()
            invariant
                i <= self.digests@.len(),
                all == self.digests.deep_view(),
                forall|j: int| 0 <= j < i ==> (#[trigger] all[j]).session != session.deep_view(),
            decreases self.digests@.len() - i,
        {
            assert(all[i as int] == self.digests@[i as int].deep_view());
            if same(self.digests[i].session.0.as_str(), session.0.as_str()) {
                proof {
                    lemma_digest_at(all, session.deep_view());
                }
                return Some(i);
            }
            i = i + 1;
        }
        proof {
            lemma_digest_at(all, session.deep_view());
        }
        None
    }

    /// Write a session's digest over the one it had.
    pub fn put_session_digest(&mut self, digest: SessionDigest)
        ensures
            final(self).deep_view() == (StoreV {
                digests: digests_after(old(self).deep_view().digests, digest.deep_view()),
                ..old(self).deep_view()
            }),
    {
        let ghost before = self.digests.deep_view();
        let ghost dv = digest.deep_view();
        match self.find_digest(&digest.session) {
            Some(i) => {
                self.digests.set(i, digest);
                proof {
                    assert(self.digests.deep_view() =~= before.update(i as int, dv));
                }
            },
            None => {
                self.digests.push(digest);
                proof {
                    assert(self.digests.deep_view() =~= before.push(dv));
                }
            },
        }
    }

    /// The digests of a scope, the newest first, at most `limit`.
    pub fn session_digests(&self, scope: &str, limit: usize) -> (r: Vec<SessionDigest>)
        ensures
            r.deep_view() == at_most(digests_in(self.deep_view().digests, scope@), limit as nat),
    {
        let ghost all = self.digests.deep_view();
        let ghost keep = |d: SessionDigestV| d.scope == scope@;
        let mut kept: Vec<SessionDigest> = Vec::new();
        let mut keys: Vec<RankKey> = Vec::new();
        let mut i: usize = 0;
        proof {
            reveal(Seq::filter);
            assert(all.take(0).filter(keep) =~= seq![]);
            assert(kept.deep_view() =~= seq![]);
        }
        while i < self.digests.len()
            invariant
                i <= self.digests@.len(),
                all == self.digests.deep_view(),
                keep == (|d: SessionDigestV| d.scope == scope@),
                kept.deep_view() == all.take(i as int).filter(keep),
                keys@.len() == kept@.len(),
                forall|k: int|
                    0 <= k < keys@.len() ==> (#[trigger] keys@[k]).deep_view() == keys_by_date(kept.deep_view())[k],
            decreases self.digests@.len() - i,
        {
            proof {
                reveal(Seq::filter);
                assert(all.take(i + 1).drop_last() =~= all.take(i as int));
                assert(all.take(i + 1).last() == self.digests@[i as int].deep_view());
            }
            if same(self.digests[i].scope.as_str(), scope) {
                let ghost before = kept.deep_view();
                let one: SessionDigest = self.digests[i].clone();
                let key: RankKey = RankKey { first: one.at.0, second: 0, name: one.session.0.clone() };
                kept.push(one);
                keys.push(key);
                proof {
                    assert(kept.deep_view() =~= before.push(one.deep_view()));
                }
            }
            i = i + 1;
        }
        proof {
            assert(all.take(all.len() as int) =~= all);
            assert(keys.deep_view() =~= keys_by_date(kept.deep_view()));
        }
        let ord: Vec<usize> = rank(&keys, false);
        pick_digests(&kept, &ord, limit)
    }

    /// The digests of a scope that hold some of the tokens, at most `k`.
    pub fn search_digests(&self, scope: &str, tokens: &Vec<String>, k: usize) -> (r: Vec<SessionDigest>)
        ensures
            r.deep_view() == at_most(
                found_digests(self.deep_view().digests, scope@, tokens.deep_view()),
                k as nat,
            ),
    {
        let listed: Vec<SessionDigest> = self.session_digests(scope, self.digests.len());
        let ghost all = digests_in(self.deep_view().digests, scope@);
        let ghost tv = tokens.deep_view();
        let ghost keep = |d: SessionDigestV| hits_in(digest_text(d), tv) > 0;
        proof {
            lemma_digests_in_len(self.deep_view().digests, scope@);
            assert(listed.deep_view() == all);
        }
        let mut kept: Vec<SessionDigest> = Vec::new();
        let mut keys: Vec<RankKey> = Vec::new();
        let mut i: usize = 0;
        proof {
            reveal(Seq::filter);
            assert(all.take(0).filter(keep) =~= seq![]);
            assert(kept.deep_view() =~= seq![]);
        }
        while i < listed.len()
            invariant
                i <= listed@.len(),
                all == listed.deep_view(),
                tv == tokens.deep_view(),
                keep == (|d: SessionDigestV| hits_in(digest_text(d), tv) > 0),
                kept.deep_view() == all.take(i as int).filter(keep),
                keys@.len() == kept@.len(),
                forall|k: int|
                    0 <= k < keys@.len() ==> (#[trigger] keys@[k]).deep_view() == keys_by_match(
                        kept.deep_view(),
                        tv,
                    )[k],
            decreases listed@.len() - i,
        {
            proof {
                reveal(Seq::filter);
                assert(all.take(i + 1).drop_last() =~= all.take(i as int));
                assert(all.take(i + 1).last() == listed@[i as int].deep_view());
            }
            let hay: String = text_of_digest(&listed[i]);
            let score: usize = count_hits(hay.as_str(), tokens);
            if score > 0 {
                let ghost before = kept.deep_view();
                let one: SessionDigest = listed[i].clone();
                let key: RankKey = RankKey { first: score as u64, second: 0, name: String::new() };
                proof {
                    assert(key.name@ =~= seq![]);
                }
                kept.push(one);
                keys.push(key);
                proof {
                    assert(kept.deep_view() =~= before.push(one.deep_view()));
                }
            }
            i = i + 1;
        }
        proof {
            assert(all.take(all.len() as int) =~= all);
            assert(keys.deep_view() =~= keys_by_match(kept.deep_view(), tv));
        }
        let ord: Vec<usize> = rank(&keys, true);
        pick_digests(&kept, &ord, k)
    }
}

proof fn lemma_digests_in_len(digests: Seq<SessionDigestV>, scope: Seq<char>)
    ensures
        digests_in(digests, scope).len() <= digests.len(),
{
    let ds = scope_digests(digests, scope);
    digests.lemma_filter_len(|d: SessionDigestV| d.scope == scope);
    ranking::ranking_is_a_stable_order(keys_by_date(ds), false);
}

/// A consolidation pass that leaves the memory as it is.
#[derive(Debug, Clone, Copy)]
pub struct NoopConsolidator;

impl NoopConsolidator {
    pub fn run(&self, store: &mut InMemoryStore) -> (r: Result<(), StoreError>)
        ensures
            r is Ok,
            final(store).deep_view() == old(store).deep_view(),
    {
        Ok(())
    }
}

} // verus!
