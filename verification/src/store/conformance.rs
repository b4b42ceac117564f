//! What every memory owes for its facts.
//!
//! A memory is held to it by writing a few facts and judging what it answers. The
//! judgements take the answers, so any memory can be held to them; the two
//! functions at the ends of the chapters do all of it with the memory in the
//! process.

use vstd::prelude::*;

use crate::facts;
use crate::facts::{Fact, FactV};
use crate::ranking;
use crate::store;
use crate::store::{InMemoryStore, StoreV};
use crate::text;
use crate::text::same;
use crate::types::{FactState, Json, Timestamp};

verus! {

/// A fact as the questions below write it.
pub open spec fn told_fact(key: Seq<char>, json: Seq<char>, at: u64) -> FactV {
    FactV {
        key,
        value: json,
        last_validated: Timestamp(at),
        valid_from: Timestamp(at),
        ..facts::fresh_fact()
    }
}

/// A fact as the judgements below expect it to be written.
pub fn told(key: &str, json: &str, at: u64) -> (r: Fact)
    ensures
        r.deep_view() == told_fact(key@, json@, at),
{
    let fresh: Fact = Default::default();
    Fact {
        key: key.to_owned(),
        value: Json { text: json.to_owned() },
        last_validated: Timestamp(at),
        valid_from: Timestamp(at),
        ..fresh
    }
}

/// Some version of the fact still holds.
pub open spec fn holds_live(rows: Seq<FactV>, scope: Seq<char>, key: Seq<char>) -> bool {
    exists|i: int| 0 <= i < rows.len() && store::live_version(#[trigger] rows[i], scope, key)
}

/// The rows after a fact was forgotten.
pub open spec fn rows_forgotten(rows: Seq<FactV>, scope: Seq<char>, key: Seq<char>, at: Timestamp) -> Seq<FactV> {
    Seq::new(rows.len(), |i: int| store::forgotten(rows[i], scope, key, at))
}

/// The rows after the counters of a fact were set.
pub open spec fn rows_rescored(
    rows: Seq<FactV>,
    scope: Seq<char>,
    key: Seq<char>,
    exposures: u32,
    credits: u32,
) -> Seq<FactV> {
    Seq::new(rows.len(), |i: int| store::rescored(rows[i], scope, key, exposures, credits))
}

// ---------------------------------------------------------------------------
// Versions and scopes
// ---------------------------------------------------------------------------

/// The rows after the writes up to the second name.
pub open spec fn rows_renamed(rows: Seq<FactV>) -> Seq<FactV> {
    store::rows_after(
        store::rows_after(
            store::rows_after(rows, told_fact("user.name"@, "\"Martin\""@, 10)),
            FactV { uses: 3, ..told_fact("user.name"@, "\"Martin\""@, 10) },
        ),
        told_fact("user.name"@, "\"Peter\""@, 20),
    )
}

/// The rows after the other scope and the city were written too.
pub open spec fn rows_settled(rows: Seq<FactV>) -> Seq<FactV> {
    store::rows_after(rows_other(rows), told_fact("user.city"@, "\"Brno\""@, 40))
}

pub open spec fn rows_other(rows: Seq<FactV>) -> Seq<FactV> {
    store::rows_after(
        rows_renamed(rows),
        FactV { scope: "chat42"@, ..told_fact("user.name"@, "\"Jana\""@, 30) },
    )
}

/// What a memory answered keeps the versions apart: a restatement kept the version
/// and a new value superseded it. `was` are the facts under `user` after the
/// restatement, `now` those under `user.name` after the new value, `hist` the
/// name's history then.
pub open spec fn versions_answered(was: Seq<FactV>, now: Seq<FactV>, hist: Seq<FactV>) -> bool {
    &&& was.len() == 1 && was[0].uses == 3
    &&& now.len() == 1 && now[0].value == "\"Peter\""@
    &&& hist.len() == 2 && hist[0].value == "\"Peter\""@ && hist[1].state == FactState::Superseded
        && hist[1].valid_to == Some(Timestamp(20))
}

pub fn versions_kept(was: &Vec<Fact>, now: &Vec<Fact>, hist: &Vec<Fact>) -> (r: bool)
    ensures
        r == versions_answered(was.deep_view(), now.deep_view(), hist.deep_view()),
{
    let one: bool = was.len() == 1 && was[0].uses == 3;
    let two: bool = now.len() == 1 && same(now[0].value.text.as_str(), "\"Peter\"");
    let three: bool = hist.len() == 2 && same(hist[0].value.text.as_str(), "\"Peter\"") && hist[1].state
        == FactState::Superseded && is_at(hist[1].valid_to, 20);
    proof {
        if was@.len() == 1 {
            assert(was.deep_view()[0] == was@[0].deep_view());
        }
        if now@.len() == 1 {
            assert(now.deep_view()[0] == now@[0].deep_view());
        }
        if hist@.len() == 2 {
            assert(hist.deep_view()[0] == hist@[0].deep_view());
            assert(hist.deep_view()[1] == hist@[1].deep_view());
        }
    }
    one && two && three
}

/// What a memory answered keeps the scopes apart. `here` and `there` are the facts
/// of the two scopes, `scopes` their names in order.
pub open spec fn scopes_answered(here: Seq<FactV>, there: Seq<FactV>, scopes: Seq<Seq<char>>) -> bool {
    &&& here.len() == 1
    &&& there.len() > 0 && there[0].value == "\"Jana\""@
    &&& scopes == seq!["chat42"@, "global"@]
}

pub fn scopes_kept(here: &Vec<Fact>, there: &Vec<Fact>, scopes: &Vec<String>) -> (r: bool)
    ensures
        r == scopes_answered(here.deep_view(), there.deep_view(), scopes.deep_view()),
{
    let two: bool = there.len() > 0 && same(there[0].value.text.as_str(), "\"Jana\"");
    let three: bool = scopes.len() == 2 && same(scopes[0].as_str(), "chat42") && same(scopes[1].as_str(), "global");
    proof {
        if there@.len() > 0 {
            assert(there.deep_view()[0] == there@[0].deep_view());
        }
        let want = seq!["chat42"@, "global"@];
        if scopes@.len() == 2 {
            assert(scopes.deep_view()[0] == scopes@[0]@);
            assert(scopes.deep_view()[1] == scopes@[1]@);
        }
        assert(three == (scopes.deep_view() == want)) by {
            if three {
                assert(scopes.deep_view() =~= want);
            }
            if scopes.deep_view() == want {
                assert(scopes@.len() == want.len());
                assert(want[0] == "chat42"@ && want[1] == "global"@);
            }
        }
    }
    here.len() == 1 && two && three
}

/// What a memory answered searches the current facts only. `city` was found for
/// "which city", `old` for a value that was superseded.
pub open spec fn search_answered(city: Seq<FactV>, old_value: Seq<FactV>) -> bool {
    &&& city.len() == 1 && city[0].key == "user.city"@
    &&& old_value.len() == 0
}

pub fn search_kept(city: &Vec<Fact>, old_value: &Vec<Fact>) -> (r: bool)
    ensures
        r == search_answered(city.deep_view(), old_value.deep_view()),
{
    proof {
        if city@.len() == 1 {
            assert(city.deep_view()[0] == city@[0].deep_view());
        }
    }
    city.len() == 1 && same(city[0].key.as_str(), "user.city") && old_value.len() == 0
}

/// What a memory answered when the name was forgotten: it was there to forget, it
/// is not shown any more, its history ends forgotten, there was nothing to forget
/// the second time nor under a name that nothing has, and told again it is shown as
/// a third version.
pub open spec fn forgetting_answered(
    hit: bool,
    shown: Seq<FactV>,
    hist: Seq<FactV>,
    again: bool,
    nothing: bool,
    now: Seq<FactV>,
    all: Seq<FactV>,
) -> bool {
    &&& hit
    &&& shown.len() == 0
    &&& hist.len() > 0 && hist[0].state == FactState::Forgotten && hist[0].valid_to == Some(Timestamp(50))
    &&& !again
    &&& !nothing
    &&& now.len() == 1
    &&& all.len() == 3
}

pub fn forgetting_kept(
    hit: bool,
    shown: &Vec<Fact>,
    hist: &Vec<Fact>,
    again: bool,
    nothing: bool,
    now: &Vec<Fact>,
    all: &Vec<Fact>,
) -> (r: bool)
    ensures
        r == forgetting_answered(
            hit,
            shown.deep_view(),
            hist.deep_view(),
            again,
            nothing,
            now.deep_view(),
            all.deep_view(),
        ),
{
    let soft: bool = hist.len() > 0 && hist[0].state == FactState::Forgotten && is_at(hist[0].valid_to, 50);
    proof {
        if hist@.len() > 0 {
            assert(hist.deep_view()[0] == hist@[0].deep_view());
        }
    }
    hit && shown.len() == 0 && soft && !again && !nothing && now.len() == 1 && all.len() == 3
}

/// What a memory answered when a scope was purged: every version of it is gone,
/// and nothing of the other scope.
pub open spec fn purge_answered(removed: int, shown: Seq<FactV>, hist: Seq<FactV>, there: Seq<FactV>) -> bool {
    removed == 4 && shown.len() == 0 && hist.len() == 0 && there.len() == 1
}

pub fn purge_kept(removed: usize, shown: &Vec<Fact>, hist: &Vec<Fact>, there: &Vec<Fact>) -> (r: bool)
    ensures
        r == purge_answered(removed as int, shown.deep_view(), hist.deep_view(), there.deep_view()),
{
    removed == 4 && shown.len() == 0 && hist.len() == 0 && there.len() == 1
}

/// A restatement keeps the version and a new value supersedes it: one current
/// version, both in the history with the newer first, the older closed where the
/// newer begins.
pub open spec fn versions_promise(rows: Seq<FactV>) -> bool {
    let bumped = store::rows_after(
        store::rows_after(rows, told_fact("user.name"@, "\"Martin\""@, 10)),
        FactV { uses: 3, ..told_fact("user.name"@, "\"Martin\""@, 10) },
    );
    versions_answered(
        store::facts_in(bumped, "global"@, "user"@),
        store::facts_in(rows_renamed(rows), "global"@, "user.name"@),
        store::history_in(rows_renamed(rows), "global"@, "user.name"@),
    )
}

/// A scope holds its own facts and no other's.
pub open spec fn scopes_promise(rows: Seq<FactV>) -> bool {
    scopes_answered(
        store::facts_in(rows_other(rows), "global"@, ""@),
        store::facts_in(rows_other(rows), "chat42"@, ""@),
        store::in_dictionary_order(store::scopes_seen(rows_other(rows))),
    )
}

/// Forgetting is soft and happens once, and what is told again afterwards is a
/// fresh version.
pub open spec fn forgetting_promise(rows: Seq<FactV>) -> bool {
    let before = rows_settled(rows);
    let after = rows_forgotten(before, "global"@, "user.name"@, Timestamp(50));
    let again = rows_again(rows);
    forgetting_answered(
        holds_live(before, "global"@, "user.name"@),
        store::facts_in(after, "global"@, "user.name"@),
        store::history_in(after, "global"@, "user.name"@),
        holds_live(after, "global"@, "user.name"@),
        holds_live(rows_forgotten(after, "global"@, "user.name"@, Timestamp(51)), "global"@, "nope"@),
        store::facts_in(again, "global"@, "user.name"@),
        store::history_in(again, "global"@, "user.name"@),
    )
}

/// The rows after the name was forgotten, asked for in vain twice, and told
/// again.
pub open spec fn rows_again(rows: Seq<FactV>) -> Seq<FactV> {
    let after = rows_forgotten(rows_settled(rows), "global"@, "user.name"@, Timestamp(50));
    let twice = rows_forgotten(after, "global"@, "user.name"@, Timestamp(51));
    let thrice = rows_forgotten(twice, "global"@, "nope"@, Timestamp(51));
    store::rows_after(thrice, told_fact("user.name"@, "\"Martin\""@, 60))
}

/// The rows that a purge of the global scope leaves.
pub open spec fn rows_purged(rows: Seq<FactV>) -> Seq<FactV> {
    rows_again(rows).filter(|f: FactV| f.scope != "global"@)
}

/// A purge takes every version of one scope and nothing else.
pub open spec fn purge_promise(rows: Seq<FactV>) -> bool {
    let left = rows_purged(rows);
    purge_answered(
        rows_again(rows).len() - left.len(),
        store::facts_in(left, "global"@, ""@),
        store::history_in(left, "global"@, "user.name"@),
        store::facts_in(left, "chat42"@, ""@),
    )
}

fn keeps_versions(s: &mut InMemoryStore) -> (r: bool)
    ensures
        r == versions_promise(old(s).deep_view().facts),
        final(s).deep_view() == (StoreV { facts: rows_renamed(old(s).deep_view().facts), ..old(s).deep_view() }),
{
    s.put_fact(told("user.name", "\"Martin\"", 10));
    let mut bumped: Fact = told("user.name", "\"Martin\"", 10);
    bumped.uses = 3;
    s.put_fact(bumped);
    let was: Vec<Fact> = s.facts("global", "user");
    s.put_fact(told("user.name", "\"Peter\"", 20));
    let now: Vec<Fact> = s.facts("global", "user.name");
    let hist: Vec<Fact> = s.fact_history("global", "user.name");
    versions_kept(&was, &now, &hist)
}

fn is_at(when: Option<Timestamp>, at: u64) -> (r: bool)
    ensures
        r == (when == Some(Timestamp(at))),
{
    match when {
        Some(t) => t.0 == at,
        None => false,
    }
}

fn keeps_scopes(s: &mut InMemoryStore, rows: Ghost<Seq<FactV>>) -> (r: bool)
    requires
        old(s).deep_view().facts == rows_renamed(rows@),
    ensures
        r == scopes_promise(rows@),
        final(s).deep_view() == (StoreV { facts: rows_settled(rows@), ..old(s).deep_view() }),
{
    let mut other: Fact = told("user.name", "\"Jana\"", 30);
    other.scope = "chat42".to_owned();
    s.put_fact(other);
    let here: Vec<Fact> = s.facts("global", "");
    let there: Vec<Fact> = s.facts("chat42", "");
    let scopes: Vec<String> = s.scopes();
    s.put_fact(told("user.city", "\"Brno\"", 40));
    scopes_kept(&here, &there, &scopes)
}

fn keeps_forgetting(s: &mut InMemoryStore, rows: Ghost<Seq<FactV>>) -> (r: bool)
    requires
        old(s).deep_view().facts == rows_settled(rows@),
    ensures
        r == forgetting_promise(rows@),
        final(s).deep_view() == (StoreV { facts: rows_again(rows@), ..old(s).deep_view() }),
{
    let ghost before = s.deep_view().facts;
    let hit: bool = s.forget_fact("global", "user.name", Timestamp(50));
    let ghost after = s.deep_view().facts;
    proof {
        assert(after =~= rows_forgotten(before, "global"@, "user.name"@, Timestamp(50)));
    }
    let none: Vec<Fact> = s.facts("global", "user.name");
    let hist: Vec<Fact> = s.fact_history("global", "user.name");
    let again: bool = s.forget_fact("global", "user.name", Timestamp(51));
    let ghost twice = s.deep_view().facts;
    proof {
        assert(twice =~= rows_forgotten(after, "global"@, "user.name"@, Timestamp(51)));
    }
    let other: bool = s.forget_fact("global", "nope", Timestamp(51));
    proof {
        assert(s.deep_view().facts =~= rows_forgotten(twice, "global"@, "nope"@, Timestamp(51)));
    }
    s.put_fact(told("user.name", "\"Martin\"", 60));
    let now: Vec<Fact> = s.facts("global", "user.name");
    let all: Vec<Fact> = s.fact_history("global", "user.name");
    forgetting_kept(hit, &none, &hist, again, other, &now, &all)
}

/// Whether the memory in the process keeps what it owes for the versions, the
/// scopes, the forgetting and the purging of facts. What it finds is judged where
/// the words of a query are known.
pub fn fact_conformance(s: &mut InMemoryStore) -> (r: bool)
    ensures
        r == ({
            let rows = old(s).deep_view().facts;
            versions_promise(rows) && scopes_promise(rows) && forgetting_promise(rows) && purge_promise(rows)
        }),
        old(s).deep_view().facts.len() == 0 ==> r,
        final(s).deep_view() == (StoreV { facts: rows_purged(old(s).deep_view().facts), ..old(s).deep_view() }),
{
    let ghost rows = s.deep_view().facts;
    let versions: bool = keeps_versions(s);
    let scopes: bool = keeps_scopes(s, Ghost(rows));
    let forgetting: bool = keeps_forgetting(s, Ghost(rows));
    let removed: usize = s.purge_facts("global");
    let none: Vec<Fact> = s.facts("global", "");
    let gone: Vec<Fact> = s.fact_history("global", "user.name");
    let kept: Vec<Fact> = s.facts("chat42", "");
    let purge: bool = purge_kept(removed, &none, &gone, &kept);
    proof {
        if rows.len() == 0 {
            assert(rows =~= seq![]);
            the_memory_in_the_process_keeps_its_promises();
        }
    }
    versions && scopes && forgetting && purge
}

// ---------------------------------------------------------------------------
// Counters
// ---------------------------------------------------------------------------

/// The two histories hold the same versions: the same values, states and
/// beginnings, in the same order.
pub open spec fn same_versions(a: Seq<FactV>, b: Seq<FactV>) -> bool {
    &&& a.len() == b.len()
    &&& forall|i: int|
        0 <= i < a.len() ==> (#[trigger] a[i]).value == b[i].value && a[i].state == b[i].state && a[i].valid_from
            == b[i].valid_from
}

fn are_same_versions(a: &Vec<Fact>, b: &Vec<Fact>) -> (r: bool)
    ensures
        r == same_versions(a.deep_view(), b.deep_view()),
{
    if a.len() != b.len() {
        return false;
    }
    let ghost x = a.deep_view();
    let ghost y = b.deep_view();
    let mut i: usize = 0;
    while i < a.len()
        invariant
            i <= a@.len(),
            a@.len() == b@.len(),
            x == a.deep_view(),
            y == b.deep_view(),
            forall|k: int|
                0 <= k < i ==> (#[trigger] x[k]).value == y[k].value && x[k].state == y[k].state && x[k].valid_from
                    == y[k].valid_from,
        decreases a@.len() - i,
    {
        assert(x[i as int] == a@[i as int].deep_view());
        assert(y[i as int] == b@[i as int].deep_view());
        if !same(a[i].value.text.as_str(), b[i].value.text.as_str()) || a[i].state != b[i].state
            || a[i].valid_from.0 != b[i].valid_from.0 {
            return false;
        }
        i = i + 1;
    }
    true
}

/// The name with counters, and the name that supersedes it without.
pub open spec fn rows_scored(rows: Seq<FactV>) -> Seq<FactV> {
    store::rows_after(
        store::rows_after(rows, FactV { exposures: 4, credits: 1, ..told_fact("user.name"@, "\"Martin\""@, 10) }),
        told_fact("user.name"@, "\"Peter\""@, 20),
    )
}

/// What a memory answered keeps the counters: they travel with a version, a new
/// version starts at none, and setting them sets them and nothing else. `born` are
/// the facts after the first write, `before` and `after` the histories around
/// setting them, `again` the facts once they were set anew.
pub open spec fn counters_answered(
    born: Seq<FactV>,
    before: Seq<FactV>,
    after: Seq<FactV>,
    again: Seq<FactV>,
) -> bool {
    &&& born.len() > 0 && born[0].exposures == 4 && born[0].credits == 1
    &&& before.len() == 2 && before[0].exposures == 0 && before[0].credits == 0
    &&& same_versions(after, before) && after.len() == 2 && after[0].exposures == 9 && after[0].credits == 3
        && after[1].exposures == 4 && after[1].credits == 1
    &&& again.len() > 0 && again[0].exposures == 2 && again[0].credits == 0
}

pub fn counters_kept(born: &Vec<Fact>, before: &Vec<Fact>, after: &Vec<Fact>, again: &Vec<Fact>) -> (r: bool)
    ensures
        r == counters_answered(born.deep_view(), before.deep_view(), after.deep_view(), again.deep_view()),
{
    let one: bool = born.len() > 0 && born[0].exposures == 4 && born[0].credits == 1;
    let two: bool = before.len() == 2 && before[0].exposures == 0 && before[0].credits == 0;
    let three: bool = are_same_versions(after, before) && after.len() == 2 && after[0].exposures == 9
        && after[0].credits == 3 && after[1].exposures == 4 && after[1].credits == 1;
    let four: bool = again.len() > 0 && again[0].exposures == 2 && again[0].credits == 0;
    proof {
        if born@.len() > 0 {
            assert(born.deep_view()[0] == born@[0].deep_view());
        }
        if before@.len() == 2 {
            assert(before.deep_view()[0] == before@[0].deep_view());
        }
        if after@.len() == 2 {
            assert(after.deep_view()[0] == after@[0].deep_view());
            assert(after.deep_view()[1] == after@[1].deep_view());
        }
        if again@.len() > 0 {
            assert(again.deep_view()[0] == again@[0].deep_view());
        }
    }
    one && two && three && four
}

pub open spec fn counters_promise(rows: Seq<FactV>) -> bool {
    let born = store::rows_after(
        rows,
        FactV { exposures: 4, credits: 1, ..told_fact("user.name"@, "\"Martin\""@, 10) },
    );
    let set = rows_rescored(rows_scored(rows), "global"@, "user.name"@, 9, 3);
    counters_answered(
        store::facts_in(born, "global"@, "user.name"@),
        store::history_in(rows_scored(rows), "global"@, "user.name"@),
        store::history_in(set, "global"@, "user.name"@),
        store::facts_in(rows_reset(rows), "global"@, "user.name"@),
    )
}

pub open spec fn rows_reset(rows: Seq<FactV>) -> Seq<FactV> {
    rows_rescored(
        rows_rescored(rows_scored(rows), "global"@, "user.name"@, 9, 3),
        "global"@,
        "user.name"@,
        2,
        0,
    )
}

/// The rows at the end. The last call names a key that has no version, which
/// changes nothing.
pub open spec fn rows_measured(rows: Seq<FactV>) -> Seq<FactV> {
    rows_rescored(rows_reset(rows), "global"@, "user.nothing"@, 5, 5)
}

/// Whether the memory keeps what it owes for the counters of a fact.
pub fn fitness_conformance(s: &mut InMemoryStore) -> (r: bool)
    ensures
        r == counters_promise(old(s).deep_view().facts),
        old(s).deep_view().facts.len() == 0 ==> r,
        final(s).deep_view() == (StoreV { facts: rows_measured(old(s).deep_view().facts), ..old(s).deep_view() }),
{
    let ghost rows = s.deep_view().facts;
    let mut first: Fact = told("user.name", "\"Martin\"", 10);
    first.exposures = 4;
    first.credits = 1;
    s.put_fact(first);
    let born: Vec<Fact> = s.facts("global", "user.name");
    s.put_fact(told("user.name", "\"Peter\"", 20));
    let before: Vec<Fact> = s.fact_history("global", "user.name");
    s.set_fact_fitness("global", "user.name", 9, 3);
    proof {
        assert(s.deep_view().facts =~= rows_rescored(rows_scored(rows), "global"@, "user.name"@, 9, 3));
    }
    let after: Vec<Fact> = s.fact_history("global", "user.name");
    s.set_fact_fitness("global", "user.name", 2, 0);
    proof {
        assert(s.deep_view().facts =~= rows_reset(rows));
    }
    let again: Vec<Fact> = s.facts("global", "user.name");
    s.set_fact_fitness("global", "user.nothing", 5, 5);
    proof {
        assert(s.deep_view().facts =~= rows_measured(rows));
    }
    proof {
        if rows.len() == 0 {
            assert(rows =~= seq![]);
            the_memory_in_the_process_keeps_its_promises();
        }
    }
    counters_kept(&born, &before, &after, &again)
}

// ---------------------------------------------------------------------------
// Laws
// ---------------------------------------------------------------------------

spec fn nothing() -> Seq<FactV> {
    seq![]
}

proof fn lemma_filter_push<A>(s: Seq<A>, x: A, keep: spec_fn(A) -> bool)
    ensures
        s.push(x).filter(keep) == (if keep(x) {
            s.filter(keep).push(x)
        } else {
            s.filter(keep)
        }),
{
    reveal(Seq::filter);
    assert(s.push(x).drop_last() =~= s);
}

/// One fact is shown as itself.
proof fn lemma_one_shown(rows: Seq<FactV>, scope: Seq<char>, prefix: Seq<char>, x: FactV)
    requires
        store::shown_rows(rows, scope, prefix) == nothing().push(x),
    ensures
        store::facts_in(rows, scope, prefix) == nothing().push(x),
{
    let live = store::shown_rows(rows, scope, prefix);
    ranking::ranking_is_a_stable_order(store::keys_by_name(live), true);
    assert(store::facts_in(rows, scope, prefix) =~= nothing().push(x));
}

/// Of two versions the newer comes first.
proof fn lemma_newer_first(rows: Seq<FactV>, scope: Seq<char>, key: Seq<char>, a: FactV, b: FactV)
    requires
        store::version_rows(rows, scope, key) == nothing().push(a).push(b),
        a.valid_from.0 < b.valid_from.0,
    ensures
        store::history_in(rows, scope, key) == nothing().push(b).push(a),
{
    let versions = store::version_rows(rows, scope, key);
    let keys = store::keys_by_age(versions);
    let ord = ranking::order(keys, true);
    ranking::ranking_is_a_stable_order(keys, true);
    assert(ranking::precedes(keys[1], keys[0], true));
    assert(ord[0] == 1 && ord[1] == 0) by {
        if ord[0] == 0 {
            assert(!ranking::precedes(keys[ord[1]], keys[ord[0]], true));
        }
    }
    assert(store::history_in(rows, scope, key) =~= nothing().push(b).push(a));
}

/// A write of a version that no row has adds it.
proof fn lemma_added(rows: Seq<FactV>, fact: FactV, after: Seq<FactV>)
    requires
        forall|i: int| 0 <= i < rows.len() ==> !store::same_version(#[trigger] rows[i], fact),
        after.len() == rows.len() + 1,
        after.last() == fact,
        forall|i: int| 0 <= i < rows.len() ==> #[trigger] after[i] == store::outdated(rows[i], fact),
    ensures
        store::rows_after(rows, fact) == after,
{
    store::lemma_version_at(rows, fact);
    assert(store::rows_after(rows, fact) =~= after);
}

spec fn first_name() -> FactV {
    told_fact("user.name"@, "\"Martin\""@, 10)
}

spec fn bumped_name() -> FactV {
    FactV { uses: 3, ..first_name() }
}

spec fn second_name() -> FactV {
    told_fact("user.name"@, "\"Peter\""@, 20)
}

spec fn replaced_name() -> FactV {
    FactV { state: FactState::Superseded, valid_to: Some(Timestamp(20)), ..bumped_name() }
}

spec fn dropped_name() -> FactV {
    FactV { state: FactState::Forgotten, valid_to: Some(Timestamp(50)), ..second_name() }
}

spec fn other_name() -> FactV {
    FactV { scope: "chat42"@, ..told_fact("user.name"@, "\"Jana\""@, 30) }
}

spec fn city() -> FactV {
    told_fact("user.city"@, "\"Brno\""@, 40)
}

spec fn third_name() -> FactV {
    told_fact("user.name"@, "\"Martin\""@, 60)
}

/// How the names that the judgements use compare.
proof fn lemma_names()
    ensures
        "global"@ != "chat42"@,
        "user.name"@ != "user.city"@,
        "user.name"@ != "nope"@,
        "user.city"@ != "nope"@,
        text::starts("user.name"@, "user"@),
        text::starts("user.name"@, "user.name"@),
        text::starts("user.name"@, ""@),
        text::starts("user.city"@, ""@),
        !text::starts("user.city"@, "user.name"@),
        ranking::sorts_before("chat42"@, "global"@),
{
    reveal_strlit("global");
    reveal_strlit("chat42");
    reveal_strlit("user.name");
    reveal_strlit("user.city");
    reveal_strlit("user");
    reveal_strlit("nope");
    reveal_strlit("");
    assert("global"@[0] != "chat42"@[0]);
    assert("user.name"@[5] != "user.city"@[5]);
    assert("user.name"@.take(4) =~= "user"@);
    assert("user.name"@.take(9) =~= "user.name"@);
    assert("user.name"@.take(0) =~= ""@);
    assert("user.city"@.take(0) =~= ""@);
    assert("user.city"@.take(9)[5] != "user.name"@[5]);
}

/// The rows of an empty memory as the judgements change them.
proof fn lemma_rows()
    ensures
        store::rows_after(seq![], first_name()) == nothing().push(first_name()),
        store::rows_after(nothing().push(first_name()), bumped_name()) == nothing().push(bumped_name()),
        rows_renamed(seq![]) == nothing().push(replaced_name()).push(second_name()),
        rows_other(seq![]) == nothing().push(replaced_name()).push(second_name()).push(other_name()),
        rows_settled(seq![]) == nothing().push(replaced_name()).push(second_name()).push(other_name()).push(city()),
        rows_forgotten(rows_settled(seq![]), "global"@, "user.name"@, Timestamp(50)) == nothing().push(
            replaced_name(),
        ).push(dropped_name()).push(other_name()).push(city()),
        rows_forgotten(
            rows_forgotten(rows_settled(seq![]), "global"@, "user.name"@, Timestamp(50)),
            "global"@,
            "user.name"@,
            Timestamp(51),
        ) == nothing().push(replaced_name()).push(dropped_name()).push(other_name()).push(city()),
        rows_again(seq![]) == nothing().push(replaced_name()).push(dropped_name()).push(other_name()).push(
            city(),
        ).push(third_name()),
        rows_purged(seq![]) == nothing().push(other_name()),
{
    lemma_names();
    let none = nothing();
    lemma_added(none, first_name(), nothing().push(first_name()));
    let one = nothing().push(first_name());
    store::lemma_version_at(one, bumped_name());
    assert(store::same_version(one[0], bumped_name()));
    assert(store::rows_after(one, bumped_name()) =~= nothing().push(bumped_name()));
    lemma_added(nothing().push(bumped_name()), second_name(), nothing().push(replaced_name()).push(second_name()));
    lemma_added(
        nothing().push(replaced_name()).push(second_name()),
        other_name(),
        nothing().push(replaced_name()).push(second_name()).push(other_name()),
    );
    lemma_added(
        nothing().push(replaced_name()).push(second_name()).push(other_name()),
        city(),
        nothing().push(replaced_name()).push(second_name()).push(other_name()).push(city()),
    );
    let gone = nothing().push(replaced_name()).push(dropped_name()).push(other_name()).push(city());
    assert(rows_forgotten(rows_settled(seq![]), "global"@, "user.name"@, Timestamp(50)) =~= gone);
    assert(rows_forgotten(gone, "global"@, "user.name"@, Timestamp(51)) =~= gone);
    assert(rows_forgotten(gone, "global"@, "nope"@, Timestamp(51)) =~= gone);
    let again = nothing().push(replaced_name()).push(dropped_name()).push(other_name()).push(city()).push(third_name());
    lemma_added(gone, third_name(), again);
    let keep = |f: FactV| f.scope != "global"@;
    lemma_filter_push(gone, third_name(), keep);
    lemma_filter_push(nothing().push(replaced_name()).push(dropped_name()).push(other_name()), city(), keep);
    lemma_filter_push(nothing().push(replaced_name()).push(dropped_name()), other_name(), keep);
    lemma_filter_push(nothing().push(replaced_name()), dropped_name(), keep);
    lemma_filter_push(none, replaced_name(), keep);
    reveal(Seq::filter);
    assert(none.filter(keep) =~= none);
    assert(rows_purged(seq![]) =~= nothing().push(other_name()));
}

proof fn lemma_versions()
    ensures
        versions_promise(seq![]),
{
    lemma_names();
    lemma_rows();
    let none = nothing();
    let two = nothing().push(replaced_name()).push(second_name());
    let user = |f: FactV| f.scope == "global"@ && f.state.live() && text::starts(f.key, "user"@);
    let name = |f: FactV| f.scope == "global"@ && f.state.live() && text::starts(f.key, "user.name"@);
    let version = |f: FactV| f.scope == "global"@ && f.key == "user.name"@;
    reveal(Seq::filter);
    assert(none.filter(user) =~= none && none.filter(name) =~= none && none.filter(version) =~= none);
    lemma_filter_push(none, bumped_name(), user);
    lemma_one_shown(nothing().push(bumped_name()), "global"@, "user"@, bumped_name());
    lemma_filter_push(none, replaced_name(), name);
    lemma_filter_push(nothing().push(replaced_name()), second_name(), name);
    lemma_one_shown(two, "global"@, "user.name"@, second_name());
    lemma_filter_push(none, replaced_name(), version);
    lemma_filter_push(nothing().push(replaced_name()), second_name(), version);
    lemma_newer_first(two, "global"@, "user.name"@, replaced_name(), second_name());
}

proof fn lemma_scopes()
    ensures
        scopes_promise(seq![]),
{
    lemma_names();
    lemma_rows();
    let none = nothing();
    let rows = nothing().push(replaced_name()).push(second_name()).push(other_name());
    let here = |f: FactV| f.scope == "global"@ && f.state.live() && text::starts(f.key, ""@);
    let there = |f: FactV| f.scope == "chat42"@ && f.state.live() && text::starts(f.key, ""@);
    reveal(Seq::filter);
    assert(none.filter(here) =~= none && none.filter(there) =~= none);
    lemma_filter_push(none, replaced_name(), here);
    lemma_filter_push(nothing().push(replaced_name()), second_name(), here);
    lemma_filter_push(nothing().push(replaced_name()).push(second_name()), other_name(), here);
    lemma_one_shown(rows, "global"@, ""@, second_name());
    lemma_filter_push(none, replaced_name(), there);
    lemma_filter_push(nothing().push(replaced_name()), second_name(), there);
    lemma_filter_push(nothing().push(replaced_name()).push(second_name()), other_name(), there);
    lemma_one_shown(rows, "chat42"@, ""@, other_name());
    let names = seq!["global"@, "chat42"@];
    reveal_with_fuel(store::scopes_seen, 4);
    assert(rows.drop_last() =~= nothing().push(replaced_name()).push(second_name()));
    assert(rows.drop_last().drop_last() =~= nothing().push(replaced_name()));
    assert(rows.drop_last().drop_last().drop_last() =~= none);
    assert(store::scopes_seen(nothing().push(replaced_name())) =~= seq!["global"@]);
    assert(seq!["global"@][0] == "global"@);
    assert(seq!["global"@].contains("global"@));
    assert(store::scopes_seen(nothing().push(replaced_name()).push(second_name())) =~= seq!["global"@]);
    assert(store::scopes_seen(rows) =~= names);
    let keys = store::keys_of_names(names);
    let ord = ranking::order(keys, true);
    ranking::ranking_is_a_stable_order(keys, true);
    assert(ranking::precedes(keys[1], keys[0], true));
    assert(ord[0] == 1 && ord[1] == 0) by {
        if ord[0] == 0 {
            assert(!ranking::precedes(keys[ord[1]], keys[ord[0]], true));
        }
    }
    assert(store::in_dictionary_order(names) =~= seq!["chat42"@, "global"@]);
}

proof fn lemma_forgetting()
    ensures
        forgetting_promise(seq![]),
{
    lemma_names();
    lemma_rows();
    let none = nothing();
    let before = nothing().push(replaced_name()).push(second_name()).push(other_name()).push(city());
    let gone = nothing().push(replaced_name()).push(dropped_name()).push(other_name()).push(city());
    let again = nothing().push(replaced_name()).push(dropped_name()).push(other_name()).push(city()).push(third_name());
    let name = |f: FactV| f.scope == "global"@ && f.state.live() && text::starts(f.key, "user.name"@);
    let version = |f: FactV| f.scope == "global"@ && f.key == "user.name"@;
    reveal(Seq::filter);
    assert(none.filter(name) =~= none && none.filter(version) =~= none);
    assert(store::live_version(before[1], "global"@, "user.name"@));
    lemma_filter_push(none, replaced_name(), name);
    lemma_filter_push(nothing().push(replaced_name()), dropped_name(), name);
    lemma_filter_push(nothing().push(replaced_name()).push(dropped_name()), other_name(), name);
    lemma_filter_push(nothing().push(replaced_name()).push(dropped_name()).push(other_name()), city(), name);
    lemma_filter_push(gone, third_name(), name);
    ranking::ranking_is_a_stable_order(
        store::keys_by_name(store::shown_rows(gone, "global"@, "user.name"@)),
        true,
    );
    lemma_one_shown(again, "global"@, "user.name"@, third_name());
    lemma_filter_push(none, replaced_name(), version);
    lemma_filter_push(nothing().push(replaced_name()), dropped_name(), version);
    lemma_filter_push(nothing().push(replaced_name()).push(dropped_name()), other_name(), version);
    lemma_filter_push(nothing().push(replaced_name()).push(dropped_name()).push(other_name()), city(), version);
    lemma_filter_push(gone, third_name(), version);
    lemma_newer_first(gone, "global"@, "user.name"@, replaced_name(), dropped_name());
    ranking::ranking_is_a_stable_order(
        store::keys_by_age(store::version_rows(again, "global"@, "user.name"@)),
        true,
    );
    assert forall|i: int| 0 <= i < gone.len() implies !store::live_version(#[trigger] gone[i], "global"@, "user.name"@)
        && !store::live_version(gone[i], "global"@, "nope"@) by {}
}

proof fn lemma_purge()
    ensures
        purge_promise(seq![]),
{
    lemma_names();
    lemma_rows();
    let none = nothing();
    let here = |f: FactV| f.scope == "global"@ && f.state.live() && text::starts(f.key, ""@);
    let there = |f: FactV| f.scope == "chat42"@ && f.state.live() && text::starts(f.key, ""@);
    let version = |f: FactV| f.scope == "global"@ && f.key == "user.name"@;
    reveal(Seq::filter);
    assert(none.filter(here) =~= none && none.filter(there) =~= none && none.filter(version) =~= none);
    lemma_filter_push(none, other_name(), here);
    lemma_filter_push(none, other_name(), there);
    lemma_filter_push(none, other_name(), version);
    let left = nothing().push(other_name());
    lemma_one_shown(left, "chat42"@, ""@, other_name());
    ranking::ranking_is_a_stable_order(store::keys_by_name(store::shown_rows(left, "global"@, ""@)), true);
    ranking::ranking_is_a_stable_order(store::keys_by_age(store::version_rows(left, "global"@, "user.name"@)), true);
}

proof fn lemma_counters()
    ensures
        counters_promise(seq![]),
{
    lemma_names();
    let none = nothing();
    let born = FactV { exposures: 4, credits: 1, ..first_name() };
    let aged = FactV { state: FactState::Superseded, valid_to: Some(Timestamp(20)), ..born };
    let fresh = second_name();
    let set = FactV { exposures: 9, credits: 3, ..fresh };
    let reset = FactV { exposures: 2, credits: 0, ..fresh };
    lemma_added(none, born, nothing().push(born));
    lemma_added(nothing().push(born), fresh, nothing().push(aged).push(fresh));
    assert(rows_scored(seq![]) == nothing().push(aged).push(fresh));
    assert(rows_rescored(nothing().push(aged).push(fresh), "global"@, "user.name"@, 9, 3) =~= nothing().push(aged).push(set));
    assert(rows_rescored(nothing().push(aged).push(set), "global"@, "user.name"@, 2, 0) =~= nothing().push(aged).push(reset));
    let name = |f: FactV| f.scope == "global"@ && f.state.live() && text::starts(f.key, "user.name"@);
    let version = |f: FactV| f.scope == "global"@ && f.key == "user.name"@;
    reveal(Seq::filter);
    assert(none.filter(name) =~= none && none.filter(version) =~= none);
    lemma_filter_push(none, born, name);
    lemma_one_shown(nothing().push(born), "global"@, "user.name"@, born);
    lemma_filter_push(none, aged, version);
    lemma_filter_push(nothing().push(aged), fresh, version);
    lemma_filter_push(nothing().push(aged), set, version);
    lemma_newer_first(nothing().push(aged).push(fresh), "global"@, "user.name"@, aged, fresh);
    lemma_newer_first(nothing().push(aged).push(set), "global"@, "user.name"@, aged, set);
    lemma_filter_push(none, aged, name);
    lemma_filter_push(nothing().push(aged), reset, name);
    lemma_one_shown(nothing().push(aged).push(reset), "global"@, "user.name"@, reset);
}

/// The memory in the process keeps every promise when it begins empty.
pub proof fn the_memory_in_the_process_keeps_its_promises()
    ensures
        versions_promise(seq![]),
        scopes_promise(seq![]),
        forgetting_promise(seq![]),
        purge_promise(seq![]),
        counters_promise(seq![]),
{
    lemma_versions();
    lemma_scopes();
    lemma_forgetting();
    lemma_purge();
    lemma_counters();
}

/// A memory fails the questions on versions where a restatement made a version or lost the
/// uses, where the old value is shown or the new one is not, and where the old version is
/// not closed where the new one begins.
pub proof fn when_versions_are_kept(was: Seq<FactV>, now: Seq<FactV>, hist: Seq<FactV>)
    ensures
        versions_answered(was, now, hist) ==> was.len() == 1 && now.len() == 1 && hist.len() == 2,
        was.len() == 1 && now.len() == 1 && hist.len() == 2 ==> (versions_answered(was, now, hist) <==> was[0].uses == 3
            && now[0].value == "\"Peter\""@ && hist[0].value == "\"Peter\""@ && hist[1].state == FactState::Superseded
            && hist[1].valid_to == Some(Timestamp(20))),
{
}

/// A memory fails the questions on scopes where one scope shows a fact of the other, and
/// where the scopes are not told in dictionary order.
pub proof fn when_scopes_are_kept(here: Seq<FactV>, there: Seq<FactV>, scopes: Seq<Seq<char>>)
    ensures
        scopes_answered(here, there, scopes) <==> here.len() == 1 && there.len() > 0 && there[0].value == "\"Jana\""@
            && scopes.len() == 2 && scopes[0] == "chat42"@ && scopes[1] == "global"@,
{
    if scopes.len() == 2 && scopes[0] == "chat42"@ && scopes[1] == "global"@ {
        assert(scopes =~= seq!["chat42"@, "global"@]);
    }
}

/// A memory fails the questions on search where it finds another fact or none, and where it
/// finds what was superseded.
pub proof fn when_searches_are_kept(city: Seq<FactV>, old_value: Seq<FactV>)
    ensures
        search_answered(city, old_value) ==> city.len() == 1 && old_value.len() == 0,
        city.len() == 1 && old_value.len() == 0 ==> (search_answered(city, old_value) <==> city[0].key == "user.city"@),
{
}

/// A memory fails the questions on forgetting where it forgets what is not there or not what
/// is, shows what was forgotten, does not keep its end, or does not begin anew.
pub proof fn when_forgetting_is_kept(
    hit: bool,
    shown: Seq<FactV>,
    hist: Seq<FactV>,
    again: bool,
    nothing: bool,
    now: Seq<FactV>,
    all: Seq<FactV>,
)
    ensures
        !hit || again || nothing ==> !forgetting_answered(hit, shown, hist, again, nothing, now, all),
        shown.len() != 0 || hist.len() == 0 || now.len() != 1 || all.len() != 3 ==> !forgetting_answered(
            hit,
            shown,
            hist,
            again,
            nothing,
            now,
            all,
        ),
        hist.len() > 0 && forgetting_answered(hit, shown, hist, again, nothing, now, all) ==> hist[0].state
            == FactState::Forgotten && hist[0].valid_to == Some(Timestamp(50)),
        hist.len() > 0 && hist[0].state == FactState::Forgotten && hist[0].valid_to == Some(Timestamp(50)) && now.len() == 1
            && all.len() == 3 ==> forgetting_answered(true, seq![], hist, false, false, now, all),
{
}

/// A memory fails the questions on purging where a version of the scope is left or was not
/// counted, and where anything of the other scope is gone.
pub proof fn when_purging_is_kept(removed: int, shown: Seq<FactV>, hist: Seq<FactV>, there: Seq<FactV>)
    ensures
        purge_answered(removed, shown, hist, there) <==> removed == 4 && shown =~= seq![] && hist =~= seq![] && there.len()
            == 1,
{
}

/// A memory fails the questions on counters where they do not travel with their version, are
/// not reset with a new one, or where setting them changes a version.
pub proof fn when_counters_are_kept(born: Seq<FactV>, before: Seq<FactV>, after: Seq<FactV>, again: Seq<FactV>)
    ensures
        counters_answered(born, before, after, again) ==> born.len() > 0 && before.len() == 2 && after.len() == 2
            && again.len() > 0,
        born.len() > 0 && before.len() == 2 && after.len() == 2 && again.len() > 0 ==> (counters_answered(
            born,
            before,
            after,
            again,
        ) <==> (born[0].exposures, born[0].credits) == (4u32, 1u32) && (before[0].exposures, before[0].credits) == (0u32, 0u32)
            && (after[0].exposures, after[0].credits) == (9u32, 3u32) && (after[1].exposures, after[1].credits) == (4u32, 1u32)
            && (again[0].exposures, again[0].credits) == (2u32, 0u32) && after[0].value == before[0].value && after[1].value
            == before[1].value && after[0].state == before[0].state && after[1].state == before[1].state && after[0].valid_from
            == before[0].valid_from && after[1].valid_from == before[1].valid_from),
{
    if after.len() == 2 && before.len() == 2 {
        assert(same_versions(after, before) <==> after[0].value == before[0].value && after[1].value == before[1].value
            && after[0].state == before[0].state && after[1].state == before[1].state && after[0].valid_from
            == before[0].valid_from && after[1].valid_from == before[1].valid_from);
    }
}

/// A fact that is told is current in the global scope from when it was told.
pub proof fn a_told_fact_holds_from_then(key: Seq<char>, json: Seq<char>, at: u64)
    ensures
        ({
            let f = told_fact(key, json, at);
            &&& f.key == key && f.value == json && f.scope == "global"@ && f.state == FactState::Current
            &&& f.valid_from == Timestamp(at) && f.last_validated == Timestamp(at) && f.valid_to is None
        }),
{
}

} // verus!
