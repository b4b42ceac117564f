//! What the store promises over several calls.

use vstd::prelude::*;

use crate::events;
use crate::events::{ArtifactId, EventKindV, EventV};
use crate::facts::{FactV, SessionDigestV, TurnHitV};
use crate::ranking;
use crate::store;
use crate::store::{ArtifactV, SessionLogV};
use crate::text;
use crate::types::{FactState, Timestamp};
use crate::unicode;

verus! {

// ---------------------------------------------------------------------------
// Events
// ---------------------------------------------------------------------------

/// Appending a log that begins with what is stored, as a whole or from anywhere in
/// what is stored on, makes the store hold exactly that log: no event is lost and
/// none is stored twice.
pub proof fn the_store_follows_the_log(logs: Seq<SessionLogV>, session: Seq<char>, log: Seq<EventV>, from: int)
    requires
        events::rising(log),
        log.len() > 0 ==> log[0].id.0 > 0,
        store::loaded(logs, session).is_prefix_of(log),
        0 <= from <= store::loaded(logs, session).len(),
    ensures
        store::loaded(store::logs_after(logs, session, log.skip(from)), session) == log,
{
    let stored = store::loaded(logs, session);
    store::lemma_log_at(logs, session);
    lemma_extends(stored, log, from);
    let after = store::logs_after(logs, session, log.skip(from));
    store::lemma_log_at(after, session);
    match store::log_at(logs, session) {
        Some(i) => {
            assert(after[i].session == session);
            let k = store::log_at(after, session)->0;
            if k != i {
                assert(logs[k].session == session);
            }
        },
        None => {
            assert(after.last().session == session);
            let k = store::log_at(after, session)->0;
            if k != after.len() - 1 {
                assert(logs[k].session == session);
            }
        },
    }
}

/// Appending a part of the log that ends before the whole of it leaves what is
/// stored a beginning of the log, as long as the longer of the two.
pub proof fn storing_a_beginning(logs: Seq<SessionLogV>, session: Seq<char>, log: Seq<EventV>, from: int, n: int)
    requires
        events::rising(log),
        log.len() > 0 ==> log[0].id.0 > 0,
        store::loaded(logs, session).is_prefix_of(log),
        0 <= from <= store::loaded(logs, session).len(),
        from <= n <= log.len(),
    ensures
        store::loaded(store::logs_after(logs, session, log.take(n).skip(from)), session) == log.take(
            if n > store::loaded(logs, session).len() {
                n
            } else {
                store::loaded(logs, session).len() as int
            },
        ),
{
    let stored = store::loaded(logs, session);
    let m = stored.len() as int;
    let part = log.take(n);
    assert(stored =~= log.take(m));
    if n >= m {
        assert(stored.is_prefix_of(part)) by {
            assert(part.take(m) =~= stored);
        }
        the_store_follows_the_log(logs, session, part, from);
    } else {
        let more = part.skip(from);
        let keep = |e: EventV| e.id.0 > store::last_id(stored);
        assert forall|i: int| 0 <= i < more.len() implies !keep(#[trigger] more[i]) by {
            assert(more[i] == log[i + from]);
            assert(stored.last() == log[m - 1]);
            assert(log[i + from].id.0 <= log[m - 1].id.0);
        }
        lemma_filter_nothing(more, keep);
        assert(store::extended(stored, more) =~= stored);
        store::lemma_log_at(logs, session);
        let after = store::logs_after(logs, session, more);
        store::lemma_log_at(after, session);
        match store::log_at(logs, session) {
            Some(i) => {
                assert(after[i].session == session);
                let k = store::log_at(after, session)->0;
                if k != i {
                    assert(logs[k].session == session);
                }
            },
            None => {},
        }
    }
}

proof fn lemma_extends(stored: Seq<EventV>, log: Seq<EventV>, from: int)
    requires
        events::rising(log),
        log.len() > 0 ==> log[0].id.0 > 0,
        stored.is_prefix_of(log),
        0 <= from <= stored.len(),
    ensures
        store::extended(stored, log.skip(from)) == log,
{
    let n = stored.len() as int;
    let keep = |e: EventV| e.id.0 > store::last_id(stored);
    let more = log.skip(from);
    assert(stored =~= log.take(n));
    assert forall|i: int| 0 <= i < more.len() implies keep(#[trigger] more[i]) == (i >= n - from) by {
        assert(more[i] == log[i + from]);
        if n > 0 {
            assert(stored.last() == log[n - 1]);
        } else {
            assert(0 < i ==> log[0].id.0 < log[i].id.0);
        }
    }
    lemma_filter_tail(more, keep, n - from);
    assert(stored + more.skip(n - from) =~= log);
}

/// A filter that keeps what stands from `n` on.
proof fn lemma_filter_tail<A>(s: Seq<A>, keep: spec_fn(A) -> bool, n: int)
    requires
        0 <= n <= s.len(),
        forall|i: int| 0 <= i < s.len() ==> keep(#[trigger] s[i]) == (i >= n),
    ensures
        s.filter(keep) == s.skip(n),
    decreases s.len(),
{
    reveal(Seq::filter);
    if s.len() > 0 {
        let rest = s.drop_last();
        assert forall|i: int| 0 <= i < rest.len() implies keep(#[trigger] rest[i]) == (i >= n) by {
            assert(rest[i] == s[i]);
        }
        if n == s.len() {
            lemma_filter_tail(rest, keep, n - 1);
            assert(rest.skip(n - 1) =~= s.skip(n));
        } else {
            lemma_filter_tail(rest, keep, n);
            assert(rest.skip(n).push(s.last()) =~= s.skip(n));
        }
    } else {
        assert(s.skip(n) =~= s);
    }
}

/// Appending the same events a second time changes nothing.
pub proof fn appending_twice_is_appending_once(logs: Seq<SessionLogV>, session: Seq<char>, more: Seq<EventV>)
    requires
        events::rising(more),
    ensures
        store::loaded(store::logs_after(store::logs_after(logs, session, more), session, more), session)
            == store::loaded(store::logs_after(logs, session, more), session),
{
    let stored = store::loaded(logs, session);
    let once = store::logs_after(logs, session, more);
    let twice = store::logs_after(once, session, more);
    lemma_loaded_after(logs, session, more);
    lemma_loaded_after(once, session, more);
    let grown = store::extended(stored, more);
    let keep = |e: EventV| e.id.0 > store::last_id(stored);
    let again = |e: EventV| e.id.0 > store::last_id(grown);
    let kept = more.filter(keep);
    lemma_last_kept(more, keep);
    assert forall|i: int| 0 <= i < more.len() implies !again(#[trigger] more[i]) by {
        if kept.len() > 0 {
            assert(grown.last() == kept.last());
            if keep(more[i]) {
                assert(more[i].id.0 <= kept.last().id.0);
            } else {
                assert(keep(kept.last())) by {
                    more.lemma_filter_pred(keep, kept.len() - 1);
                }
            }
        } else {
            assert(grown =~= stored);
            if keep(more[i]) {
                more.lemma_filter_contains(keep, i);
            }
        }
    }
    lemma_filter_nothing(more, again);
    assert(store::extended(grown, more) =~= grown);
}

/// In a rising list, the last kept item has the highest number of those kept.
proof fn lemma_last_kept(more: Seq<EventV>, keep: spec_fn(EventV) -> bool)
    requires
        events::rising(more),
    ensures
        forall|i: int|
            0 <= i < more.len() && keep(#[trigger] more[i]) ==> more.filter(keep).len() > 0 && more[i].id.0
                <= more.filter(keep).last().id.0,
    decreases more.len(),
{
    reveal(Seq::filter);
    if more.len() > 0 {
        let rest = more.drop_last();
        assert(events::rising(rest));
        lemma_last_kept(rest, keep);
        assert forall|i: int| 0 <= i < more.len() && keep(#[trigger] more[i]) implies more.filter(keep).len() > 0
            && more[i].id.0 <= more.filter(keep).last().id.0 by {
            if i < rest.len() {
                assert(rest[i] == more[i]);
                assert(more[i].id.0 < more[more.len() - 1].id.0);
            }
        }
    }
}

proof fn lemma_filter_nothing<A>(s: Seq<A>, keep: spec_fn(A) -> bool)
    requires
        forall|i: int| 0 <= i < s.len() ==> !keep(#[trigger] s[i]),
    ensures
        s.filter(keep) == Seq::<A>::empty(),
    decreases s.len(),
{
    reveal(Seq::filter);
    if s.len() > 0 {
        let rest = s.drop_last();
        assert forall|i: int| 0 <= i < rest.len() implies !keep(#[trigger] rest[i]) by {
            assert(rest[i] == s[i]);
        }
        lemma_filter_nothing(rest, keep);
    }
}

proof fn lemma_loaded_after(logs: Seq<SessionLogV>, session: Seq<char>, more: Seq<EventV>)
    ensures
        store::loaded(store::logs_after(logs, session, more), session) == store::extended(
            store::loaded(logs, session),
            more,
        ),
{
    store::lemma_log_at(logs, session);
    let after = store::logs_after(logs, session, more);
    store::lemma_log_at(after, session);
    match store::log_at(logs, session) {
        Some(i) => {
            assert(after[i].session == session);
            let k = store::log_at(after, session)->0;
            if k != i {
                assert(logs[k].session == session);
            }
        },
        None => {
            assert(after.last().session == session);
            let k = store::log_at(after, session)->0;
            if k != after.len() - 1 {
                assert(logs[k].session == session);
            }
        },
    }
}

/// Appending to one session leaves every other session as it was.
pub proof fn sessions_are_apart(logs: Seq<SessionLogV>, session: Seq<char>, more: Seq<EventV>, other: Seq<char>)
    requires
        other != session,
    ensures
        store::loaded(store::logs_after(logs, session, more), other) == store::loaded(logs, other),
{
    store::lemma_log_at(logs, session);
    store::lemma_log_at(logs, other);
    let after = store::logs_after(logs, session, more);
    store::lemma_log_at(after, other);
    match store::log_at(logs, other) {
        Some(i) => {
            assert(after[i].session == other);
            let k = store::log_at(after, other)->0;
            if k != i {
                assert(k < i);
                assert(logs[k].session == after[k].session);
            }
        },
        None => {
            if store::log_at(after, other) is Some {
                let k = store::log_at(after, other)->0;
                if k < logs.len() {
                    assert(logs[k].session == after[k].session);
                }
            }
        },
    }
}

// ---------------------------------------------------------------------------
// Facts
// ---------------------------------------------------------------------------

/// No fact has two live versions.
pub open spec fn one_live(rows: Seq<FactV>) -> bool {
    forall|i: int, j: int|
        #![trigger rows[i], rows[j]]
        0 <= i < j < rows.len() && rows[i].state.live() && rows[j].state.live() ==> !(rows[i].scope == rows[j].scope
            && rows[i].key == rows[j].key)
}

/// What a write may do without raising a dead version beside a live one: bring
/// a new version, rewrite the live one, or write a version that is not live.
pub open spec fn fair_write(rows: Seq<FactV>, fact: FactV) -> bool {
    match store::version_at(rows, fact) {
        Some(i) => rows[i].state.live() || !fact.state.live(),
        None => true,
    }
}

/// At every moment a fact has at most one live version: a write keeps it so.
pub proof fn writing_keeps_one_live_version(rows: Seq<FactV>, fact: FactV)
    requires
        one_live(rows),
        fair_write(rows, fact),
    ensures
        one_live(store::rows_after(rows, fact)),
{
    store::lemma_version_at(rows, fact);
    let after = store::rows_after(rows, fact);
    assert forall|i: int, j: int|
        #![trigger after[i], after[j]]
        0 <= i < j < after.len() && after[i].state.live() && after[j].state.live() implies !(after[i].scope
        == after[j].scope && after[i].key == after[j].key) by {
        match store::version_at(rows, fact) {
            Some(k) => {
                assert(after[i].scope == rows[i].scope && after[i].key == rows[i].key);
                assert(after[j].scope == rows[j].scope && after[j].key == rows[j].key);
            },
            None => {
                assert(after[i] == store::outdated(rows[i], fact));
                if j < rows.len() {
                    assert(after[j] == store::outdated(rows[j], fact));
                }
            },
        }
    }
}

/// Forgetting, rescoring and purging never add a live version.
pub proof fn other_changes_keep_one_live_version(
    rows: Seq<FactV>,
    scope: Seq<char>,
    key: Seq<char>,
    at: Timestamp,
    exposures: u32,
    credits: u32,
)
    requires
        one_live(rows),
    ensures
        one_live(Seq::new(rows.len(), |i: int| store::forgotten(rows[i], scope, key, at))),
        one_live(Seq::new(rows.len(), |i: int| store::rescored(rows[i], scope, key, exposures, credits))),
        one_live(rows.filter(|f: FactV| f.scope != scope)),
{
    let a = Seq::new(rows.len(), |i: int| store::forgotten(rows[i], scope, key, at));
    let b = Seq::new(rows.len(), |i: int| store::rescored(rows[i], scope, key, exposures, credits));
    assert forall|i: int, j: int|
        #![trigger a[i], a[j]]
        0 <= i < j < a.len() && a[i].state.live() && a[j].state.live() implies !(a[i].scope == a[j].scope && a[i].key
        == a[j].key) by {
        assert(a[i] == store::forgotten(rows[i], scope, key, at));
        assert(a[j] == store::forgotten(rows[j], scope, key, at));
    }
    assert forall|i: int, j: int|
        #![trigger b[i], b[j]]
        0 <= i < j < b.len() && b[i].state.live() && b[j].state.live() implies !(b[i].scope == b[j].scope && b[i].key
        == b[j].key) by {
        assert(b[i] == store::rescored(rows[i], scope, key, exposures, credits));
        assert(b[j] == store::rescored(rows[j], scope, key, exposures, credits));
    }
    lemma_filter_keeps_one_live(rows, |f: FactV| f.scope != scope);
}

proof fn lemma_filter_keeps_one_live(rows: Seq<FactV>, keep: spec_fn(FactV) -> bool)
    requires
        one_live(rows),
    ensures
        one_live(rows.filter(keep)),
    decreases rows.len(),
{
    reveal(Seq::filter);
    if rows.len() > 0 {
        let rest = rows.drop_last();
        assert forall|i: int, j: int|
            #![trigger rest[i], rest[j]]
            0 <= i < j < rest.len() && rest[i].state.live() && rest[j].state.live() implies !(rest[i].scope
            == rest[j].scope && rest[i].key == rest[j].key) by {
            assert(rest[i] == rows[i] && rest[j] == rows[j]);
        }
        lemma_filter_keeps_one_live(rest, keep);
        let kept = rest.filter(keep);
        let out = rows.filter(keep);
        if keep(rows.last()) {
            assert forall|i: int, j: int|
                #![trigger out[i], out[j]]
                0 <= i < j < out.len() && out[i].state.live() && out[j].state.live() implies !(out[i].scope
                == out[j].scope && out[i].key == out[j].key) by {
                assert(out[i] == kept[i]);
                if j < kept.len() {
                    assert(out[j] == kept[j]);
                } else {
                    lemma_filter_source(rest, keep, i);
                    let k = choose|k: int| 0 <= k < rest.len() && rest[k] == kept[i];
                    assert(rest[k] == rows[k]);
                    assert(rows[rows.len() - 1] == out[j]);
                }
            }
        }
    }
}

/// What a filter kept stood in the list.
proof fn lemma_filter_source<A>(s: Seq<A>, keep: spec_fn(A) -> bool, i: int)
    requires
        0 <= i < s.filter(keep).len(),
    ensures
        exists|k: int| 0 <= k < s.len() && s[k] == s.filter(keep)[i] && keep(s[k]),
    decreases s.len(),
{
    reveal(Seq::filter);
    if s.len() > 0 {
        let rest = s.drop_last();
        if i < rest.filter(keep).len() {
            lemma_filter_source(rest, keep, i);
            let k = choose|k: int| 0 <= k < rest.len() && rest[k] == rest.filter(keep)[i] && keep(rest[k]);
            assert(s[k] == rest[k]);
        } else {
            assert(s[s.len() - 1] == s.filter(keep)[i]);
        }
    }
}

/// Equal but for the state and the end of validity.
pub open spec fn same_record(a: FactV, b: FactV) -> bool {
    b == (FactV { state: b.state, valid_to: b.valid_to, ..a })
}

/// A new version never overwrites an old one: every row stays, with nothing
/// changed but whether it is live, and the new version comes last.
pub proof fn history_is_never_overwritten(rows: Seq<FactV>, fact: FactV)
    requires
        store::version_at(rows, fact) is None,
    ensures
        store::rows_after(rows, fact).len() == rows.len() + 1,
        store::rows_after(rows, fact).last() == fact,
        forall|i: int|
            0 <= i < rows.len() ==> same_record(rows[i], #[trigger] store::rows_after(rows, fact)[i]),
        forall|i: int|
            0 <= i < rows.len() && store::live_version(#[trigger] rows[i], fact.scope, fact.key)
                ==> store::rows_after(rows, fact)[i].state == FactState::Superseded && store::rows_after(
                rows,
                fact,
            )[i].valid_to == Some(fact.valid_from),
{
    let after = store::rows_after(rows, fact);
    assert forall|i: int| 0 <= i < rows.len() implies same_record(rows[i], #[trigger] after[i]) by {
        assert(after[i] == store::outdated(rows[i], fact));
    }
    assert forall|i: int|
        0 <= i < rows.len() && store::live_version(#[trigger] rows[i], fact.scope, fact.key) implies after[i].state
        == FactState::Superseded && after[i].valid_to == Some(fact.valid_from) by {
        assert(after[i] == store::outdated(rows[i], fact));
    }
}

/// The order of a ranking loses nothing.
proof fn lemma_picked_has<A>(items: Seq<A>, keys: Seq<ranking::RankKeyV>, ascending: bool, i: int)
    requires
        keys.len() == items.len(),
        0 <= i < items.len(),
    ensures
        store::picked(items, ranking::order(keys, ascending)).contains(items[i]),
{
    ranking::ranking_is_a_stable_order(keys, ascending);
    let ord = ranking::order(keys, ascending);
    lemma_order_covers(ord, items.len(), i);
    let k = choose|k: int| 0 <= k < ord.len() && ord[k] == i;
    assert(store::picked(items, ord)[k] == items[i]);
}

/// `n` different positions below `n` are all of them.
proof fn lemma_order_covers(ord: Seq<int>, n: nat, i: int)
    requires
        ord.len() == n,
        forall|a: int| 0 <= a < ord.len() ==> 0 <= #[trigger] ord[a] < n,
        forall|a: int, b: int| 0 <= a < b < ord.len() ==> #[trigger] ord[a] != #[trigger] ord[b],
        0 <= i < n,
    ensures
        exists|k: int| 0 <= k < ord.len() && ord[k] == i,
    decreases n,
{
    if !(exists|k: int| 0 <= k < ord.len() && ord[k] == i) {
        let seen = ord.to_set();
        ord.unique_seq_to_set();
        let all = vstd::set_lib::set_int_range(0, n as int);
        vstd::set_lib::lemma_int_range(0, n as int);
        assert(seen.subset_of(all.remove(i))) by {
            assert forall|x: int| seen.contains(x) implies all.remove(i).contains(x) by {
                let k = choose|k: int| 0 <= k < ord.len() && ord[k] == x;
            }
        }
        vstd::set_lib::lemma_len_subset(seen, all.remove(i));
    }
}

/// A live fact that was written as a new version is read back, and it is the
/// only live version of its fact.
pub proof fn a_write_is_read_back(rows: Seq<FactV>, fact: FactV)
    requires
        store::version_at(rows, fact) is None,
        fact.state.live(),
    ensures
        store::facts_in(store::rows_after(rows, fact), fact.scope, fact.key).contains(fact),
        forall|g: FactV| #[trigger]
            store::facts_in(store::rows_after(rows, fact), fact.scope, fact.key).contains(g) && g.key == fact.key
                ==> g == fact,
{
    let after = store::rows_after(rows, fact);
    let keep = |f: FactV| f.scope == fact.scope && f.state.live() && text::starts(f.key, fact.key);
    let live = store::shown_rows(after, fact.scope, fact.key);
    assert(after.last() == fact);
    assert(fact.key.take(fact.key.len() as int) =~= fact.key);
    assert(keep(after[after.len() - 1]));
    after.lemma_filter_contains(keep, after.len() - 1);
    let k = choose|k: int| 0 <= k < live.len() && live[k] == fact;
    lemma_picked_has(live, store::keys_by_name(live), true, k);
    let shown = store::facts_in(after, fact.scope, fact.key);
    assert forall|g: FactV| #[trigger] shown.contains(g) && g.key == fact.key implies g == fact by {
        lemma_shown_is_stored(after, fact.scope, fact.key, g);
        let r = choose|r: int| 0 <= r < after.len() && after[r] == g && keep(after[r]);
        if r < rows.len() {
            assert(after[r] == store::outdated(rows[r], fact));
        }
    }
}

/// What is shown was stored, live, in the scope and under the prefix.
proof fn lemma_shown_is_stored(rows: Seq<FactV>, scope: Seq<char>, prefix: Seq<char>, g: FactV)
    requires
        store::facts_in(rows, scope, prefix).contains(g),
    ensures
        exists|r: int|
            0 <= r < rows.len() && rows[r] == g && g.scope == scope && g.state.live() && text::starts(g.key, prefix),
{
    let keep = |f: FactV| f.scope == scope && f.state.live() && text::starts(f.key, prefix);
    let live = store::shown_rows(rows, scope, prefix);
    let shown = store::facts_in(rows, scope, prefix);
    let ord = ranking::order(store::keys_by_name(live), true);
    ranking::ranking_is_a_stable_order(store::keys_by_name(live), true);
    let p = choose|p: int| 0 <= p < shown.len() && shown[p] == g;
    assert(0 <= ord[p] < live.len());
    lemma_filter_source(rows, keep, ord[p]);
}

/// A write as the fact's history shows it. A version that begins when one of the
/// history does takes its place there and the history is as long as before. Any
/// other is put among the versions, where each that was live is now superseded
/// with its end where the new one begins, so that none but the new one can be live.
/// The history of no other fact changes.
pub proof fn a_write_is_seen_in_the_history(rows: Seq<FactV>, fact: FactV, scope: Seq<char>, key: Seq<char>)
    ensures
        ({
            let was = store::history_in(rows, fact.scope, fact.key);
            let now = store::history_in(store::rows_after(rows, fact), fact.scope, fact.key);
            let aged = was.map_values(|f: FactV| store::outdated(f, fact));
            &&& if exists|j: int| 0 <= j < was.len() && (#[trigger] was[j]).valid_from == fact.valid_from {
                exists|j: int|
                    0 <= j < was.len() && (#[trigger] was[j]).valid_from == fact.valid_from && now == was.update(j, fact)
            } else {
                &&& exists|j: int| 0 <= j <= was.len() && now == #[trigger] aged.insert(j, fact)
                &&& forall|j: int| 0 <= j < now.len() && (#[trigger] now[j]).state.live() ==> now[j] == fact
            }
            &&& forall|i: int, j: int|
                0 <= i < j < now.len() ==> (#[trigger] now[i]).valid_from.0 >= (#[trigger] now[j]).valid_from.0
        }),
        scope != fact.scope || key != fact.key ==> store::history_in(store::rows_after(rows, fact), scope, key)
            == store::history_in(rows, scope, key),
{
    let mine = |f: FactV| f.scope == fact.scope && f.key == fact.key;
    let after = store::rows_after(rows, fact);
    let versions = store::version_rows(rows, fact.scope, fact.key);
    let keys = store::keys_by_age(versions);
    let ord = ranking::order(keys, true);
    let was = store::history_in(rows, fact.scope, fact.key);
    let now = store::history_in(after, fact.scope, fact.key);
    let aged = was.map_values(|f: FactV| store::outdated(f, fact));
    store::lemma_version_at(rows, fact);
    ranking::ranking_is_a_stable_order(keys, true);
    let keys_now = store::keys_by_age(store::version_rows(after, fact.scope, fact.key));
    ranking::ranking_is_a_stable_order(keys_now, true);
    assert forall|i: int, j: int| 0 <= i < j < now.len() implies (#[trigger] now[i]).valid_from.0 >= (
    #[trigger] now[j]).valid_from.0 by {
        let ord_now = ranking::order(keys_now, true);
        assert(!ranking::precedes(keys_now[ord_now[j]], keys_now[ord_now[i]], true));
    }
    match store::version_at(rows, fact) {
        Some(i) => {
            lemma_filter_update(rows, i, fact, mine);
            let p = rows.take(i).filter(mine).len() as int;
            assert(store::keys_by_age(versions.update(p, fact)) =~= keys);
            lemma_order_covers(ord, versions.len(), p);
            let j = choose|j: int| 0 <= j < ord.len() && ord[j] == p;
            assert(was[j].valid_from == fact.valid_from);
            assert(now =~= was.update(j, fact)) by {
                assert forall|k: int| 0 <= k < now.len() && k != j implies ord[k] != p by {}
            }
        },
        None => {
            let older = Seq::new(rows.len(), |i: int| store::outdated(rows[i], fact));
            assert(after.drop_last() =~= older);
            lemma_filter_mapped(rows, fact);
            reveal(Seq::filter);
            let mapped = versions.map_values(|f: FactV| store::outdated(f, fact));
            assert(store::version_rows(after, fact.scope, fact.key) == mapped.push(fact));
            let last = ranking::RankKeyV { first: fact.valid_from.0, second: 0, name: seq![] };
            assert(keys_now =~= keys.push(last));
            ranking::one_more_is_put_among_the_others(keys, last, true);
            let p = choose|p: int|
                0 <= p <= keys.len() && ranking::order(keys.push(last), true) == #[trigger] ord.insert(
                    p,
                    keys.len() as int,
                );
            assert(now =~= aged.insert(p, fact));
            assert forall|j: int| 0 <= j < was.len() implies (#[trigger] was[j]).valid_from != fact.valid_from by {
                lemma_filter_source(rows, mine, ord[j]);
                let r = choose|r: int| 0 <= r < rows.len() && rows[r] == versions[ord[j]] && mine(rows[r]);
                assert(!store::same_version(rows[r], fact));
            }
            assert forall|j: int| 0 <= j < now.len() && (#[trigger] now[j]).state.live() implies now[j] == fact by {
                let i = if j < p {
                    j
                } else {
                    j - 1
                };
                if j != p {
                    assert(now[j] == aged[i]);
                    assert(aged[i] == store::outdated(was[i], fact));
                    lemma_filter_source(rows, mine, ord[i]);
                }
            }
        },
    }
    if scope != fact.scope || key != fact.key {
        let version = |f: FactV| f.scope == scope && f.key == key;
        match store::version_at(rows, fact) {
            Some(i) => {
                lemma_filter_alike(rows, after, version);
            },
            None => {
                let older = Seq::new(rows.len(), |i: int| store::outdated(rows[i], fact));
                assert(after == older.push(fact));
                assert(after.drop_last() =~= older);
                lemma_filter_alike(rows, older, version);
                reveal(Seq::filter);
            },
        }
    }
}

/// Filtering a list in which one kept item is replaced by another that is kept.
proof fn lemma_filter_update<A>(s: Seq<A>, i: int, x: A, keep: spec_fn(A) -> bool)
    requires
        0 <= i < s.len(),
        keep(s[i]),
        keep(x),
    ensures
        s.take(i).filter(keep).len() < s.filter(keep).len(),
        s.filter(keep)[s.take(i).filter(keep).len() as int] == s[i],
        s.update(i, x).filter(keep) == s.filter(keep).update(s.take(i).filter(keep).len() as int, x),
    decreases s.len(),
{
    reveal(Seq::filter);
    let rest = s.drop_last();
    let t = s.update(i, x);
    if i == s.len() - 1 {
        assert(t.drop_last() =~= rest);
        assert(s.take(i) =~= rest);
        assert(t.filter(keep) =~= s.filter(keep).update(rest.filter(keep).len() as int, x));
    } else {
        lemma_filter_update(rest, i, x, keep);
        assert(t.drop_last() =~= rest.update(i, x));
        assert(s.take(i) =~= rest.take(i));
        assert(t.last() == s.last());
        assert(t.filter(keep) =~= s.filter(keep).update(s.take(i).filter(keep).len() as int, x));
    }
}

/// The versions of a fact after each row was told of a newer one.
proof fn lemma_filter_mapped(rows: Seq<FactV>, fact: FactV)
    ensures
        ({
            let mine = |f: FactV| f.scope == fact.scope && f.key == fact.key;
            let older = Seq::new(rows.len(), |i: int| store::outdated(rows[i], fact));
            older.filter(mine) == rows.filter(mine).map_values(|f: FactV| store::outdated(f, fact))
        }),
    decreases rows.len(),
{
    reveal(Seq::filter);
    let mine = |f: FactV| f.scope == fact.scope && f.key == fact.key;
    let older = Seq::new(rows.len(), |i: int| store::outdated(rows[i], fact));
    if rows.len() > 0 {
        let rest = rows.drop_last();
        lemma_filter_mapped(rest, fact);
        assert(older.drop_last() =~= Seq::new(rest.len(), |i: int| store::outdated(rest[i], fact)));
        assert(older.last() == store::outdated(rows.last(), fact));
        assert(older.filter(mine) =~= rows.filter(mine).map_values(|f: FactV| store::outdated(f, fact)));
    } else {
        assert(older.filter(mine) =~= rows.filter(mine).map_values(|f: FactV| store::outdated(f, fact)));
    }
}

/// Forgetting is soft: every version stays in the history, and none of them is
/// shown any more.
pub proof fn forgetting_keeps_the_history(rows: Seq<FactV>, scope: Seq<char>, key: Seq<char>, at: Timestamp)
    ensures
        ({
            let after = Seq::new(rows.len(), |i: int| store::forgotten(rows[i], scope, key, at));
            &&& forall|i: int| 0 <= i < rows.len() ==> same_record(rows[i], #[trigger] after[i])
            &&& store::history_in(after, scope, key).len() == store::history_in(rows, scope, key).len()
            &&& forall|prefix: Seq<char>, g: FactV| #[trigger]
                store::facts_in(after, scope, prefix).contains(g) ==> g.key != key
        }),
{
    let after = Seq::new(rows.len(), |i: int| store::forgotten(rows[i], scope, key, at));
    assert forall|i: int| 0 <= i < rows.len() implies same_record(rows[i], #[trigger] after[i]) by {
        assert(after[i] == store::forgotten(rows[i], scope, key, at));
    }
    let keep = |f: FactV| f.scope == scope && f.key == key;
    lemma_filter_same_count(rows, after, keep);
    ranking::ranking_is_a_stable_order(store::keys_by_age(store::version_rows(rows, scope, key)), true);
    ranking::ranking_is_a_stable_order(store::keys_by_age(store::version_rows(after, scope, key)), true);
    assert forall|prefix: Seq<char>, g: FactV| #[trigger]
        store::facts_in(after, scope, prefix).contains(g) implies g.key != key by {
        lemma_shown_is_stored(after, scope, prefix, g);
        let r = choose|r: int|
            0 <= r < after.len() && after[r] == g && g.scope == scope && g.state.live() && text::starts(g.key, prefix);
        assert(after[r] == store::forgotten(rows[r], scope, key, at));
    }
}

proof fn lemma_filter_same_count<A>(a: Seq<A>, b: Seq<A>, keep: spec_fn(A) -> bool)
    requires
        a.len() == b.len(),
        forall|i: int| 0 <= i < a.len() ==> keep(a[i]) == keep(#[trigger] b[i]),
    ensures
        a.filter(keep).len() == b.filter(keep).len(),
    decreases a.len(),
{
    reveal(Seq::filter);
    if a.len() > 0 {
        assert forall|i: int| 0 <= i < a.len() - 1 implies keep(a.drop_last()[i]) == keep(
            #[trigger] b.drop_last()[i],
        ) by {
            assert(b.drop_last()[i] == b[i]);
        }
        lemma_filter_same_count(a.drop_last(), b.drop_last(), keep);
        assert(keep(a[a.len() - 1]) == keep(b[b.len() - 1]));
    }
}

/// Two lists that differ only in what a filter drops.
proof fn lemma_filter_alike<A>(a: Seq<A>, b: Seq<A>, keep: spec_fn(A) -> bool)
    requires
        a.len() == b.len(),
        forall|i: int| 0 <= i < a.len() ==> keep(a[i]) == keep(#[trigger] b[i]) && (keep(b[i]) ==> a[i] == b[i]),
    ensures
        a.filter(keep) == b.filter(keep),
    decreases a.len(),
{
    reveal(Seq::filter);
    if a.len() > 0 {
        assert forall|i: int| 0 <= i < a.len() - 1 implies keep(a.drop_last()[i]) == keep(#[trigger] b.drop_last()[i])
            && (keep(b.drop_last()[i]) ==> a.drop_last()[i] == b.drop_last()[i]) by {
            assert(b.drop_last()[i] == b[i]);
        }
        lemma_filter_alike(a.drop_last(), b.drop_last(), keep);
        assert(keep(a[a.len() - 1]) == keep(b[b.len() - 1]));
    }
}

/// A write to one scope changes nothing in another: neither what is shown there
/// nor any history.
pub proof fn scopes_are_apart(rows: Seq<FactV>, fact: FactV, scope: Seq<char>, prefix: Seq<char>, key: Seq<char>)
    requires
        scope != fact.scope,
    ensures
        store::facts_in(store::rows_after(rows, fact), scope, prefix) == store::facts_in(rows, scope, prefix),
        store::history_in(store::rows_after(rows, fact), scope, key) == store::history_in(rows, scope, key),
{
    let shown = |f: FactV| f.scope == scope && f.state.live() && text::starts(f.key, prefix);
    let version = |f: FactV| f.scope == scope && f.key == key;
    let after = store::rows_after(rows, fact);
    store::lemma_version_at(rows, fact);
    match store::version_at(rows, fact) {
        Some(i) => {
            lemma_filter_alike(rows, after, shown);
            lemma_filter_alike(rows, after, version);
        },
        None => {
            let aged = Seq::new(rows.len(), |i: int| store::outdated(rows[i], fact));
            assert(after == aged.push(fact));
            assert(after.drop_last() =~= aged);
            lemma_filter_alike(rows, aged, shown);
            lemma_filter_alike(rows, aged, version);
            reveal(Seq::filter);
        },
    }
}

/// Purging deletes one scope, all versions, and nothing of any other.
pub proof fn purging_takes_one_scope(rows: Seq<FactV>, scope: Seq<char>, other: Seq<char>, prefix: Seq<char>, key: Seq<char>)
    ensures
        ({
            let after = rows.filter(|f: FactV| f.scope != scope);
            &&& store::facts_in(after, scope, prefix).len() == 0
            &&& store::history_in(after, scope, key).len() == 0
            &&& other != scope ==> store::facts_in(after, other, prefix) == store::facts_in(rows, other, prefix)
            &&& other != scope ==> store::history_in(after, other, key) == store::history_in(rows, other, key)
        }),
{
    let left = |f: FactV| f.scope != scope;
    let after = rows.filter(left);
    let gone = |f: FactV| f.scope == scope && f.state.live() && text::starts(f.key, prefix);
    let gone_version = |f: FactV| f.scope == scope && f.key == key;
    assert forall|i: int| 0 <= i < after.len() implies !gone(#[trigger] after[i]) && !gone_version(after[i]) by {
        rows.lemma_filter_pred(left, i);
    }
    lemma_filter_nothing(after, gone);
    lemma_filter_nothing(after, gone_version);
    ranking::ranking_is_a_stable_order(store::keys_by_name(store::shown_rows(after, scope, prefix)), true);
    ranking::ranking_is_a_stable_order(store::keys_by_age(store::version_rows(after, scope, key)), true);
    if other != scope {
        let shown = |f: FactV| f.scope == other && f.state.live() && text::starts(f.key, prefix);
        let version = |f: FactV| f.scope == other && f.key == key;
        lemma_filter_twice(rows, left, shown);
        lemma_filter_twice(rows, left, version);
    }
}

/// Filtering by a weaker filter first makes no difference.
proof fn lemma_filter_twice<A>(s: Seq<A>, weak: spec_fn(A) -> bool, strong: spec_fn(A) -> bool)
    requires
        forall|x: A| #[trigger] strong(x) ==> weak(x),
    ensures
        s.filter(weak).filter(strong) == s.filter(strong),
    decreases s.len(),
{
    reveal(Seq::filter);
    if s.len() > 0 {
        lemma_filter_twice(s.drop_last(), weak, strong);
        let rest = s.drop_last().filter(weak);
        if weak(s.last()) {
            assert(rest.push(s.last()).drop_last() =~= rest);
        }
        assert(strong(s.last()) ==> weak(s.last()));
    }
}

/// Setting the counters moves only them: no version is added, and every row
/// keeps its value, state and identity.
pub proof fn fitness_moves_only_the_counters(
    rows: Seq<FactV>,
    scope: Seq<char>,
    key: Seq<char>,
    exposures: u32,
    credits: u32,
)
    ensures
        ({
            let after = Seq::new(rows.len(), |i: int| store::rescored(rows[i], scope, key, exposures, credits));
            &&& after.len() == rows.len()
            &&& forall|i: int|
                0 <= i < rows.len() ==> rows[i] == (FactV {
                    exposures: rows[i].exposures,
                    credits: rows[i].credits,
                    ..#[trigger] after[i]
                })
            &&& forall|i: int|
                0 <= i < rows.len() && store::live_version(#[trigger] rows[i], scope, key) ==> after[i].exposures
                    == exposures && after[i].credits == credits
            &&& forall|i: int|
                0 <= i < rows.len() && !store::live_version(#[trigger] rows[i], scope, key) ==> after[i] == rows[i]
        }),
{
}

// ---------------------------------------------------------------------------
// Artifacts and digests
// ---------------------------------------------------------------------------

/// A stored artifact is read back, and no other is touched.
pub proof fn artifacts_are_read_back(artifacts: Seq<ArtifactV>, id: ArtifactId, content: Seq<u8>, other: ArtifactId)
    ensures
        store::artifact_in(store::artifacts_after(artifacts, id, content), id) == Some(content),
        other.0@ != id.0@ ==> store::artifact_in(store::artifacts_after(artifacts, id, content), other)
            == store::artifact_in(artifacts, other),
{
    let after = store::artifacts_after(artifacts, id, content);
    store::lemma_artifact_at(artifacts, id);
    store::lemma_artifact_at(artifacts, other);
    store::lemma_artifact_at(after, id);
    store::lemma_artifact_at(after, other);
    match store::artifact_at(artifacts, id) {
        Some(i) => {
            assert(after[i].id.0@ == id.0@);
            let k = store::artifact_at(after, id)->0;
            if k != i {
                assert(artifacts[k].id.0@ == id.0@);
            }
        },
        None => {
            assert(after.last().id.0@ == id.0@);
            let k = store::artifact_at(after, id)->0;
            if k < artifacts.len() {
                assert(artifacts[k].id.0@ == id.0@);
            }
        },
    }
    if other.0@ != id.0@ {
        match store::artifact_at(artifacts, other) {
            Some(i) => {
                assert(after[i].id.0@ == other.0@);
                let k = store::artifact_at(after, other)->0;
                if k != i {
                    assert(k < i);
                    assert(artifacts[k].id.0@ == after[k].id.0@);
                }
            },
            None => {
                if store::artifact_at(after, other) is Some {
                    let k = store::artifact_at(after, other)->0;
                    if k < artifacts.len() {
                        assert(artifacts[k].id.0@ == after[k].id.0@);
                    }
                }
            },
        }
    }
}

/// No session has two digests.
pub open spec fn one_digest_each(digests: Seq<SessionDigestV>) -> bool {
    forall|i: int, j: int|
        #![trigger digests[i], digests[j]]
        0 <= i < j < digests.len() ==> digests[i].session != digests[j].session
}

/// Writing a session's digest again replaces it: a session has one digest, the
/// last that was written.
pub proof fn a_session_has_one_digest(digests: Seq<SessionDigestV>, d: SessionDigestV)
    requires
        one_digest_each(digests),
    ensures
        one_digest_each(store::digests_after(digests, d)),
        store::digests_after(digests, d).contains(d),
        forall|other: SessionDigestV|
            #[trigger] store::digests_after(digests, d).contains(other) && other.session == d.session ==> other == d,
{
    store::lemma_digest_at(digests, d.session);
    let after = store::digests_after(digests, d);
    let at = match store::digest_at(digests, d.session) {
        Some(i) => i,
        None => digests.len() as int,
    };
    assert(after[at] == d);
    assert forall|i: int, j: int|
        #![trigger after[i], after[j]]
        0 <= i < j < after.len() implies after[i].session != after[j].session by {
        if i < digests.len() && i != at {
            assert(after[i] == digests[i]);
        }
        if j < digests.len() && j != at {
            assert(after[j] == digests[j]);
        }
        if at < digests.len() {
            assert(digests[at].session == d.session);
        }
    }
    assert forall|other: SessionDigestV|
        #[trigger] after.contains(other) && other.session == d.session implies other == d by {
        let k = choose|k: int| 0 <= k < after.len() && after[k] == other;
        if k != at {
            if k < at {
                assert(after[k].session != after[at].session);
            } else {
                assert(after[at].session != after[k].session);
            }
        }
    }
}

// ---------------------------------------------------------------------------
// What is listed and found, and in what order
// ---------------------------------------------------------------------------

/// What is picked in the order of a ranking are the items, none lost and none added.
proof fn lemma_picked<A>(items: Seq<A>, keys: Seq<ranking::RankKeyV>, ascending: bool, x: A)
    requires
        keys.len() == items.len(),
    ensures
        store::picked(items, ranking::order(keys, ascending)).len() == items.len(),
        store::picked(items, ranking::order(keys, ascending)).contains(x) <==> items.contains(x),
{
    ranking::ranking_is_a_stable_order(keys, ascending);
    let ord = ranking::order(keys, ascending);
    let out = store::picked(items, ord);
    if items.contains(x) {
        let i = choose|i: int| 0 <= i < items.len() && items[i] == x;
        lemma_picked_has(items, keys, ascending, i);
    }
    if out.contains(x) {
        let k = choose|k: int| 0 <= k < out.len() && out[k] == x;
        assert(0 <= ord[k] < items.len());
        assert(items[ord[k]] == x);
    }
}

proof fn lemma_filter_holds<A>(s: Seq<A>, keep: spec_fn(A) -> bool, x: A)
    ensures
        s.filter(keep).contains(x) <==> s.contains(x) && keep(x),
{
    if s.filter(keep).contains(x) {
        s.lemma_filter_contains_rev(keep, x);
        let i = choose|i: int| 0 <= i < s.filter(keep).len() && s.filter(keep)[i] == x;
        s.lemma_filter_pred(keep, i);
    }
    if s.contains(x) && keep(x) {
        let i = choose|i: int| 0 <= i < s.len() && s[i] == x;
        s.lemma_filter_contains(keep, i);
    }
}

/// The facts of a scope are those that were written there, hold now or went cold, and have
/// the prefix; they are listed by key.
pub proof fn what_is_listed_of_a_scope(rows: Seq<FactV>, scope: Seq<char>, prefix: Seq<char>, f: FactV)
    ensures
        ({
            let listed = store::facts_in(rows, scope, prefix);
            &&& listed.contains(f) <==> rows.contains(f) && f.scope == scope && (f.state == FactState::Current || f.state
                == FactState::Cold) && f.key.len() >= prefix.len() && f.key.take(prefix.len() as int) == prefix
            &&& forall|i: int, j: int|
                0 <= i < j < listed.len() ==> !ranking::sorts_before((#[trigger] listed[j]).key, (#[trigger] listed[i]).key)
        }),
{
    let keep = |f: FactV| f.scope == scope && f.state.live() && text::starts(f.key, prefix);
    let live = store::shown_rows(rows, scope, prefix);
    let keys = store::keys_by_name(live);
    lemma_filter_holds(rows, keep, f);
    lemma_picked(live, keys, true, f);
    let listed = store::facts_in(rows, scope, prefix);
    ranking::ranking_is_a_stable_order(keys, true);
    assert forall|i: int, j: int| 0 <= i < j < listed.len() implies !ranking::sorts_before(
        (#[trigger] listed[j]).key,
        (#[trigger] listed[i]).key,
    ) by {
        ranking::the_greatest_come_first(keys, true, i, j);
    }
}

/// The history of a fact is every version of it, whatever became of it, the newest first.
pub proof fn what_the_history_of_a_fact_is(rows: Seq<FactV>, scope: Seq<char>, key: Seq<char>, f: FactV)
    ensures
        ({
            let h = store::history_in(rows, scope, key);
            &&& h.contains(f) <==> rows.contains(f) && f.scope == scope && f.key == key
            &&& forall|i: int, j: int|
                0 <= i < j < h.len() ==> (#[trigger] h[i]).valid_from.0 >= (#[trigger] h[j]).valid_from.0
        }),
{
    let keep = |f: FactV| f.scope == scope && f.key == key;
    let versions = store::version_rows(rows, scope, key);
    let keys = store::keys_by_age(versions);
    lemma_filter_holds(rows, keep, f);
    lemma_picked(versions, keys, true, f);
    let h = store::history_in(rows, scope, key);
    ranking::ranking_is_a_stable_order(keys, true);
    assert forall|i: int, j: int| 0 <= i < j < h.len() implies (#[trigger] h[i]).valid_from.0
        >= (#[trigger] h[j]).valid_from.0 by {
        ranking::the_greatest_come_first(keys, true, i, j);
    }
}

/// A fact that is forgotten ends then and there; every other row stays.
pub proof fn what_forgetting_a_fact_does(row: FactV, scope: Seq<char>, key: Seq<char>, at: Timestamp)
    ensures
        ({
            let held = row.scope == scope && row.key == key && (row.state == FactState::Current || row.state
                == FactState::Cold);
            &&& held ==> store::forgotten(row, scope, key, at) == (FactV {
                state: FactState::Forgotten,
                valid_to: Some(at),
                ..row
            })
            &&& !held ==> store::forgotten(row, scope, key, at) == row
        }),
{
}

/// A version that begins when one of its fact does replaces that one; any other is added,
/// and the version that held ends where it begins.
pub proof fn what_writing_a_fact_does(rows: Seq<FactV>, fact: FactV, k: int)
    ensures
        ({
            let after = store::rows_after(rows, fact);
            let same = |r: FactV| r.scope == fact.scope && r.key == fact.key && r.valid_from == fact.valid_from;
            &&& 0 <= k < rows.len() && same(rows[k]) && (forall|j: int| 0 <= j < k ==> !same(#[trigger] rows[j])) ==> after
                == rows.update(k, fact)
            &&& (forall|j: int| 0 <= j < rows.len() ==> !same(#[trigger] rows[j])) ==> {
                &&& after.len() == rows.len() + 1
                &&& after[rows.len() as int] == fact
                &&& forall|j: int|
                    0 <= j < rows.len() ==> #[trigger] after[j] == if rows[j].scope == fact.scope && rows[j].key == fact.key && (
                    rows[j].state == FactState::Current || rows[j].state == FactState::Cold) {
                        FactV { state: FactState::Superseded, valid_to: Some(fact.valid_from), ..rows[j] }
                    } else {
                        rows[j]
                    }
            }
        }),
{
    store::lemma_version_at(rows, fact);
    let same = |r: FactV| r.scope == fact.scope && r.key == fact.key && r.valid_from == fact.valid_from;
    assert forall|r: FactV| #[trigger] store::same_version(r, fact) == same(r) by {}
    if 0 <= k < rows.len() && same(rows[k]) && (forall|j: int| 0 <= j < k ==> !same(#[trigger] rows[j])) {
        assert(store::same_version(rows[k], fact));
        let i = store::version_at(rows, fact)->0;
        assert(store::same_version(rows[i], fact));
        if i < k {
            assert(!same(rows[i]));
        } else if k < i {
            assert(!store::same_version(rows[k], fact));
        }
    }
    if forall|j: int| 0 <= j < rows.len() ==> !same(#[trigger] rows[j]) {
        if store::version_at(rows, fact) is Some {
            let i = store::version_at(rows, fact)->0;
            assert(same(rows[i]));
        }
    }
}

/// How well a text meets a search is how many of the words stand in it.
pub proof fn a_score_counts_the_words(hay: Seq<char>, tokens: Seq<Seq<char>>)
    ensures
        store::hits_in(hay, tokens) == tokens.filter(|t: Seq<char>| text::contains(hay, t)).len(),
        store::hits_in(hay, tokens) > 0 <==> exists|i: int| 0 <= i < tokens.len() && text::contains(hay, #[trigger] tokens[i]),
    decreases tokens.len(),
{
    reveal(Seq::filter);
    if tokens.len() > 0 {
        let past = tokens.drop_last();
        a_score_counts_the_words(hay, past);
        if exists|i: int| 0 <= i < past.len() && text::contains(hay, #[trigger] past[i]) {
            let i = choose|i: int| 0 <= i < past.len() && text::contains(hay, #[trigger] past[i]);
            assert(text::contains(hay, tokens[i]));
        }
        if text::contains(hay, tokens.last()) {
            assert(text::contains(hay, tokens[tokens.len() - 1]));
        }
        if exists|i: int| 0 <= i < tokens.len() && text::contains(hay, #[trigger] tokens[i]) {
            let i = choose|i: int| 0 <= i < tokens.len() && text::contains(hay, #[trigger] tokens[i]);
            if i < past.len() {
                assert(text::contains(hay, past[i]));
            }
        }
    }
}

/// The event is something said that holds a word of the search.
pub open spec fn meets(e: EventV, tokens: Seq<Seq<char>>) -> bool {
    match e.kind {
        EventKindV::UserSaid { text } => store::hits_in(unicode::lowered(text), tokens) > 0,
        EventKindV::Replied { text } => store::hits_in(unicode::lowered(text), tokens) > 0,
        _ => false,
    }
}

/// A search of a session finds everything said there that holds a word of it, case aside,
/// with who said it and on which turn, and nothing else.
pub proof fn what_a_search_of_a_session_finds(session: Seq<char>, events: Seq<EventV>, tokens: Seq<Seq<char>>)
    ensures
        ({
            let hits = store::raw_hits(session, events, tokens);
            let said = events.filter(|e: EventV| meets(e, tokens));
            &&& hits.len() == said.len()
            &&& forall|i: int|
                0 <= i < said.len() ==> (#[trigger] hits[i]).session == session && hits[i].turn == said[i].turn && match said[i].kind {
                    EventKindV::UserSaid { text } => hits[i].speaker == "user"@ && hits[i].text == text && hits[i].score
                        == store::hits_in(unicode::lowered(text), tokens) as usize,
                    EventKindV::Replied { text } => hits[i].speaker == "bot"@ && hits[i].text == text && hits[i].score
                        == store::hits_in(unicode::lowered(text), tokens) as usize,
                    _ => false,
                }
        }),
    decreases events.len(),
{
    reveal(Seq::filter);
    if events.len() > 0 {
        what_a_search_of_a_session_finds(session, events.drop_last(), tokens);
    }
}

/// Hits come with the best first, and of two as good with the later turn first; none is lost.
pub proof fn the_best_hits_come_first(hits: Seq<TurnHitV>, h: TurnHitV)
    ensures
        ({
            let r = store::ranked_hits(hits);
            &&& r.len() == hits.len()
            &&& r.contains(h) <==> hits.contains(h)
            &&& forall|i: int, j: int|
                0 <= i < j < r.len() ==> (#[trigger] r[i]).score as u64 >= (#[trigger] r[j]).score as u64 && (r[i].score as u64
                    == r[j].score as u64 ==> r[i].turn >= r[j].turn)
        }),
{
    let keys = store::keys_by_score(hits);
    lemma_picked(hits, keys, true, h);
    let r = store::ranked_hits(hits);
    ranking::ranking_is_a_stable_order(keys, true);
    assert forall|i: int, j: int| 0 <= i < j < r.len() implies (#[trigger] r[i]).score as u64 >= (
    #[trigger] r[j]).score as u64 && (r[i].score as u64 == r[j].score as u64 ==> r[i].turn >= r[j].turn) by {
        ranking::the_greatest_come_first(keys, true, i, j);
        let ord = ranking::order(keys, true);
        assert(r[i] == hits[ord[i]] && r[j] == hits[ord[j]]);
    }
}

/// A search of several sessions finds what a search of each does.
pub proof fn a_search_across_sessions_is_one_of_each(
    logs: Seq<SessionLogV>,
    sessions: Seq<Seq<char>>,
    session: Seq<char>,
    tokens: Seq<Seq<char>>,
)
    ensures
        store::hits_across(logs, seq![], tokens).len() == 0,
        store::hits_across(logs, sessions.push(session), tokens) == store::hits_across(logs, sessions, tokens)
            + store::raw_hits(session, store::loaded(logs, session), tokens),
{
    assert(sessions.push(session).drop_last() =~= sessions);
}

/// A list that is cut keeps its beginning, as long as it may be.
pub proof fn a_cut_list_keeps_its_beginning<A>(items: Seq<A>, k: nat)
    ensures
        store::at_most(items, k).is_prefix_of(items),
        store::at_most(items, k).len() == if items.len() < k {
            items.len()
        } else {
            k
        },
{
}

/// The latest time is that of some event, and none is later.
pub proof fn the_latest_is_the_greatest(events: Seq<EventV>)
    ensures
        forall|i: int| 0 <= i < events.len() ==> (#[trigger] events[i]).at.0 <= store::latest(events),
        events.len() > 0 ==> exists|i: int| 0 <= i < events.len() && (#[trigger] events[i]).at.0 == store::latest(events),
    decreases events.len(),
{
    if events.len() > 0 {
        let past = events.drop_last();
        the_latest_is_the_greatest(past);
        assert forall|i: int| 0 <= i < events.len() implies (#[trigger] events[i]).at.0 <= store::latest(events) by {
            if i < past.len() {
                assert(past[i] == events[i]);
            }
        }
        if events.last().at.0 > store::latest(past) || past.len() == 0 {
            assert(events[events.len() - 1].at.0 == store::latest(events));
        } else {
            let i = choose|i: int| 0 <= i < past.len() && (#[trigger] past[i]).at.0 == store::latest(past);
            assert(events[i] == past[i]);
        }
    }
}

/// The sessions that are listed are those with events, the last active first.
pub proof fn the_last_active_sessions_come_first(logs: Seq<SessionLogV>, session: Seq<char>)
    ensures
        store::sessions_in(logs).contains(session) <==> exists|i: int|
            0 <= i < logs.len() && (#[trigger] logs[i]).session == session && logs[i].events.len() > 0,
        ({
            let ls = logs.filter(|l: SessionLogV| l.events.len() > 0);
            let out = store::sessions_in(logs);
            &&& out.len() == ls.len()
            &&& exists|ord: Seq<int>| {
                &&& #[trigger] ord.len() == ls.len()
                &&& forall|i: int| 0 <= i < ord.len() ==> 0 <= #[trigger] ord[i] < ls.len() && out[i] == ls[ord[i]].session
                &&& forall|i: int, j: int|
                    0 <= i < j < ord.len() ==> store::latest(ls[#[trigger] ord[i]].events) >= store::latest(
                        ls[#[trigger] ord[j]].events,
                    )
            }
        }),
{
    let keep = |l: SessionLogV| l.events.len() > 0;
    let ls = store::kept_logs(logs);
    let keys = store::keys_by_activity(ls);
    let ord = ranking::order(keys, false);
    let out = store::sessions_in(logs);
    ranking::ranking_is_a_stable_order(keys, false);
    assert forall|i: int, j: int| 0 <= i < j < ord.len() implies store::latest(ls[#[trigger] ord[i]].events)
        >= store::latest(ls[#[trigger] ord[j]].events) by {
        ranking::the_greatest_come_first(keys, false, i, j);
    }
    assert(ord.len() == ls.len());
    if out.contains(session) {
        let k = choose|k: int| 0 <= k < out.len() && out[k] == session;
        let l = ls[ord[k]];
        assert(ls.contains(l));
        lemma_filter_holds(logs, keep, l);
        let i = choose|i: int| 0 <= i < logs.len() && logs[i] == l;
        assert(logs[i].session == session);
    }
    if exists|i: int| 0 <= i < logs.len() && (#[trigger] logs[i]).session == session && logs[i].events.len() > 0 {
        let i = choose|i: int| 0 <= i < logs.len() && (#[trigger] logs[i]).session == session && logs[i].events.len() > 0;
        lemma_filter_holds(logs, keep, logs[i]);
        let r = choose|r: int| 0 <= r < ls.len() && ls[r] == logs[i];
        lemma_order_covers(ord, ls.len(), r);
        let k = choose|k: int| 0 <= k < ord.len() && ord[k] == r;
        assert(out[k] == session);
    }
}

/// The digests of a scope come with the newest first, all of them and no other.
pub proof fn the_newest_digests_come_first(digests: Seq<SessionDigestV>, scope: Seq<char>, d: SessionDigestV)
    ensures
        ({
            let listed = store::digests_in(digests, scope);
            &&& listed.contains(d) <==> digests.contains(d) && d.scope == scope
            &&& forall|i: int, j: int| 0 <= i < j < listed.len() ==> (#[trigger] listed[i]).at.0 >= (#[trigger] listed[j]).at.0
        }),
{
    let keep = |d: SessionDigestV| d.scope == scope;
    let ds = store::scope_digests(digests, scope);
    let keys = store::keys_by_date(ds);
    lemma_filter_holds(digests, keep, d);
    lemma_picked(ds, keys, false, d);
    let listed = store::digests_in(digests, scope);
    ranking::ranking_is_a_stable_order(keys, false);
    assert forall|i: int, j: int| 0 <= i < j < listed.len() implies (#[trigger] listed[i]).at.0
        >= (#[trigger] listed[j]).at.0 by {
        ranking::the_greatest_come_first(keys, false, i, j);
    }
}

/// A search of digests finds those of the scope whose topic, findings or open points hold a
/// word of it, case aside, those with more of the words first.
pub proof fn what_a_search_of_digests_finds(
    digests: Seq<SessionDigestV>,
    scope: Seq<char>,
    tokens: Seq<Seq<char>>,
    d: SessionDigestV,
)
    requires
        tokens.len() <= u64::MAX,
    ensures
        ({
            let found = store::found_digests(digests, scope, tokens);
            let hay = unicode::lowered(
                d.summary.topic + " "@ + text::joined(d.summary.established, " "@) + " "@ + text::joined(
                    d.summary.open,
                    " "@,
                ),
            );
            &&& found.contains(d) <==> digests.contains(d) && d.scope == scope && exists|i: int|
                0 <= i < tokens.len() && text::contains(hay, #[trigger] tokens[i])
            &&& forall|i: int, j: int|
                0 <= i < j < found.len() ==> store::hits_in(store::digest_text(#[trigger] found[i]), tokens) >= store::hits_in(
                    store::digest_text(#[trigger] found[j]),
                    tokens,
                )
        }),
{
    let listed = store::digests_in(digests, scope);
    let keep = |d: SessionDigestV| store::hits_in(store::digest_text(d), tokens) > 0;
    let ds = store::matching(listed, tokens);
    let keys = store::keys_by_match(ds, tokens);
    the_newest_digests_come_first(digests, scope, d);
    lemma_filter_holds(listed, keep, d);
    lemma_picked(ds, keys, true, d);
    a_score_counts_the_words(store::digest_text(d), tokens);
    let found = store::found_digests(digests, scope, tokens);
    ranking::ranking_is_a_stable_order(keys, true);
    assert forall|i: int, j: int| 0 <= i < j < found.len() implies store::hits_in(
        store::digest_text(#[trigger] found[i]),
        tokens,
    ) >= store::hits_in(store::digest_text(#[trigger] found[j]), tokens) by {
        ranking::the_greatest_come_first(keys, true, i, j);
        lemma_hits_bound(store::digest_text(found[i]), tokens);
        lemma_hits_bound(store::digest_text(found[j]), tokens);
    }
}

proof fn lemma_hits_bound(hay: Seq<char>, tokens: Seq<Seq<char>>)
    ensures
        store::hits_in(hay, tokens) <= tokens.len(),
    decreases tokens.len(),
{
    if tokens.len() > 0 {
        lemma_hits_bound(hay, tokens.drop_last());
    }
}

/// Texts in dictionary order are the same texts, none before one that it sorts behind.
pub proof fn dictionary_order_loses_nothing(names: Seq<Seq<char>>, name: Seq<char>)
    ensures
        ({
            let out = store::in_dictionary_order(names);
            &&& out.len() == names.len()
            &&& out.contains(name) <==> names.contains(name)
            &&& forall|i: int, j: int|
                0 <= i < j < out.len() ==> !ranking::sorts_before(#[trigger] out[j], #[trigger] out[i])
        }),
{
    let keys = store::keys_of_names(names);
    lemma_picked(names, keys, true, name);
    let out = store::in_dictionary_order(names);
    ranking::ranking_is_a_stable_order(keys, true);
    assert forall|i: int, j: int| 0 <= i < j < out.len() implies !ranking::sorts_before(
        #[trigger] out[j],
        #[trigger] out[i],
    ) by {
        ranking::the_greatest_come_first(keys, true, i, j);
    }
}

/// The scopes that are known are those that a fact was written to, each once.
pub proof fn every_scope_is_known_once(rows: Seq<FactV>, scope: Seq<char>)
    ensures
        store::scopes_seen(rows).no_duplicates(),
        store::scopes_seen(rows).contains(scope) <==> exists|i: int| 0 <= i < rows.len() && (#[trigger] rows[i]).scope == scope,
    decreases rows.len(),
{
    if rows.len() > 0 {
        let past = rows.drop_last();
        every_scope_is_known_once(past, scope);
        every_scope_is_known_once(past, rows.last().scope);
        let was = store::scopes_seen(past);
        let now = store::scopes_seen(rows);
        if was.contains(scope) {
            let i = choose|i: int| 0 <= i < past.len() && (#[trigger] past[i]).scope == scope;
            assert(rows[i] == past[i]);
            let k = choose|k: int| 0 <= k < was.len() && was[k] == scope;
            assert(now[k] == scope);
        }
        if rows.last().scope == scope {
            assert(rows[rows.len() - 1].scope == scope);
            if !was.contains(scope) {
                assert(now[was.len() as int] == scope);
            }
        }
        if exists|i: int| 0 <= i < rows.len() && (#[trigger] rows[i]).scope == scope {
            let i = choose|i: int| 0 <= i < rows.len() && (#[trigger] rows[i]).scope == scope;
            if i < past.len() {
                assert(past[i].scope == scope);
            }
        }
        if now.contains(scope) && !was.contains(scope) {
            let k = choose|k: int| 0 <= k < now.len() && now[k] == scope;
            if k < was.len() {
                assert(was[k] == scope);
            }
        }
        assert(now.no_duplicates()) by {
            if !was.contains(rows.last().scope) {
                assert forall|i: int, j: int| 0 <= i < now.len() && 0 <= j < now.len() && i != j implies now[i] != now[j] by {
                    if i < was.len() && j < was.len() {
                        assert(was[i] != was[j]);
                    } else if i < was.len() {
                        assert(was[i] != rows.last().scope);
                    } else {
                        assert(was[j] != rows.last().scope);
                    }
                }
            }
        }
    }
}

} // verus!
