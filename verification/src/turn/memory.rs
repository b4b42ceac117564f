//! Which stored facts a turn shows the models, and the running summary.

use vstd::prelude::*;

use crate::events;
use crate::events::{
    EventKind, EventKindV, EventLog, EventV, Manifest, ManifestV, SessionSummary, SessionSummaryV, TurnRecord,
    TurnRecordV,
};
use crate::facts::{Fact, FactV, FactView, FactViewV, Previous, PreviousV};
use crate::ranking;
use crate::ranking::{rank, RankKey, RankKeyV};
use crate::state;
use crate::state::{SessionState, SessionStateV};
use crate::store;
use crate::text;
use crate::text::{same, starts_with};
use crate::trace;
use crate::trace::window_range;
use crate::turn::accounting;
use crate::turn::accounting::{record_model_calls, BookedCall, BookedCallV};
use crate::turn::config::{EngineConfig, EngineConfigV};
use crate::types;
use crate::types::{clone_texts, min_trust, FactState, Timestamp, Trust};

verus! {

// ---------------------------------------------------------------------------
// Selection
// ---------------------------------------------------------------------------

/// A key under one of the prefixes.
pub open spec fn pinned_key(prefixes: Seq<Seq<char>>, key: Seq<char>) -> bool {
    exists|i: int| 0 <= i < prefixes.len() && text::starts(key, #[trigger] prefixes[i])
}

/// Whether a fact is always shown.
pub fn is_pinned(prefixes: &Vec<String>, key: &str) -> (r: bool)
    ensures
        r == pinned_key(prefixes.deep_view(), key@),
{
    let ghost all = prefixes.deep_view();
    let mut i: usize = 0;
    while i < prefixes.len()
        invariant
            i <= prefixes@.len(),
            all == prefixes.deep_view(),
            forall|k: int| 0 <= k < i ==> !text::starts(key@, #[trigger] all[k]),
        decreases prefixes@.len() - i,
    {
        assert(all[i as int] == prefixes@[i as int]@);
        if starts_with(key, prefixes[i].as_str()) {
            return true;
        }
        i = i + 1;
    }
    false
}

pub open spec fn keys_by_validation(facts: Seq<FactV>) -> Seq<RankKeyV> {
    Seq::new(facts.len(), |i: int| RankKeyV { first: facts[i].last_validated.0, second: 0, name: facts[i].key })
}

pub open spec fn pinned_rows(live: Seq<FactV>, prefixes: Seq<Seq<char>>) -> Seq<FactV> {
    live.filter(|f: FactV| f.state == FactState::Current && pinned_key(prefixes, f.key))
}

/// The pinned core: current facts under the prefixes, the newest validated
/// first, then by key, at most `max`. A fact gone cold is none of them.
pub open spec fn pinned_core(live: Seq<FactV>, prefixes: Seq<Seq<char>>, max: nat) -> Seq<FactV> {
    let rows = pinned_rows(live, prefixes);
    store::at_most(store::picked(rows, ranking::order(keys_by_validation(rows), true)), max)
}

/// The pinned core of the facts that live in a scope.
pub fn pinned_facts(live: &Vec<Fact>, prefixes: &Vec<String>, max: usize) -> (r: Vec<Fact>)
    ensures
        r.deep_view() == pinned_core(live.deep_view(), prefixes.deep_view(), max as nat),
{
    let ghost all = live.deep_view();
    let ghost pv = prefixes.deep_view();
    let ghost keep = |f: FactV| f.state == FactState::Current && pinned_key(pv, f.key);
    let mut kept: Vec<Fact> = Vec::new();
    let mut keys: Vec<RankKey> = Vec::new();
    let mut i: usize = 0;
    proof {
        reveal(Seq::filter);
        assert(all.take(0).filter(keep) =~= seq![]);
        assert(kept.deep_view() =~= seq![]);
    }
    while i < live.len()
        invariant
            i <= live@.len(),
            all == live.deep_view(),
            pv == prefixes.deep_view(),
            keep == (|f: FactV| f.state == FactState::Current && pinned_key(pv, f.key)),
            kept.deep_view() == all.take(i as int).filter(keep),
            keys@.len() == kept@.len(),
            forall|k: int|
                0 <= k < keys@.len() ==> (#[trigger] keys@[k]).deep_view() == keys_by_validation(kept.deep_view())[k],
        decreases live@.len() - i,
    {
        proof {
            reveal(Seq::filter);
            assert(all.take(i + 1).drop_last() =~= all.take(i as int));
            assert(all.take(i + 1).last() == live@[i as int].deep_view());
        }
        if live[i].state == FactState::Current && is_pinned(prefixes, live[i].key.as_str()) {
            let ghost before = kept.deep_view();
            let one: Fact = live[i].clone();
            let key: RankKey = RankKey { first: one.last_validated.0, second: 0, name: one.key.clone() };
            kept.push(one);
            keys.push(key);
            proof {
                assert(kept.deep_view() =~= before.push(one.deep_view()));
            }
        }
        i = i + 1;
    }
    proof {
        assert(all.take(all.len() as int) =~= all);
        assert(keys.deep_view() =~= keys_by_validation(kept.deep_view()));
    }
    let ord: Vec<usize> = rank(&keys, true);
    let ghost rows = kept.deep_view();
    let ghost full = store::picked(rows, ranking::positions(ord@));
    let mut out: Vec<Fact> = Vec::new();
    let mut j: usize = 0;
    while j < ord.len() && j < max
        invariant
            j <= ord@.len(),
            j <= max,
            rows == kept.deep_view(),
            full == store::picked(rows, ranking::positions(ord@)),
            forall|k: int| 0 <= k < ord@.len() ==> #[trigger] ord@[k] < kept@.len(),
            out@.len() == j,
            forall|k: int| 0 <= k < j ==> (#[trigger] out@[k]).deep_view() == full[k],
        decreases ord@.len() - j,
    {
        out.push(kept[ord[j]].clone());
        j = j + 1;
    }
    proof {
        assert(full.len() == ord@.len());
        assert(out.deep_view() =~= store::at_most(full, max as nat));
    }
    out
}

/// How many of the facts are not pinned.
pub open spec fn unpinned(facts: Seq<FactV>, prefixes: Seq<Seq<char>>) -> nat
    decreases facts.len(),
{
    if facts.len() == 0 {
        0
    } else {
        unpinned(facts.drop_last(), prefixes) + if pinned_key(prefixes, facts.last().key) {
            0nat
        } else {
            1nat
        }
    }
}

fn count_unpinned(facts: &Vec<Fact>, prefixes: &Vec<String>) -> (r: usize)
    ensures
        r == unpinned(facts.deep_view(), prefixes.deep_view()),
{
    let ghost all = facts.deep_view();
    let mut n: usize = 0;
    let mut i: usize = 0;
    proof {
        assert(all.take(0) =~= seq![]);
    }
    while i < facts.len()
        invariant
            i <= facts@.len(),
            all == facts.deep_view(),
            n == unpinned(all.take(i as int), prefixes.deep_view()),
            n <= i,
        decreases facts@.len() - i,
    {
        proof {
            assert(all.take(i + 1).drop_last() =~= all.take(i as int));
            assert(all.take(i + 1).last() == facts@[i as int].deep_view());
        }
        if !is_pinned(prefixes, facts[i].key.as_str()) {
            n = n + 1;
        }
        i = i + 1;
    }
    proof {
        assert(all.take(all.len() as int) =~= all);
    }
    n
}

pub open spec fn has_key(facts: Seq<FactV>, key: Seq<char>) -> bool {
    exists|i: int| 0 <= i < facts.len() && (#[trigger] facts[i]).key == key
}

pub(crate) fn knows_key(facts: &Vec<Fact>, key: &str) -> (r: bool)
    ensures
        r == has_key(facts.deep_view(), key@),
{
    let ghost all = facts.deep_view();
    let mut i: usize = 0;
    while i < facts.len()
        invariant
            i <= facts@.len(),
            all == facts.deep_view(),
            forall|k: int| 0 <= k < i ==> (#[trigger] all[k]).key != key@,
        decreases facts@.len() - i,
    {
        assert(all[i as int] == facts@[i as int].deep_view());
        if same(facts[i].key.as_str(), key) {
            return true;
        }
        i = i + 1;
    }
    false
}

/// What was chosen so far, with the relevant facts one after the other until a
/// limit is reached; a key that is there already is passed over.
pub open spec fn merged(chosen: Seq<FactV>, relevant: Seq<FactV>, cfg: EngineConfigV) -> Seq<FactV>
    decreases relevant.len(),
{
    if relevant.len() == 0 || chosen.len() >= cfg.facts_in_context || unpinned(chosen, cfg.pinned_prefixes)
        >= cfg.relevant_max {
        chosen
    } else if has_key(chosen, relevant[0].key) {
        merged(chosen, relevant.drop_first(), cfg)
    } else {
        merged(chosen.push(relevant[0]), relevant.drop_first(), cfg)
    }
}

/// The facts that a turn shows: the pinned core and the relevant facts, within
/// the limits.
pub open spec fn selected(live: Seq<FactV>, relevant: Seq<FactV>, cfg: EngineConfigV) -> Seq<FactV> {
    store::at_most(
        merged(pinned_core(live, cfg.pinned_prefixes, cfg.pinned_max as nat), relevant, cfg),
        cfg.facts_in_context as nat,
    )
}

/// How many relevant facts to ask the store for, beside a core of that size.
pub fn relevant_wanted(cfg: &EngineConfig, pinned: usize) -> (r: usize)
    requires
        cfg.relevant_max + pinned <= usize::MAX,
    ensures
        r == cfg.relevant_max + pinned,
{
    cfg.relevant_max + pinned
}

/// The pinned core of `live` plus the relevant facts, which a search of the
/// store gave.
pub fn select_facts(cfg: &EngineConfig, live: &Vec<Fact>, relevant: &Vec<Fact>) -> (r: Vec<Fact>)
    ensures
        r.deep_view() == selected(live.deep_view(), relevant.deep_view(), cfg.deep_view()),
{
    let ghost cv = cfg.deep_view();
    let ghost rel = relevant.deep_view();
    let mut out: Vec<Fact> = pinned_facts(live, &cfg.pinned_prefixes, cfg.pinned_max);
    let ghost core = out.deep_view();
    let mut i: usize = 0;
    let mut open: bool = true;
    proof {
        assert(rel.skip(0) =~= rel);
    }
    while i < relevant.len() && open
        invariant
            i <= relevant@.len(),
            cv == cfg.deep_view(),
            rel == relevant.deep_view(),
            open ==> merged(core, rel, cv) == merged(out.deep_view(), rel.skip(i as int), cv),
            !open ==> merged(core, rel, cv) == out.deep_view(),
        decreases relevant@.len() - i + if open { 1int } else { 0int },
    {
        proof {
            assert(rel.skip(i as int)[0] == relevant@[i as int].deep_view());
            assert(rel.skip(i as int).drop_first() =~= rel.skip(i + 1));
        }
        if out.len() >= cfg.facts_in_context || count_unpinned(&out, &cfg.pinned_prefixes) >= cfg.relevant_max {
            open = false;
        } else {
            if !knows_key(&out, relevant[i].key.as_str()) {
                let ghost before = out.deep_view();
                let one: Fact = relevant[i].clone();
                out.push(one);
                proof {
                    assert(out.deep_view() =~= before.push(one.deep_view()));
                }
            }
            i = i + 1;
        }
    }
    let ghost all = out.deep_view();
    if out.len() > cfg.facts_in_context {
        out.truncate(cfg.facts_in_context);
        proof {
            assert(out.deep_view() =~= all.take(cfg.facts_in_context as int));
        }
    }
    out
}

/// The version that a fact replaced: the newest superseded one with another
/// value, where its end is known.
pub open spec fn replaced_by(history: Seq<FactV>, value: Seq<char>) -> Option<PreviousV>
    decreases history.len(),
{
    if history.len() == 0 {
        None
    } else if history[0].state == FactState::Superseded && history[0].value != value {
        match history[0].valid_to {
            Some(t) => Some(PreviousV { value: history[0].value, until: t }),
            None => None,
        }
    } else {
        replaced_by(history.drop_first(), value)
    }
}

/// A fact as a context shows it: a pinned one with the value it replaced.
pub open spec fn fact_view(prefixes: Seq<Seq<char>>, f: FactV, history: Seq<FactV>) -> FactViewV {
    FactViewV {
        fact: f,
        previous: if pinned_key(prefixes, f.key) {
            replaced_by(history, f.value)
        } else {
            None
        },
    }
}

/// How a fact is shown; `history` holds its versions, the newest first.
pub fn view_of(prefixes: &Vec<String>, f: &Fact, history: &Vec<Fact>) -> (r: FactView)
    ensures
        r.deep_view() == fact_view(prefixes.deep_view(), f.deep_view(), history.deep_view()),
{
    let mut previous: Option<Previous> = None;
    if is_pinned(prefixes, f.key.as_str()) {
        let ghost all = history.deep_view();
        let mut i: usize = 0;
        let mut seen: bool = false;
        proof {
            assert(all.skip(0) =~= all);
        }
        while i < history.len() && !seen
            invariant
                i <= history@.len(),
                all == history.deep_view(),
                !seen ==> previous is None && replaced_by(all, f.value.deep_view()) == replaced_by(
                    all.skip(i as int),
                    f.value.deep_view(),
                ),
                seen ==> replaced_by(all, f.value.deep_view()) == previous.deep_view(),
            decreases history@.len() - i + if seen { 0int } else { 1int },
        {
            proof {
                assert(all.skip(i as int)[0] == history@[i as int].deep_view());
                assert(all.skip(i as int).drop_first() =~= all.skip(i + 1));
            }
            let h: &Fact = &history[i];
            if h.state == FactState::Superseded && !same(h.value.text.as_str(), f.value.text.as_str()) {
                previous = match h.valid_to {
                    Some(t) => Some(Previous { value: h.value.clone(), until: t }),
                    None => None,
                };
                seen = true;
            } else {
                i = i + 1;
            }
        }
    }
    FactView { fact: f.clone(), previous }
}

/// The facts after a reply was shown them: one more use each, at `at`.
pub open spec fn used(f: FactV, at: Timestamp) -> FactV {
    FactV { uses: (f.uses + 1) as u32, last_used: at, ..f }
}

/// One more use of a fact.
pub fn use_fact(f: &mut Fact, at: Timestamp)
    requires
        old(f).uses < u32::MAX,
    ensures
        final(f).deep_view() == used(old(f).deep_view(), at),
{
    f.uses = f.uses + 1;
    f.last_used = at;
}

// ---------------------------------------------------------------------------
// The running summary
// ---------------------------------------------------------------------------

/// A summary that is due: which turns it covers, and from what.
#[derive(Debug)]
pub struct SummaryPlan {
    /// Last turn it covers.
    pub through: u32,
    /// Whether it is written from the records alone.
    pub rebuild: bool,
    pub records: Vec<TurnRecord>,
    pub previous: Option<SessionSummary>,
}

pub struct SummaryPlanV {
    pub through: u32,
    pub rebuild: bool,
    pub records: Seq<TurnRecordV>,
    pub previous: Option<SessionSummaryV>,
}

impl DeepView for SummaryPlan {
    type V = SummaryPlanV;

    open spec fn deep_view(&self) -> SummaryPlanV {
        SummaryPlanV {
            through: self.through,
            rebuild: self.rebuild,
            records: self.records.deep_view(),
            previous: self.previous.deep_view(),
        }
    }
}

impl Clone for SummaryPlan {
    fn clone(&self) -> (r: Self)
        ensures
            r.deep_view() == self.deep_view(),
    {
        let r: SummaryPlan = SummaryPlan {
            through: self.through,
            rebuild: self.rebuild,
            records: self.records.clone(),
            previous: self.previous.clone(),
        };
        proof {
            assert(r.records.deep_view() =~= self.records.deep_view());
            assert(r.previous.deep_view() =~= self.previous.deep_view());
        }
        r
    }
}

/// The last turn that the summary covers.
pub open spec fn covered(s: SessionStateV) -> u32 {
    match s.summary {
        Some(x) => x.through_turn,
        None => 0,
    }
}

/// The last turn that has fallen out of the window.
pub open spec fn out_of_window(s: SessionStateV, window_turns: usize) -> int {
    if s.turn >= window_turns {
        s.turn - window_turns
    } else {
        0
    }
}

/// Whether enough turns have fallen out of the window since the last summary.
pub open spec fn is_due(s: SessionStateV, cfg: EngineConfigV) -> bool {
    let through = out_of_window(s, cfg.window_turns);
    cfg.summary_every_turns > 0 && through >= 1 && through - covered(s) >= cfg.summary_every_turns
}

/// Whether the next summary is one that is written from the records alone.
pub open spec fn is_rebuild(s: SessionStateV, cfg: EngineConfigV) -> bool {
    cfg.summary_rebuild_every > 0 && (s.summaries + 1) % cfg.summary_rebuild_every as int == 0
}

/// The summary that is due, before its records are cut to size.
pub open spec fn plan_of(s: SessionStateV, cfg: EngineConfigV) -> Option<SummaryPlanV> {
    if !is_due(s, cfg) {
        None
    } else {
        let rebuild = is_rebuild(s, cfg);
        let through = out_of_window(s, cfg.window_turns) as u32;
        let from = if rebuild { 1u32 } else { (covered(s) + 1) as u32 };
        Some(
            SummaryPlanV {
                through,
                rebuild,
                records: state::in_turns(s.records, from, through),
                previous: if rebuild { None } else { s.summary },
            },
        )
    }
}

/// Decide whether a summary is due.
pub fn plan_summary(s: &SessionState, cfg: &EngineConfig) -> (r: Option<SummaryPlan>)
    requires
        s.summaries < u32::MAX,
    ensures
        r.deep_view() == plan_of(s.deep_view(), cfg.deep_view()),
{
    let every: usize = cfg.summary_every_turns;
    if every == 0 {
        return None;
    }
    let through: u32 = if s.turn as u64 >= cfg.window_turns as u64 {
        (s.turn as u64 - cfg.window_turns as u64) as u32
    } else {
        0
    };
    let last: u32 = match &s.summary {
        Some(x) => x.through_turn,
        None => 0,
    };
    if through < 1 || through < last || ((through - last) as u64) < every as u64 {
        return None;
    }
    let rebuild: bool = cfg.summary_rebuild_every > 0 && (s.summaries as u64 + 1) % (cfg.summary_rebuild_every as u64)
        == 0;
    let from: u32 = if rebuild { 1 } else { last + 1 };
    let previous: Option<SessionSummary> = if rebuild { None } else { s.summary.clone() };
    proof {
        if !rebuild {
            assert(previous.deep_view() =~= s.summary.deep_view());
        }
    }
    Some(SummaryPlan { through, rebuild, records: s.records_in(from, through), previous })
}

/// How many records to drop from the front: those while more than one is left
/// and what is left is too long. `lengths[i]` is how long the records from `i`
/// on are when rendered.
pub open spec fn dropped(lengths: Seq<usize>, from: int, max: usize) -> int
    decreases lengths.len() - from,
{
    if from < 0 || from + 1 >= lengths.len() || lengths[from] <= max {
        from
    } else {
        dropped(lengths, from + 1, max)
    }
}

/// The records cut to the input limit, the oldest dropped first; `lengths[i]` is
/// how long the records from `i` on are when rendered.
pub fn cut_records(records: &Vec<TurnRecord>, lengths: &Vec<usize>, max: usize) -> (r: Vec<TurnRecord>)
    requires
        records@.len() == lengths@.len(),
    ensures
        r.deep_view() == records.deep_view().skip(dropped(lengths@, 0, max)),
{
    let ghost all = records.deep_view();
    let mut i: usize = 0;
    while i < lengths.len() && lengths.len() - i > 1 && lengths[i] > max
        invariant
            i <= lengths@.len(),
            lengths@.len() > 0 ==> i < lengths@.len(),
            dropped(lengths@, 0, max) == dropped(lengths@, i as int, max),
        decreases lengths@.len() - i,
    {
        i = i + 1;
    }
    let from: usize = i;
    let mut out: Vec<TurnRecord> = Vec::new();
    let mut j: usize = from;
    while j < records.len()
        invariant
            from <= j <= records@.len(),
            all == records.deep_view(),
            out.deep_view() == all.subrange(from as int, j as int),
        decreases records@.len() - j,
    {
        let ghost before = out.deep_view();
        let one: TurnRecord = records[j].clone();
        out.push(one);
        proof {
            assert(out.deep_view() =~= before.push(one.deep_view()));
            assert(all.subrange(from as int, j + 1) =~= all.subrange(from as int, j as int).push(all[j as int]));
        }
        j = j + 1;
    }
    proof {
        assert(all.subrange(from as int, all.len() as int) =~= all.skip(from as int));
    }
    out
}

/// A plan cut to the input limit; none where no record is left to write from.
pub open spec fn plan_cut(plan: SummaryPlanV, lengths: Seq<usize>, max: usize) -> Option<SummaryPlanV> {
    let records = plan.records.skip(dropped(lengths, 0, max));
    if records.len() > 0 {
        Some(SummaryPlanV { records, ..plan })
    } else {
        None
    }
}

/// Cut a plan to the input limit; `lengths[i]` is how long its records from `i`
/// on are when rendered.
pub fn cut_plan(plan: SummaryPlan, lengths: &Vec<usize>, max: usize) -> (r: Option<SummaryPlan>)
    requires
        plan.records@.len() == lengths@.len(),
    ensures
        r.deep_view() == plan_cut(plan.deep_view(), lengths@, max),
{
    let records: Vec<TurnRecord> = cut_records(&plan.records, lengths, max);
    proof {
        assert(records.deep_view().len() == records@.len());
    }
    if records.len() == 0 {
        return None;
    }
    Some(SummaryPlan { records, ..plan })
}

/// What a summarizer wrote.
#[derive(Debug)]
pub struct SummaryDraft {
    pub topic: String,
    pub established: Vec<String>,
    pub open: Vec<String>,
}

pub struct SummaryDraftV {
    pub topic: Seq<char>,
    pub established: Seq<Seq<char>>,
    pub open: Seq<Seq<char>>,
}

impl DeepView for SummaryDraft {
    type V = SummaryDraftV;

    open spec fn deep_view(&self) -> SummaryDraftV {
        SummaryDraftV {
            topic: self.topic.deep_view(),
            established: self.established.deep_view(),
            open: self.open.deep_view(),
        }
    }
}

impl Clone for SummaryDraft {
    fn clone(&self) -> (r: Self)
        ensures
            r.deep_view() == self.deep_view(),
    {
        let r: SummaryDraft = SummaryDraft {
            topic: self.topic.clone(),
            established: clone_texts(&self.established),
            open: clone_texts(&self.open),
        };
        r
    }
}

pub open spec fn trusts_of(records: Seq<TurnRecordV>) -> Seq<Trust> {
    Seq::new(records.len(), |i: int| records[i].trust)
}

/// How trusted everything is that a summary is written from: its records, and the
/// summary that it goes on from where there is one.
pub open spec fn sources_trusts(previous: Option<SessionSummaryV>, records: Seq<TurnRecordV>) -> Seq<Trust> {
    match previous {
        Some(p) => trusts_of(records).push(p.trust),
        None => trusts_of(records),
    }
}

/// The summary that a draft becomes: as far as the plan says, from the first
/// record on, and no more trusted than the least trusted thing that it was
/// written from.
pub open spec fn summary_from(
    draft: SummaryDraftV,
    through: u32,
    previous: Option<SessionSummaryV>,
    records: Seq<TurnRecordV>,
) -> SessionSummaryV {
    SessionSummaryV {
        through_turn: through,
        topic: draft.topic,
        established: draft.established,
        open: draft.open,
        trust: types::lowest(sources_trusts(previous, records)),
        rebuilt_from: records[0].turn,
    }
}

/// Make a draft a summary of the records that it was written from, on top of the
/// summary that it goes on from.
pub fn summary_of(
    draft: SummaryDraft,
    through: u32,
    previous: &Option<SessionSummary>,
    records: &Vec<TurnRecord>,
) -> (r: SessionSummary)
    requires
        records@.len() > 0,
    ensures
        r.deep_view() == summary_from(draft.deep_view(), through, previous.deep_view(), records.deep_view()),
{
    let ghost all = records.deep_view();
    let mut trusts: Vec<Trust> = Vec::new();
    let mut i: usize = 0;
    while i < records.len()
        invariant
            i <= records@.len(),
            all == records.deep_view(),
            trusts@.len() == i,
            forall|k: int| 0 <= k < i ==> trusts@[k] == trusts_of(all)[k],
        decreases records@.len() - i,
    {
        assert(all[i as int] == records@[i as int].deep_view());
        trusts.push(records[i].trust);
        i = i + 1;
    }
    proof {
        assert(trusts@ =~= trusts_of(all));
    }
    if let Some(p) = previous {
        trusts.push(p.trust);
    }
    SessionSummary {
        through_turn: through,
        topic: draft.topic,
        established: draft.established,
        open: draft.open,
        trust: min_trust(&trusts),
        rebuilt_from: records[0].turn,
    }
}

/// What the summarizer is shown, for the record: the standing facts and a range
/// of records, no tools and no trace.
pub open spec fn summary_manifest_of(
    scope: Seq<char>,
    fact_keys: Seq<Seq<char>>,
    previous: Option<SessionSummaryV>,
    window: Option<(u32, u32)>,
) -> ManifestV {
    ManifestV {
        scope: Some(scope),
        fact_keys,
        summary_through: match previous {
            Some(s) => Some(s.through_turn),
            None => None,
        },
        window,
        ..empty_manifest()
    }
}

/// A manifest of nothing.
pub open spec fn empty_manifest() -> ManifestV {
    ManifestV {
        scope: None,
        fact_keys: seq![],
        summary_through: None,
        window: None,
        trace_lines: 0,
        trace_chars: 0,
        clipped_chars: 0,
        tool_names: seq![],
        guidance: 0,
        note_hashes: seq![],
        tier: None,
        route_cues: seq![],
        budget: None,
        ablated: None,
    }
}

pub fn blank_manifest() -> (r: Manifest)
    ensures
        r.deep_view() == empty_manifest(),
{
    let r: Manifest = Manifest {
        scope: None,
        fact_keys: Vec::new(),
        summary_through: None,
        window: None,
        trace_lines: 0,
        trace_chars: 0,
        clipped_chars: 0,
        tool_names: Vec::new(),
        guidance: 0,
        note_hashes: Vec::new(),
        tier: None,
        route_cues: Vec::new(),
        budget: None,
        ablated: None,
    };
    proof {
        assert(r.fact_keys.deep_view() =~= seq![]);
        assert(r.tool_names.deep_view() =~= seq![]);
        assert(r.note_hashes.deep_view() =~= seq![]);
        assert(r.route_cues.deep_view() =~= seq![]);
    }
    r
}

pub fn summary_manifest(
    scope: &str,
    fact_keys: &Vec<String>,
    previous: &Option<SessionSummary>,
    records: &Vec<TurnRecord>,
) -> (r: Manifest)
    ensures
        r.deep_view() == summary_manifest_of(
            scope@,
            fact_keys.deep_view(),
            previous.deep_view(),
            trace::turn_range(records.deep_view()),
        ),
{
    let mut r: Manifest = blank_manifest();
    r.scope = Some(scope.to_owned());
    r.fact_keys = clone_texts(fact_keys);
    r.summary_through = match previous {
        Some(s) => Some(s.through_turn),
        None => None,
    };
    r.window = window_range(records);
    r
}

/// The log after a summary was asked for: every call is booked, also one that
/// bought nothing, and the summary follows where there is one.
pub open spec fn summarized(
    events: Seq<EventV>,
    turn: u32,
    at: Timestamp,
    calls: Seq<BookedCallV>,
    manifest: ManifestV,
    summary: Option<SessionSummaryV>,
) -> Seq<EventV> {
    let paid = accounting::booked(events, turn, calls, manifest);
    match summary {
        Some(s) => events::appended(paid, turn, at, EventKindV::Summarized { summary: s }),
        None => paid,
    }
}

/// Take what came of asking for a summary; how many requests are spent with it.
pub fn finish_summary(
    log: &mut EventLog,
    turn: u32,
    at: Timestamp,
    calls: &Vec<BookedCall>,
    manifest: &Manifest,
    spent: u32,
    summary: Option<SessionSummary>,
) -> (r: u32)
    requires
        accounting::room(old(log).deep_view().events, calls@.len() + 1int),
    ensures
        final(log).deep_view().session == old(log).deep_view().session,
        final(log).deep_view().events == summarized(
            old(log).deep_view().events,
            turn,
            at,
            calls.deep_view(),
            manifest.deep_view(),
            summary.deep_view(),
        ),
        r == accounting::spent_after(spent, calls@.len()),
{
    proof {
        accounting::every_call_is_booked_once(log.deep_view().events, turn, calls.deep_view(), manifest.deep_view());
        lemma_room_left(log.deep_view().events, turn, calls.deep_view(), manifest.deep_view());
    }
    let spent: u32 = record_model_calls(log, turn, calls, manifest, spent);
    if let Some(summary) = summary {
        log.append(turn, at, EventKind::Summarized { summary });
    }
    spent
}

proof fn lemma_room_left(events: Seq<EventV>, turn: u32, calls: Seq<BookedCallV>, manifest: ManifestV)
    requires
        accounting::room(events, calls.len() + 1int),
    ensures
        accounting::room(accounting::booked(events, turn, calls, manifest), 1),
        events::next_id(accounting::booked(events, turn, calls, manifest)) <= events::next_id(events) + calls.len(),
    decreases calls.len(),
{
    if calls.len() > 0 {
        lemma_room_left(events, turn, calls.drop_last(), manifest);
        accounting::every_call_is_booked_once(events, turn, calls.drop_last(), manifest);
    }
}

// ---------------------------------------------------------------------------
// Laws
// ---------------------------------------------------------------------------

/// A request for a summary is booked whether or not it bought one, and what was
/// in the log stays as it was.
pub proof fn a_summary_that_failed_is_still_paid_for(
    events: Seq<EventV>,
    turn: u32,
    at: Timestamp,
    calls: Seq<BookedCallV>,
    manifest: ManifestV,
    summary: Option<SessionSummaryV>,
    i: int,
)
    requires
        0 <= i < calls.len(),
    ensures
        events.is_prefix_of(summarized(events, turn, at, calls, manifest, summary)),
        summarized(events, turn, at, calls, manifest, summary)[events.len() + i].kind == (EventKindV::ModelCall {
            usage: calls[i].usage,
            manifest,
        }),
{
    accounting::every_call_is_booked_once(events, turn, calls, manifest);
    let paid = accounting::booked(events, turn, calls, manifest);
    assert(paid[events.len() + i].kind == (EventKindV::ModelCall { usage: calls[i].usage, manifest }));
}

/// No turn falls between the summary and the window: whatever the last summary
/// does not cover is written into the next one, or is still in sight.
pub proof fn a_summary_leaves_no_turn_out(s: SessionStateV, cfg: EngineConfigV, i: int)
    requires
        plan_of(s, cfg) is Some,
        0 <= i < s.records.len(),
        s.records[i].turn > covered(s),
    ensures
        plan_of(s, cfg)->0.records.contains(s.records[i]) || s.records[i].turn + cfg.window_turns > s.turn,
        plan_of(s, cfg)->0.through > covered(s),
{
    let p = plan_of(s, cfg)->0;
    let from = if p.rebuild { 1u32 } else { (covered(s) + 1) as u32 };
    if s.records[i].turn <= p.through {
        let keep = |r: TurnRecordV| from <= r.turn && r.turn <= p.through;
        s.records.lemma_filter_contains(keep, i);
    }
}

/// A summary is never more trusted than any record that it was written from, nor
/// than the summary that it goes on from: it cannot launder what a tool returned,
/// however many summaries ago.
pub proof fn a_summary_is_no_more_trusted_than_its_sources(
    draft: SummaryDraftV,
    through: u32,
    previous: Option<SessionSummaryV>,
    records: Seq<TurnRecordV>,
)
    ensures
        forall|i: int|
            0 <= i < records.len() ==> summary_from(draft, through, previous, records).trust.rank() <= (
            #[trigger] records[i]).trust.rank(),
        previous matches Some(p) ==> summary_from(draft, through, previous, records).trust.rank() <= p.trust.rank(),
{
    let all = sources_trusts(previous, records);
    types::lemma_lowest(all);
    assert forall|i: int|
        0 <= i < records.len() implies summary_from(draft, through, previous, records).trust.rank() <= (
    #[trigger] records[i]).trust.rank() by {
        assert(all[i] == records[i].trust);
    }
    if let Some(p) = previous {
        assert(all[records.len() as int] == p.trust);
    }
}

/// No more facts are shown than the limit allows, and no more of them are there
/// for relevance alone than that limit allows.
pub proof fn a_selection_keeps_its_limits(live: Seq<FactV>, relevant: Seq<FactV>, cfg: EngineConfigV)
    ensures
        selected(live, relevant, cfg).len() <= cfg.facts_in_context,
        unpinned(selected(live, relevant, cfg), cfg.pinned_prefixes) <= cfg.relevant_max,
{
    let rows = pinned_rows(live, cfg.pinned_prefixes);
    let keep = |f: FactV| f.state == FactState::Current && pinned_key(cfg.pinned_prefixes, f.key);
    let keys = keys_by_validation(rows);
    let core = pinned_core(live, cfg.pinned_prefixes, cfg.pinned_max as nat);
    ranking::ranking_is_a_stable_order(keys, true);
    assert forall|i: int| 0 <= i < core.len() implies pinned_key(cfg.pinned_prefixes, (#[trigger] core[i]).key) by {
        let ord = ranking::order(keys, true);
        assert(core[i] == rows[ord[i]]);
        live.lemma_filter_pred(keep, ord[i]);
    }
    lemma_all_pinned(core, cfg.pinned_prefixes);
    lemma_merged_limit(core, relevant, cfg);
    let all = merged(core, relevant, cfg);
    if all.len() > cfg.facts_in_context {
        lemma_unpinned_prefix(all, cfg.pinned_prefixes, cfg.facts_in_context as int);
    }
}

proof fn lemma_all_pinned(facts: Seq<FactV>, prefixes: Seq<Seq<char>>)
    requires
        forall|i: int| 0 <= i < facts.len() ==> pinned_key(prefixes, (#[trigger] facts[i]).key),
    ensures
        unpinned(facts, prefixes) == 0,
    decreases facts.len(),
{
    if facts.len() > 0 {
        let rest = facts.drop_last();
        assert forall|i: int| 0 <= i < rest.len() implies pinned_key(prefixes, (#[trigger] rest[i]).key) by {
            assert(rest[i] == facts[i]);
        }
        lemma_all_pinned(rest, prefixes);
        assert(facts[facts.len() - 1] == facts.last());
    }
}

proof fn lemma_unpinned_prefix(facts: Seq<FactV>, prefixes: Seq<Seq<char>>, n: int)
    requires
        0 <= n <= facts.len(),
    ensures
        unpinned(facts.take(n), prefixes) <= unpinned(facts, prefixes),
    decreases facts.len(),
{
    if n < facts.len() {
        lemma_unpinned_prefix(facts.drop_last(), prefixes, n);
        assert(facts.drop_last().take(n) =~= facts.take(n));
    } else {
        assert(facts.take(n) =~= facts);
    }
}

proof fn lemma_merged_limit(chosen: Seq<FactV>, relevant: Seq<FactV>, cfg: EngineConfigV)
    requires
        unpinned(chosen, cfg.pinned_prefixes) <= cfg.relevant_max,
    ensures
        unpinned(merged(chosen, relevant, cfg), cfg.pinned_prefixes) <= cfg.relevant_max,
    decreases relevant.len(),
{
    if relevant.len() > 0 && chosen.len() < cfg.facts_in_context && unpinned(chosen, cfg.pinned_prefixes)
        < cfg.relevant_max {
        if has_key(chosen, relevant[0].key) {
            lemma_merged_limit(chosen, relevant.drop_first(), cfg);
        } else {
            let more = chosen.push(relevant[0]);
            assert(more.drop_last() =~= chosen);
            lemma_merged_limit(more, relevant.drop_first(), cfg);
        }
    }
}

/// A pinned fact never loses its place to a relevant one, while the core fits.
pub proof fn the_pinned_core_comes_first(live: Seq<FactV>, relevant: Seq<FactV>, cfg: EngineConfigV)
    ensures
        ({
            let core = pinned_core(live, cfg.pinned_prefixes, cfg.pinned_max as nat);
            core.len() <= cfg.facts_in_context ==> core.is_prefix_of(selected(live, relevant, cfg))
        }),
{
    let core = pinned_core(live, cfg.pinned_prefixes, cfg.pinned_max as nat);
    lemma_merged_extends(core, relevant, cfg);
}

proof fn lemma_merged_extends(chosen: Seq<FactV>, relevant: Seq<FactV>, cfg: EngineConfigV)
    ensures
        chosen.is_prefix_of(merged(chosen, relevant, cfg)),
    decreases relevant.len(),
{
    if relevant.len() > 0 && chosen.len() < cfg.facts_in_context && unpinned(chosen, cfg.pinned_prefixes)
        < cfg.relevant_max {
        if has_key(chosen, relevant[0].key) {
            lemma_merged_extends(chosen, relevant.drop_first(), cfg);
        } else {
            let more = chosen.push(relevant[0]);
            lemma_merged_extends(more, relevant.drop_first(), cfg);
            let all = merged(more, relevant.drop_first(), cfg);
            assert(chosen =~= all.take(chosen.len() as int)) by {
                assert(more =~= all.take(more.len() as int));
                assert forall|i: int| 0 <= i < chosen.len() implies chosen[i] == all[i] by {
                    assert(more[i] == chosen[i]);
                }
            }
        }
    }
}

/// No fact is shown twice under one key.
pub proof fn keys_are_shown_once(chosen: Seq<FactV>, relevant: Seq<FactV>, cfg: EngineConfigV)
    requires
        forall|i: int, j: int| 0 <= i < j < chosen.len() ==> (#[trigger] chosen[i]).key != (#[trigger] chosen[j]).key,
    ensures
        forall|i: int, j: int|
            0 <= i < j < merged(chosen, relevant, cfg).len() ==> (#[trigger] merged(chosen, relevant, cfg)[i]).key
                != (#[trigger] merged(chosen, relevant, cfg)[j]).key,
    decreases relevant.len(),
{
    if relevant.len() > 0 && chosen.len() < cfg.facts_in_context && unpinned(chosen, cfg.pinned_prefixes)
        < cfg.relevant_max {
        if has_key(chosen, relevant[0].key) {
            keys_are_shown_once(chosen, relevant.drop_first(), cfg);
        } else {
            let more = chosen.push(relevant[0]);
            assert forall|i: int, j: int| 0 <= i < j < more.len() implies (#[trigger] more[i]).key
                != (#[trigger] more[j]).key by {
                if j == chosen.len() {
                    assert(chosen[i].key != relevant[0].key);
                }
            }
            keys_are_shown_once(more, relevant.drop_first(), cfg);
        }
    }
}

// ---------------------------------------------------------------------------
// What is shown and what is summed up, by where it stands
// ---------------------------------------------------------------------------

/// The fact is one that is always shown: it holds now, and its key begins with a prefix.
pub open spec fn always_shown(f: FactV, prefixes: Seq<Seq<char>>) -> bool {
    f.state == FactState::Current && exists|i: int|
        0 <= i < prefixes.len() && text::starts(f.key, #[trigger] prefixes[i])
}

/// The pinned core holds only facts of the scope that are always shown, no more of them than
/// the limit, the last validated first; one that is left out gives way to a full core of
/// facts that are validated no earlier.
pub proof fn the_pinned_core_is_the_last_validated(live: Seq<FactV>, prefixes: Seq<Seq<char>>, max: nat)
    ensures
        ({
            let core = pinned_core(live, prefixes, max);
            &&& core.len() <= max
            &&& forall|i: int| 0 <= i < core.len() ==> live.contains(#[trigger] core[i]) && always_shown(core[i], prefixes)
            &&& forall|i: int, j: int|
                0 <= i < j < core.len() ==> (#[trigger] core[i]).last_validated.0 >= (#[trigger] core[j]).last_validated.0
            &&& forall|k: int|
                0 <= k < live.len() && always_shown(#[trigger] live[k], prefixes) && !core.contains(live[k]) ==> core.len()
                    == max && forall|i: int|
                    0 <= i < core.len() ==> (#[trigger] core[i]).last_validated.0 >= live[k].last_validated.0
        }),
{
    let core = pinned_core(live, prefixes, max);
    let keep = |f: FactV| f.state == FactState::Current && pinned_key(prefixes, f.key);
    let rows = pinned_rows(live, prefixes);
    let keys = keys_by_validation(rows);
    let ord = ranking::order(keys, true);
    let full = store::picked(rows, ord);
    ranking::ranking_is_a_stable_order(keys, true);
    assert forall|i: int| 0 <= i < core.len() implies live.contains(#[trigger] core[i]) && always_shown(core[i], prefixes) by {
        assert(core[i] == rows[ord[i]]);
        live.lemma_filter_pred(keep, ord[i]);
        assert(live.filter(keep).contains(rows[ord[i]]));
        live.lemma_filter_contains_rev(keep, rows[ord[i]]);
        assert(pinned_key(prefixes, core[i].key));
    }
    assert forall|i: int, j: int| 0 <= i < j < full.len() implies (#[trigger] full[i]).last_validated.0
        >= (#[trigger] full[j]).last_validated.0 by {
        ranking::the_greatest_come_first(keys, true, i, j);
    }
    assert forall|k: int|
        0 <= k < live.len() && always_shown(#[trigger] live[k], prefixes) && !core.contains(live[k]) implies core.len()
        == max && forall|i: int| 0 <= i < core.len() ==> (#[trigger] core[i]).last_validated.0 >= live[k].last_validated.0 by {
        assert(pinned_key(prefixes, live[k].key));
        live.lemma_filter_contains(keep, k);
        let r = choose|r: int| 0 <= r < rows.len() && rows[r] == live[k];
        lemma_ranked(ord, rows.len(), r);
        let at = choose|at: int| 0 <= at < ord.len() && ord[at] == r;
        assert(full[at] == live[k]);
        if at < core.len() {
            assert(core[at] == live[k]);
        }
        assert forall|i: int| 0 <= i < core.len() implies (#[trigger] core[i]).last_validated.0
            >= live[k].last_validated.0 by {
            assert(core[i] == full[i]);
            assert(full[i].last_validated.0 >= full[at].last_validated.0);
        }
    }
}

/// A list without repetition of positions below its length holds each of them.
proof fn lemma_ranked(ord: Seq<int>, n: nat, r: int)
    requires
        ord.len() == n,
        ord.no_duplicates(),
        forall|i: int| 0 <= i < n ==> 0 <= #[trigger] ord[i] < n,
        0 <= r < n,
    ensures
        ord.contains(r),
{
    let all = vstd::set_lib::set_int_range(0, n as int);
    vstd::set_lib::lemma_int_range(0, n as int);
    ord.unique_seq_to_set();
    assert(ord.to_set().subset_of(all)) by {
        assert forall|x: int| ord.to_set().contains(x) implies all.contains(x) by {
            let i = choose|i: int| 0 <= i < ord.len() && ord[i] == x;
            assert(0 <= ord[i] < n);
        }
    }
    vstd::set_lib::lemma_subset_equality(ord.to_set(), all);
    assert(ord.to_set().contains(r));
}

/// The relevant facts follow in the order they were found in, each key once; where no
/// limit is met, every key that was found is shown; and nothing else is.
pub proof fn what_is_relevant_follows(chosen: Seq<FactV>, relevant: Seq<FactV>, cfg: EngineConfigV)
    ensures
        ({
            let all = merged(chosen, relevant, cfg);
            &&& chosen.is_prefix_of(all)
            &&& forall|i: int| chosen.len() <= i < all.len() ==> relevant.contains(#[trigger] all[i])
            &&& all.len() < cfg.facts_in_context && unpinned(all, cfg.pinned_prefixes) < cfg.relevant_max ==> forall|k: int|
                0 <= k < relevant.len() ==> has_key(all, (#[trigger] relevant[k]).key)
        }),
    decreases relevant.len(),
{
    lemma_merged_extends(chosen, relevant, cfg);
    let all = merged(chosen, relevant, cfg);
    if relevant.len() > 0 && chosen.len() < cfg.facts_in_context && unpinned(chosen, cfg.pinned_prefixes)
        < cfg.relevant_max {
        let rest = relevant.drop_first();
        let more = if has_key(chosen, relevant[0].key) {
            chosen
        } else {
            chosen.push(relevant[0])
        };
        what_is_relevant_follows(more, rest, cfg);
        assert(more =~= all.take(more.len() as int));
        assert(relevant[0] == relevant.first());
        assert forall|i: int| chosen.len() <= i < all.len() implies relevant.contains(#[trigger] all[i]) by {
            if i < more.len() {
                assert(all[i] == more[i]);
                assert(relevant[0] == all[i]);
            } else {
                let k = choose|k: int| 0 <= k < rest.len() && rest[k] == all[i];
                assert(relevant[k + 1] == all[i]);
            }
        }
        if all.len() < cfg.facts_in_context && unpinned(all, cfg.pinned_prefixes) < cfg.relevant_max {
            assert forall|k: int| 0 <= k < relevant.len() implies has_key(all, (#[trigger] relevant[k]).key) by {
                if k == 0 {
                    if has_key(chosen, relevant[0].key) {
                        let i = choose|i: int| 0 <= i < chosen.len() && (#[trigger] chosen[i]).key == relevant[0].key;
                        assert(all[i] == more[i]);
                        assert(all[i].key == relevant[0].key);
                    } else {
                        assert(all[chosen.len() as int] == more[chosen.len() as int]);
                        assert(all[chosen.len() as int].key == relevant[0].key);
                    }
                } else {
                    assert(rest[k - 1] == relevant[k]);
                }
            }
        }
    }
}

/// The relevant facts keep their order: of two that were added, the one found first stands
/// first.
pub proof fn relevance_keeps_its_order(chosen: Seq<FactV>, a: FactV, rest: Seq<FactV>, cfg: EngineConfigV)
    requires
        chosen.len() < cfg.facts_in_context,
        unpinned(chosen, cfg.pinned_prefixes) < cfg.relevant_max,
        !has_key(chosen, a.key),
    ensures
        merged(chosen, seq![a] + rest, cfg) == merged(chosen.push(a), rest, cfg),
        merged(chosen, seq![a] + rest, cfg)[chosen.len() as int] == a,
{
    let relevant = seq![a] + rest;
    assert(relevant.drop_first() =~= rest);
    lemma_merged_extends(chosen.push(a), rest, cfg);
    let all = merged(chosen.push(a), rest, cfg);
    assert(chosen.push(a) =~= all.take(chosen.len() + 1int));
    assert(chosen.push(a)[chosen.len() as int] == all[chosen.len() as int]);
}

/// What a turn shows is cut from behind, at the limit.
pub proof fn what_is_shown_is_cut_from_behind(live: Seq<FactV>, relevant: Seq<FactV>, cfg: EngineConfigV)
    ensures
        ({
            let all = merged(pinned_core(live, cfg.pinned_prefixes, cfg.pinned_max as nat), relevant, cfg);
            let shown = selected(live, relevant, cfg);
            &&& shown.is_prefix_of(all)
            &&& shown.len() == if all.len() < cfg.facts_in_context {
                all.len() as int
            } else {
                cfg.facts_in_context as int
            }
        }),
{
}

/// The first version that was replaced, by another value than the one that holds, is at `k`.
pub open spec fn replaced_at(history: Seq<FactV>, value: Seq<char>, k: int) -> bool {
    &&& 0 <= k < history.len()
    &&& history[k].state == FactState::Superseded && history[k].value != value
    &&& forall|j: int| 0 <= j < k ==> !((#[trigger] history[j]).state == FactState::Superseded && history[j].value != value)
}

proof fn lemma_replaced(history: Seq<FactV>, value: Seq<char>, k: int)
    ensures
        replaced_at(history, value, k) ==> replaced_by(history, value) == (match history[k].valid_to {
            Some(t) => Some(PreviousV { value: history[k].value, until: t }),
            None => None,
        }),
        (forall|j: int| !(#[trigger] replaced_at(history, value, j))) ==> replaced_by(history, value) is None,
    decreases history.len(),
{
    if history.len() > 0 {
        let rest = history.drop_first();
        let here = history[0].state == FactState::Superseded && history[0].value != value;
        if here {
            assert(replaced_at(history, value, 0));
            if replaced_at(history, value, k) && k > 0 {
                assert(!(history[0].state == FactState::Superseded && history[0].value != value));
            }
        } else {
            lemma_replaced(rest, value, k - 1);
            assert forall|j: int| #[trigger] replaced_at(rest, value, j) implies replaced_at(history, value, j + 1) by {
                assert(history[j + 1] == rest[j]);
                assert forall|i: int| 0 <= i < j + 1 implies !((#[trigger] history[i]).state == FactState::Superseded
                    && history[i].value != value) by {
                    if i > 0 {
                        assert(rest[i - 1] == history[i]);
                    }
                }
            }
            if replaced_at(history, value, k) {
                assert(k > 0);
                assert(rest[k - 1] == history[k]);
                assert forall|i: int| 0 <= i < k - 1 implies !((#[trigger] rest[i]).state == FactState::Superseded
                    && rest[i].value != value) by {
                    assert(history[i + 1] == rest[i]);
                }
                assert(replaced_at(rest, value, k - 1));
            }
            if forall|j: int| !(#[trigger] replaced_at(history, value, j)) {
                assert forall|j: int| !(#[trigger] replaced_at(rest, value, j)) by {
                    if replaced_at(rest, value, j) {
                        assert(replaced_at(history, value, j + 1));
                    }
                }
            }
        }
    }
}

/// A pinned fact is shown with the value that it replaced last and until when that held; any
/// other is shown alone.
pub proof fn a_pinned_fact_shows_what_it_replaced(prefixes: Seq<Seq<char>>, f: FactV, history: Seq<FactV>, k: int)
    ensures
        ({
            let v = fact_view(prefixes, f, history);
            let pinned = exists|i: int| 0 <= i < prefixes.len() && text::starts(f.key, #[trigger] prefixes[i]);
            &&& v.fact == f
            &&& !pinned ==> v.previous is None
            &&& pinned && replaced_at(history, f.value, k) && history[k].valid_to is Some ==> v.previous == Some(
                PreviousV { value: history[k].value, until: history[k].valid_to->0 },
            )
            &&& pinned && (forall|j: int| !(#[trigger] replaced_at(history, f.value, j))) ==> v.previous is None
        }),
{
    lemma_replaced(history, f.value, k);
    assert(pinned_key(prefixes, f.key) <==> exists|i: int| 0 <= i < prefixes.len() && text::starts(f.key, #[trigger] prefixes[i]));
}

/// A use is counted, with when it was, and changes nothing else.
pub proof fn a_use_is_counted(f: FactV, at: Timestamp)
    requires
        f.uses < u32::MAX,
    ensures
        used(f, at).uses == f.uses + 1,
        used(f, at).last_used == at,
        used(f, at) == (FactV { uses: used(f, at).uses, last_used: at, ..f }),
{
}

/// A summary is due once as many turns as set have left the window since the last one. It
/// goes up to the last of those, on from the last summary; every so many summaries it is
/// written anew, from the first turn on and from the records alone.
pub proof fn when_a_summary_is_due(s: SessionStateV, cfg: EngineConfigV)
    ensures
        ({
            let left = s.turn - cfg.window_turns;
            let done = match s.summary {
                Some(x) => x.through_turn as int,
                None => 0,
            };
            let anew = cfg.summary_rebuild_every > 0 && (s.summaries + 1) % (cfg.summary_rebuild_every as int) == 0;
            &&& plan_of(s, cfg) is Some <==> cfg.summary_every_turns > 0 && left >= 1 && left - done
                >= cfg.summary_every_turns
            &&& plan_of(s, cfg) matches Some(p) ==> {
                &&& p.through == left
                &&& p.rebuild == anew
                &&& anew ==> p.previous is None && p.records == s.records.filter(|r: TurnRecordV| 1u32 <= r.turn <= p.through)
                &&& !anew ==> p.previous == s.summary && forall|r: TurnRecordV| #[trigger]
                    p.records.contains(r) <==> s.records.contains(r) && r.turn > done && r.turn <= left
            }
        }),
{
    if let Some(p) = plan_of(s, cfg) {
        let anew = is_rebuild(s, cfg);
        if !anew {
            assert forall|r: TurnRecordV| #[trigger] p.records.contains(r) <==> s.records.contains(r) && r.turn > covered(s)
                && r.turn <= p.through by {
                state::turns_between_are_all_found(s.records, (covered(s) + 1) as u32, p.through, r);
            }
        }
    }
}

/// Records are dropped from the front while what is left is too long, but never the last.
pub proof fn records_are_cut_from_the_front(lengths: Seq<usize>, max: usize)
    requires
        lengths.len() > 0,
    ensures
        ({
            let n = dropped(lengths, 0, max);
            &&& 0 <= n < lengths.len()
            &&& forall|i: int| 0 <= i < n ==> #[trigger] lengths[i] > max
            &&& n == lengths.len() - 1 || lengths[n] <= max
        }),
{
    lemma_dropped(lengths, 0, max);
}

proof fn lemma_dropped(lengths: Seq<usize>, from: int, max: usize)
    requires
        0 <= from < lengths.len(),
    ensures
        ({
            let n = dropped(lengths, from, max);
            &&& from <= n < lengths.len()
            &&& forall|i: int| from <= i < n ==> #[trigger] lengths[i] > max
            &&& n == lengths.len() - 1 || lengths[n] <= max
        }),
    decreases lengths.len() - from,
{
    if from + 1 < lengths.len() && lengths[from] > max {
        lemma_dropped(lengths, from + 1, max);
    }
}

/// A plan that was cut keeps everything but its oldest records, and is none where nothing is
/// left.
pub proof fn a_cut_plan_keeps_its_newest_records(plan: SummaryPlanV, lengths: Seq<usize>, max: usize)
    requires
        plan.records.len() == lengths.len(),
    ensures
        plan_cut(plan, lengths, max) is None <==> plan.records.len() == 0,
        plan_cut(plan, lengths, max) matches Some(p) ==> p.through == plan.through && p.rebuild == plan.rebuild && p.previous
            == plan.previous && p.records == plan.records.skip(dropped(lengths, 0, max)) && p.records.last()
            == plan.records.last(),
{
    if plan.records.len() > 0 {
        records_are_cut_from_the_front(lengths, max);
    }
}

/// A summary says what was drafted, how far it goes and from which turn on, and is trusted
/// no further than the least trusted of its sources.
pub proof fn a_summary_says_what_was_drafted(
    draft: SummaryDraftV,
    through: u32,
    previous: Option<SessionSummaryV>,
    records: Seq<TurnRecordV>,
)
    requires
        records.len() > 0,
    ensures
        ({
            let s = summary_from(draft, through, previous, records);
            let shows = |t: Trust| (exists|i: int| 0 <= i < records.len() && (#[trigger] records[i]).trust == t) || (previous
                matches Some(p) && p.trust == t);
            &&& s.topic == draft.topic && s.established == draft.established && s.open == draft.open
            &&& s.through_turn == through && s.rebuilt_from == records[0].turn
            &&& s.trust == Trust::External <==> shows(Trust::External)
            &&& s.trust == Trust::System <==> shows(Trust::System) && !shows(Trust::External)
        }),
{
    let all = sources_trusts(previous, records);
    types::lemma_lowest(all);
    let shows = |t: Trust| (exists|i: int| 0 <= i < records.len() && (#[trigger] records[i]).trust == t) || (previous
        matches Some(p) && p.trust == t);
    assert forall|t: Trust| all.contains(t) <==> #[trigger] shows(t) by {
        if all.contains(t) {
            let i = choose|i: int| 0 <= i < all.len() && all[i] == t;
            if i < records.len() {
                assert(records[i].trust == t);
            }
        }
        if exists|i: int| 0 <= i < records.len() && (#[trigger] records[i]).trust == t {
            let i = choose|i: int| 0 <= i < records.len() && (#[trigger] records[i]).trust == t;
            assert(all[i] == t);
        }
        if let Some(p) = previous {
            if p.trust == t {
                assert(all[records.len() as int] == t);
            }
        }
    }
    assert(all.contains(Trust::External) <==> shows(Trust::External));
    assert(all.contains(Trust::System) <==> shows(Trust::System));
}

/// What the summariser was shown is recorded: the scope, the keys of the facts, how far the
/// last summary went, and the first and the last turn of the records.
pub proof fn what_a_summary_was_shown_is_recorded(
    scope: Seq<char>,
    fact_keys: Seq<Seq<char>>,
    previous: Option<SessionSummaryV>,
    records: Seq<TurnRecordV>,
)
    requires
        records.len() > 0,
    ensures
        ({
            let m = summary_manifest_of(scope, fact_keys, previous, trace::turn_range(records));
            &&& m.scope == Some(scope) && m.fact_keys == fact_keys
            &&& previous is None ==> m.summary_through is None
            &&& previous matches Some(p) ==> m.summary_through == Some(p.through_turn)
            &&& m.window == Some((records[0].turn, records[records.len() - 1].turn))
            &&& m.tool_names.len() == 0 && m.trace_lines == 0 && m.trace_chars == 0 && m.note_hashes.len() == 0
        }),
{
}

} // verus!
