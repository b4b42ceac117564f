//! The two searches that the engine runs for itself: what the store found becomes
//! a tool outcome that the loop records like any other.

use vstd::prelude::*;

use crate::events::{ToolOutcome, ToolOutcomeV, ToolOutput, ToolOutputV};
use crate::facts::{Fact, FactV, SessionDigest, SessionDigestV, TurnHit, TurnHitV};
use crate::json;
use crate::json::value_text;
use crate::store;
use crate::text;
use crate::text::{cat4, cat7, join, number, same};
use crate::turn::config::{EngineConfig, EngineConfigV};
use crate::types;
use crate::types::{min_trust, SessionId, Trust};

verus! {

/// What the store answered to a recall. Where the earlier sessions could not be
/// listed, `across` is that error; where there are none, it is empty.
#[derive(Debug)]
pub struct Findings {
    pub within: Result<Vec<TurnHit>, String>,
    pub across: Result<Vec<TurnHit>, String>,
    pub facts: Result<Vec<Fact>, String>,
    pub digests: Result<Vec<SessionDigest>, String>,
}

/// One answer of the store: the lines it gives, or the error.
pub open spec fn answer<A>(r: Result<Vec<A>, String>) -> Option<Seq<char>> {
    match r {
        Ok(_) => None,
        Err(e) => Some(e@),
    }
}

/// A line and how far it is trusted.
pub struct LineV {
    pub text: Seq<char>,
    pub trust: Trust,
}

#[derive(Debug)]
pub struct Line {
    pub text: String,
    pub trust: Trust,
}

impl DeepView for Line {
    type V = LineV;

    open spec fn deep_view(&self) -> LineV {
        LineV { text: self.text.deep_view(), trust: self.trust }
    }
}

// ---------------------------------------------------------------------------
// Lines
// ---------------------------------------------------------------------------

/// What the user said is trusted as the user, what the engine said as the
/// system.
pub open spec fn speaker_trust(speaker: Seq<char>) -> Trust {
    if speaker == "user"@ {
        Trust::User
    } else {
        Trust::System
    }
}

pub open spec fn hit_line(lead: Seq<char>, h: TurnHitV) -> LineV {
    LineV {
        text: lead + "t"@ + text::decimal(h.turn as nat) + " "@ + h.speaker + ": "@ + h.text,
        trust: speaker_trust(h.speaker),
    }
}

/// The first `k` hits that came before a turn.
pub open spec fn out_of_sight(hits: Seq<TurnHitV>, visible_from: int, k: nat) -> Seq<TurnHitV> {
    store::at_most(hits.filter(|h: TurnHitV| h.turn < visible_from), k)
}

pub open spec fn hit_lines(lead: Seq<char>, hits: Seq<TurnHitV>) -> Seq<LineV> {
    Seq::new(hits.len(), |i: int| hit_line(lead, hits[i]))
}

fn line_of_hit(lead: &str, h: &TurnHit) -> (r: Line)
    ensures
        r.deep_view() == hit_line(lead@, h.deep_view()),
{
    let turn: String = number(h.turn as u64);
    let text: String = cat7(lead, "t", turn.as_str(), " ", h.speaker.as_str(), ": ", h.text.as_str());
    let trust: Trust = if same(h.speaker.as_str(), "user") { Trust::User } else { Trust::System };
    Line { text, trust }
}

/// Add the lines of the first `k` hits that came before `visible_from`.
fn add_hits(out: &mut Vec<Line>, lead: &str, hits: &Vec<TurnHit>, visible_from: u64, k: usize)
    ensures
        final(out).deep_view() == old(out).deep_view() + hit_lines(
            lead@,
            out_of_sight(hits.deep_view(), visible_from as int, k as nat),
        ),
{
    let ghost all = hits.deep_view();
    let ghost keep = |h: TurnHitV| h.turn < visible_from;
    let ghost before = out.deep_view();
    let mut i: usize = 0;
    let mut n: usize = 0;
    proof {
        reveal(Seq::filter);
        assert(all.take(0).filter(keep) =~= seq![]);
        assert(out.deep_view() =~= before + hit_lines(lead@, seq![]));
    }
    while i < hits.len() && n < k
        invariant
            i <= hits@.len(),
            n <= k,
            all == hits.deep_view(),
            keep == (|h: TurnHitV| h.turn < visible_from),
            n == all.take(i as int).filter(keep).len(),
            out.deep_view() == before + hit_lines(lead@, all.take(i as int).filter(keep)),
        decreases hits@.len() - i,
    {
        proof {
            reveal(Seq::filter);
            assert(all.take(i + 1).drop_last() =~= all.take(i as int));
            assert(all.take(i + 1).last() == hits@[i as int].deep_view());
        }
        if (hits[i].turn as u64) < visible_from {
            let ghost was = out.deep_view();
            let one: Line = line_of_hit(lead, &hits[i]);
            out.push(one);
            proof {
                assert(out.deep_view() =~= was.push(one.deep_view()));
                assert(hit_lines(lead@, all.take(i + 1).filter(keep)) =~= hit_lines(
                    lead@,
                    all.take(i as int).filter(keep),
                ).push(one.deep_view()));
                assert(was.push(one.deep_view()) =~= before + hit_lines(lead@, all.take(i as int).filter(keep)).push(
                    one.deep_view(),
                ));
            }
            n = n + 1;
        }
        i = i + 1;
    }
    proof {
        lemma_filter_cut(all, keep, i as int);
        if i == hits@.len() {
            assert(all.take(i as int) =~= all);
        }
        assert(all.take(i as int).filter(keep) =~= store::at_most(all.filter(keep), k as nat));
    }
}

/// What a filter keeps of a front is the front of what it keeps.
proof fn lemma_filter_cut<A>(s: Seq<A>, keep: spec_fn(A) -> bool, n: int)
    requires
        0 <= n <= s.len(),
    ensures
        s.take(n).filter(keep).is_prefix_of(s.filter(keep)),
    decreases s.len(),
{
    reveal(Seq::filter);
    if n < s.len() {
        lemma_filter_cut(s.drop_last(), keep, n);
        assert(s.drop_last().take(n) =~= s.take(n));
        let part = s.take(n).filter(keep);
        let rest = s.drop_last().filter(keep);
        assert(part =~= rest.take(part.len() as int));
        assert(part =~= s.filter(keep).take(part.len() as int));
    } else {
        assert(s.take(n) =~= s);
    }
}

pub open spec fn fact_line(f: FactV) -> LineV {
    LineV { text: "from memory, "@ + f.key + " is "@ + json::prose(f.value), trust: f.trust }
}

pub open spec fn fact_lines(facts: Seq<FactV>) -> Seq<LineV> {
    Seq::new(facts.len(), |i: int| fact_line(facts[i]))
}

fn add_facts(out: &mut Vec<Line>, facts: &Vec<Fact>)
    ensures
        final(out).deep_view() == old(out).deep_view() + fact_lines(facts.deep_view()),
{
    let ghost all = facts.deep_view();
    let ghost before = out.deep_view();
    let mut i: usize = 0;
    proof {
        assert(out.deep_view() =~= before + fact_lines(all.take(0)));
    }
    while i < facts.len()
        invariant
            i <= facts@.len(),
            all == facts.deep_view(),
            out.deep_view() == before + fact_lines(all.take(i as int)),
        decreases facts@.len() - i,
    {
        let value: String = value_text(&facts[i].value);
        let one: Line = Line {
            text: cat4("from memory, ", facts[i].key.as_str(), " is ", value.as_str()),
            trust: facts[i].trust,
        };
        let ghost was = out.deep_view();
        out.push(one);
        proof {
            assert(out.deep_view() =~= was.push(one.deep_view()));
            assert(fact_lines(all.take(i + 1)) =~= fact_lines(all.take(i as int)).push(one.deep_view()));
            assert(was.push(one.deep_view()) =~= before + fact_lines(all.take(i as int)).push(one.deep_view()));
        }
        i = i + 1;
    }
    proof {
        assert(all.take(all.len() as int) =~= all);
    }
}

pub open spec fn digest_line(lead: Seq<char>, d: SessionDigestV) -> LineV {
    LineV {
        text: lead + " (through t"@ + text::decimal(d.last_turn as nat) + ") was about: "@ + d.summary.topic,
        trust: d.summary.trust,
    }
}

/// The digests of other sessions.
pub open spec fn others(digests: Seq<SessionDigestV>, session: Seq<char>) -> Seq<SessionDigestV> {
    digests.filter(|d: SessionDigestV| d.session != session)
}

pub open spec fn digest_lines(lead: Seq<char>, digests: Seq<SessionDigestV>) -> Seq<LineV> {
    Seq::new(digests.len(), |i: int| digest_line(lead, digests[i]))
}

/// Add the lines of the first `k` digests of other sessions.
fn add_digests(out: &mut Vec<Line>, lead: &str, digests: &Vec<SessionDigest>, session: &SessionId, k: usize)
    ensures
        final(out).deep_view() == old(out).deep_view() + digest_lines(
            lead@,
            store::at_most(others(digests.deep_view(), session.deep_view()), k as nat),
        ),
{
    let ghost all = digests.deep_view();
    let ghost sv = session.deep_view();
    let ghost keep = |d: SessionDigestV| d.session != sv;
    let ghost before = out.deep_view();
    let mut i: usize = 0;
    let mut n: usize = 0;
    proof {
        reveal(Seq::filter);
        assert(all.take(0).filter(keep) =~= seq![]);
        assert(out.deep_view() =~= before + digest_lines(lead@, seq![]));
    }
    while i < digests.len() && n < k
        invariant
            i <= digests@.len(),
            n <= k,
            all == digests.deep_view(),
            sv == session.deep_view(),
            keep == (|d: SessionDigestV| d.session != sv),
            n == all.take(i as int).filter(keep).len(),
            out.deep_view() == before + digest_lines(lead@, all.take(i as int).filter(keep)),
        decreases digests@.len() - i,
    {
        proof {
            reveal(Seq::filter);
            assert(all.take(i + 1).drop_last() =~= all.take(i as int));
            assert(all.take(i + 1).last() == digests@[i as int].deep_view());
        }
        if !same(digests[i].session.0.as_str(), session.0.as_str()) {
            let ghost was = out.deep_view();
            let turn: String = number(digests[i].last_turn as u64);
            let text: String = crate::text::cat5(
                lead,
                " (through t",
                turn.as_str(),
                ") was about: ",
                digests[i].summary.topic.as_str(),
            );
            let one: Line = Line { text, trust: digests[i].summary.trust };
            out.push(one);
            proof {
                assert(out.deep_view() =~= was.push(one.deep_view()));
                assert(digest_lines(lead@, all.take(i + 1).filter(keep)) =~= digest_lines(
                    lead@,
                    all.take(i as int).filter(keep),
                ).push(one.deep_view()));
                assert(was.push(one.deep_view()) =~= before + digest_lines(
                    lead@,
                    all.take(i as int).filter(keep),
                ).push(one.deep_view()));
            }
            n = n + 1;
        }
        i = i + 1;
    }
    proof {
        lemma_filter_cut(all, keep, i as int);
        if i == digests@.len() {
            assert(all.take(i as int) =~= all);
        }
        assert(all.take(i as int).filter(keep) =~= store::at_most(all.filter(keep), k as nat));
    }
}

// ---------------------------------------------------------------------------
// Outcomes
// ---------------------------------------------------------------------------

pub open spec fn texts_of(lines: Seq<LineV>) -> Seq<Seq<char>> {
    Seq::new(lines.len(), |i: int| lines[i].text)
}

pub open spec fn trusts_of(lines: Seq<LineV>) -> Seq<Trust> {
    Seq::new(lines.len(), |i: int| lines[i].trust)
}

/// Lines as one tool outcome, on one line, trusted as little as the least
/// trusted of them; `nothing` where there is none.
pub open spec fn outcome_from(lines: Seq<LineV>, nothing: Seq<char>) -> ToolOutcomeV {
    if lines.len() == 0 {
        ToolOutcomeV::Done { output: ToolOutputV { summary: nothing, artifact: None, trust: Trust::System } }
    } else {
        ToolOutcomeV::Done {
            output: ToolOutputV {
                summary: text::joined(texts_of(lines), "; "@),
                artifact: None,
                trust: types::lowest(trusts_of(lines)),
            },
        }
    }
}

pub open spec fn store_failure(detail: Seq<char>) -> ToolOutcomeV {
    ToolOutcomeV::Failed { kind: "store"@, detail }
}

fn outcome_of_lines(lines: &Vec<Line>, nothing: &str) -> (r: ToolOutcome)
    ensures
        r.deep_view() == outcome_from(lines.deep_view(), nothing@),
{
    if lines.len() == 0 {
        return ToolOutcome::Done {
            output: ToolOutput { summary: nothing.to_owned(), artifact: None, trust: Trust::System },
        };
    }
    let ghost all = lines.deep_view();
    let mut texts: Vec<String> = Vec::new();
    let mut trusts: Vec<Trust> = Vec::new();
    let mut i: usize = 0;
    while i < lines.len()
        invariant
            i <= lines@.len(),
            all == lines.deep_view(),
            texts@.len() == i,
            trusts@.len() == i,
            forall|k: int| 0 <= k < i ==> (#[trigger] texts@[k])@ == texts_of(all)[k],
            forall|k: int| 0 <= k < i ==> #[trigger] trusts@[k] == trusts_of(all)[k],
        decreases lines@.len() - i,
    {
        assert(all[i as int] == lines@[i as int].deep_view());
        texts.push(lines[i].text.clone());
        trusts.push(lines[i].trust);
        i = i + 1;
    }
    proof {
        assert(texts.deep_view() =~= texts_of(all));
        assert(trusts@ =~= trusts_of(all));
    }
    ToolOutcome::Done {
        output: ToolOutput { summary: join(&texts, "; "), artifact: None, trust: min_trust(&trusts) },
    }
}

/// The turns before this one are in sight.
pub open spec fn visible_from(turn: u32, window_turns: usize) -> int {
    if turn >= window_turns {
        turn - window_turns
    } else {
        0
    }
}

/// What a recall is made from: the words that stood in this session out of
/// sight, those of earlier sessions, the facts, and what earlier conversations
/// were about.
pub open spec fn recalled_lines(
    f: Findings,
    session: Seq<char>,
    turn: u32,
    window_turns: usize,
    k: nat,
    sessions: bool,
) -> Seq<LineV> {
    let within = match f.within {
        Ok(hits) => hit_lines(""@, out_of_sight(hits.deep_view(), visible_from(turn, window_turns), k)),
        Err(_) => seq![],
    };
    let across = match f.across {
        Ok(hits) => if sessions {
            hit_lines(
                "in an earlier conversation, "@,
                out_of_sight(hits.deep_view(), u32::MAX + 1, k),
            )
        } else {
            seq![]
        },
        Err(_) => seq![],
    };
    let facts = match f.facts {
        Ok(facts) => fact_lines(facts.deep_view()),
        Err(_) => seq![],
    };
    let digests = match f.digests {
        Ok(ds) => if sessions {
            digest_lines("an earlier conversation"@, others(ds.deep_view(), session))
        } else {
            seq![]
        },
        Err(_) => seq![],
    };
    within + across + facts + digests
}

/// The last failure, in the order in which the store was asked. Earlier sessions
/// count only where recall looks into them.
pub open spec fn last_failure(f: Findings, sessions: bool) -> Option<Seq<char>> {
    if sessions && f.digests is Err {
        answer(f.digests)
    } else if f.facts is Err {
        answer(f.facts)
    } else if sessions && f.across is Err {
        answer(f.across)
    } else {
        answer(f.within)
    }
}

/// What a recall returns: one failed search makes it a failure, and no lines are
/// an answer too.
pub open spec fn recalled(
    f: Findings,
    session: Seq<char>,
    turn: u32,
    window_turns: usize,
    k: nat,
    sessions: bool,
) -> ToolOutcomeV {
    match last_failure(f, sessions) {
        Some(detail) => store_failure(detail),
        None => outcome_from(recalled_lines(f, session, turn, window_turns, k, sessions), "no matches"@),
    }
}

/// Whether a search may look at meaning too: never on a chat turn.
pub fn searches_hybrid(recall_hybrid: bool, tier: types::Tier) -> (r: bool)
    ensures
        r == (recall_hybrid && tier != types::Tier::Chat),
{
    recall_hybrid && !tier.is_chat()
}

/// Which searches a recall makes and how much each is asked for. More hits are
/// asked for within the session than are shown, because those in sight are left out.
#[derive(Debug)]
pub struct RecallPlan {
    /// Whether the searches look at meaning too.
    pub hybrid: bool,
    /// Hits within the session.
    pub within: usize,
    /// Digests to list for the earlier sessions, where those are searched.
    pub listed: Option<usize>,
    /// Hits across the earlier sessions, facts, and digests.
    pub each: usize,
}

pub open spec fn planned(cfg: EngineConfigV, tier: types::Tier) -> RecallPlan {
    RecallPlan {
        hybrid: cfg.recall_hybrid && tier != types::Tier::Chat,
        within: (cfg.recall_top_k * 3) as usize,
        listed: if cfg.recall_sessions > 0 {
            Some((cfg.recall_sessions + 1) as usize)
        } else {
            None
        },
        each: cfg.recall_top_k,
    }
}

/// Plan the searches of a recall.
pub fn plan_recall(cfg: &EngineConfig, tier: types::Tier) -> (r: RecallPlan)
    requires
        cfg.recall_top_k * 3 <= usize::MAX,
        cfg.recall_sessions < usize::MAX,
    ensures
        r == planned(cfg.deep_view(), tier),
{
    RecallPlan {
        hybrid: searches_hybrid(cfg.recall_hybrid, tier),
        within: cfg.recall_top_k * 3,
        listed: if cfg.recall_sessions > 0 {
            Some(cfg.recall_sessions + 1)
        } else {
            None
        },
        each: cfg.recall_top_k,
    }
}

/// The earlier sessions that a recall looks into: those with a digest, without
/// this one.
pub open spec fn earlier(digests: Seq<SessionDigestV>, session: Seq<char>, max: nat) -> Seq<Seq<char>> {
    let ds = store::at_most(others(digests, session), max);
    Seq::new(ds.len(), |i: int| ds[i].session)
}

pub fn earlier_sessions(digests: &Vec<SessionDigest>, session: &SessionId, max: usize) -> (r: Vec<SessionId>)
    ensures
        r.deep_view() == earlier(digests.deep_view(), session.deep_view(), max as nat),
{
    let ghost all = digests.deep_view();
    let ghost sv = session.deep_view();
    let ghost keep = |d: SessionDigestV| d.session != sv;
    let mut out: Vec<SessionId> = Vec::new();
    let mut i: usize = 0;
    proof {
        reveal(Seq::filter);
        assert(all.take(0).filter(keep) =~= seq![]);
    }
    while i < digests.len() && out.len() < max
        invariant
            i <= digests@.len(),
            out@.len() <= max,
            all == digests.deep_view(),
            sv == session.deep_view(),
            keep == (|d: SessionDigestV| d.session != sv),
            out@.len() == all.take(i as int).filter(keep).len(),
            forall|k: int|
                0 <= k < out@.len() ==> (#[trigger] out@[k]).deep_view() == all.take(i as int).filter(keep)[k].session,
        decreases digests@.len() - i,
    {
        proof {
            reveal(Seq::filter);
            assert(all.take(i + 1).drop_last() =~= all.take(i as int));
            assert(all.take(i + 1).last() == digests@[i as int].deep_view());
        }
        if !same(digests[i].session.0.as_str(), session.0.as_str()) {
            out.push(digests[i].session.clone());
        }
        i = i + 1;
    }
    proof {
        lemma_filter_cut(all, keep, i as int);
        if i == digests@.len() {
            assert(all.take(i as int) =~= all);
        }
        assert(all.take(i as int).filter(keep) =~= store::at_most(all.filter(keep), max as nat));
        assert(out.deep_view() =~= earlier(all, sv, max as nat));
    }
    out
}

/// The earlier sessions to search; none where the search would have nothing to look
/// into.
pub fn sessions_to_search(digests: &Vec<SessionDigest>, session: &SessionId, max: usize) -> (r: Option<Vec<SessionId>>)
    ensures
        match r {
            Some(list) => list.deep_view() == earlier(digests.deep_view(), session.deep_view(), max as nat)
                && list@.len() > 0,
            None => earlier(digests.deep_view(), session.deep_view(), max as nat).len() == 0,
        },
{
    let list: Vec<SessionId> = earlier_sessions(digests, session, max);
    proof {
        assert(list.deep_view().len() == list@.len());
    }
    if list.len() == 0 {
        None
    } else {
        Some(list)
    }
}

/// The recall search: verbatim turns beyond the window first, then the sessions
/// before this one, then facts, then what earlier conversations were about.
pub fn recall_outcome(
    f: &Findings,
    session: &SessionId,
    turn: u32,
    window_turns: usize,
    k: usize,
    sessions: bool,
) -> (r: ToolOutcome)
    ensures
        r.deep_view() == recalled(*f, session.deep_view(), turn, window_turns, k as nat, sessions),
{
    let mut lines: Vec<Line> = Vec::new();
    let mut failure: Option<String> = None;
    proof {
        assert(lines.deep_view() =~= seq![]);
    }
    let from: u64 = if turn as u64 >= window_turns as u64 { turn as u64 - window_turns as u64 } else { 0 };
    let ghost mut w: Seq<LineV> = seq![];
    let ghost mut a: Seq<LineV> = seq![];
    let ghost mut fl: Seq<LineV> = seq![];
    let ghost mut d: Seq<LineV> = seq![];
    match &f.within {
        Ok(hits) => {
            add_hits(&mut lines, "", hits, from, k);
            proof {
                w = hit_lines(""@, out_of_sight(hits.deep_view(), from as int, k as nat));
            }
        },
        Err(e) => {
            failure = Some(e.clone());
        },
    }
    assert(lines.deep_view() =~= w);
    if sessions {
        match &f.across {
            Ok(hits) => {
                add_hits(&mut lines, "in an earlier conversation, ", hits, 0x1_0000_0000, k);
                proof {
                    a = hit_lines(
                        "in an earlier conversation, "@,
                        out_of_sight(hits.deep_view(), u32::MAX + 1, k as nat),
                    );
                }
            },
            Err(e) => {
                failure = Some(e.clone());
            },
        }
    }
    assert(lines.deep_view() =~= w + a);
    match &f.facts {
        Ok(facts) => {
            add_facts(&mut lines, facts);
            proof {
                fl = fact_lines(facts.deep_view());
            }
        },
        Err(e) => {
            failure = Some(e.clone());
        },
    }
    assert(lines.deep_view() =~= w + a + fl);
    if sessions {
        match &f.digests {
            Ok(ds) => {
                add_digests(&mut lines, "an earlier conversation", ds, session, ds.len());
                proof {
                    ds.deep_view().lemma_filter_len(|x: SessionDigestV| x.session != session.deep_view());
                    d = digest_lines("an earlier conversation"@, others(ds.deep_view(), session.deep_view()));
                }
            },
            Err(e) => {
                failure = Some(e.clone());
            },
        }
    }
    assert(lines.deep_view() =~= w + a + fl + d);
    assert(lines.deep_view() == recalled_lines(*f, session.deep_view(), turn, window_turns, k as nat, sessions));
    assert(failure.deep_view() == last_failure(*f, sessions));
    match failure {
        Some(detail) => ToolOutcome::Failed { kind: "store".to_owned(), detail },
        None => outcome_of_lines(&lines, "no matches"),
    }
}

/// What the nearest conversations were about, as one outcome.
pub open spec fn exemplified(found: Result<Vec<SessionDigest>, String>, session: Seq<char>, max: nat) -> ToolOutcomeV {
    match found {
        Ok(ds) => outcome_from(
            digest_lines(
                "a similar earlier conversation"@,
                store::at_most(others(ds.deep_view(), session), max),
            ),
            "no similar conversations"@,
        ),
        Err(e) => store_failure(e@),
    }
}

/// The nearest earlier conversations, at most `max`, this one excluded.
pub fn exemplars_outcome(found: &Result<Vec<SessionDigest>, String>, session: &SessionId, max: usize) -> (r: ToolOutcome)
    ensures
        r.deep_view() == exemplified(*found, session.deep_view(), max as nat),
{
    match found {
        Ok(ds) => {
            let mut lines: Vec<Line> = Vec::new();
            proof {
                assert(lines.deep_view() =~= seq![]);
            }
            add_digests(&mut lines, "a similar earlier conversation", ds, session, max);
            proof {
                assert(lines.deep_view() =~= digest_lines(
                    "a similar earlier conversation"@,
                    store::at_most(others(ds.deep_view(), session.deep_view()), max as nat),
                ));
            }
            outcome_of_lines(&lines, "no similar conversations")
        },
        Err(e) => ToolOutcome::Failed { kind: "store".to_owned(), detail: e.clone() },
    }
}

// ---------------------------------------------------------------------------
// Laws
// ---------------------------------------------------------------------------

/// What a search brings back is trusted no more than any line of it.
pub proof fn findings_carry_the_lowest_trust(lines: Seq<LineV>, nothing: Seq<char>, i: int)
    requires
        0 <= i < lines.len(),
    ensures
        outcome_from(lines, nothing) matches ToolOutcomeV::Done { output } && output.trust.rank() <= lines[i].trust.rank(),
{
    types::lemma_lowest(trusts_of(lines));
    assert(trusts_of(lines)[i] == lines[i].trust);
}

/// A conversation is never an exemplar of itself, nor an earlier session of
/// itself.
pub proof fn a_session_is_not_its_own_past(digests: Seq<SessionDigestV>, session: Seq<char>, max: nat)
    ensures
        !earlier(digests, session, max).contains(session),
        forall|i: int| 0 <= i < others(digests, session).len() ==> (#[trigger] others(digests, session)[i]).session != session,
{
    let keep = |d: SessionDigestV| d.session != session;
    let rest = others(digests, session);
    assert forall|i: int| 0 <= i < rest.len() implies (#[trigger] rest[i]).session != session by {
        digests.lemma_filter_pred(keep, i);
    }
    let es = earlier(digests, session, max);
    if es.contains(session) {
        let i = choose|i: int| 0 <= i < es.len() && es[i] == session;
        assert(store::at_most(rest, max)[i] == rest[i]);
    }
}

/// A recall in sight of the whole conversation finds none of its words.
pub proof fn what_is_in_sight_is_not_recalled(hits: Seq<TurnHitV>, visible: int, k: nat, i: int)
    requires
        0 <= i < out_of_sight(hits, visible, k).len(),
    ensures
        out_of_sight(hits, visible, k)[i].turn < visible,
{
    hits.lemma_filter_pred(|h: TurnHitV| h.turn < visible, i);
}

/// Everything that a recall asks for was answered.
pub open spec fn answered(f: Findings, sessions: bool) -> bool {
    f.within is Ok && f.facts is Ok && (sessions ==> f.across is Ok && f.digests is Ok)
}

/// The outcome of a recall says the text, and is trusted no more than that.
pub open spec fn brings_back(o: ToolOutcomeV, text: Seq<char>, trust: Trust) -> bool {
    o matches ToolOutcomeV::Done { output } && text::contains(output.summary, text) && output.trust.rank() <= trust.rank()
}

proof fn lemma_brought(f: Findings, session: Seq<char>, turn: u32, window_turns: usize, k: nat, sessions: bool, i: int)
    requires
        answered(f, sessions),
        0 <= i < recalled_lines(f, session, turn, window_turns, k, sessions).len(),
    ensures
        ({
            let l = recalled_lines(f, session, turn, window_turns, k, sessions)[i];
            brings_back(recalled(f, session, turn, window_turns, k, sessions), l.text, l.trust)
        }),
{
    let lines = recalled_lines(f, session, turn, window_turns, k, sessions);
    findings_carry_the_lowest_trust(lines, "no matches"@, i);
    let t = lines[i].text;
    assert(t.subrange(0, t.len() as int) =~= t);
    assert(text::occurs_at(t, t, 0));
    assert(texts_of(lines)[i] == t);
    text::lemma_joined_contains(texts_of(lines), "; "@, i, t);
}

/// Who said it decides how far it is trusted.
pub open spec fn said_by(speaker: Seq<char>) -> Trust {
    if speaker == "user"@ {
        Trust::User
    } else {
        Trust::System
    }
}

/// Each of the first `k` hits found in earlier sessions is brought back, whatever its
/// turn, the turn that asks and the window are: what is in sight here says nothing of
/// what is in sight there.
pub proof fn what_earlier_sessions_hold_is_recalled(
    f: Findings,
    session: Seq<char>,
    turn: u32,
    window_turns: usize,
    k: nat,
    i: int,
)
    requires
        answered(f, true),
        0 <= i < f.across->Ok_0.deep_view().len(),
        i < k,
    ensures
        ({
            let h = f.across->Ok_0.deep_view()[i];
            brings_back(
                recalled(f, session, turn, window_turns, k, true),
                "in an earlier conversation, "@ + "t"@ + text::decimal(h.turn as nat) + " "@ + h.speaker + ": "@ + h.text,
                said_by(h.speaker),
            )
        }),
{
    let hits = f.across->Ok_0.deep_view();
    let all = |h: TurnHitV| h.turn < u32::MAX + 1;
    lemma_keeps_all(hits, all);
    let within = hit_lines(""@, out_of_sight(f.within->Ok_0.deep_view(), visible_from(turn, window_turns), k));
    let lines = recalled_lines(f, session, turn, window_turns, k, true);
    let at = within.len() + i;
    assert(store::at_most(hits, k)[i] == hits[i]);
    assert(lines[at] == hit_line("in an earlier conversation, "@, hits[i]));
    lemma_brought(f, session, turn, window_turns, k, true, at);
}

proof fn lemma_keeps_all<A>(s: Seq<A>, keep: spec_fn(A) -> bool)
    requires
        forall|i: int| 0 <= i < s.len() ==> keep(#[trigger] s[i]),
    ensures
        s.filter(keep) == s,
    decreases s.len(),
{
    reveal(Seq::filter);
    if s.len() > 0 {
        assert forall|i: int| 0 <= i < s.drop_last().len() implies keep(#[trigger] s.drop_last()[i]) by {
            assert(s.drop_last()[i] == s[i]);
        }
        lemma_keeps_all(s.drop_last(), keep);
        assert(keep(s[s.len() - 1]));
        assert(s.drop_last().push(s.last()) =~= s);
    } else {
        assert(s.filter(keep) =~= s);
    }
}

/// How many of the first `n` hits stand more than the window before the turn.
pub open spec fn older_than_window(hits: Seq<TurnHitV>, turn: u32, window_turns: usize, n: int) -> nat
    decreases n,
{
    if n <= 0 {
        0
    } else {
        older_than_window(hits, turn, window_turns, n - 1) + if hits[n - 1].turn + window_turns < turn { 1nat } else { 0nat }
    }
}

proof fn lemma_older(hits: Seq<TurnHitV>, turn: u32, window_turns: usize, n: int)
    requires
        0 <= n <= hits.len(),
    ensures
        ({
            let keep = |h: TurnHitV| h.turn < visible_from(turn, window_turns);
            &&& hits.take(n).filter(keep).len() == older_than_window(hits, turn, window_turns, n)
            &&& hits.take(n).filter(keep).is_prefix_of(hits.filter(keep))
        }),
    decreases n,
{
    reveal(Seq::filter);
    let keep = |h: TurnHitV| h.turn < visible_from(turn, window_turns);
    lemma_filter_cut(hits, keep, n);
    if n > 0 {
        lemma_older(hits, turn, window_turns, n - 1);
        assert(hits.take(n).drop_last() =~= hits.take(n - 1));
        assert(hits.take(n).last() == hits[n - 1]);
    }
}

/// A hit of the session that asks is brought back where it stands more than the
/// window before the turn and fewer than `k` such hits were found before it.
pub proof fn what_is_out_of_sight_is_recalled(
    f: Findings,
    session: Seq<char>,
    turn: u32,
    window_turns: usize,
    k: nat,
    sessions: bool,
    i: int,
)
    requires
        answered(f, sessions),
        0 <= i < f.within->Ok_0.deep_view().len(),
        f.within->Ok_0.deep_view()[i].turn + window_turns < turn,
        older_than_window(f.within->Ok_0.deep_view(), turn, window_turns, i) < k,
    ensures
        ({
            let h = f.within->Ok_0.deep_view()[i];
            brings_back(
                recalled(f, session, turn, window_turns, k, sessions),
                ""@ + "t"@ + text::decimal(h.turn as nat) + " "@ + h.speaker + ": "@ + h.text,
                said_by(h.speaker),
            )
        }),
{
    let hits = f.within->Ok_0.deep_view();
    let keep = |h: TurnHitV| h.turn < visible_from(turn, window_turns);
    lemma_older(hits, turn, window_turns, i);
    lemma_older(hits, turn, window_turns, i + 1);
    reveal(Seq::filter);
    assert(hits.take(i + 1).drop_last() =~= hits.take(i));
    assert(hits.take(i + 1).last() == hits[i]);
    let at = older_than_window(hits, turn, window_turns, i) as int;
    let kept = hits.filter(keep);
    assert(hits.take(i + 1).filter(keep)[at] == hits[i]);
    assert(kept[at] == hits[i]);
    assert(store::at_most(kept, k)[at] == hits[i]);
    let lines = recalled_lines(f, session, turn, window_turns, k, sessions);
    assert(lines[at] == hit_line(""@, hits[i]));
    lemma_brought(f, session, turn, window_turns, k, sessions, at);
}

/// Every fact that was found is brought back, as prose.
pub proof fn facts_that_were_found_are_recalled(
    f: Findings,
    session: Seq<char>,
    turn: u32,
    window_turns: usize,
    k: nat,
    sessions: bool,
    i: int,
)
    requires
        answered(f, sessions),
        0 <= i < f.facts->Ok_0.deep_view().len(),
    ensures
        ({
            let x = f.facts->Ok_0.deep_view()[i];
            brings_back(
                recalled(f, session, turn, window_turns, k, sessions),
                "from memory, "@ + x.key + " is "@ + json::prose(x.value),
                x.trust,
            )
        }),
{
    let within = hit_lines(""@, out_of_sight(f.within->Ok_0.deep_view(), visible_from(turn, window_turns), k));
    let across = if sessions {
        hit_lines("in an earlier conversation, "@, out_of_sight(f.across->Ok_0.deep_view(), u32::MAX + 1, k))
    } else {
        seq![]
    };
    let lines = recalled_lines(f, session, turn, window_turns, k, sessions);
    let at = within.len() + across.len() + i;
    assert(lines[at] == fact_line(f.facts->Ok_0.deep_view()[i]));
    lemma_brought(f, session, turn, window_turns, k, sessions, at);
}

/// What any other conversation was about is brought back, where those are looked
/// into.
pub proof fn other_conversations_are_recalled(
    f: Findings,
    session: Seq<char>,
    turn: u32,
    window_turns: usize,
    k: nat,
    i: int,
)
    requires
        answered(f, true),
        0 <= i < f.digests->Ok_0.deep_view().len(),
        f.digests->Ok_0.deep_view()[i].session != session,
    ensures
        ({
            let d = f.digests->Ok_0.deep_view()[i];
            brings_back(
                recalled(f, session, turn, window_turns, k, true),
                "an earlier conversation"@ + " (through t"@ + text::decimal(d.last_turn as nat) + ") was about: "@
                    + d.summary.topic,
                d.summary.trust,
            )
        }),
{
    let ds = f.digests->Ok_0.deep_view();
    let keep = |d: SessionDigestV| d.session != session;
    ds.lemma_filter_contains(keep, i);
    let rest = others(ds, session);
    let j = choose|j: int| 0 <= j < rest.len() && rest[j] == ds[i];
    let within = hit_lines(""@, out_of_sight(f.within->Ok_0.deep_view(), visible_from(turn, window_turns), k));
    let across = hit_lines(
        "in an earlier conversation, "@,
        out_of_sight(f.across->Ok_0.deep_view(), u32::MAX + 1, k),
    );
    let facts = fact_lines(f.facts->Ok_0.deep_view());
    let lines = recalled_lines(f, session, turn, window_turns, k, true);
    let at = within.len() + across.len() + facts.len() + j;
    assert(lines[at] == digest_line("an earlier conversation"@, rest[j]));
    lemma_brought(f, session, turn, window_turns, k, true, at);
}

/// A recall brings back no more than was found: at most `k` hits of either kind, the
/// facts, and the digests; and where nothing was found it says so.
pub proof fn a_recall_invents_nothing(f: Findings, session: Seq<char>, turn: u32, window_turns: usize, k: nat, sessions: bool)
    requires
        answered(f, sessions),
    ensures
        recalled_lines(f, session, turn, window_turns, k, sessions).len() <= k + f.facts->Ok_0.deep_view().len() + (
        if sessions {
            k + f.digests->Ok_0.deep_view().len()
        } else {
            0
        }),
        (forall|i: int| 0 <= i < f.within->Ok_0.deep_view().len() ==> !((#[trigger] f.within->Ok_0.deep_view()[i]).turn + window_turns
            < turn)) && f.facts->Ok_0.deep_view().len() == 0 && (sessions ==> f.across->Ok_0.deep_view().len() == 0 && (
        forall|i: int|
            0 <= i < f.digests->Ok_0.deep_view().len() ==> (#[trigger] f.digests->Ok_0.deep_view()[i]).session == session))
            ==> recalled(f, session, turn, window_turns, k, sessions) == (ToolOutcomeV::Done {
            output: ToolOutputV { summary: "no matches"@, artifact: None, trust: Trust::System },
        }),
{
    let hits = f.within->Ok_0.deep_view();
    let keep = |h: TurnHitV| h.turn < visible_from(turn, window_turns);
    if sessions {
        let ds = f.digests->Ok_0.deep_view();
        ds.lemma_filter_len(|d: SessionDigestV| d.session != session);
        if forall|i: int| 0 <= i < ds.len() ==> (#[trigger] ds[i]).session == session {
            lemma_keeps_none(ds, |d: SessionDigestV| d.session != session);
        }
        let h2 = f.across->Ok_0.deep_view();
        h2.lemma_filter_len(|h: TurnHitV| h.turn < u32::MAX + 1);
    }
    if forall|i: int| 0 <= i < hits.len() ==> !((#[trigger] hits[i]).turn + window_turns < turn) {
        lemma_keeps_none(hits, keep);
    }
}

proof fn lemma_keeps_none<A>(s: Seq<A>, keep: spec_fn(A) -> bool)
    requires
        forall|i: int| 0 <= i < s.len() ==> !keep(#[trigger] s[i]),
    ensures
        s.filter(keep).len() == 0,
    decreases s.len(),
{
    reveal(Seq::filter);
    if s.len() > 0 {
        assert forall|i: int| 0 <= i < s.drop_last().len() implies !keep(#[trigger] s.drop_last()[i]) by {
            assert(s.drop_last()[i] == s[i]);
        }
        lemma_keeps_none(s.drop_last(), keep);
        assert(!keep(s[s.len() - 1]));
    }
}

/// The words that were said come first, then those of earlier sessions, then facts,
/// then what conversations were about: a recall is what each search alone would have
/// brought, one behind the other. `none` found nothing at all.
pub proof fn a_recall_is_its_searches_in_order(
    f: Findings,
    within: Findings,
    across: Findings,
    facts: Findings,
    digests: Findings,
    none: Findings,
    session: Seq<char>,
    turn: u32,
    window_turns: usize,
    k: nat,
    sessions: bool,
)
    requires
        answered(none, true),
        none.within->Ok_0.deep_view().len() == 0 && none.across->Ok_0.deep_view().len() == 0,
        none.facts->Ok_0.deep_view().len() == 0 && none.digests->Ok_0.deep_view().len() == 0,
        within == (Findings { within: f.within, ..none }),
        across == (Findings { across: f.across, ..none }),
        facts == (Findings { facts: f.facts, ..none }),
        digests == (Findings { digests: f.digests, ..none }),
    ensures
        recalled_lines(f, session, turn, window_turns, k, sessions) == recalled_lines(
            within,
            session,
            turn,
            window_turns,
            k,
            sessions,
        ) + recalled_lines(across, session, turn, window_turns, k, sessions) + recalled_lines(
            facts,
            session,
            turn,
            window_turns,
            k,
            sessions,
        ) + recalled_lines(digests, session, turn, window_turns, k, sessions),
{
    let e = none.within->Ok_0.deep_view();
    e.lemma_filter_len(|h: TurnHitV| h.turn < visible_from(turn, window_turns));
    let e2 = none.across->Ok_0.deep_view();
    e2.lemma_filter_len(|h: TurnHitV| h.turn < u32::MAX + 1);
    let e3 = none.digests->Ok_0.deep_view();
    e3.lemma_filter_len(|d: SessionDigestV| d.session != session);
    assert(recalled_lines(f, session, turn, window_turns, k, sessions) =~= recalled_lines(
        within,
        session,
        turn,
        window_turns,
        k,
        sessions,
    ) + recalled_lines(across, session, turn, window_turns, k, sessions) + recalled_lines(
        facts,
        session,
        turn,
        window_turns,
        k,
        sessions,
    ) + recalled_lines(digests, session, turn, window_turns, k, sessions));
}

/// One search that failed makes the recall a failure, with what the last of them had
/// to say; earlier sessions count only where they are looked into.
pub proof fn a_failed_search_is_not_passed_over(
    f: Findings,
    session: Seq<char>,
    turn: u32,
    window_turns: usize,
    k: nat,
    sessions: bool,
)
    ensures
        recalled(f, session, turn, window_turns, k, sessions) is Failed <==> !answered(f, sessions),
        recalled(f, session, turn, window_turns, k, sessions) matches ToolOutcomeV::Failed { kind, detail } ==> kind
            == "store"@ && (if sessions && f.digests is Err {
            detail == f.digests->Err_0@
        } else if f.facts is Err {
            detail == f.facts->Err_0@
        } else if sessions && f.across is Err {
            detail == f.across->Err_0@
        } else {
            detail == f.within->Err_0@
        }),
        forall|g: Findings|
            g.within == f.within && g.facts == f.facts ==> #[trigger] recalled(g, session, turn, window_turns, k, false)
                == recalled(f, session, turn, window_turns, k, false),
{
}

/// The conversations most like this one are brought back, at most `max` of them and
/// never this one.
pub proof fn similar_conversations_are_brought_back(
    found: Result<Vec<SessionDigest>, String>,
    session: Seq<char>,
    max: nat,
    i: int,
)
    requires
        found is Ok,
        0 <= i < found->Ok_0.deep_view().len(),
        i < max,
        found->Ok_0.deep_view()[i].session != session,
    ensures
        ({
            let d = found->Ok_0.deep_view()[i];
            brings_back(
                exemplified(found, session, max),
                "a similar earlier conversation"@ + " (through t"@ + text::decimal(d.last_turn as nat) + ") was about: "@
                    + d.summary.topic,
                d.summary.trust,
            )
        }),
{
    let ds = found->Ok_0.deep_view();
    let keep = |d: SessionDigestV| d.session != session;
    reveal(Seq::filter);
    lemma_filter_cut(ds, keep, i);
    lemma_filter_cut(ds, keep, i + 1);
    ds.take(i).lemma_filter_len(keep);
    assert(ds.take(i + 1).drop_last() =~= ds.take(i));
    assert(ds.take(i + 1).last() == ds[i]);
    let at = ds.take(i).filter(keep).len() as int;
    assert(ds.take(i + 1).filter(keep)[at] == ds[i]);
    let shown = store::at_most(others(ds, session), max);
    assert(shown[at] == ds[i]);
    let lines = digest_lines("a similar earlier conversation"@, shown);
    findings_carry_the_lowest_trust(lines, "no similar conversations"@, at);
    let t = lines[at].text;
    assert(t.subrange(0, t.len() as int) =~= t);
    assert(text::occurs_at(t, t, 0));
    assert(texts_of(lines)[at] == t);
    text::lemma_joined_contains(texts_of(lines), "; "@, at, t);
}

/// A conversation is not like itself: where nothing else was found there is nothing, and a
/// search that failed says why.
pub proof fn a_conversation_is_not_like_itself(found: Result<Vec<SessionDigest>, String>, session: Seq<char>, max: nat)
    ensures
        found is Ok && (forall|i: int|
            0 <= i < found->Ok_0.deep_view().len() ==> (#[trigger] found->Ok_0.deep_view()[i]).session == session)
            ==> exemplified(found, session, max) == (ToolOutcomeV::Done {
            output: ToolOutputV { summary: "no similar conversations"@, artifact: None, trust: Trust::System },
        }),
        found matches Err(e) ==> exemplified(found, session, max) == (ToolOutcomeV::Failed {
            kind: "store"@,
            detail: e@,
        }),
{
    if found is Ok && (forall|i: int|
        0 <= i < found->Ok_0.deep_view().len() ==> (#[trigger] found->Ok_0.deep_view()[i]).session == session) {
        let ds = found->Ok_0.deep_view();
        lemma_none_other(ds, session);
    }
}

proof fn lemma_none_other(ds: Seq<SessionDigestV>, session: Seq<char>)
    requires
        forall|i: int| 0 <= i < ds.len() ==> (#[trigger] ds[i]).session == session,
    ensures
        others(ds, session).len() == 0,
    decreases ds.len(),
{
    reveal(Seq::filter);
    if ds.len() > 0 {
        let past = ds.drop_last();
        assert forall|i: int| 0 <= i < past.len() implies (#[trigger] past[i]).session == session by {
            assert(ds[i] == past[i]);
        }
        assert(ds[ds.len() - 1].session == session);
        lemma_none_other(past, session);
    }
}

/// What a recall asks for: three times as many hits within the session as are shown, the
/// digests of one session more than are looked into, since this one may be among them, and
/// none where no earlier session is looked into; by meaning too where that is set, but not
/// on a chat turn.
pub proof fn what_a_recall_asks_for(cfg: EngineConfigV, tier: types::Tier)
    requires
        cfg.recall_top_k * 3 <= usize::MAX,
        cfg.recall_sessions < usize::MAX,
    ensures
        ({
            let p = planned(cfg, tier);
            &&& p.each == cfg.recall_top_k && p.within == p.each + p.each + p.each
            &&& p.listed is None <==> cfg.recall_sessions == 0
            &&& p.listed matches Some(n) ==> n == cfg.recall_sessions + 1
            &&& p.hybrid ==> cfg.recall_hybrid && (tier is Task || tier is Deep)
            &&& cfg.recall_hybrid && !(tier is Chat) ==> p.hybrid
        }),
{
}

/// The earlier sessions that are looked into are the first that were listed, in their order,
/// without this one.
pub proof fn the_first_earlier_sessions_are_searched(digests: Seq<SessionDigestV>, session: Seq<char>, max: nat)
    ensures
        ({
            let rest = digests.filter(|d: SessionDigestV| d.session != session);
            let es = earlier(digests, session, max);
            &&& es.len() == if rest.len() < max { rest.len() } else { max }
            &&& forall|j: int| 0 <= j < es.len() ==> #[trigger] es[j] == rest[j].session
        }),
{
    let keep = |d: SessionDigestV| d.session != session;
    assert(others(digests, session) =~= digests.filter(keep));
}

} // verus!
