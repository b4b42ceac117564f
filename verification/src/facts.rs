//! Facts and what else outlives a session.

use vstd::prelude::*;

use crate::events::{SessionSummary, SessionSummaryV};
use crate::types::{FactState, Json, Provenance, ProvenanceV, SessionId, Timestamp, Trust};

verus! {

/// One version of a fact.
#[derive(Debug)]
pub struct Fact {
    pub key: String,
    pub value: Json,
    /// How sure the fact is, in hundredths.
    pub confidence_pct: u32,
    /// How often a reply was shown it.
    pub uses: u32,
    pub last_validated: Timestamp,
    pub prov: Provenance,
    pub scope: String,
    pub trust: Trust,
    /// What tells one version of a key from another.
    pub valid_from: Timestamp,
    pub valid_to: Option<Timestamp>,
    pub state: FactState,
    pub last_used: Timestamp,
    /// How often a model was shown this version.
    pub exposures: u32,
    /// How often a reply drew on it.
    pub credits: u32,
}

pub struct FactV {
    pub key: Seq<char>,
    pub value: Seq<char>,
    pub confidence_pct: u32,
    pub uses: u32,
    pub last_validated: Timestamp,
    pub prov: ProvenanceV,
    pub scope: Seq<char>,
    pub trust: Trust,
    pub valid_from: Timestamp,
    pub valid_to: Option<Timestamp>,
    pub state: FactState,
    pub last_used: Timestamp,
    pub exposures: u32,
    pub credits: u32,
}

impl DeepView for Fact {
    type V = FactV;

    open spec fn deep_view(&self) -> FactV {
        FactV {
            key: self.key.deep_view(),
            value: self.value.deep_view(),
            confidence_pct: self.confidence_pct,
            uses: self.uses,
            last_validated: self.last_validated,
            prov: self.prov.deep_view(),
            scope: self.scope.deep_view(),
            trust: self.trust,
            valid_from: self.valid_from,
            valid_to: self.valid_to,
            state: self.state,
            last_used: self.last_used,
            exposures: self.exposures,
            credits: self.credits,
        }
    }
}

impl Clone for Fact {
    fn clone(&self) -> (r: Self)
        ensures
            r.deep_view() == self.deep_view(),
    {
        let r: Fact = Fact {
            key: self.key.clone(),
            value: self.value.clone(),
            confidence_pct: self.confidence_pct,
            uses: self.uses,
            last_validated: self.last_validated,
            prov: self.prov.clone(),
            scope: self.scope.clone(),
            trust: self.trust,
            valid_from: self.valid_from,
            valid_to: self.valid_to,
            state: self.state,
            last_used: self.last_used,
            exposures: self.exposures,
            credits: self.credits,
        };
        r
    }
}

/// The value that a fact had before, and until when.
#[derive(Debug)]
pub struct Previous {
    pub value: Json,
    pub until: Timestamp,
}

pub struct PreviousV {
    pub value: Seq<char>,
    pub until: Timestamp,
}

impl DeepView for Previous {
    type V = PreviousV;

    open spec fn deep_view(&self) -> PreviousV {
        PreviousV {
            value: self.value.deep_view(),
            until: self.until,
        }
    }
}

impl Clone for Previous {
    fn clone(&self) -> (r: Self)
        ensures
            r.deep_view() == self.deep_view(),
    {
        let r: Previous = Previous {
            value: self.value.clone(),
            until: self.until,
        };
        r
    }
}

/// A fact with the value that it replaced.
#[derive(Debug)]
pub struct FactView {
    pub fact: Fact,
    pub previous: Option<Previous>,
}

pub struct FactViewV {
    pub fact: FactV,
    pub previous: Option<PreviousV>,
}

impl DeepView for FactView {
    type V = FactViewV;

    open spec fn deep_view(&self) -> FactViewV {
        FactViewV {
            fact: self.fact.deep_view(),
            previous: self.previous.deep_view(),
        }
    }
}

impl Clone for FactView {
    fn clone(&self) -> (r: Self)
        ensures
            r.deep_view() == self.deep_view(),
    {
        let r: FactView = FactView {
            fact: self.fact.clone(),
            previous: self.previous.clone(),
        };
        proof {
            assert(r.previous.deep_view() =~= self.previous.deep_view());
        }
        r
    }
}

/// What a finished session was about.
#[derive(Debug)]
pub struct SessionDigest {
    pub session: SessionId,
    pub scope: String,
    pub summary: SessionSummary,
    pub last_turn: u32,
    pub at: Timestamp,
}

pub struct SessionDigestV {
    pub session: Seq<char>,
    pub scope: Seq<char>,
    pub summary: SessionSummaryV,
    pub last_turn: u32,
    pub at: Timestamp,
}

impl DeepView for SessionDigest {
    type V = SessionDigestV;

    open spec fn deep_view(&self) -> SessionDigestV {
        SessionDigestV {
            session: self.session.deep_view(),
            scope: self.scope.deep_view(),
            summary: self.summary.deep_view(),
            last_turn: self.last_turn,
            at: self.at,
        }
    }
}

impl Clone for SessionDigest {
    fn clone(&self) -> (r: Self)
        ensures
            r.deep_view() == self.deep_view(),
    {
        let r: SessionDigest = SessionDigest {
            session: self.session.clone(),
            scope: self.scope.clone(),
            summary: self.summary.clone(),
            last_turn: self.last_turn,
            at: self.at,
        };
        r
    }
}

/// A line of a conversation that a search found.
#[derive(Debug)]
pub struct TurnHit {
    pub session: SessionId,
    pub turn: u32,
    pub speaker: String,
    pub text: String,
    /// How many of the words asked for stand in it.
    pub score: usize,
}

pub struct TurnHitV {
    pub session: Seq<char>,
    pub turn: u32,
    pub speaker: Seq<char>,
    pub text: Seq<char>,
    pub score: usize,
}

impl DeepView for TurnHit {
    type V = TurnHitV;

    open spec fn deep_view(&self) -> TurnHitV {
        TurnHitV {
            session: self.session.deep_view(),
            turn: self.turn,
            speaker: self.speaker.deep_view(),
            text: self.text.deep_view(),
            score: self.score,
        }
    }
}

impl Clone for TurnHit {
    fn clone(&self) -> (r: Self)
        ensures
            r.deep_view() == self.deep_view(),
    {
        let r: TurnHit = TurnHit {
            session: self.session.clone(),
            turn: self.turn,
            speaker: self.speaker.clone(),
            text: self.text.clone(),
            score: self.score,
        };
        r
    }
}

impl Default for Fact {
    fn default() -> (r: Self)
        ensures
            r.deep_view() == fresh_fact(),
    {
        let r: Fact = Fact {
            key: String::new(),
            value: Json { text: "null".to_owned() },
            confidence_pct: 100,
            uses: 0,
            last_validated: Timestamp(0),
            prov: Provenance::Constant,
            scope: "global".to_owned(),
            trust: Trust::System,
            valid_from: Timestamp(0),
            valid_to: None,
            state: FactState::Current,
            last_used: Timestamp(0),
            exposures: 0,
            credits: 0,
        };
        proof {
            assert(r.key@ =~= seq![]);
        }
        r
    }
}

/// A fact before anything is known of it: current, in the global scope, never
/// used and never shown.
pub open spec fn fresh_fact() -> FactV {
    FactV {
        key: seq![],
        value: "null"@,
        confidence_pct: 100,
        uses: 0,
        last_validated: Timestamp(0),
        prov: ProvenanceV::Constant,
        scope: "global"@,
        trust: Trust::System,
        valid_from: Timestamp(0),
        valid_to: None,
        state: FactState::Current,
        last_used: Timestamp(0),
        exposures: 0,
        credits: 0,
    }
}

/// A fact of which nothing is known yet has no name and no value, is held by the engine for
/// everyone, is current, and was neither used nor shown.
pub proof fn a_fact_begins_unused()
    ensures
        ({
            let f = fresh_fact();
            &&& f.key.len() == 0 && f.value == "null"@ && f.scope == "global"@
            &&& f.trust == Trust::System && f.prov == ProvenanceV::Constant && f.confidence_pct == 100
            &&& f.state == FactState::Current && f.valid_to is None
            &&& f.uses == 0 && f.exposures == 0 && f.credits == 0
        }),
{
}

} // verus!
