//! The vocabulary of the engine: events and the log they form, proposals and
//! the specs they are judged by, facts, records and summaries.
//!
//! A type that carries text has a ghost twin whose name ends in `V`; it is what
//! `deep_view` gives and what contracts compare.

use vstd::prelude::*;

verus! {

// ---------------------------------------------------------------------------
// Identifiers and small enumerations
// ---------------------------------------------------------------------------

/// Position of an event in its session's log; the first event is number one.
#[derive(Debug, Clone, Copy, PartialEq, Eq, PartialOrd, Ord, Hash, Structural)]
pub struct EventId(pub u64);

/// Milliseconds since the epoch, as the clock read them.
#[derive(Debug, Clone, Copy, PartialEq, Eq, PartialOrd, Ord, Hash, Structural)]
pub struct Timestamp(pub u64);

/// How far a value may be relied on, the least trusted first.
#[derive(Debug, Clone, Copy, PartialEq, Eq, Structural)]
pub enum Trust {
    External,
    System,
    User,
}

/// What kind of turn the message asks for, the cheapest first.
#[derive(Debug, Clone, Copy, PartialEq, Eq, Structural)]
pub enum Tier {
    Chat,
    Task,
    Deep,
}

/// What running an action does to the world.
#[derive(Debug, Clone, Copy, PartialEq, Eq, Structural)]
pub enum SideEffect {
    Pure,
    Reversible,
    Irreversible,
}

/// Whether an argument may be a value that nothing in the session grounds.
#[derive(Debug, Clone, Copy, PartialEq, Eq, Structural)]
pub enum ResidualRule {
    Allow,
    Never,
}

/// Where a version of a fact stands in its life.
#[derive(Debug, Clone, Copy, PartialEq, Eq, Structural)]
pub enum FactState {
    Current,
    Cold,
    Superseded,
    Forgotten,
}

impl DeepView for EventId {
    type V = EventId;

    open spec fn deep_view(&self) -> EventId {
        *self
    }
}

impl DeepView for Timestamp {
    type V = Timestamp;

    open spec fn deep_view(&self) -> Timestamp {
        *self
    }
}

impl DeepView for Trust {
    type V = Trust;

    open spec fn deep_view(&self) -> Trust {
        *self
    }
}

impl DeepView for Tier {
    type V = Tier;

    open spec fn deep_view(&self) -> Tier {
        *self
    }
}

impl DeepView for SideEffect {
    type V = SideEffect;

    open spec fn deep_view(&self) -> SideEffect {
        *self
    }
}

impl DeepView for ResidualRule {
    type V = ResidualRule;

    open spec fn deep_view(&self) -> ResidualRule {
        *self
    }
}

impl DeepView for FactState {
    type V = FactState;

    open spec fn deep_view(&self) -> FactState {
        *self
    }
}

impl Trust {
    /// Place in the order of trust.
    pub open spec fn rank(self) -> int {
        match self {
            Trust::External => 0,
            Trust::System => 1,
            Trust::User => 2,
        }
    }

    /// Whether this trust is no higher than the other.
    pub fn at_most(self, other: Trust) -> (r: bool)
        ensures
            r == (self.rank() <= other.rank()),
    {
        match (self, other) {
            (Trust::External, _) => true,
            (_, Trust::User) => true,
            (Trust::System, Trust::System) => true,
            _ => false,
        }
    }
}

/// The lowest of several trusts; what nothing lowered is the user's own.
pub open spec fn lowest(trusts: Seq<Trust>) -> Trust
    decreases trusts.len(),
{
    if trusts.len() == 0 {
        Trust::User
    } else {
        let rest = lowest(trusts.drop_last());
        if trusts.last().rank() <= rest.rank() {
            trusts.last()
        } else {
            rest
        }
    }
}

pub fn min_trust(trusts: &Vec<Trust>) -> (r: Trust)
    ensures
        r == lowest(trusts@),
{
    let mut low: Trust = Trust::User;
    let mut i: usize = 0;
    proof {
        assert(trusts@.take(0) =~= seq![]);
    }
    while i < trusts.len()
        invariant
            i <= trusts@.len(),
            low == lowest(trusts@.take(i as int)),
        decreases trusts@.len() - i,
    {
        proof {
            assert(trusts@.take(i + 1).drop_last() =~= trusts@.take(i as int));
        }
        if trusts[i].at_most(low) {
            low = trusts[i];
        }
        i = i + 1;
    }
    proof {
        assert(trusts@.take(trusts@.len() as int) =~= trusts@);
    }
    low
}

/// The lowest trust is at most every one of them, and is one of them or the
/// user's.
pub proof fn lemma_lowest(trusts: Seq<Trust>)
    ensures
        forall|i: int| 0 <= i < trusts.len() ==> lowest(trusts).rank() <= (#[trigger] trusts[i]).rank(),
        trusts.contains(lowest(trusts)) || lowest(trusts) == Trust::User,
    decreases trusts.len(),
{
    if trusts.len() > 0 {
        lemma_lowest(trusts.drop_last());
        assert forall|i: int| 0 <= i < trusts.len() implies lowest(trusts).rank() <= (
        #[trigger] trusts[i]).rank() by {
            if i < trusts.len() - 1 {
                assert(trusts.drop_last()[i] == trusts[i]);
            }
        }
        if trusts.drop_last().contains(lowest(trusts)) {
            let j = choose|j: int| 0 <= j < trusts.drop_last().len() && trusts.drop_last()[j] == lowest(trusts);
            assert(trusts[j] == lowest(trusts));
        }
        assert(trusts[trusts.len() - 1] == trusts.last());
    }
}

impl Tier {
    /// Place in the order of tiers.
    pub open spec fn rank(self) -> int {
        match self {
            Tier::Chat => 0,
            Tier::Task => 1,
            Tier::Deep => 2,
        }
    }

    /// Whether registered tools ride a turn of this tier by default.
    pub fn allows_tools(self) -> (r: bool)
        ensures
            r == (self != Tier::Chat),
    {
        match self {
            Tier::Chat => false,
            _ => true,
        }
    }

    /// Whether the emitter is shown the facts relevant to the message, beyond
    /// the pinned ones.
    pub fn allows_relevant_facts(self) -> (r: bool)
        ensures
            r == (self != Tier::Chat),
    {
        match self {
            Tier::Chat => false,
            _ => true,
        }
    }

    pub fn is_chat(self) -> (r: bool)
        ensures
            r == (self == Tier::Chat),
    {
        match self {
            Tier::Chat => true,
            _ => false,
        }
    }
}

impl FactState {
    /// A version that still holds: current, or current but rarely used.
    pub open spec fn live(self) -> bool {
        self == FactState::Current || self == FactState::Cold
    }

    pub fn is_live(self) -> (r: bool)
        ensures
            r == self.live(),
    {
        match self {
            FactState::Current | FactState::Cold => true,
            _ => false,
        }
    }
}

/// A JSON document, held as its compact text. Object members are written in
/// the order of their names, so equal values have equal texts.
#[derive(Debug)]
pub struct Json {
    pub text: String,
}

impl DeepView for Json {
    type V = Seq<char>;

    open spec fn deep_view(&self) -> Seq<char> {
        self.text@
    }
}

impl Clone for Json {
    fn clone(&self) -> (r: Self)
        ensures
            r.deep_view() == self.deep_view(),
    {
        Json { text: self.text.clone() }
    }
}

/// A conversation.
#[derive(Debug)]
pub struct SessionId(pub String);

impl DeepView for SessionId {
    type V = Seq<char>;

    open spec fn deep_view(&self) -> Seq<char> {
        self.0@
    }
}

impl Clone for SessionId {
    fn clone(&self) -> (r: Self)
        ensures
            r.deep_view() == self.deep_view(),
    {
        SessionId(self.0.clone())
    }
}

// ---------------------------------------------------------------------------
// Provenance
// ---------------------------------------------------------------------------

/// Where a value came from.
#[derive(Debug)]
pub enum Provenance {
    UserInput { turn: u32, start: usize, end: usize },
    CopiedOutput { call: EventId, path: String },
    Transform { func: String, inputs: Vec<Provenance> },
    Constant,
    Residual,
}

pub enum ProvenanceV {
    UserInput { turn: u32, start: usize, end: usize },
    CopiedOutput { call: EventId, path: Seq<char> },
    Transform { func: Seq<char>, inputs: Seq<ProvenanceV> },
    Constant,
    Residual,
}

pub open spec fn prov_view(p: Provenance) -> ProvenanceV
    decreases p,
{
    match p {
        Provenance::UserInput { turn, start, end } => ProvenanceV::UserInput { turn, start, end },
        Provenance::CopiedOutput { call, path } => ProvenanceV::CopiedOutput { call, path: path@ },
        Provenance::Transform { func, inputs } => ProvenanceV::Transform {
            func: func@,
            inputs: prov_views(inputs@),
        },
        Provenance::Constant => ProvenanceV::Constant,
        Provenance::Residual => ProvenanceV::Residual,
    }
}

pub open spec fn prov_views(ps: Seq<Provenance>) -> Seq<ProvenanceV>
    decreases ps,
{
    if ps.len() == 0 {
        seq![]
    } else {
        prov_views(ps.subrange(0, ps.len() - 1)).push(prov_view(ps[ps.len() - 1]))
    }
}

impl DeepView for Provenance {
    type V = ProvenanceV;

    open spec fn deep_view(&self) -> ProvenanceV {
        prov_view(*self)
    }
}

/// A value that nothing grounds, or one computed from such a value.
pub open spec fn residual(p: ProvenanceV) -> bool
    decreases p,
{
    match p {
        ProvenanceV::Residual => true,
        ProvenanceV::Transform { func, inputs } => exists|i: int|
            0 <= i < inputs.len() && residual(#[trigger] inputs[i]),
        _ => false,
    }
}

pub proof fn lemma_prov_views(ps: Seq<Provenance>)
    ensures
        prov_views(ps).len() == ps.len(),
        forall|i: int| 0 <= i < ps.len() ==> #[trigger] prov_views(ps)[i] == prov_view(ps[i]),
    decreases ps.len(),
{
    if ps.len() > 0 {
        let front = ps.subrange(0, ps.len() - 1);
        lemma_prov_views(front);
        assert forall|i: int| 0 <= i < ps.len() implies #[trigger] prov_views(ps)[i] == prov_view(ps[i]) by {
            if i < ps.len() - 1 {
                assert(prov_views(front)[i] == prov_view(front[i]));
            }
        }
    }
}

impl Clone for Provenance {
    fn clone(&self) -> (r: Self)
        ensures
            r.deep_view() == self.deep_view(),
        decreases self,
    {
        match self {
            Provenance::UserInput { turn, start, end } => Provenance::UserInput {
                turn: *turn,
                start: *start,
                end: *end,
            },
            Provenance::CopiedOutput { call, path } => Provenance::CopiedOutput {
                call: *call,
                path: path.clone(),
            },
            Provenance::Transform { func, inputs } => {
                let mut out: Vec<Provenance> = Vec::new();
                let mut i: usize = 0;
                while i < inputs.len()
                    invariant
                        i <= inputs@.len(),
                        out@.len() == i,
                        self matches Provenance::Transform { func: f0, inputs: i0 } && i0 == inputs,
                        forall|k: int| 0 <= k < i ==> prov_view(#[trigger] out@[k]) == prov_view(inputs@[k]),
                    decreases inputs@.len() - i,
                {
                    let one: Provenance = inputs[i].clone();
                    out.push(one);
                    i = i + 1;
                }
                proof {
                    lemma_prov_views(out@);
                    lemma_prov_views(inputs@);
                    assert(prov_views(out@) =~= prov_views(inputs@));
                }
                Provenance::Transform { func: func.clone(), inputs: out }
            },
            Provenance::Constant => Provenance::Constant,
            Provenance::Residual => Provenance::Residual,
        }
    }
}

/// A value with where it came from and how far it may be relied on.
#[derive(Debug)]
pub struct TaggedValue {
    pub value: Json,
    pub prov: Provenance,
    pub trust: Trust,
}

pub struct TaggedValueV {
    pub value: Seq<char>,
    pub prov: ProvenanceV,
    pub trust: Trust,
}

impl DeepView for TaggedValue {
    type V = TaggedValueV;

    open spec fn deep_view(&self) -> TaggedValueV {
        TaggedValueV {
            value: self.value.deep_view(),
            prov: self.prov.deep_view(),
            trust: self.trust,
        }
    }
}

impl Clone for TaggedValue {
    fn clone(&self) -> (r: Self)
        ensures
            r.deep_view() == self.deep_view(),
    {
        TaggedValue { value: self.value.clone(), prov: self.prov.clone(), trust: self.trust }
    }
}

/// Named arguments with the provenance of each.
pub type Tagged = Vec<(String, TaggedValue)>;

pub type TaggedV = Seq<(Seq<char>, TaggedValueV)>;

pub fn clone_tagged(args: &Tagged) -> (r: Tagged)
    ensures
        r.deep_view() == args.deep_view(),
{
    let mut out: Tagged = Vec::new();
    let mut i: usize = 0;
    while i < args.len()
        invariant
            i <= args@.len(),
            out@.len() == i,
            forall|k: int| 0 <= k < i ==> (#[trigger] out@[k]).deep_view() == args@[k].deep_view(),
        decreases args@.len() - i,
    {
        out.push((args[i].0.clone(), args[i].1.clone()));
        i = i + 1;
    }
    proof {
        assert(out.deep_view() =~= args.deep_view());
    }
    out
}

pub fn clone_texts(v: &Vec<String>) -> (r: Vec<String>)
    ensures
        r.deep_view() == v.deep_view(),
{
    let out: Vec<String> = v.clone();
    proof {
        assert(out.deep_view() =~= v.deep_view());
    }
    out
}

/// What comes from outside is trusted least and what the user said most, and several
/// sources together are trusted as the least trusted of them.
pub proof fn the_least_trusted_source_decides(trusts: Seq<Trust>)
    ensures
        Trust::External.rank() < Trust::System.rank() < Trust::User.rank(),
        lowest(trusts) == Trust::External <==> trusts.contains(Trust::External),
        lowest(trusts) == Trust::User <==> forall|i: int| 0 <= i < trusts.len() ==> #[trigger] trusts[i] == Trust::User,
{
    lemma_lowest(trusts);
    if trusts.contains(Trust::External) {
        let i = choose|i: int| 0 <= i < trusts.len() && trusts[i] == Trust::External;
        assert(lowest(trusts).rank() <= trusts[i].rank());
    }
    if lowest(trusts) == Trust::User {
        assert forall|i: int| 0 <= i < trusts.len() implies #[trigger] trusts[i] == Trust::User by {
            assert(lowest(trusts).rank() <= trusts[i].rank());
        }
    }
}

/// A turn rises from chat over a task to a deep one.
pub proof fn tiers_rise()
    ensures
        Tier::Chat.rank() < Tier::Task.rank() < Tier::Deep.rank(),
{
}

/// A version holds until it is superseded or forgotten.
pub proof fn which_versions_hold()
    ensures
        FactState::Current.live() && FactState::Cold.live(),
        !FactState::Superseded.live() && !FactState::Forgotten.live(),
{
}

/// What the user said, a result said or the engine set is grounded; a computed value is
/// where everything that it was computed from is.
pub proof fn what_grounds_a_value(
    turn: u32,
    start: usize,
    end: usize,
    call: EventId,
    path: Seq<char>,
    func: Seq<char>,
    inputs: Seq<ProvenanceV>,
)
    ensures
        residual(ProvenanceV::Residual),
        !residual(ProvenanceV::UserInput { turn, start, end }),
        !residual(ProvenanceV::CopiedOutput { call, path }),
        !residual(ProvenanceV::Constant),
        !residual(ProvenanceV::Transform { func, inputs }) <==> forall|i: int|
            0 <= i < inputs.len() ==> !residual(#[trigger] inputs[i]),
{
    let p = ProvenanceV::Transform { func, inputs };
    assert(residual(p) <==> exists|i: int| 0 <= i < inputs.len() && residual(#[trigger] inputs[i])) by {
        assert(p->inputs == inputs);
        reveal_with_fuel(residual, 2);
    }
}

} // verus!
