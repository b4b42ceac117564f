//! Which actions the emitter is offered on this iteration.

use vstd::prelude::*;

use crate::events::{ActionSpec, ActionSpecV, Event, EventV};
use crate::text::{listed, same};
use crate::trace;
use crate::trace::clipped_results;
use crate::turn::config::{EngineConfig, EngineConfigV};
use crate::turn::progress::{Bookkeeping, BookkeepingV};
use crate::turn::specs;
use crate::turn::specs::{
    ask_clarification_spec, confirm_pending_spec, forget_all_spec, forget_fact_spec, inspect_result_spec, recall_spec,
    remember_fact_spec, ASK_CLARIFICATION, CONFIRM_PENDING, FORGET_ALL, FORGET_FACT, INSPECT_RESULT, RECALL,
    REMEMBER_FACT,
};
use crate::types::Tier;

verus! {

/// What decides the legal set on one iteration.
#[derive(Debug)]
pub struct Offer<'a> {
    pub book: &'a Bookkeeping,
    pub events: &'a Vec<Event>,
    pub turn: u32,
    pub tier: Tier,
    /// The route's selection; every tool where absent.
    pub selected_tools: Option<&'a Vec<String>>,
    /// Whether there is anything out of sight to recall.
    pub recall_applies: bool,
    /// Whether there is any fact to forget.
    pub scope_holds_facts: bool,
    /// Whether a staged action can still be confirmed.
    pub active_pending: bool,
}

pub struct OfferV {
    pub book: BookkeepingV,
    pub events: Seq<EventV>,
    pub turn: u32,
    pub tier: Tier,
    pub selected_tools: Option<Seq<Seq<char>>>,
    pub recall_applies: bool,
    pub scope_holds_facts: bool,
    pub active_pending: bool,
}

impl<'a> DeepView for Offer<'a> {
    type V = OfferV;

    open spec fn deep_view(&self) -> OfferV {
        OfferV {
            book: self.book.deep_view(),
            events: self.events.deep_view(),
            turn: self.turn,
            tier: self.tier,
            selected_tools: match self.selected_tools {
                Some(sel) => Some(sel.deep_view()),
                None => None,
            },
            recall_applies: self.recall_applies,
            scope_holds_facts: self.scope_holds_facts,
            active_pending: self.active_pending,
        }
    }
}

/// Whether the turn carries registered tools at all.
pub open spec fn carries_tools(o: OfferV) -> bool {
    o.tier != Tier::Chat || o.selected_tools is Some
}

/// Whether a registered tool is among those offered.
pub open spec fn rides(o: OfferV, name: Seq<char>) -> bool {
    !o.book.denied.contains(name) && (match o.selected_tools {
        Some(sel) => sel.contains(name),
        None => true,
    })
}

/// The registered tools that are offered, in their order.
pub open spec fn offered_tools(o: OfferV, tools: Seq<ActionSpecV>) -> Seq<ActionSpecV> {
    if carries_tools(o) {
        tools.filter(|s: ActionSpecV| rides(o, s.name))
    } else {
        seq![]
    }
}

/// A list with a last item where the condition holds.
pub open spec fn with_if(list: Seq<ActionSpecV>, yes: bool, s: ActionSpecV) -> Seq<ActionSpecV> {
    if yes {
        list.push(s)
    } else {
        list
    }
}

/// Whether forgetting can mean anything: not after a fact was written, not after
/// something was forgotten, and only where there is a fact.
pub open spec fn forgetting_applies(o: OfferV) -> bool {
    !o.book.fact_written() && !o.book.something_forgotten() && o.scope_holds_facts
}

/// The actions on offer: the tools that ride the turn, then the engine's own. An
/// argument that nothing grounds leaves only the question.
pub open spec fn on_offer(o: OfferV, cfg: EngineConfigV, tools: Seq<ActionSpecV>) -> Seq<ActionSpecV> {
    let profile = cfg.schema_profile;
    if o.book.never_residual {
        seq![specs::ask_clarification_schema(profile)]
    } else {
        let a = offered_tools(o, tools).push(specs::ask_clarification_schema(profile));
        let b = with_if(a, !o.book.denied.contains(REMEMBER_FACT@), specs::remember_fact_schema(profile));
        let c = with_if(
            b,
            !o.book.denied.contains(RECALL@) && o.recall_applies,
            specs::recall_schema(profile),
        );
        let d = with_if(
            c,
            !o.book.denied.contains(INSPECT_RESULT@) && trace::inspectable(
                o.events,
                o.turn,
                cfg.tool_result_max_chars as nat,
            ).len() > 0,
            specs::inspect_result_schema(profile),
        );
        let e = with_if(
            d,
            forgetting_applies(o) && !o.book.denied.contains(FORGET_FACT@),
            specs::forget_fact_schema(profile),
        );
        let f = with_if(
            e,
            forgetting_applies(o) && !o.book.denied.contains(FORGET_ALL@),
            specs::forget_all_schema(profile),
        );
        with_if(f, o.active_pending, specs::confirm_pending_schema(profile))
    }
}

fn push_spec(list: &mut Vec<ActionSpec>, s: ActionSpec)
    ensures
        final(list).deep_view() == old(list).deep_view().push(s.deep_view()),
{
    let ghost before = list.deep_view();
    list.push(s);
    proof {
        assert(list.deep_view() =~= before.push(s.deep_view()));
    }
}

fn pick_tools(o: &Offer, tools: &Vec<ActionSpec>) -> (r: Vec<ActionSpec>)
    ensures
        r.deep_view() == offered_tools(o.deep_view(), tools.deep_view()),
{
    let mut out: Vec<ActionSpec> = Vec::new();
    proof {
        assert(out.deep_view() =~= seq![]);
    }
    if !(o.tier.allows_tools() || o.selected_tools.is_some()) {
        return out;
    }
    let ghost all = tools.deep_view();
    let ghost ov = o.deep_view();
    let ghost keep = |s: ActionSpecV| rides(ov, s.name);
    let mut i: usize = 0;
    proof {
        reveal(Seq::filter);
        assert(all.take(0).filter(keep) =~= seq![]);
    }
    while i < tools.len()
        invariant
            i <= tools@.len(),
            all == tools.deep_view(),
            ov == o.deep_view(),
            keep == (|s: ActionSpecV| rides(ov, s.name)),
            out.deep_view() == all.take(i as int).filter(keep),
        decreases tools@.len() - i,
    {
        proof {
            reveal(Seq::filter);
            assert(all.take(i + 1).drop_last() =~= all.take(i as int));
            assert(all.take(i + 1).last() == tools@[i as int].deep_view());
        }
        let name: &str = tools[i].name.as_str();
        let chosen: bool = match o.selected_tools {
            Some(sel) => listed(sel, name),
            None => true,
        };
        if chosen && !listed(&o.book.denied, name) {
            push_spec(&mut out, tools[i].clone());
        }
        i = i + 1;
    }
    proof {
        assert(all.take(all.len() as int) =~= all);
    }
    out
}

/// The actions that the emitter may choose from, this iteration.
pub fn legal_actions(o: &Offer, cfg: &EngineConfig, tools: &Vec<ActionSpec>) -> (r: Vec<ActionSpec>)
    ensures
        r.deep_view() == on_offer(o.deep_view(), cfg.deep_view(), tools.deep_view()),
{
    let profile: crate::turn::specs::SchemaProfile = cfg.schema_profile;
    if o.book.never_residual {
        let mut only: Vec<ActionSpec> = Vec::new();
        proof {
            assert(only.deep_view() =~= seq![]);
        }
        push_spec(&mut only, ask_clarification_spec(profile));
        proof {
            assert(only.deep_view() =~= seq![specs::ask_clarification_schema(profile)]);
        }
        return only;
    }
    let mut actions: Vec<ActionSpec> = pick_tools(o, tools);
    push_spec(&mut actions, ask_clarification_spec(profile));
    if !listed(&o.book.denied, REMEMBER_FACT) {
        push_spec(&mut actions, remember_fact_spec(profile));
    }
    if !listed(&o.book.denied, RECALL) && o.recall_applies {
        push_spec(&mut actions, recall_spec(profile));
    }
    if !listed(&o.book.denied, INSPECT_RESULT) && clipped_results(o.events, o.turn, cfg.tool_result_max_chars).len()
        > 0 {
        push_spec(&mut actions, inspect_result_spec(profile));
    }
    if !o.book.wrote_fact() && !o.book.forgot() && o.scope_holds_facts {
        if !listed(&o.book.denied, FORGET_FACT) {
            push_spec(&mut actions, forget_fact_spec(profile));
        }
        if !listed(&o.book.denied, FORGET_ALL) {
            push_spec(&mut actions, forget_all_spec(profile));
        }
    }
    if o.active_pending {
        push_spec(&mut actions, confirm_pending_spec(profile));
    }
    actions
}

/// The action is on offer.
pub open spec fn offers(actions: Seq<ActionSpecV>, name: Seq<char>) -> bool {
    exists|i: int| 0 <= i < actions.len() && (#[trigger] actions[i]).name == name
}

pub fn is_offered(actions: &Vec<ActionSpec>, name: &str) -> (r: bool)
    ensures
        r == offers(actions.deep_view(), name@),
{
    let ghost all = actions.deep_view();
    let mut i: usize = 0;
    while i < actions.len()
        invariant
            i <= actions@.len(),
            all == actions.deep_view(),
            forall|k: int| 0 <= k < i ==> (#[trigger] all[k]).name != name@,
        decreases actions@.len() - i,
    {
        assert(all[i as int] == actions@[i as int].deep_view());
        if same(actions[i].name.as_str(), name) {
            return true;
        }
        i = i + 1;
    }
    false
}

// ---------------------------------------------------------------------------
// Laws
// ---------------------------------------------------------------------------

proof fn lemma_offers_push(list: Seq<ActionSpecV>, s: ActionSpecV, name: Seq<char>)
    ensures
        offers(list.push(s), name) == (offers(list, name) || s.name == name),
{
    let all = list.push(s);
    if offers(list, name) {
        let i = choose|i: int| 0 <= i < list.len() && (#[trigger] list[i]).name == name;
        assert(all[i] == list[i]);
    }
    if s.name == name {
        assert(all[list.len() as int].name == name);
    }
    if offers(all, name) {
        let i = choose|i: int| 0 <= i < all.len() && (#[trigger] all[i]).name == name;
        if i < list.len() {
            assert(list[i] == all[i]);
        }
    }
}

proof fn lemma_offered_tools(o: OfferV, tools: Seq<ActionSpecV>, name: Seq<char>)
    ensures
        offers(offered_tools(o, tools), name) == (carries_tools(o) && rides(o, name) && offers(tools, name)),
{
    let keep = |s: ActionSpecV| rides(o, s.name);
    if carries_tools(o) {
        let kept = tools.filter(keep);
        if offers(kept, name) {
            let i = choose|i: int| 0 <= i < kept.len() && (#[trigger] kept[i]).name == name;
            tools.lemma_filter_pred(keep, i);
            lemma_kept_is_there(tools, keep, i);
            let k = choose|k: int| 0 <= k < tools.len() && tools[k] == kept[i];
            assert(tools[k].name == name);
        }
        if rides(o, name) && offers(tools, name) {
            let k = choose|k: int| 0 <= k < tools.len() && (#[trigger] tools[k]).name == name;
            tools.lemma_filter_contains(keep, k);
            let i = choose|i: int| 0 <= i < kept.len() && kept[i] == tools[k];
            assert(kept[i].name == name);
        }
    }
}

proof fn lemma_kept_is_there<A>(s: Seq<A>, keep: spec_fn(A) -> bool, i: int)
    requires
        0 <= i < s.filter(keep).len(),
    ensures
        exists|k: int| 0 <= k < s.len() && s[k] == s.filter(keep)[i],
    decreases s.len(),
{
    reveal(Seq::filter);
    if s.len() > 0 {
        let rest = s.drop_last();
        if i < rest.filter(keep).len() {
            lemma_kept_is_there(rest, keep, i);
            let k = choose|k: int| 0 <= k < rest.len() && rest[k] == rest.filter(keep)[i];
            assert(s[k] == rest[k]);
        } else {
            assert(s[s.len() - 1] == s.filter(keep)[i]);
        }
    }
}

proof fn lemma_with_if(list: Seq<ActionSpecV>, yes: bool, s: ActionSpecV, name: Seq<char>)
    ensures
        offers(with_if(list, yes, s), name) == (offers(list, name) || (yes && s.name == name)),
{
    lemma_offers_push(list, s, name);
}

/// What is on offer, name by name.
pub proof fn the_offer_by_name(o: OfferV, cfg: EngineConfigV, tools: Seq<ActionSpecV>, name: Seq<char>)
    ensures
        o.book.never_residual ==> offers(on_offer(o, cfg, tools), name) == (name == ASK_CLARIFICATION@),
        !o.book.never_residual ==> offers(on_offer(o, cfg, tools), name) == ({
            ||| carries_tools(o) && rides(o, name) && offers(tools, name)
            ||| name == ASK_CLARIFICATION@
            ||| name == REMEMBER_FACT@ && !o.book.denied.contains(REMEMBER_FACT@)
            ||| name == RECALL@ && !o.book.denied.contains(RECALL@) && o.recall_applies
            ||| name == INSPECT_RESULT@ && !o.book.denied.contains(INSPECT_RESULT@) && trace::inspectable(
                o.events,
                o.turn,
                cfg.tool_result_max_chars as nat,
            ).len() > 0
            ||| name == FORGET_FACT@ && forgetting_applies(o) && !o.book.denied.contains(FORGET_FACT@)
            ||| name == FORGET_ALL@ && forgetting_applies(o) && !o.book.denied.contains(FORGET_ALL@)
            ||| name == CONFIRM_PENDING@ && o.active_pending
        }),
{
    let profile = cfg.schema_profile;
    if o.book.never_residual {
        let only = seq![specs::ask_clarification_schema(profile)];
        lemma_offers_push(seq![], specs::ask_clarification_schema(profile), name);
        assert(only =~= Seq::<ActionSpecV>::empty().push(specs::ask_clarification_schema(profile)));
    } else {
        lemma_offered_tools(o, tools, name);
        let base = offered_tools(o, tools);
        lemma_offers_push(base, specs::ask_clarification_schema(profile), name);
        let a = base.push(specs::ask_clarification_schema(profile));
        let yb = !o.book.denied.contains(REMEMBER_FACT@);
        let b = with_if(a, yb, specs::remember_fact_schema(profile));
        lemma_with_if(a, yb, specs::remember_fact_schema(profile), name);
        let yc = !o.book.denied.contains(RECALL@) && o.recall_applies;
        let c = with_if(b, yc, specs::recall_schema(profile));
        lemma_with_if(b, yc, specs::recall_schema(profile), name);
        let yd = !o.book.denied.contains(INSPECT_RESULT@) && trace::inspectable(
            o.events,
            o.turn,
            cfg.tool_result_max_chars as nat,
        ).len() > 0;
        let d = with_if(c, yd, specs::inspect_result_schema(profile));
        lemma_with_if(c, yd, specs::inspect_result_schema(profile), name);
        let ye = forgetting_applies(o) && !o.book.denied.contains(FORGET_FACT@);
        let e = with_if(d, ye, specs::forget_fact_schema(profile));
        lemma_with_if(d, ye, specs::forget_fact_schema(profile), name);
        let yf = forgetting_applies(o) && !o.book.denied.contains(FORGET_ALL@);
        let f = with_if(e, yf, specs::forget_all_schema(profile));
        lemma_with_if(e, yf, specs::forget_all_schema(profile), name);
        lemma_with_if(f, o.active_pending, specs::confirm_pending_schema(profile), name);
    }
}

/// No narrowing leaves the emitter without a way to end the turn: it may always
/// ask.
pub proof fn asking_is_always_on_offer(o: OfferV, cfg: EngineConfigV, tools: Seq<ActionSpecV>)
    ensures
        offers(on_offer(o, cfg, tools), ASK_CLARIFICATION@),
{
    the_offer_by_name(o, cfg, tools, ASK_CLARIFICATION@);
}

/// Once a value was refused that nothing grounds, asking is the only action.
pub proof fn only_asking_is_left_without_grounding(o: OfferV, cfg: EngineConfigV, tools: Seq<ActionSpecV>, name: Seq<char>)
    requires
        o.book.never_residual,
        offers(on_offer(o, cfg, tools), name),
    ensures
        name == ASK_CLARIFICATION@,
{
    the_offer_by_name(o, cfg, tools, name);
}

/// An action that was taken off the list is not offered again on the turn. The
/// question and the confirmation are never taken off.
pub proof fn what_was_denied_is_not_offered(o: OfferV, cfg: EngineConfigV, tools: Seq<ActionSpecV>, name: Seq<char>)
    requires
        o.book.denied.contains(name),
        name != ASK_CLARIFICATION@,
        name != CONFIRM_PENDING@,
    ensures
        !offers(on_offer(o, cfg, tools), name),
{
    the_offer_by_name(o, cfg, tools, name);
}

/// Confirming is on offer exactly while something waits for it, unless only the
/// question is left, and as far as no registered tool has its name.
pub proof fn confirming_needs_something_to_confirm(o: OfferV, cfg: EngineConfigV, tools: Seq<ActionSpecV>)
    requires
        !offers(tools, CONFIRM_PENDING@),
    ensures
        offers(on_offer(o, cfg, tools), CONFIRM_PENDING@) == (o.active_pending && !o.book.never_residual),
{
    the_offer_by_name(o, cfg, tools, CONFIRM_PENDING@);
    reveal_strlit("ask_clarification");
    reveal_strlit("confirm_pending");
    reveal_strlit("remember_fact");
    reveal_strlit("recall");
    reveal_strlit("inspect_result");
    reveal_strlit("forget_fact");
    reveal_strlit("forget_all");
    assert(CONFIRM_PENDING@.len() != ASK_CLARIFICATION@.len());
    assert(CONFIRM_PENDING@.len() != REMEMBER_FACT@.len());
    assert(CONFIRM_PENDING@.len() != RECALL@.len());
    assert(CONFIRM_PENDING@.len() != INSPECT_RESULT@.len());
    assert(CONFIRM_PENDING@.len() != FORGET_FACT@.len());
    assert(CONFIRM_PENDING@.len() != FORGET_ALL@.len());
}

/// An offer that leaves nothing out for want of facts or of a past holds
/// whatever a narrower one holds.
pub proof fn lifting_the_pruning_only_widens(o: OfferV, cfg: EngineConfigV, tools: Seq<ActionSpecV>, name: Seq<char>)
    requires
        offers(on_offer(o, cfg, tools), name),
    ensures
        offers(on_offer(OfferV { recall_applies: true, scope_holds_facts: true, ..o }, cfg, tools), name),
{
    let wide = OfferV { recall_applies: true, scope_holds_facts: true, ..o };
    the_offer_by_name(o, cfg, tools, name);
    the_offer_by_name(wide, cfg, tools, name);
    assert(carries_tools(o) == carries_tools(wide));
    assert(rides(o, name) == rides(wide, name));
}

/// A chat turn carries no registered tool, unless the route selected some.
pub proof fn a_chat_turn_carries_no_tools(o: OfferV, tools: Seq<ActionSpecV>)
    requires
        o.tier == Tier::Chat,
        o.selected_tools is None,
    ensures
        offered_tools(o, tools) == Seq::<ActionSpecV>::empty(),
{
}

/// When each action is on offer while the turn may still act: a registered tool where the
/// turn carries tools, the route chose it or chose none, and it was not taken off; asking
/// always; remembering, recalling and looking into results where they were not taken off
/// and mean something; forgetting where there is a fact and the turn has neither written
/// nor forgotten one; confirming where something waits for it.
pub proof fn what_may_be_chosen(o: OfferV, cfg: EngineConfigV, tools: Seq<ActionSpecV>, name: Seq<char>)
    requires
        !o.book.never_residual,
    ensures
        offers(on_offer(o, cfg, tools), name) <==> ({
            let barred = o.book.denied.contains(name);
            let chosen = match o.selected_tools {
                Some(sel) => sel.contains(name),
                None => o.tier != Tier::Chat,
            };
            let wrote = exists|i: int|
                0 <= i < o.book.calls.len() && crate::text::starts(#[trigger] o.book.calls[i], "remember_fact"@ + "\u{0}"@);
            let forgot = exists|i: int|
                0 <= i < o.book.calls.len() && crate::text::starts(#[trigger] o.book.calls[i], "forget_"@);
            ||| chosen && !barred && exists|i: int| 0 <= i < tools.len() && (#[trigger] tools[i]).name == name
            ||| name == "ask_clarification"@
            ||| name == "remember_fact"@ && !barred
            ||| name == "recall"@ && !barred && o.recall_applies
            ||| name == "inspect_result"@ && !barred && trace::inspectable(
                o.events,
                o.turn,
                cfg.tool_result_max_chars as nat,
            ).len() > 0
            ||| (name == "forget_fact"@ || name == "forget_all"@) && !barred && o.scope_holds_facts && !wrote && !forgot
            ||| name == "confirm_pending"@ && o.active_pending
        }),
{
    the_offer_by_name(o, cfg, tools, name);
}

/// The registered tools on offer come first, as they were registered and in that order.
pub proof fn tools_are_offered_as_registered(o: OfferV, cfg: EngineConfigV, tools: Seq<ActionSpecV>)
    requires
        !o.book.never_residual,
        o.selected_tools is None,
        o.tier != Tier::Chat,
        forall|i: int| 0 <= i < tools.len() ==> !o.book.denied.contains((#[trigger] tools[i]).name),
    ensures
        tools.is_prefix_of(on_offer(o, cfg, tools)),
{
    let keep = |s: ActionSpecV| rides(o, s.name);
    lemma_all_kept(tools, keep);
    let all = on_offer(o, cfg, tools);
    assert(tools =~= all.take(tools.len() as int));
}

proof fn lemma_all_kept<A>(s: Seq<A>, keep: spec_fn(A) -> bool)
    requires
        forall|i: int| 0 <= i < s.len() ==> keep(#[trigger] s[i]),
    ensures
        s.filter(keep) == s,
    decreases s.len(),
{
    reveal(Seq::filter);
    if s.len() > 0 {
        let rest = s.drop_last();
        assert forall|i: int| 0 <= i < rest.len() implies keep(#[trigger] rest[i]) by {
            assert(rest[i] == s[i]);
        }
        lemma_all_kept(rest, keep);
        assert(s[s.len() - 1] == s.last());
        assert(rest.push(s.last()) =~= s);
    }
}

} // verus!
