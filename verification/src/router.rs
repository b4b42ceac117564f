//! Deciding a turn's tier, and the tools it carries, before the first model
//! call.
//!
//! Everything here is a function of the message and of the turn's own facts, so a
//! replayed session routes as it was recorded.

use vstd::prelude::*;

use crate::text;
use crate::text::{has, listed, same, split_pieces, Sort};
use crate::types::{clone_texts, Tier};
use crate::unicode;

verus! {

/// How many tools a turn is shown.
#[derive(Debug, Clone, Copy, PartialEq, Eq, Structural)]
pub enum Depth {
    /// Every tool that the tier allows.
    Full,
    /// Only the tools that the message asks for, where it asks for any.
    Adaptive,
}

/// Everything that routing may see.
#[derive(Debug)]
pub struct RouteInput<'a> {
    pub user_text: &'a str,
    /// A staged action waits for yes or no.
    pub pending_confirmation: bool,
    /// The turn before this one called a tool.
    pub previous_turn_used_tools: bool,
    /// Names of the registered tools, in registration order.
    pub tool_names: &'a Vec<String>,
}

pub struct RouteInputV {
    pub user_text: Seq<char>,
    pub pending_confirmation: bool,
    pub previous_turn_used_tools: bool,
    pub tool_names: Seq<Seq<char>>,
}

impl<'a> DeepView for RouteInput<'a> {
    type V = RouteInputV;

    open spec fn deep_view(&self) -> RouteInputV {
        RouteInputV {
            user_text: self.user_text@,
            pending_confirmation: self.pending_confirmation,
            previous_turn_used_tools: self.previous_turn_used_tools,
            tool_names: self.tool_names.deep_view(),
        }
    }
}

/// The tier, the cues that decided it, and the tools that ride the turn (all of
/// them where there is no selection).
#[derive(Debug)]
pub struct Route {
    pub tier: Tier,
    pub cues: Vec<String>,
    pub tools: Option<Vec<String>>,
}

pub struct RouteV {
    pub tier: Tier,
    pub cues: Seq<Seq<char>>,
    pub tools: Option<Seq<Seq<char>>>,
}

impl DeepView for Route {
    type V = RouteV;

    open spec fn deep_view(&self) -> RouteV {
        RouteV {
            tier: self.tier,
            cues: self.cues.deep_view(),
            tools: self.tools.deep_view(),
        }
    }
}

impl Clone for Route {
    fn clone(&self) -> (r: Self)
        ensures
            r.deep_view() == self.deep_view(),
    {
        let r: Route = Route {
            tier: self.tier,
            cues: clone_texts(&self.cues),
            tools: self.tools.clone(),
        };
        proof {
            assert(r.tools.deep_view() =~= self.tools.deep_view());
        }
        r
    }
}

// ---------------------------------------------------------------------------
// Tool cues
// ---------------------------------------------------------------------------

/// A group of tools that one cue asks for together.
#[derive(Debug, Clone, Copy, PartialEq, Eq, Structural)]
pub enum ToolGroup {
    Ui,
    Typing,
    Scroll,
    Time,
}

/// The tool belongs to the group.
pub open spec fn in_group(g: ToolGroup, name: Seq<char>) -> bool {
    match g {
        ToolGroup::Ui => name == "pointer_ui_find"@ || name == "pointer_ui_read"@ || name == "pointer_click"@,
        ToolGroup::Typing => name == "pointer_type"@ || name == "pointer_clipboard_read"@ || name == "pointer_clipboard_write"@,
        ToolGroup::Scroll => name == "pointer_scroll"@,
        ToolGroup::Time => name == "get_time"@,
    }
}

fn is_in_group(g: ToolGroup, name: &str) -> (r: bool)
    ensures
        r == in_group(g, name@),
{
    match g {
        ToolGroup::Ui => same(name, "pointer_ui_find") || same(name, "pointer_ui_read") || same(name, "pointer_click"),
        ToolGroup::Typing => same(name, "pointer_type") || same(name, "pointer_clipboard_read") || same(name, "pointer_clipboard_write"),
        ToolGroup::Scroll => same(name, "pointer_scroll"),
        ToolGroup::Time => same(name, "get_time"),
    }
}

/// Which cue asks for which group.
pub open spec fn tool_cues() -> Seq<(Seq<char>, ToolGroup)> {
    seq![
        ("find"@, ToolGroup::Ui),
        ("click"@, ToolGroup::Ui),
        ("open"@, ToolGroup::Ui),
        ("button"@, ToolGroup::Ui),
        ("najdi"@, ToolGroup::Ui),
        ("klikni"@, ToolGroup::Ui),
        ("otevři"@, ToolGroup::Ui),
        ("type"@, ToolGroup::Typing),
        ("paste"@, ToolGroup::Typing),
        ("copy"@, ToolGroup::Typing),
        ("clipboard"@, ToolGroup::Typing),
        ("napiš"@, ToolGroup::Typing),
        ("vlož"@, ToolGroup::Typing),
        ("schránk"@, ToolGroup::Typing),
        ("scroll"@, ToolGroup::Scroll),
        ("down"@, ToolGroup::Scroll),
        ("up"@, ToolGroup::Scroll),
        ("sjeď"@, ToolGroup::Scroll),
        ("dolů"@, ToolGroup::Scroll),
        ("nahoru"@, ToolGroup::Scroll),
        ("time"@, ToolGroup::Time),
        ("clock"@, ToolGroup::Time),
        ("čas"@, ToolGroup::Time),
        ("hodin"@, ToolGroup::Time),
    ]
}

fn cue_table() -> (r: Vec<(&'static str, ToolGroup)>)
    ensures
        r@.len() == tool_cues().len(),
        forall|i: int| 0 <= i < r@.len() ==> (#[trigger] r@[i]).0@ == tool_cues()[i].0 && r@[i].1 == tool_cues()[i].1,
{
    let mut out: Vec<(&'static str, ToolGroup)> = Vec::new();
    out.push(("find", ToolGroup::Ui));
    out.push(("click", ToolGroup::Ui));
    out.push(("open", ToolGroup::Ui));
    out.push(("button", ToolGroup::Ui));
    out.push(("najdi", ToolGroup::Ui));
    out.push(("klikni", ToolGroup::Ui));
    out.push(("otevři", ToolGroup::Ui));
    out.push(("type", ToolGroup::Typing));
    out.push(("paste", ToolGroup::Typing));
    out.push(("copy", ToolGroup::Typing));
    out.push(("clipboard", ToolGroup::Typing));
    out.push(("napiš", ToolGroup::Typing));
    out.push(("vlož", ToolGroup::Typing));
    out.push(("schránk", ToolGroup::Typing));
    out.push(("scroll", ToolGroup::Scroll));
    out.push(("down", ToolGroup::Scroll));
    out.push(("up", ToolGroup::Scroll));
    out.push(("sjeď", ToolGroup::Scroll));
    out.push(("dolů", ToolGroup::Scroll));
    out.push(("nahoru", ToolGroup::Scroll));
    out.push(("time", ToolGroup::Time));
    out.push(("clock", ToolGroup::Time));
    out.push(("čas", ToolGroup::Time));
    out.push(("hodin", ToolGroup::Time));
    out
}

/// A stem: a cue that inflects. Every cue outside ASCII is one, and so are the
/// Czech cues that ASCII happens to hold.
pub open spec fn is_stem(cue: Seq<char>) -> bool {
    !vstd::utf8::is_ascii_chars(cue) || cue == "najdi"@ || cue == "klikni"@ || cue == "nahoru"@ || cue == "hodin"@
}

fn stem(cue: &str) -> (r: bool)
    ensures
        r == is_stem(cue@),
{
    !cue.is_ascii() || same(cue, "najdi") || same(cue, "klikni") || same(cue, "nahoru") || same(cue, "hodin")
}

/// A cue is met by a text and its words: a stem as a part of the text, because a
/// stem is worth more than a list of forms; any other cue as a whole word, because
/// `up` as a part would fire on "update".
pub open spec fn cue_met(s: Seq<char>, words: Seq<Seq<char>>, cue: Seq<char>) -> bool {
    if is_stem(cue) {
        text::contains(s, cue)
    } else {
        words.contains(cue)
    }
}

/// A cue fires on a message: it is met by the message and its own words.
pub open spec fn cue_fires(s: Seq<char>, cue: Seq<char>) -> bool {
    cue_met(s, text::pieces(s, Sort::Alnum, true), cue)
}

pub fn tool_cue_hit(text: &str, words: &Vec<String>, cue: &str) -> (r: bool)
    ensures
        r == cue_met(text@, words.deep_view(), cue@),
{
    if stem(cue) {
        has(text, cue)
    } else {
        listed(words, cue)
    }
}

/// The message asks for the tool: by a cue of its group, or by name.
pub open spec fn asks_for(s: Seq<char>, name: Seq<char>) -> bool {
    ||| exists|i: int|
        0 <= i < tool_cues().len() && cue_fires(s, (#[trigger] tool_cues()[i]).0) && in_group(tool_cues()[i].1, name)
    ||| text::contains(s, unicode::lowered(name))
}

fn wants(text: &str, words: &Vec<String>, table: &Vec<(&'static str, ToolGroup)>, name: &str) -> (r: bool)
    requires
        words.deep_view() == text::pieces(text@, Sort::Alnum, true),
        table@.len() == tool_cues().len(),
        forall|i: int|
            0 <= i < table@.len() ==> (#[trigger] table@[i]).0@ == tool_cues()[i].0 && table@[i].1 == tool_cues()[i].1,
    ensures
        r == asks_for(text@, name@),
{
    let mut i: usize = 0;
    while i < table.len()
        invariant
            i <= table@.len(),
            words.deep_view() == text::pieces(text@, Sort::Alnum, true),
            table@.len() == tool_cues().len(),
            forall|i: int|
                0 <= i < table@.len() ==> (#[trigger] table@[i]).0@ == tool_cues()[i].0 && table@[i].1
                    == tool_cues()[i].1,
            forall|k: int|
                0 <= k < i ==> !(cue_fires(text@, (#[trigger] tool_cues()[k]).0) && in_group(
                    tool_cues()[k].1,
                    name@,
                )),
        decreases table@.len() - i,
    {
        if is_in_group(table[i].1, name) && tool_cue_hit(text, words, table[i].0) {
            assert(cue_fires(text@, tool_cues()[i as int].0));
            return true;
        }
        i = i + 1;
    }
    let lower: String = name.to_lowercase();
    has(text, lower.as_str())
}

/// The registered tools that the message asks for, in registration order.
pub open spec fn asked_tools(s: Seq<char>, names: Seq<Seq<char>>) -> Seq<Seq<char>>
    decreases names.len(),
{
    if names.len() == 0 {
        seq![]
    } else {
        let rest = asked_tools(s, names.drop_last());
        if asks_for(s, names.last()) {
            rest.push(names.last())
        } else {
            rest
        }
    }
}

/// The selection: none where the message asks for no registered tool.
pub open spec fn selection(s: Seq<char>, names: Seq<Seq<char>>) -> Option<Seq<Seq<char>>> {
    let asked = asked_tools(s, names);
    if asked.len() == 0 {
        None
    } else {
        Some(asked)
    }
}

/// The registered tools that the message asks for, or `None` where it asks for
/// none and the full set is the honest answer.
pub fn select_tools(text_lower: &str, tool_names: &Vec<String>) -> (r: Option<Vec<String>>)
    ensures
        r.deep_view() == selection(text_lower@, tool_names.deep_view()),
{
    let ghost all = tool_names.deep_view();
    let words: Vec<String> = split_pieces(text_lower, Sort::Alnum, true);
    let table: Vec<(&'static str, ToolGroup)> = cue_table();
    let mut out: Vec<String> = Vec::new();
    let mut i: usize = 0;
    proof {
        assert(all.take(0) =~= seq![]);
        assert(out.deep_view() =~= seq![]);
    }
    while i < tool_names.len()
        invariant
            i <= tool_names@.len(),
            all == tool_names.deep_view(),
            words.deep_view() == text::pieces(text_lower@, Sort::Alnum, true),
            table@.len() == tool_cues().len(),
            forall|i: int|
                0 <= i < table@.len() ==> (#[trigger] table@[i]).0@ == tool_cues()[i].0 && table@[i].1
                    == tool_cues()[i].1,
            out.deep_view() == asked_tools(text_lower@, all.take(i as int)),
        decreases tool_names@.len() - i,
    {
        proof {
            assert(all.take(i + 1).drop_last() =~= all.take(i as int));
            assert(all.take(i + 1).last() == tool_names@[i as int]@);
        }
        if wants(text_lower, &words, &table, tool_names[i].as_str()) {
            let ghost before = out.deep_view();
            out.push(tool_names[i].clone());
            proof {
                assert(out.deep_view() =~= before.push(tool_names@[i as int]@));
            }
        }
        i = i + 1;
    }
    proof {
        assert(all.take(all.len() as int) =~= all);
    }
    if out.len() == 0 {
        None
    } else {
        Some(out)
    }
}

// ---------------------------------------------------------------------------
// The keyword router
// ---------------------------------------------------------------------------

/// Routing by lists of words.
#[derive(Debug)]
pub struct KeywordRouter {
    pub recall_cues: Vec<String>,
    pub task_cues: Vec<String>,
    pub depth: Depth,
}

pub struct KeywordRouterV {
    pub recall_cues: Seq<Seq<char>>,
    pub task_cues: Seq<Seq<char>>,
    pub depth: Depth,
}

impl DeepView for KeywordRouter {
    type V = KeywordRouterV;

    open spec fn deep_view(&self) -> KeywordRouterV {
        KeywordRouterV {
            recall_cues: self.recall_cues.deep_view(),
            task_cues: self.task_cues.deep_view(),
            depth: self.depth,
        }
    }
}

impl Clone for KeywordRouter {
    fn clone(&self) -> (r: Self)
        ensures
            r.deep_view() == self.deep_view(),
    {
        let r: KeywordRouter = KeywordRouter {
            recall_cues: clone_texts(&self.recall_cues),
            task_cues: clone_texts(&self.task_cues),
            depth: self.depth,
        };
        r
    }
}

pub open spec fn recall_words() -> Seq<Seq<char>> {
    seq!["before"@, "earlier"@, "last time"@, "what did i"@, "previously"@, "předtím"@, "dřív"@, "minule"@, "co jsem"@]
}

fn default_recall() -> (r: Vec<String>)
    ensures
        r.deep_view() == recall_words(),
{
    let mut out: Vec<String> = Vec::new();
    out.push("before".to_owned());
    out.push("earlier".to_owned());
    out.push("last time".to_owned());
    out.push("what did i".to_owned());
    out.push("previously".to_owned());
    out.push("předtím".to_owned());
    out.push("dřív".to_owned());
    out.push("minule".to_owned());
    out.push("co jsem".to_owned());
    proof {
        assert(out.deep_view() =~= recall_words());
    }
    out
}

pub open spec fn task_words() -> Seq<Seq<char>> {
    seq!["click"@, "type"@, "open"@, "screen"@, "window"@, "press"@, "scroll"@, "klikni"@, "napiš"@, "otevři"@, "obrazovk"@, "stiskni"@]
}

fn default_task() -> (r: Vec<String>)
    ensures
        r.deep_view() == task_words(),
{
    let mut out: Vec<String> = Vec::new();
    out.push("click".to_owned());
    out.push("type".to_owned());
    out.push("open".to_owned());
    out.push("screen".to_owned());
    out.push("window".to_owned());
    out.push("press".to_owned());
    out.push("scroll".to_owned());
    out.push("klikni".to_owned());
    out.push("napiš".to_owned());
    out.push("otevři".to_owned());
    out.push("obrazovk".to_owned());
    out.push("stiskni".to_owned());
    proof {
        assert(out.deep_view() =~= task_words());
    }
    out
}

impl Default for KeywordRouter {
    fn default() -> (r: Self)
        ensures
            r.deep_view() == (KeywordRouterV {
                recall_cues: recall_words(),
                task_cues: task_words(),
                depth: Depth::Full,
            }),
    {
        KeywordRouter { recall_cues: default_recall(), task_cues: default_task(), depth: Depth::Full }
    }
}

/// The first cue that stands in the text.
pub open spec fn first_cue(s: Seq<char>, cues: Seq<Seq<char>>) -> Option<Seq<char>>
    decreases cues.len(),
{
    if cues.len() == 0 {
        None
    } else if text::contains(s, cues[0]) {
        Some(cues[0])
    } else {
        first_cue(s, cues.drop_first())
    }
}

pub fn hit(text: &str, cues: &Vec<String>) -> (r: Option<String>)
    ensures
        r.deep_view() == first_cue(text@, cues.deep_view()),
{
    let ghost all = cues.deep_view();
    let mut i: usize = 0;
    proof {
        assert(all.skip(0) =~= all);
    }
    while i < cues.len()
        invariant
            i <= cues@.len(),
            all == cues.deep_view(),
            first_cue(text@, all) == first_cue(text@, all.skip(i as int)),
        decreases cues@.len() - i,
    {
        proof {
            assert(all.skip(i as int)[0] == cues@[i as int]@);
            assert(all.skip(i as int).drop_first() =~= all.skip(i + 1));
        }
        if has(text, cues[i].as_str()) {
            return Some(cues[i].clone());
        }
        i = i + 1;
    }
    None
}

/// The first tool whose name stands in the text, case aside.
pub open spec fn first_named(s: Seq<char>, names: Seq<Seq<char>>) -> Option<Seq<char>>
    decreases names.len(),
{
    if names.len() == 0 {
        None
    } else if text::contains(s, unicode::lowered(names[0])) {
        Some(names[0])
    } else {
        first_named(s, names.drop_first())
    }
}

fn named_tool(text: &str, names: &Vec<String>) -> (r: Option<String>)
    ensures
        r.deep_view() == first_named(text@, names.deep_view()),
{
    let ghost all = names.deep_view();
    let mut i: usize = 0;
    proof {
        assert(all.skip(0) =~= all);
    }
    while i < names.len()
        invariant
            i <= names@.len(),
            all == names.deep_view(),
            first_named(text@, all) == first_named(text@, all.skip(i as int)),
        decreases names@.len() - i,
    {
        proof {
            assert(all.skip(i as int)[0] == names@[i as int]@);
            assert(all.skip(i as int).drop_first() =~= all.skip(i + 1));
        }
        let lower: String = names[i].as_str().to_lowercase();
        if has(text, lower.as_str()) {
            return Some(names[i].clone());
        }
        i = i + 1;
    }
    None
}

/// A route that one cue decided.
pub open spec fn routed(tier: Tier, cue: Seq<char>) -> RouteV {
    RouteV { tier, cues: seq![cue], tools: None }
}

fn route_to(tier: Tier, cue: String) -> (r: Route)
    ensures
        r.deep_view() == routed(tier, cue@),
{
    let mut cues: Vec<String> = Vec::new();
    cues.push(cue);
    let r: Route = Route { tier, cues, tools: None };
    proof {
        assert(r.cues.deep_view() =~= seq![cue@]);
    }
    r
}

/// The tier of a message. A waiting confirmation outranks every word; then
/// what was said before, then what is to be done, then a tool by its name, then
/// a task in progress.
pub open spec fn tier_for(k: KeywordRouterV, s: Seq<char>, input: RouteInputV) -> RouteV {
    if input.pending_confirmation {
        routed(Tier::Task, "pending confirmation"@)
    } else if let Some(cue) = first_cue(s, k.recall_cues) {
        routed(Tier::Deep, cue)
    } else if let Some(cue) = first_cue(s, k.task_cues) {
        routed(Tier::Task, cue)
    } else if let Some(name) = first_named(s, input.tool_names) {
        routed(Tier::Task, name)
    } else if input.previous_turn_used_tools {
        routed(Tier::Task, "mid-task"@)
    } else {
        RouteV { tier: Tier::Chat, cues: seq![], tools: None }
    }
}

/// The route of a message: its tier and, under adaptive depth where the tier
/// carries tools, the selection.
pub open spec fn route_for(k: KeywordRouterV, input: RouteInputV) -> RouteV {
    let s = unicode::lowered(input.user_text);
    let route = tier_for(k, s, input);
    if k.depth == Depth::Adaptive && route.tier != Tier::Chat {
        RouteV { tools: selection(s, input.tool_names), ..route }
    } else {
        route
    }
}

/// Decides what kind of turn a message begins.
pub trait Router {
    spec fn routes(&self, input: RouteInputV) -> RouteV;

    fn route(&self, input: &RouteInput) -> (r: Route)
        ensures
            r.deep_view() == self.routes(input.deep_view()),
    ;
}

impl KeywordRouter {
    pub fn tier_of(&self, text: &str, input: &RouteInput) -> (r: Route)
        ensures
            r.deep_view() == tier_for(self.deep_view(), text@, input.deep_view()),
    {
        if input.pending_confirmation {
            return route_to(Tier::Task, "pending confirmation".to_owned());
        }
        if let Some(cue) = hit(text, &self.recall_cues) {
            return route_to(Tier::Deep, cue);
        }
        if let Some(cue) = hit(text, &self.task_cues) {
            return route_to(Tier::Task, cue);
        }
        if let Some(name) = named_tool(text, input.tool_names) {
            return route_to(Tier::Task, name);
        }
        if input.previous_turn_used_tools {
            return route_to(Tier::Task, "mid-task".to_owned());
        }
        let r: Route = Route { tier: Tier::Chat, cues: Vec::new(), tools: None };
        proof {
            assert(r.cues.deep_view() =~= seq![]);
        }
        r
    }

}

impl Router for KeywordRouter {
    open spec fn routes(&self, input: RouteInputV) -> RouteV {
        route_for(self.deep_view(), input)
    }

    fn route(&self, input: &RouteInput) -> (r: Route)
    {
        let text: String = input.user_text.to_lowercase();
        let mut route: Route = self.tier_of(text.as_str(), input);
        if self.depth == Depth::Adaptive && route.tier.allows_tools() {
            route.tools = select_tools(text.as_str(), input.tool_names);
        }
        route
    }
}

// ---------------------------------------------------------------------------
// Laws
// ---------------------------------------------------------------------------

/// A selection is never empty, names only registered tools that the message asks
/// for, leaves none of those out, and keeps their order.
pub proof fn a_selection_is_the_asked_tools_in_order(s: Seq<char>, names: Seq<Seq<char>>)
    ensures
        asked_tools(s, names) == names.filter(|n: Seq<char>| asks_for(s, n)),
        selection(s, names) matches Some(sel) ==> sel.len() > 0 && forall|n: Seq<char>| #[trigger]
            sel.contains(n) <==> names.contains(n) && asks_for(s, n),
        selection(s, names) is None <==> forall|n: Seq<char>| #[trigger] names.contains(n) ==> !asks_for(s, n),
    decreases names.len(),
{
    lemma_asked_is_filter(s, names);
    let sel = asked_tools(s, names);
    assert forall|n: Seq<char>| #[trigger] sel.contains(n) <==> names.contains(n) && asks_for(s, n) by {
        lemma_asked_contains(s, names, n);
    }
    if sel.len() == 0 {
        assert forall|n: Seq<char>| #[trigger] names.contains(n) implies !asks_for(s, n) by {
            lemma_asked_contains(s, names, n);
        }
    } else {
        assert(sel.contains(sel[0]));
    }
}

proof fn lemma_asked_contains(s: Seq<char>, names: Seq<Seq<char>>, n: Seq<char>)
    ensures
        asked_tools(s, names).contains(n) <==> names.contains(n) && asks_for(s, n),
    decreases names.len(),
{
    if names.len() > 0 {
        let front = names.drop_last();
        let rest = asked_tools(s, front);
        let all = asked_tools(s, names);
        lemma_asked_contains(s, front, n);
        if rest.contains(n) {
            let j = choose|j: int| 0 <= j < rest.len() && rest[j] == n;
            assert(all[j] == n);
            let k = choose|k: int| 0 <= k < front.len() && front[k] == n;
            assert(names[k] == n);
        }
        if names.last() == n {
            assert(names[names.len() - 1] == n);
            if asks_for(s, n) {
                assert(all[rest.len() as int] == n);
            }
        }
        if all.contains(n) && !rest.contains(n) {
            let j = choose|j: int| 0 <= j < all.len() && all[j] == n;
            if j < rest.len() {
                assert(rest[j] == n);
            }
        }
        if names.contains(n) && names.last() != n {
            let k = choose|k: int| 0 <= k < names.len() && names[k] == n;
            assert(front[k] == n);
        }
    }
}

proof fn lemma_asked_is_filter(s: Seq<char>, names: Seq<Seq<char>>)
    ensures
        asked_tools(s, names) == names.filter(|n: Seq<char>| asks_for(s, n)),
    decreases names.len(),
{
    reveal(Seq::filter);
    if names.len() > 0 {
        lemma_asked_is_filter(s, names.drop_last());
    } else {
        assert(asked_tools(s, names) =~= names.filter(|n: Seq<char>| asks_for(s, n)));
    }
}

/// A stem fires on every inflected form of it; any other cue fires on no word but
/// itself.
pub proof fn stems_fire_inside_words(s: Seq<char>, cue: Seq<char>)
    ensures
        is_stem(cue) ==> (cue_fires(s, cue) <==> text::contains(s, cue)),
        !is_stem(cue) ==> (cue_fires(s, cue) <==> text::pieces(s, Sort::Alnum, true).contains(cue)),
{
}

/// A waiting confirmation always reaches a tier that can act on it, whatever the
/// words are.
pub proof fn a_pending_confirmation_outranks_every_word(k: KeywordRouterV, input: RouteInputV)
    requires
        input.pending_confirmation,
    ensures
        route_for(k, input).tier == Tier::Task,
{
}

/// A chat turn carries no selection, and full depth never selects.
pub proof fn selections_only_where_tools_ride(k: KeywordRouterV, input: RouteInputV)
    ensures
        route_for(k, input).tools is Some ==> k.depth == Depth::Adaptive && route_for(k, input).tier != Tier::Chat,
{
}

/// The first cue that the message holds is at `i`.
pub open spec fn holds_first(s: Seq<char>, cues: Seq<Seq<char>>, i: int) -> bool {
    &&& 0 <= i < cues.len()
    &&& text::contains(s, cues[i])
    &&& forall|j: int| 0 <= j < i ==> !text::contains(s, #[trigger] cues[j])
}

proof fn lemma_first_cue(s: Seq<char>, cues: Seq<Seq<char>>)
    ensures
        match first_cue(s, cues) {
            Some(c) => exists|i: int| #[trigger] holds_first(s, cues, i) && cues[i] == c,
            None => forall|i: int| 0 <= i < cues.len() ==> !text::contains(s, #[trigger] cues[i]),
        },
    decreases cues.len(),
{
    if cues.len() > 0 {
        if text::contains(s, cues[0]) {
            assert(holds_first(s, cues, 0));
        } else {
            let rest = cues.drop_first();
            lemma_first_cue(s, rest);
            match first_cue(s, rest) {
                Some(c) => {
                    let i = choose|i: int| #[trigger] holds_first(s, rest, i) && rest[i] == c;
                    assert forall|j: int| 0 <= j < i + 1 implies !text::contains(s, #[trigger] cues[j]) by {
                        if j > 0 {
                            assert(rest[j - 1] == cues[j]);
                        }
                    }
                    assert(holds_first(s, cues, i + 1));
                },
                None => {
                    assert forall|i: int| 0 <= i < cues.len() implies !text::contains(s, #[trigger] cues[i]) by {
                        if i > 0 {
                            assert(rest[i - 1] == cues[i]);
                        }
                    }
                },
            }
        }
    }
}

/// The names in lowercase.
pub open spec fn lowercase_names(names: Seq<Seq<char>>) -> Seq<Seq<char>> {
    Seq::new(names.len(), |i: int| unicode::lowered(names[i]))
}

proof fn lemma_first_named(s: Seq<char>, names: Seq<Seq<char>>)
    ensures
        match first_named(s, names) {
            Some(n) => exists|i: int| #[trigger] holds_first(s, lowercase_names(names), i) && names[i] == n,
            None => forall|i: int| 0 <= i < names.len() ==> !text::contains(s, unicode::lowered(#[trigger] names[i])),
        },
    decreases names.len(),
{
    let low = lowercase_names(names);
    if names.len() > 0 {
        if text::contains(s, low[0]) {
            assert(holds_first(s, low, 0));
        } else {
            let rest = names.drop_first();
            lemma_first_named(s, rest);
            assert(lowercase_names(rest) =~= low.drop_first());
            match first_named(s, rest) {
                Some(n) => {
                    let i = choose|i: int| #[trigger] holds_first(s, lowercase_names(rest), i) && rest[i] == n;
                    assert forall|j: int| 0 <= j < i + 1 implies !text::contains(s, #[trigger] low[j]) by {
                        if j > 0 {
                            assert(lowercase_names(rest)[j - 1] == low[j]);
                        }
                    }
                    assert(low[i + 1] == lowercase_names(rest)[i]);
                    assert(holds_first(s, low, i + 1));
                },
                None => {
                    assert forall|i: int| 0 <= i < names.len() implies !text::contains(
                        s,
                        unicode::lowered(#[trigger] names[i]),
                    ) by {
                        if i > 0 {
                            assert(rest[i - 1] == names[i]);
                        } else {
                            assert(low[0] == unicode::lowered(names[0]));
                        }
                    }
                },
            }
        }
    }
}

/// With nothing pending, a message that asks about the past is a deep turn, by the
/// first recall cue that it holds, whatever it wants done besides.
pub proof fn a_question_about_the_past_outranks_a_task(k: KeywordRouterV, input: RouteInputV, i: int)
    requires
        !input.pending_confirmation,
        holds_first(unicode::lowered(input.user_text), k.recall_cues, i),
    ensures
        route_for(k, input).tier == Tier::Deep,
        route_for(k, input).cues == seq![k.recall_cues[i]],
{
    let s = unicode::lowered(input.user_text);
    lemma_first_cue(s, k.recall_cues);
    let j = choose|j: int| #[trigger] holds_first(s, k.recall_cues, j) && Some(k.recall_cues[j]) == first_cue(
        s,
        k.recall_cues,
    );
    if i < j {
        assert(!text::contains(s, k.recall_cues[i]));
    } else if j < i {
        assert(!text::contains(s, k.recall_cues[j]));
    }
}

/// Only a message that holds a recall cue is a deep turn.
pub proof fn only_a_question_about_the_past_is_deep(k: KeywordRouterV, input: RouteInputV)
    requires
        route_for(k, input).tier == Tier::Deep,
    ensures
        !input.pending_confirmation,
        exists|i: int|
            0 <= i < k.recall_cues.len() && text::contains(
                unicode::lowered(input.user_text),
                #[trigger] k.recall_cues[i],
            ),
{
    let s = unicode::lowered(input.user_text);
    lemma_first_cue(s, k.recall_cues);
    let i = choose|i: int| #[trigger] holds_first(s, k.recall_cues, i);
    assert(text::contains(s, k.recall_cues[i]));
}

/// What makes a message without a recall cue a task, each outranking the next: a word
/// for doing, a tool's name, a task in progress. The cue that is noted is the one that
/// decided.
pub proof fn a_task_is_told_by_its_cue(k: KeywordRouterV, input: RouteInputV, i: int)
    requires
        !input.pending_confirmation,
        forall|j: int|
            0 <= j < k.recall_cues.len() ==> !text::contains(
                unicode::lowered(input.user_text),
                #[trigger] k.recall_cues[j],
            ),
    ensures
        holds_first(unicode::lowered(input.user_text), k.task_cues, i) ==> route_for(k, input).tier == Tier::Task
            && route_for(k, input).cues == seq![k.task_cues[i]],
        (forall|j: int|
            0 <= j < k.task_cues.len() ==> !text::contains(unicode::lowered(input.user_text), #[trigger] k.task_cues[j]))
            ==> {
            &&& holds_first(unicode::lowered(input.user_text), lowercase_names(input.tool_names), i) ==> route_for(
                k,
                input,
            ).tier == Tier::Task && route_for(k, input).cues == seq![input.tool_names[i]]
            &&& (forall|j: int|
                0 <= j < input.tool_names.len() ==> !text::contains(
                    unicode::lowered(input.user_text),
                    unicode::lowered(#[trigger] input.tool_names[j]),
                )) ==> {
                &&& input.previous_turn_used_tools ==> route_for(k, input).tier == Tier::Task && route_for(k, input).cues
                    == seq!["mid-task"@]
                &&& !input.previous_turn_used_tools ==> route_for(k, input) == (RouteV {
                    tier: Tier::Chat,
                    cues: seq![],
                    tools: None,
                })
            }
        },
{
    let s = unicode::lowered(input.user_text);
    lemma_first_cue(s, k.recall_cues);
    if let Some(c) = first_cue(s, k.recall_cues) {
        let j = choose|j: int| #[trigger] holds_first(s, k.recall_cues, j);
        assert(!text::contains(s, k.recall_cues[j]));
    }
    lemma_first_cue(s, k.task_cues);
    if holds_first(s, k.task_cues, i) {
        assert(text::contains(s, k.task_cues[i]));
        let j = choose|j: int| #[trigger] holds_first(s, k.task_cues, j) && Some(k.task_cues[j]) == first_cue(
            s,
            k.task_cues,
        );
        if i < j {
            assert(!text::contains(s, k.task_cues[i]));
        } else if j < i {
            assert(!text::contains(s, k.task_cues[j]));
        }
    }
    if forall|j: int| 0 <= j < k.task_cues.len() ==> !text::contains(s, #[trigger] k.task_cues[j]) {
        if let Some(c) = first_cue(s, k.task_cues) {
            let j = choose|j: int| #[trigger] holds_first(s, k.task_cues, j);
            assert(!text::contains(s, k.task_cues[j]));
        }
        let low = lowercase_names(input.tool_names);
        lemma_first_named(s, input.tool_names);
        if holds_first(s, low, i) {
            assert(text::contains(s, unicode::lowered(input.tool_names[i])));
            let j = choose|j: int|
                #[trigger] holds_first(s, low, j) && Some(input.tool_names[j]) == first_named(s, input.tool_names);
            if i < j {
                assert(!text::contains(s, low[i]));
            } else if j < i {
                assert(!text::contains(s, low[j]));
            }
        }
        if forall|j: int|
            0 <= j < input.tool_names.len() ==> !text::contains(s, unicode::lowered(#[trigger] input.tool_names[j])) {
            if let Some(n) = first_named(s, input.tool_names) {
                let j = choose|j: int| #[trigger] holds_first(s, low, j) && input.tool_names[j] == n;
                assert(!text::contains(s, unicode::lowered(input.tool_names[j])));
            }
        }
    }
}

/// A waiting confirmation is noted as what decided.
pub proof fn a_pending_confirmation_is_noted(k: KeywordRouterV, input: RouteInputV)
    requires
        input.pending_confirmation,
    ensures
        route_for(k, input).cues == seq!["pending confirmation"@],
{
}

/// The message holds one of the cues, as a part of it.
pub open spec fn holds_any(s: Seq<char>, stems: Seq<Seq<char>>) -> bool {
    exists|i: int| 0 <= i < stems.len() && text::contains(s, #[trigger] stems[i])
}

/// One of the cues is a word of the message.
pub open spec fn says_any(s: Seq<char>, words: Seq<Seq<char>>) -> bool {
    exists|i: int| 0 <= i < words.len() && text::pieces(s, Sort::Alnum, true).contains(#[trigger] words[i])
}

/// Which words ask for which tools: for the screen, for typing, for scrolling, for the
/// time, each in English as a whole word or in Czech as a stem; and any tool by its
/// name. A word that asks for one group asks for no tool of another.
pub proof fn each_group_has_its_words(s: Seq<char>, name: Seq<char>)
    ensures
        ({
            let ui = name == "pointer_ui_find"@ || name == "pointer_ui_read"@ || name == "pointer_click"@;
            let typing = name == "pointer_type"@ || name == "pointer_clipboard_read"@ || name
                == "pointer_clipboard_write"@;
            let scroll = name == "pointer_scroll"@;
            let time = name == "get_time"@;
            asks_for(s, name) <==> {
                ||| text::contains(s, unicode::lowered(name))
                ||| ui && (says_any(s, seq!["find"@, "click"@, "open"@, "button"@]) || holds_any(
                    s,
                    seq!["najdi"@, "klikni"@, "otevři"@],
                ))
                ||| typing && (says_any(s, seq!["type"@, "paste"@, "copy"@, "clipboard"@]) || holds_any(
                    s,
                    seq!["napiš"@, "vlož"@, "schránk"@],
                ))
                ||| scroll && (says_any(s, seq!["scroll"@, "down"@, "up"@]) || holds_any(
                    s,
                    seq!["sjeď"@, "dolů"@, "nahoru"@],
                ))
                ||| time && (says_any(s, seq!["time"@, "clock"@]) || holds_any(s, seq!["čas"@, "hodin"@]))
            }
        }),
{
    lemma_stems();
    let t = tool_cues();
    let ws = text::pieces(s, Sort::Alnum, true);
    let (u, v) = (seq!["find"@, "click"@, "open"@, "button"@], seq!["najdi"@, "klikni"@, "otevři"@]);
    let (x, y) = (seq!["type"@, "paste"@, "copy"@, "clipboard"@], seq!["napiš"@, "vlož"@, "schránk"@]);
    let (a, b) = (seq!["scroll"@, "down"@, "up"@], seq!["sjeď"@, "dolů"@, "nahoru"@]);
    let (c, d) = (seq!["time"@, "clock"@], seq!["čas"@, "hodin"@]);
    assert(t[0] == (u[0], ToolGroup::Ui) && t[1] == (u[1], ToolGroup::Ui) && t[2] == (u[2], ToolGroup::Ui) && t[3] == (
        u[3],
        ToolGroup::Ui,
    ) && t[4] == (v[0], ToolGroup::Ui) && t[5] == (v[1], ToolGroup::Ui) && t[6] == (v[2], ToolGroup::Ui));
    assert(t[7] == (x[0], ToolGroup::Typing) && t[8] == (x[1], ToolGroup::Typing) && t[9] == (x[2], ToolGroup::Typing)
        && t[10] == (x[3], ToolGroup::Typing) && t[11] == (y[0], ToolGroup::Typing) && t[12] == (y[1], ToolGroup::Typing)
        && t[13] == (y[2], ToolGroup::Typing));
    assert(t[14] == (a[0], ToolGroup::Scroll) && t[15] == (a[1], ToolGroup::Scroll) && t[16] == (a[2], ToolGroup::Scroll)
        && t[17] == (b[0], ToolGroup::Scroll) && t[18] == (b[1], ToolGroup::Scroll) && t[19] == (b[2], ToolGroup::Scroll));
    assert(t[20] == (c[0], ToolGroup::Time) && t[21] == (c[1], ToolGroup::Time) && t[22] == (d[0], ToolGroup::Time)
        && t[23] == (d[1], ToolGroup::Time));
    if exists|i: int| 0 <= i < t.len() && cue_fires(s, (#[trigger] t[i]).0) && in_group(t[i].1, name) {
        let i = choose|i: int| 0 <= i < t.len() && cue_fires(s, (#[trigger] t[i]).0) && in_group(t[i].1, name);
        assert(t.len() == 24);
    }
}

/// Which of the cues are stems.
proof fn lemma_stems()
    ensures
        is_stem("najdi"@) && is_stem("klikni"@) && is_stem("otevři"@) && is_stem("napiš"@) && is_stem("vlož"@),
        is_stem("schránk"@) && is_stem("sjeď"@) && is_stem("dolů"@) && is_stem("nahoru"@) && is_stem("čas"@),
        is_stem("hodin"@),
        !is_stem("find"@) && !is_stem("click"@) && !is_stem("open"@) && !is_stem("button"@) && !is_stem("type"@),
        !is_stem("paste"@) && !is_stem("copy"@) && !is_stem("clipboard"@) && !is_stem("scroll"@) && !is_stem("down"@),
        !is_stem("up"@) && !is_stem("time"@) && !is_stem("clock"@),
{
    reveal_strlit("najdi");
    reveal_strlit("klikni");
    reveal_strlit("nahoru");
    reveal_strlit("hodin");
    reveal_strlit("otevři");
    reveal_strlit("napiš");
    reveal_strlit("vlož");
    reveal_strlit("schránk");
    reveal_strlit("sjeď");
    reveal_strlit("dolů");
    reveal_strlit("čas");
    reveal_strlit("find");
    reveal_strlit("click");
    reveal_strlit("open");
    reveal_strlit("button");
    reveal_strlit("type");
    reveal_strlit("paste");
    reveal_strlit("copy");
    reveal_strlit("clipboard");
    reveal_strlit("scroll");
    reveal_strlit("down");
    reveal_strlit("up");
    reveal_strlit("time");
    reveal_strlit("clock");
    assert(!vstd::utf8::is_ascii_chars("otevři"@)) by {
        assert("otevři"@[4] == 'ř');
    }
    assert(!vstd::utf8::is_ascii_chars("napiš"@)) by {
        assert("napiš"@[4] == 'š');
    }
    assert(!vstd::utf8::is_ascii_chars("vlož"@)) by {
        assert("vlož"@[3] == 'ž');
    }
    assert(!vstd::utf8::is_ascii_chars("schránk"@)) by {
        assert("schránk"@[4] == 'á');
    }
    assert(!vstd::utf8::is_ascii_chars("sjeď"@)) by {
        assert("sjeď"@[3] == 'ď');
    }
    assert(!vstd::utf8::is_ascii_chars("dolů"@)) by {
        assert("dolů"@[3] == 'ů');
    }
    assert(!vstd::utf8::is_ascii_chars("čas"@)) by {
        assert("čas"@[0] == 'č');
    }
    assert("find"@[0] == 'f' && "click"@[0] == 'c' && "button"@[0] == 'b' && "paste"@[0] == 'p' && "scroll"@[0] == 's'
        && "clock"@[0] == 'c' && "najdi"@[0] == 'n' && "nahoru"@[0] == 'n' && "hodin"@[0] == 'h' && "klikni"@[0] == 'k');
}

/// The words that ask about the past and those for doing that a router begins with.
pub proof fn the_default_cues_cover_both_languages(s: Seq<char>)
    ensures
        holds_any(s, recall_words()) <==> {
            ||| text::contains(s, "before"@) || text::contains(s, "earlier"@) || text::contains(s, "last time"@)
            ||| text::contains(s, "what did i"@) || text::contains(s, "previously"@)
            ||| text::contains(s, "předtím"@) || text::contains(s, "dřív"@) || text::contains(s, "minule"@)
            ||| text::contains(s, "co jsem"@)
        },
        holds_any(s, task_words()) <==> {
            ||| text::contains(s, "click"@) || text::contains(s, "type"@) || text::contains(s, "open"@)
            ||| text::contains(s, "screen"@) || text::contains(s, "window"@) || text::contains(s, "press"@)
            ||| text::contains(s, "scroll"@) || text::contains(s, "klikni"@) || text::contains(s, "napiš"@)
            ||| text::contains(s, "otevři"@) || text::contains(s, "obrazovk"@) || text::contains(s, "stiskni"@)
        },
{
    let r = recall_words();
    let t = task_words();
    assert(r.len() == 9 && t.len() == 12);
    assert(r[0] == "before"@ && r[1] == "earlier"@ && r[2] == "last time"@ && r[3] == "what did i"@ && r[4]
        == "previously"@ && r[5] == "předtím"@ && r[6] == "dřív"@ && r[7] == "minule"@ && r[8] == "co jsem"@);
    assert(t[0] == "click"@ && t[1] == "type"@ && t[2] == "open"@ && t[3] == "screen"@ && t[4] == "window"@ && t[5]
        == "press"@ && t[6] == "scroll"@ && t[7] == "klikni"@ && t[8] == "napiš"@ && t[9] == "otevři"@ && t[10]
        == "obrazovk"@ && t[11] == "stiskni"@);
}

/// Under adaptive depth a turn with tools carries the tools that its message asks for,
/// in the order in which they are registered, or all of them where it asks for none.
pub proof fn adaptive_depth_carries_what_is_asked_for(k: KeywordRouterV, input: RouteInputV, n: Seq<char>)
    requires
        k.depth == Depth::Adaptive,
        route_for(k, input).tier != Tier::Chat,
    ensures
        match route_for(k, input).tools {
            Some(sel) => sel.len() > 0 && (sel.contains(n) <==> input.tool_names.contains(n) && asks_for(
                unicode::lowered(input.user_text),
                n,
            )),
            None => input.tool_names.contains(n) ==> !asks_for(unicode::lowered(input.user_text), n),
        },
{
    a_selection_is_the_asked_tools_in_order(unicode::lowered(input.user_text), input.tool_names);
}

/// A router routes by its cues, whatever the case of the message: its answer is the one for
/// the lowered words.
pub proof fn a_router_reads_past_case(r: KeywordRouter, input: RouteInputV)
    ensures
        ({
            let s = unicode::lowered(input.user_text);
            let base = tier_for(r.deep_view(), s, input);
            let route = r.routes(input);
            &&& route.tier == base.tier && route.cues == base.cues
            &&& r.deep_view().depth != Depth::Adaptive || base.tier == Tier::Chat ==> route.tools == base.tools
            &&& r.deep_view().depth == Depth::Adaptive && base.tier != Tier::Chat ==> route.tools == selection(
                s,
                input.tool_names,
            )
        }),
{
}

} // verus!
