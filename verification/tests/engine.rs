//! Whole turns, with scripted models, a memory in the process and plain
//! stand-ins for what renders, classifies and searches.

use ns_engine::contexts::{EmitterContext, ReplyContext, ShownFact, ShownNote, ShownRecord};
use ns_engine::eval::desk::{DeskTool, DesktopEmitter, Step, HEAD_CONTROL, RESULT_CONTROL, SEARCH_CONTROL, TAIL_CONTROL};
use ns_engine::eval::grade;
use ns_engine::eval::report::{render_table, Ability, Harness};
use ns_engine::eval::shown::{draft, spent, Shown, INERT};
use ns_engine::events::{
    ActionSpec, Event, EventKind, EventLog, Proposal, RejectReason, ReplyPolicy, StagedEffect, ToolOutcome, ToolOutput,
    TurnRecord,
};
use ns_engine::facts::{Fact, FactView};
use ns_engine::guards::ClassifiedProposal;
use ns_engine::replay::{
    diff, doubles_from, normalize, replay_config, replay_session, replay_with, rerun, QueueReplier, ReplayError, ReplayOptions,
    ReplayTool, Replayed,
};
use ns_engine::router::KeywordRouter;
use ns_engine::script::{DenyAction, EchoTool, ScriptedEmitter, ScriptedReplier};
use ns_engine::store::{InMemoryStore, NoopConsolidator};
use ns_engine::turn::accounting::{unsaved, BookedCall};
use ns_engine::turn::builtins::fact_key;
use ns_engine::turn::config::{EngineConfig, Template};
use ns_engine::turn::drive::Answer;
use ns_engine::turn::gate::Objection;
use ns_engine::turn::memory::{pinned_facts, select_facts, use_fact, view_of};
use ns_engine::turn::progress::{Ctx, Turn};
use ns_engine::turn::prompt::{compose_prompt, finish_prompt, Circumstances, Compose};
use ns_engine::turn::reply::{echo_of, finish_reply_prompt, Draft, Redraft};
use ns_engine::turn::retrieval::{recall_outcome, Findings};
use ns_engine::turn::routing::route_turn;
use ns_engine::turn::run::{next_turn, recall_applies, reply_text, scope_holds_facts, EmitFailure};
use ns_engine::turn::steer::{Arguments, Around, Need};
use ns_engine::turn::tools::ToolFailure;
use ns_engine::types::{Json, Provenance, SessionId, SideEffect, TaggedValue, Tier, Timestamp, Trust};

// ---------------------------------------------------------------------------
// Stand-ins for what is outside
// ---------------------------------------------------------------------------

fn json(text: &str) -> Json {
    Json { text: text.to_string() }
}

fn clock_text(t: Timestamp) -> String {
    let minutes = t.0 / 60_000;
    format!("{:02}:{:02} UTC", minutes / 60 % 24, minutes % 60)
}

fn render_fact(v: &FactView) -> String {
    match &v.previous {
        Some(p) => format!("{}: {} (was {} until {})", v.fact.key, v.fact.value.text, p.value.text, clock_text(p.until)),
        None => format!("{}: {}", v.fact.key, v.fact.value.text),
    }
}

fn render_record(r: &TurnRecord) -> String {
    let mut s = format!("[t{}] user: {}", r.turn, r.user);
    for d in &r.did {
        s.push_str(&format!("\n      did:  {d}"));
    }
    s.push_str(&format!("\n      bot:  {}", r.reply));
    s
}

fn tokens(query: &str) -> Vec<String> {
    query
        .to_lowercase()
        .split(|c: char| !c.is_alphanumeric())
        .filter(|w| w.chars().count() > 2)
        .map(|w| w.to_string())
        .collect()
}

fn relevant(live: &[Fact], query: &str) -> Vec<Fact> {
    let words = tokens(query);
    live.iter()
        .filter(|f| {
            let hay = format!("{} {}", f.key, f.value.text).to_lowercase();
            words.iter().any(|w| hay.contains(w.as_str()))
        })
        .cloned()
        .collect()
}

/// Where each argument comes from: the message, an earlier result, or nowhere.
fn classify(events: &[Event], user_text: &str, turn: u32, args: &Json) -> Vec<(String, TaggedValue)> {
    let doc: serde_json::Value = serde_json::from_str(&args.text).unwrap_or_default();
    let mut out = Vec::new();
    if let Some(map) = doc.as_object() {
        for (name, value) in map {
            let text = match value.as_str() {
                Some(s) => s.to_string(),
                None => value.to_string(),
            };
            let mut prov = Provenance::Residual;
            let mut trust = Trust::System;
            if user_text.to_lowercase().contains(&text.to_lowercase()) {
                prov = Provenance::UserInput { turn, start: 0, end: text.len() };
                trust = Trust::User;
            } else {
                for e in events {
                    if let EventKind::ToolReturned { call, outcome: ToolOutcome::Done { output } } = &e.kind {
                        if output.summary.contains(&text) {
                            prov = Provenance::CopiedOutput { call: *call, path: "$".to_string() };
                            trust = output.trust;
                        }
                    }
                }
            }
            out.push((name.clone(), TaggedValue { value: json(&value.to_string()), prov, trust }));
        }
    }
    out
}

// ---------------------------------------------------------------------------
// The harness
// ---------------------------------------------------------------------------

enum Emitter {
    Script(ScriptedEmitter),
    Desk(DesktopEmitter),
    Failing { status: u32, detail: String, retryable: bool },
    Answering { proposal: Proposal, text: String },
    Talking { proposal: Proposal, line: String },
}

enum ToolKind {
    Echo(EchoTool),
    Desk(DeskTool),
    Replay(ReplayTool),
    Wipe(ActionSpec),
}

impl ToolKind {
    fn spec(&self) -> &ActionSpec {
        match self {
            ToolKind::Echo(t) => t.spec(),
            ToolKind::Desk(t) => t.spec(),
            ToolKind::Replay(t) => &t.spec,
            ToolKind::Wipe(s) => s,
        }
    }

    fn call(&mut self, args: &Json) -> Result<ToolOutput, ToolFailure> {
        match self {
            ToolKind::Echo(t) => t.call(args),
            ToolKind::Desk(t) => t.call(args),
            ToolKind::Replay(t) => t.call(),
            ToolKind::Wipe(_) => Ok(ToolOutput { summary: "wiped".to_string(), artifact: None, trust: Trust::System }),
        }
    }

    fn dry_run(&self) -> Option<StagedEffect> {
        match self {
            ToolKind::Wipe(_) => Some(StagedEffect { description: "would delete 3 rows".to_string() }),
            _ => None,
        }
    }
}

enum Replier {
    Trace,
    /// Keeps what it was shown, and says the draft first.
    Probe { first: Option<String>, drafts: u32 },
    Recorded { replier: QueueReplier },
    Failing { detail: String },
}

struct World {
    store: InMemoryStore,
    cfg: EngineConfig,
    router: Option<KeywordRouter>,
    tools: Vec<ToolKind>,
    guards: Vec<DenyAction>,
    alias: Vec<(String, String)>,
    emitter: Emitter,
    replier: Replier,
    shown: Vec<Shown>,
    traces: Vec<Vec<String>>,
    sessions: Vec<SessionId>,
    told: Vec<String>,
    requests: u32,
    ticks: u64,
    echo_off: bool,
}

impl World {
    fn new(cfg: EngineConfig) -> Self {
        World {
            store: InMemoryStore::new(),
            cfg,
            router: None,
            tools: vec![ToolKind::Echo(EchoTool::new())],
            guards: vec![],
            alias: vec![],
            emitter: Emitter::Script(ScriptedEmitter::new(vec![])),
            replier: Replier::Trace,
            shown: vec![],
            traces: vec![],
            sessions: vec![],
            told: vec![],
            requests: 0,
            ticks: 0,
            echo_off: true,
        }
    }

    fn now(&mut self) -> Timestamp {
        let t = Timestamp(1_788_370_524_628 + self.ticks * 1_000);
        self.ticks += 1;
        t
    }

    fn booked(&mut self, role: &str) -> Vec<BookedCall> {
        let at = self.now();
        vec![BookedCall { usage: spent(role), at }]
    }

    fn facts_shown(&mut self, facts: &[Fact]) -> Vec<ShownFact> {
        facts
            .iter()
            .map(|f| {
                let history = self.store.fact_history(&f.scope, &f.key);
                let v = view_of(&self.cfg.pinned_prefixes, f, &history);
                ShownFact { key: f.key.clone(), value: f.value.clone(), rendered: render_fact(&v) }
            })
            .collect()
    }

    fn findings(&self, session: &SessionId, query: &str) -> Findings {
        let words = tokens(query);
        let k = self.cfg.recall_top_k;
        Findings {
            within: Ok(self.store.search_turns(session, &words, k)),
            across: Ok(vec![]),
            facts: Ok(relevant(&self.store.facts("global", ""), query)),
            digests: Ok(self.store.search_digests("global", &words, k)),
        }
    }

    fn emit(&mut self, ctx: &EmitterContext, actions: &Vec<ActionSpec>) -> Result<(Proposal, Option<String>, Option<String>), (EmitFailure, String, bool)> {
        match &mut self.emitter {
            Emitter::Script(e) => {
                self.traces.push(ctx.trace_so_far.clone());
                Ok((e.propose(), None, None))
            }
            Emitter::Desk(e) => {
                let p = e.propose(&ctx.trace_so_far, actions);
                self.traces.push(ctx.trace_so_far.clone());
                Ok((p, None, None))
            }
            Emitter::Failing { status, detail, retryable } => Err((
                EmitFailure::Provider { status: *status, detail: detail.clone() },
                format!("provider: status {status}: {detail}"),
                *retryable,
            )),
            Emitter::Answering { proposal, text } => Ok((proposal.clone(), Some(text.clone()), None)),
            Emitter::Talking { proposal, line } => Ok((proposal.clone(), None, Some(line.clone()))),
        }
    }

    fn reply(&mut self, ctx: &ReplyContext) -> Result<String, String> {
        let window: Vec<String> = ctx.window.iter().map(|r| r.rendered.clone()).collect();
        match &mut self.replier {
            Replier::Trace => Ok(ScriptedReplier.reply(ctx)),
            Replier::Probe { first, drafts } => {
                let n = *drafts;
                *drafts += 1;
                let text = draft(first.as_deref(), n);
                self.shown.push(Shown::capture(ctx, &window.join("\n")));
                Ok(text)
            }
            Replier::Recorded { replier } => replier.reply(),
            Replier::Failing { detail } => Err(detail.clone()),
        }
    }

    fn repair(&self, raw: &Proposal) -> Proposal {
        let mut said = raw.clone();
        if let Some((_, to)) = self.alias.iter().find(|(from, _)| *from == raw.action) {
            said.action = to.clone();
        }
        said
    }

    fn arguments(&mut self, t: &Turn, cx: &Ctx) -> Arguments {
        let args = classify(&t.log.events, &t.user_text, t.turn, &cx.proposal.args);
        let spec = self.tools.iter().map(|x| x.spec().clone()).find(|s| s.name == cx.proposal.action);
        let mut plugins = Vec::new();
        if let Some(spec) = &spec {
            for g in &self.guards {
                let p = ClassifiedProposal { proposal: cx.proposal.clone(), args: args.clone() };
                let guard_ctx = t.guard_ctx(cx, spec, true).expect("guards look at registered tools");
                plugins.push(Objection { guard: g.name().to_string(), verdict: g.check(&p, &guard_ctx) });
            }
        }
        let current = self.store.facts(&t.scope, "");
        let squash = |k: &str| k.to_lowercase().replace(['.', '_', '-'], "");
        let squashed = current.iter().map(|f| squash(&f.key)).collect();
        let squashed_key = fact_key(&cx.proposal).map(|k| squash(&k)).unwrap_or_default();
        Arguments { args, invalid: None, plugins, current, squashed, squashed_key }
    }

    /// One turn: what the models, the tools and the memory do is here, and
    /// nothing else is.
    fn turn(&mut self, session: &str, text: &str) -> String {
        let sid = SessionId(session.to_string());
        if !self.sessions.iter().any(|s| s.0 == sid.0) {
            self.sessions.push(SessionId(session.to_string()));
        }
        let stored = self.store.load(&sid);
        assert!(next_turn(&stored).is_some());
        let at = self.now();
        let mut t = Turn::open(sid.clone(), stored, "global".to_string(), text.to_string(), at);
        let specs: Vec<ActionSpec> = self.tools.iter().map(|x| x.spec().clone()).collect();
        let names: Vec<String> = specs.iter().map(|s| s.name.clone()).collect();
        let route = route_turn(self.router.as_ref(), text, &t.log.events, t.turn, &names);
        t.take_route(route);
        if t.wants_recall() {
            let found = self.findings(&sid, text);
            let outcome = recall_outcome(&found, &sid, t.turn, self.cfg.window_turns, self.cfg.recall_top_k, true);
            let args = classify(&t.log.events, text, t.turn, &json(&format!("{{\"query\":{text:?}}}")));
            let at = self.now();
            t.searched_unasked("recall", args, outcome, at);
        }
        let found = self.store.facts("global", "").len();
        let digests = self.store.session_digests("global", self.cfg.recall_sessions + 1);
        let cfg = self.cfg.clone();
        let w = Around {
            cfg: &cfg,
            tools: &specs,
            recall_applies: recall_applies(&cfg, t.turn, &sid, Some(&digests)),
            scope_holds_facts: scope_holds_facts(cfg.prune_inapplicable, Some(found)),
        };
        assert!(w.is_wf());
        let at = self.now();
        let mut need = t.go_round(&w, at);
        let policy: ReplyPolicy = loop {
            if let Need::Nothing { policy } = need {
                break policy;
            }
            let answer = match &need {
                Need::Nothing { .. } => unreachable!(),
                Need::Proposal { state, actions, pending } => {
                    let live = self.store.facts("global", "");
                    let picked = if t.tier.allows_relevant_facts() {
                        select_facts(&cfg, &live, &relevant(&live, text))
                    } else {
                        pinned_facts(&live, &cfg.pinned_prefixes, cfg.pinned_max)
                    };
                    let notes: Vec<ShownNote> = vec![];
                    let window = state.window(cfg.window_turns);
                    let (composed, clipped) = compose_prompt(
                        Compose {
                            events: &t.log.events,
                            turn: t.turn,
                            facts: self.facts_shown(&picked),
                            summary: None,
                            window: window
                                .iter()
                                .map(|r| ShownRecord { turn: r.turn, rendered: render_record(r) })
                                .collect(),
                            user_text: text,
                            obligations: vec![],
                            active_pending: pending.is_some(),
                            rejections: &t.book.rejections,
                            notes: &notes,
                        },
                        &cfg,
                    );
                    let prompt = finish_prompt(
                        composed,
                        &cfg,
                        &Circumstances {
                            scope: "global",
                            tier: t.tier,
                            routed: self.router.is_some(),
                            cues: &t.cues,
                            actions,
                            notes: &notes,
                            reply_guidance: &vec![],
                            clipped_chars: clipped,
                            budget: &vec![],
                            budget_line: "",
                        },
                    );
                    let emitted = self.emit(&prompt.ctx, actions);
                    let calls = self.booked("emitter");
                    let manifest = prompt.manifest;
                    match emitted {
                        Ok((raw, answer, line)) => {
                            let said = self.repair(&raw);
                            Answer::Proposed { raw, said, answer, line, calls, manifest }
                        }
                        Err((failure, said, retryable)) => {
                            Answer::Unproposed { failure, said, retryable, calls, manifest }
                        }
                    }
                }
                Need::Repair { cx } => Answer::Repaired { said: self.repair(&cx.proposal) },
                Need::Arguments { cx } => Answer::Looked { h: self.arguments(&t, cx) },
                Need::Write { write } => {
                    self.store.put_fact(write.fact.clone());
                    Answer::Stored { failure: None }
                }
                Need::Search { lookup } => {
                    let found = self.findings(&sid, &lookup.query);
                    let sessions = cfg.recall_sessions > 0;
                    Answer::Searched {
                        outcome: recall_outcome(&found, &sid, t.turn, cfg.window_turns, cfg.recall_top_k, sessions),
                    }
                }
                Need::Forget { it } => {
                    let at = self.now();
                    self.store.forget_fact("global", &it.key, at);
                    Answer::Stored { failure: None }
                }
                Need::Purge { .. } => Answer::Purged { result: Ok(self.store.purge_facts("global")) },
                Need::DryRun { cx, .. } => {
                    let tool = self.tools.iter().find(|x| x.spec().name == cx.proposal.action).unwrap();
                    Answer::Planned { staged: tool.dry_run() }
                }
                Need::Call { cx, .. } => {
                    let tool = self.tools.iter_mut().find(|x| x.spec().name == cx.proposal.action).unwrap();
                    Answer::Returned { result: tool.call(&cx.proposal.args) }
                }
            };
            assert!(t.has_room_for(&answer));
            let at = self.now();
            let taken = t.take(&w, need, answer, self.requests, at).expect("an answer to what was needed");
            self.requests = taken.spent;
            self.told.extend(taken.told);
            if taken.store_now {
                let added = unsaved(&t.log, t.loaded);
                self.store.append(&sid, &added);
            }
            need = taken.need;
        };
        let said = match reply_text(&policy, &cfg) {
            Some(s) => s,
            None => self.generate(&mut t, &cfg),
        };
        let at = self.now();
        t.replied(&said, at);
        let added = unsaved(&t.log, t.loaded);
        self.store.append(&sid, &added);
        said
    }

    fn generate(&mut self, t: &mut Turn, cfg: &EngineConfig) -> String {
        let state = t.project();
        let (trace, clipped) = t.trace_for_reply(cfg);
        let live = self.store.facts("global", "");
        let mut picked = select_facts(cfg, &live, &relevant(&live, &t.user_text));
        for f in picked.iter_mut() {
            let at = self.now();
            use_fact(f, at);
            self.store.put_fact(f.clone());
        }
        let d = Draft {
            facts: self.facts_shown(&picked),
            summary: None,
            window: state
                .window(cfg.window_turns)
                .iter()
                .map(|r| ShownRecord { turn: r.turn, rendered: render_record(r) })
                .collect(),
            obligations: vec![],
            notes: vec![],
        };
        let material = t.reply_context(cfg, &trace, &d, vec![], &vec![]);
        let (sent, manifest) = finish_reply_prompt(material.clone(), cfg, "global", &d.notes, clipped, &vec![]);
        let text = match t.take_draft() {
            Some(text) => text,
            None => {
                let r = self.reply(&sent);
                let calls = self.booked("replier");
                let at = self.now();
                assert!(t.has_step(1));
                let (came, total) = t.drafted(r, &calls, &manifest, self.requests, at);
                self.requests = total;
                match came {
                    Ok(text) => text,
                    Err(instead) => return instead,
                }
            }
        };
        let at = self.now();
        let copies = !self.echo_off
            && match echo_of(&material, &text) {
                Some(e) => e.copied as f32 / e.words.max(1) as f32 >= 0.6,
                None => false,
            };
        let again = match t.look_at(cfg, &material, &text, copies, &vec![], at) {
            Redraft::Stands => return text,
            Redraft::WithoutClaims { spans } => t.reply_context(cfg, &trace, &d, spans, &vec![]),
            Redraft::WithNote { note } => t.reply_context(cfg, &trace, &d, vec![], &vec![note]),
        };
        let second = self.reply(&again).ok();
        let calls = self.booked("replier");
        let at = self.now();
        let (said, total) = t.redrafted(&material, text, second, &calls, &manifest, self.requests, at);
        self.requests = total;
        said
    }

    fn log(&self, session: &str) -> Vec<Event> {
        self.store.load(&SessionId(session.to_string()))
    }

    fn script(&mut self, proposals: Vec<Proposal>) {
        self.emitter = Emitter::Script(ScriptedEmitter::new(proposals));
    }

    fn harness(&mut self) -> Harness {
        if let Emitter::Desk(e) = &self.emitter {
            assert_eq!(e.traces, self.traces);
        }
        Harness {
            shown: self.shown.clone(),
            traces: self.traces.clone(),
            logs: self.sessions.iter().map(|s| self.store.load(s)).collect(),
        }
    }
}

fn asks(action: &str, args: &str) -> Proposal {
    Proposal { rationale: String::new(), action: action.to_string(), args: json(args) }
}

fn remember(key: &str, value: &str) -> Proposal {
    asks("remember_fact", &format!("{{\"key\":{key:?},\"value\":{value:?}}}"))
}

fn kinds(events: &[Event]) -> Vec<&'static str> {
    events
        .iter()
        .map(|e| match &e.kind {
            EventKind::UserSaid { .. } => "UserSaid",
            EventKind::Proposed { .. } => "Proposed",
            EventKind::Rejected { .. } => "Rejected",
            EventKind::ToolCalled { .. } => "ToolCalled",
            EventKind::ToolReturned { .. } => "ToolReturned",
            EventKind::PendingConfirmation { .. } => "PendingConfirmation",
            EventKind::Confirmed { .. } => "Confirmed",
            EventKind::Settled { .. } => "Settled",
            EventKind::ModelCall { .. } => "ModelCall",
            EventKind::Replied { .. } => "Replied",
            EventKind::ReplyFlagged { .. } => "ReplyFlagged",
            EventKind::ReplyEchoed { .. } => "ReplyEchoed",
            EventKind::ReplyCited { .. } => "ReplyCited",
            EventKind::ReplyFailed { .. } => "ReplyFailed",
            _ => "other",
        })
        .collect()
}

// ---------------------------------------------------------------------------
// Turns
// ---------------------------------------------------------------------------

#[test]
fn a_turn_runs_a_tool_and_then_replies() {
    let mut w = World::new(EngineConfig::default());
    w.script(vec![asks("echo", "{\"text\":\"hi\"}")]);
    let reply = w.turn("s", "say hi");
    assert_eq!(reply, "TRACE:\nProposed(echo)\nToolReturned(ok: echo: hi)\nProposed(respond_directly)");
    assert_eq!(
        kinds(&w.log("s")),
        vec![
            "UserSaid", "ModelCall", "Proposed", "ToolCalled", "ToolReturned", "ModelCall", "Proposed", "Settled",
            "ModelCall", "Replied",
        ]
    );
    assert_eq!(w.requests, 3);
}

#[test]
fn the_same_call_is_refused_the_second_time() {
    let mut w = World::new(EngineConfig::default());
    w.script(vec![asks("echo", "{\"text\":\"hi\"}"), asks("echo", "{\"text\":\"hi\"}")]);
    w.turn("s", "say hi");
    let log = w.log("s");
    assert_eq!(kinds(&log).iter().filter(|k| **k == "ToolCalled").count(), 1);
    assert!(log.iter().any(|e| matches!(&e.kind, EventKind::Rejected {
        reason: RejectReason::GuardDenied { guard, .. }, ..
    } if guard == "repeat_gate")));
}

#[test]
fn an_unknown_action_is_refused_and_the_turn_runs_out_of_steps() {
    let mut w = World::new(EngineConfig { max_iterations: 2, ..EngineConfig::default() });
    w.script(vec![asks("fly", "{}"), asks("fly", "{}")]);
    let reply = w.turn("s", "fly");
    assert_eq!(
        reply,
        "Sorry, I couldn't complete that. Reason: ran out of steps after 2 actions without reaching an answer; \
         last problem: illegal action: fly."
    );
}

#[test]
fn a_template_takes_the_place_of_the_apology() {
    let mut w = World::new(EngineConfig {
        max_iterations: 1,
        templates: vec![Template { id: "cant_help".to_string(), text: "No: {reason}".to_string() }],
        ..EngineConfig::default()
    });
    w.script(vec![asks("fly", "{}")]);
    assert!(w.turn("s", "fly").starts_with("No: ran out of steps after 1 actions"));
}

#[test]
fn a_provider_that_is_down_is_named_as_the_cause() {
    let mut w = World::new(EngineConfig::default());
    w.emitter = Emitter::Failing { status: 402, detail: "empty balance".to_string(), retryable: false };
    let reply = w.turn("s", "hello");
    assert!(reply.starts_with("Sorry, I couldn't complete that. Reason: "), "{reply}");
    assert_eq!(kinds(&w.log("s")).iter().filter(|k| **k == "Rejected").count(), 1, "it is not asked again");
    let mut again = World::new(EngineConfig::default());
    again.emitter = Emitter::Failing { status: 429, detail: "slow down".to_string(), retryable: true };
    again.turn("s", "hello");
    assert_eq!(kinds(&again.log("s")).iter().filter(|k| **k == "Rejected").count(), 3, "as often as the settings say");
}

#[test]
fn a_question_is_the_reply() {
    let mut w = World::new(EngineConfig::default());
    w.script(vec![asks("ask_clarification", "{\"question\":\"To whom?\"}")]);
    assert_eq!(w.turn("s", "send it"), "To whom?");
    w.script(vec![asks("ask_clarification", "{}")]);
    w.turn("s", "send it");
    assert!(w.log("s").iter().any(|e| matches!(&e.kind, EventKind::Rejected {
        reason: RejectReason::Malformed { detail }, ..
    } if detail == "ask_clarification without question")));
}

#[test]
fn a_line_is_told_before_the_action_runs() {
    let cfg = EngineConfig {
        max_iterations: 2,
        chat_act_or_answer: true,
        act_or_answer_every_tier: true,
        ..EngineConfig::default()
    };
    let talk = || Emitter::Talking {
        proposal: asks("echo", "{\"text\":\"hi\"}"),
        line: "let me check".to_string(),
    };
    let mut w = World::new(cfg.clone());
    w.emitter = talk();
    w.turn("s", "say hi");
    assert_eq!(w.told, vec!["let me check", "let me check"]);
    let log = w.log("s");
    let said = log.iter().position(|e| matches!(&e.kind, EventKind::Said { text } if text == "let me check")).unwrap();
    let called = log.iter().position(|e| matches!(&e.kind, EventKind::ToolCalled { .. })).unwrap();
    assert!(said < called);

    // Where no answer was asked for, nothing is told.
    let mut silent = World::new(EngineConfig { chat_act_or_answer: false, ..cfg });
    silent.emitter = talk();
    silent.turn("s", "say hi");
    assert!(silent.told.is_empty());
    assert!(!silent.log("s").iter().any(|e| matches!(&e.kind, EventKind::Said { .. })));
}

fn wipe() -> ActionSpec {
    ActionSpec {
        name: "wipe".to_string(),
        description: "delete".to_string(),
        args_schema: json("{}"),
        side_effect: SideEffect::Irreversible,
        residual_policy: vec![],
        dedupe_tag: None,
    }
}

#[test]
fn an_irreversible_tool_waits_for_the_next_turn() {
    let mut w = World::new(EngineConfig::default());
    w.tools.push(ToolKind::Wipe(wipe()));
    w.script(vec![asks("wipe", "{}")]);
    assert_eq!(
        w.turn("s", "wipe it"),
        "'wipe' is irreversible. Confirm to proceed.\nPlanned: would delete 3 rows"
    );
    assert!(!kinds(&w.log("s")).contains(&"ToolCalled"));
    w.script(vec![asks("confirm_pending", "{}")]);
    w.turn("s", "yes");
    let log = w.log("s");
    assert!(kinds(&log).contains(&"Confirmed"));
    assert!(log.iter().any(|e| matches!(&e.kind, EventKind::ToolCalled { action, .. } if action == "wipe")));
}

#[test]
fn a_confirmation_is_gone_after_one_turn() {
    let mut w = World::new(EngineConfig::default());
    w.tools.push(ToolKind::Wipe(wipe()));
    w.script(vec![asks("wipe", "{}")]);
    w.turn("s", "wipe it");
    w.script(vec![]);
    w.turn("s", "never mind");
    w.script(vec![asks("confirm_pending", "{}")]);
    w.turn("s", "yes");
    let log = w.log("s");
    assert!(!kinds(&log).contains(&"Confirmed"));
    assert!(!log.iter().any(|e| matches!(&e.kind, EventKind::ToolCalled { .. })));
}

#[test]
fn facts_are_written_superseded_and_forgotten() {
    let mut w = World::new(EngineConfig::default());
    w.script(vec![remember("user.name", "Martin")]);
    w.turn("s", "my name is Martin");
    w.script(vec![remember("user_name", "Peter")]);
    w.turn("s", "call me Peter");
    let live = w.store.facts("global", "user.");
    assert_eq!(live.len(), 1, "another spelling of the key is the same fact");
    assert_eq!((live[0].key.as_str(), live[0].value.text.as_str()), ("user.name", "\"Peter\""));
    assert_eq!(w.store.fact_history("global", "user.name").len(), 2);
    w.script(vec![asks("forget_fact", "{\"key\":\"user.name\"}")]);
    w.turn("s", "forget my name");
    assert!(w.store.facts("global", "user.").is_empty());
    assert_eq!(w.store.fact_history("global", "user.name").len(), 2);
}

#[test]
fn forgetting_everything_is_staged_and_then_done() {
    let mut w = World::new(EngineConfig::default());
    w.script(vec![remember("user.name", "Martin")]);
    w.turn("s", "my name is Martin");
    w.script(vec![asks("forget_all", "{}")]);
    assert_eq!(
        w.turn("s", "forget everything"),
        "'forget_all' is irreversible. Confirm to proceed.\nPlanned: This will forget every stored fact in scope global."
    );
    assert_eq!(w.store.facts("global", "").len(), 1);
    w.script(vec![asks("confirm_pending", "{}")]);
    w.turn("s", "yes");
    assert!(w.store.fact_history("global", "user.name").is_empty());
}

#[test]
fn an_answer_beside_an_action_is_the_reply_once_the_action_ran() {
    let mut w = World::new(EngineConfig {
        chat_act_or_answer: true,
        act_or_answer_every_tier: true,
        act_and_answer: true,
        ..EngineConfig::default()
    });
    w.emitter = Emitter::Answering { proposal: asks("echo", "{\"text\":\"hi\"}"), text: "Echoing it.".to_string() };
    assert_eq!(w.turn("s", "say hi"), "Echoing it.");
    assert_eq!(w.requests, 1, "one request for both");
    w.emitter = Emitter::Answering { proposal: asks("fly", "{}"), text: "Flying.".to_string() };
    assert_ne!(w.turn("s", "fly"), "Flying.", "an action that was refused takes its answer with it");
}

#[test]
fn an_answer_that_was_not_asked_for_is_not_taken() {
    let mut w = World::new(EngineConfig::default());
    w.emitter = Emitter::Answering { proposal: asks("respond_directly", "{}"), text: "Unasked.".to_string() };
    assert_eq!(w.turn("s", "hello"), "TRACE:\nProposed(respond_directly)");
}

#[test]
fn a_claim_out_of_nowhere_is_asked_for_again_once() {
    let mut w = World::new(EngineConfig::default());
    w.replier = Replier::Probe { first: Some("You live in Ostrava.".to_string()), drafts: 0 };
    assert_eq!(w.turn("s", "where do i live?"), INERT);
    assert_eq!(w.shown.len(), 2);
    assert_eq!(w.shown[1].do_not_state, vec!["Ostrava"]);
    let mut quiet = World::new(EngineConfig { reply_regenerate: false, ..EngineConfig::default() });
    quiet.replier = Replier::Probe { first: Some("You live in Ostrava.".to_string()), drafts: 0 };
    assert_eq!(quiet.turn("s", "where do i live?"), "You live in Ostrava.");
    assert!(kinds(&quiet.log("s")).contains(&"ReplyFlagged"), "the flag is written all the same");
    let mut off = World::new(EngineConfig { reply_grounding_check: false, ..EngineConfig::default() });
    off.replier = Replier::Probe { first: Some("You live in Ostrava.".to_string()), drafts: 0 };
    off.turn("s", "where do i live?");
    assert!(!kinds(&off.log("s")).contains(&"ReplyFlagged"));
}

#[test]
fn a_copy_of_the_prompt_is_noted_and_nothing_more() {
    let mut w = World::new(EngineConfig::default());
    w.echo_off = false;
    w.script(vec![asks("echo", "{\"text\":\"one two three four five six\"}")]);
    w.replier = Replier::Probe { first: Some("echo one two three four five six".to_string()), drafts: 0 };
    assert_eq!(w.turn("s", "say one two three four five six"), "echo one two three four five six");
    assert!(w.log("s").iter().any(|e| matches!(&e.kind, EventKind::ReplyEchoed { copied, words, .. }
        if *copied == 7 && *words == 7)));
}

#[test]
fn a_replier_that_fails_is_an_event_and_an_apology() {
    let mut w = World::new(EngineConfig::default());
    w.replier = Replier::Failing { detail: "status 402".to_string() };
    let reply = w.turn("s", "hello");
    assert!(reply.starts_with("Sorry, I couldn't complete that. Reason: the reply could not be generated — "), "{reply}");
    assert!(kinds(&w.log("s")).contains(&"ReplyFailed"));
}

#[test]
fn a_guard_of_the_harness_is_asked_behind_the_engines_own() {
    let mut w = World::new(EngineConfig::default());
    w.guards.push(DenyAction { action: "echo".to_string(), reason: "not today".to_string() });
    w.script(vec![asks("echo", "{\"text\":\"hi\"}")]);
    w.turn("s", "say hi");
    assert!(w.log("s").iter().any(|e| matches!(&e.kind, EventKind::Rejected {
        reason: RejectReason::GuardDenied { guard, reason }, ..
    } if guard == "deny_action" && reason == "not today")));
}

#[test]
fn a_misrouted_message_widens_the_tier_once() {
    let mut w = World::new(EngineConfig::default());
    w.router = Some(KeywordRouter::default());
    w.script(vec![asks("echo", "{\"text\":\"hi\"}"), asks("echo", "{\"text\":\"hi\"}")]);
    w.turn("s", "hello there");
    let log = w.log("s");
    assert!(!log.iter().any(|e| matches!(&e.kind, EventKind::Rejected { .. })), "a misroute is no refusal");
    assert_eq!(kinds(&log).iter().filter(|k| **k == "ToolCalled").count(), 1);
    let tiers: Vec<Option<Tier>> = log
        .iter()
        .filter_map(|e| match &e.kind {
            EventKind::ModelCall { manifest, .. } => Some(manifest.tier),
            _ => None,
        })
        .collect();
    assert_eq!(tiers[0], Some(Tier::Chat));
    assert_eq!(tiers[1], Some(Tier::Task));
}

#[test]
fn a_deep_turn_searches_before_it_is_asked() {
    let mut w = World::new(EngineConfig::default());
    w.router = Some(KeywordRouter::default());
    w.script(vec![remember("user.city", "Brno")]);
    w.turn("s", "my city is Brno");
    w.script(vec![]);
    w.turn("s", "what did i tell you earlier about my city");
    let log = w.log("s");
    let second: Vec<Event> = log.into_iter().filter(|e| e.turn == 2).collect();
    assert_eq!(kinds(&second)[..3], ["UserSaid", "ToolCalled", "ToolReturned"]);
    assert!(second.iter().any(|e| matches!(&e.kind, EventKind::ToolReturned {
        outcome: ToolOutcome::Done { output }, ..
    } if output.summary.contains("Brno"))), "{second:?}");
}

#[test]
fn a_pass_without_work_changes_nothing() {
    let mut w = World::new(EngineConfig::default());
    w.script(vec![remember("user.name", "Martin")]);
    w.turn("s", "my name is Martin");
    let before = format!("{:?}", w.store);
    assert!(NoopConsolidator.run(&mut w.store).is_ok());
    assert_eq!(format!("{:?}", w.store), before);
}

// ---------------------------------------------------------------------------
// Replays
// ---------------------------------------------------------------------------

fn record_session(guards: Vec<DenyAction>) -> Vec<Event> {
    let mut w = World::new(EngineConfig::default());
    w.guards = guards;
    w.script(vec![Proposal {
        rationale: "echo".to_string(),
        action: "echo".to_string(),
        args: json("{\"text\":\"replay me\"}"),
    }]);
    w.turn("rec", "please replay me");
    w.log("rec")
}

/// Run the recording again with doubles made from it.
fn replay(session: &str, recorded: &Vec<Event>, known: Vec<ActionSpec>, synthetic: bool, alias: Vec<(String, String)>) -> Replayed {
    let opts = ReplayOptions { known_specs: known, synthetic_ok_for_new_calls: synthetic };
    let d = replay_with(recorded, Ok(()), &opts).unwrap();
    let mut w = World::new(replay_config());
    w.tools = d.tools.into_iter().map(ToolKind::Replay).collect();
    w.alias = alias;
    w.script(d.proposals);
    w.replier = Replier::Recorded { replier: d.replier };
    for text in d.user_inputs {
        w.turn(session, &text);
    }
    rerun(Ok(w.log(session))).unwrap()
}

#[test]
fn faithful_replay_of_a_recorded_session_passes() {
    let events = record_session(vec![]);
    let again = replay("rec", &events, vec![], false, vec![]);
    replay_session(&events, Ok(again)).unwrap();
}

#[test]
fn replay_detects_behavioral_divergence() {
    // Recorded with a guard that denied echo; replayed without it the log
    // can no longer be the same.
    let guard = DenyAction { action: "echo".to_string(), reason: "no".to_string() };
    let events = record_session(vec![guard]);
    let again = replay("rec", &events, vec![], false, vec![]);
    let err = replay_session(&events, Ok(again)).unwrap_err();
    assert!(matches!(
        err,
        ReplayError::Divergence { .. } | ReplayError::LengthMismatch { .. }
    ));
}

#[test]
fn replay_with_returns_events_and_replay_session_is_its_wrapper() {
    let events = record_session(vec![]);
    let r = replay("rec", &events, vec![], false, vec![]);
    assert_eq!(normalize(&r.events), normalize(&events));
    assert!(diff(&events, &r.events).is_ok());
    assert!(replay_session(&events, Ok(r)).is_ok());
}

#[test]
fn a_broken_recording_is_not_run_and_a_failed_run_is_not_compared() {
    let events = record_session(vec![]);
    let e = replay_with(&events, Err("event 3".to_string()), &ReplayOptions::default()).unwrap_err();
    assert!(matches!(e, ReplayError::ChainBroken { detail } if detail == "event 3"));
    let mut spent = QueueReplier { texts: vec!["a".to_string()] };
    assert_eq!(spent.reply(), Ok("a".to_string()));
    assert_eq!(spent.reply(), Err("replay reply queue exhausted".to_string()));
    let e = replay_session(&events, rerun(Err("store: gone".to_string()))).unwrap_err();
    assert_eq!(e.message(), "engine error during replay: store: gone");
}

#[test]
fn learned_alias_flips_a_recorded_illegal_action_into_a_call() {
    // Record a session where the emitter proposed "eko" (illegal) then gave up.
    let mut w = World::new(EngineConfig::default());
    w.script(vec![Proposal {
        rationale: "typo".to_string(),
        action: "eko".to_string(),
        args: json("{\"text\":\"hi\"}"),
    }]);
    w.turn("flip", "say hi");
    let recorded = w.log("flip");
    let rejected_at = normalize(&recorded)
        .iter()
        .position(|l| l == "Rejected IllegalAction")
        .unwrap();

    // echo was never called in the recording, so the double only exists
    // because the known specs carry it; the call has no recorded outcome.
    let r = replay(
        "flip",
        &recorded,
        vec![EchoTool::new().spec().clone()],
        true,
        vec![("eko".to_string(), "echo".to_string())],
    );
    assert_eq!(normalize(&r.events)[rejected_at], "ToolCalled echo");
    assert_eq!(normalize(&r.events)[rejected_at + 1], "ToolReturned Ok");
}

#[test]
fn without_synthetic_ok_a_new_call_errors() {
    let events = record_session(vec![]);
    // Strip the recorded echo outcome so the double's queue is empty.
    let stripped: Vec<Event> = events
        .iter()
        .filter(|e| !matches!(e.kind, EventKind::ToolReturned { .. }))
        .cloned()
        .collect();
    let known = vec![EchoTool::new().spec().clone()];
    let mut d = doubles_from(&stripped, &known, false);
    let echo = d.tools.iter_mut().find(|t| t.spec.name == "echo").unwrap();
    let out = echo.call();
    assert!(matches!(out, Err(ref e) if e.detail.contains("exhausted")));
    let mut d = doubles_from(&stripped, &known, true);
    let echo = d.tools.iter_mut().find(|t| t.spec.name == "echo").unwrap();
    let out = echo.call().unwrap();
    assert!(out.summary.contains("synthetic ok"));
}

// ---------------------------------------------------------------------------
// The set
// ---------------------------------------------------------------------------

fn memory_world() -> World {
    let mut w = World::new(EngineConfig::default());
    w.replier = Replier::Probe { first: None, drafts: 0 };
    w
}

fn say(w: &mut World, session: &str, text: &str, script: Vec<Proposal>) -> Vec<Shown> {
    let before = w.shown.len();
    w.script(script);
    w.turn(session, text);
    w.shown[before..].to_vec()
}

fn desk_world() -> World {
    let mut w = World::new(EngineConfig {
        max_iterations: 12,
        trace_verbatim_lines: 5,
        confirm_irreversible: false,
        ..EngineConfig::default()
    });
    w.router = Some(KeywordRouter::default());
    w.tools = vec![
        ToolKind::Desk(DeskTool::read()),
        ToolKind::Desk(DeskTool::click()),
        ToolKind::Desk(DeskTool::typing()),
    ];
    w.replier = Replier::Probe { first: None, drafts: 0 };
    w
}

fn read(query: &str) -> Step {
    Step::Read { query: query.to_string() }
}

fn reach(name: &str) -> Step {
    Step::Reach { name: name.to_string() }
}

fn typed(text: &str) -> Step {
    Step::Type { text: text.to_string() }
}

fn on_desk(text: &str, plan: Vec<Step>) -> (World, Vec<Shown>) {
    let mut w = desk_world();
    w.emitter = Emitter::Desk(DesktopEmitter::new(plan));
    w.turn("desk", text);
    let shown = w.shown.clone();
    (w, shown)
}

fn about(s: &Shown) -> u32 {
    (s.chars() / 4) as u32
}

fn run_all() -> Vec<Ability> {
    let mut rows = Vec::new();

    let mut w = memory_world();
    say(&mut w, "e", "my name is Martin", vec![remember("user.name", "Martin")]);
    say(&mut w, "e", "and i am 17", vec![remember("user.age", "17")]);
    say(&mut w, "e", "i prefer 24-hour times", vec![remember("user.preference.time_format", "24-hour")]);
    for text in ["what else can you do", "never mind that", "tell me something", "still there?", "good"] {
        say(&mut w, "e", text, vec![]);
    }
    let shown = say(&mut w, "e", "remind me who i am and how i like times", vec![]);
    rows.push(grade::information_extraction(&w.harness(), &shown[0], about(&shown[0])));

    let mut w = memory_world();
    say(&mut w, "a", "our budget is 2000 crowns", vec![remember("budget.total", "2000 crowns")]);
    let shown = say(&mut w, "b", "what was the budget again?", vec![]);
    rows.push(grade::multi_session_reasoning(&w.harness(), &shown[0], about(&shown[0])));

    let mut w = memory_world();
    say(&mut w, "t", "my name is Martin", vec![remember("user.name", "Martin")]);
    for text in ["what can you do", "ok", "go on", "sure"] {
        say(&mut w, "t", text, vec![]);
    }
    say(&mut w, "t", "call me Peter from now on", vec![remember("user.name", "Peter")]);
    for text in ["thanks", "fine", "carry on", "right", "one more thing"] {
        say(&mut w, "t", text, vec![]);
    }
    let shown = say(&mut w, "t", "what was my name before?", vec![]);
    rows.push(grade::temporal_reasoning(&w.harness(), &shown[0], about(&shown[0])));

    let mut w = memory_world();
    say(&mut w, "u", "i am 17", vec![remember("user.age", "17")]);
    say(&mut w, "u", "wait, actually i am 18 now", vec![remember("user.age", "18")]);
    let shown = say(&mut w, "u", "how old am i?", vec![]);
    let history = w.store.fact_history("global", "user.age");
    rows.push(grade::knowledge_updates(&w.harness(), &shown[0], &history, about(&shown[0])));

    let mut w = memory_world();
    say(&mut w, "x", "my name is Martin", vec![remember("user.name", "Martin")]);
    w.replier = Replier::Probe { first: Some("You live in Ostrava.".to_string()), drafts: 0 };
    let shown = say(
        &mut w,
        "x",
        "which city do i live in?",
        vec![asks("recall", "{\"query\":\"city do i live in\"}")],
    );
    rows.push(grade::abstention(&w.harness(), &shown, about(&shown[0])));

    let mut w = memory_world();
    say(&mut w, "f", "my name is Martin", vec![remember("user.name", "Martin")]);
    for text in ["what can you do", "ok", "go on", "sure", "right", "one more thing"] {
        say(&mut w, "f", text, vec![]);
    }
    let before = say(&mut w, "f", "what is my name?", vec![]);
    say(&mut w, "f", "forget my name", vec![asks("forget_fact", "{\"key\":\"user.name\"}")]);
    let after = say(&mut w, "f", "what is my name?", vec![]);
    let history = w.store.fact_history("global", "user.name");
    rows.push(grade::selective_forgetting(&w.harness(), &before[0], &after[0], &history, about(&after[0])));

    let (mut w, shown) = on_desk(
        "let's get that invoice sorted out, i want the totals right",
        vec![
            read("uložit"),
            reach(HEAD_CONTROL),
            typed("faktura 2026-09"),
            read("najít"),
            reach(SEARCH_CONTROL),
            typed("celkem"),
            read("výsledek"),
            reach(RESULT_CONTROL),
        ],
    );
    rows.push(grade::desktop_open_and_search(&w.harness(), &shown, about(&shown[0])));

    let (mut w, shown) = on_desk(
        "klikni na Uložit jako v tom dialogu na obrazovce",
        vec![read("uložit"), reach(HEAD_CONTROL)],
    );
    rows.push(grade::desktop_find_and_click(&w.harness(), &shown, about(&shown[0])));

    let (mut w, shown) = on_desk(
        "klikni na Sloučit buňky v panelu formátování",
        vec![read("sloučit"), reach(TAIL_CONTROL)],
    );
    rows.push(grade::desktop_clipped_tail(&w.harness(), &shown, about(&shown[0])));
    rows
}

#[test]
fn run_all_returns_the_nine_abilities_in_a_fixed_order() {
    let rows = run_all();
    let names: Vec<&str> = rows.iter().map(|r| r.ability).collect();
    assert_eq!(
        names,
        vec![
            "information extraction",
            "multi-session reasoning",
            "temporal reasoning",
            "knowledge updates",
            "abstention",
            "selective forgetting",
            "desktop open-and-search",
            "desktop find-and-click",
            "desktop clipped tail",
        ]
    );
}

#[test]
fn what_is_still_in_sight_is_not_recalled() {
    // On its second turn a session has nothing out of sight, so recall is not on
    // offer and the task that grades it reports that no search was made.
    let rows = run_all();
    let failed: Vec<&str> = rows.iter().filter(|r| !r.passed).map(|r| r.ability).collect();
    assert_eq!(failed, vec!["abstention"], "{}", render_table(&rows));
    assert!(rows[4].detail.starts_with("0 recall calls, want 1; "), "{}", rows[4].detail);
}

#[test]
fn the_two_halves_move_different_columns() {
    let rows = run_all();
    // The columns are the subject of this assertion, so a failure has to
    // print them.
    println!("{}", render_table(&rows));
    let (memory, desktop) = rows.split_at(6);
    for r in memory {
        assert_eq!(
            (
                r.clipped_chars,
                r.inspections,
                r.budget_drops,
                r.escalations
            ),
            (0, 0, 0, 0),
            "{} is a memory fixture and reaches none of the M7 machinery",
            r.ability
        );
    }
    assert!(
        desktop.iter().all(|r| r.clipped_chars > 0),
        "every desktop task clips the screen read it is built on"
    );
    assert!(
        desktop.iter().any(|r| r.inspections > 0),
        "one of them has to page past the cap, or the handle is untested"
    );
    assert!(
        desktop.iter().any(|r| r.escalations > 0),
        "one of them has to start conversational, or the misroute path is untested"
    );
}

#[test]
fn a_control_that_is_not_on_the_screen_is_given_up() {
    let (w, _) = on_desk("klikni na Nic", vec![read("nic"), reach("Nic takového")]);
    let log = w.log("desk");
    assert!(log.iter().any(|e| matches!(&e.kind, EventKind::ToolCalled { action, .. } if action == "inspect_result")));
    assert!(!log.iter().any(|e| matches!(&e.kind, EventKind::ToolCalled { action, .. } if action == "pointer_click")));
    assert!(matches!(&log[log.len() - 1].kind, EventKind::Replied { text } if text == INERT));
}

#[test]
fn what_was_staged_under_an_alias_runs_as_what_it_stands_for() {
    let mut w = World::new(EngineConfig::default());
    w.tools.push(ToolKind::Wipe(wipe()));
    w.alias = vec![("wype".to_string(), "wipe".to_string())];
    w.script(vec![asks("wype", "{}")]);
    assert_eq!(
        w.turn("s", "wipe it"),
        "'wipe' is irreversible. Confirm to proceed.\nPlanned: would delete 3 rows"
    );
    w.script(vec![asks("confirm_pending", "{}")]);
    w.turn("s", "yes");
    let log = w.log("s");
    assert_eq!(kinds(&log).iter().filter(|k| **k == "Confirmed").count(), 1);
    let calls: Vec<&Event> = log.iter().filter(|e| matches!(&e.kind, EventKind::ToolCalled { .. })).collect();
    assert_eq!(calls.len(), 1);
    assert!(matches!(&calls[0].kind, EventKind::ToolCalled { action, args } if action == "wipe" && args.is_empty()));
    assert_eq!(log.last().map(|e| e.turn), Some(2));
}

#[test]
fn what_nothing_runs_any_more_is_refused_though_it_was_confirmed() {
    let mut w = World::new(EngineConfig::default());
    w.tools.push(ToolKind::Wipe(wipe()));
    w.alias = vec![("wype".to_string(), "wipe".to_string())];
    w.script(vec![asks("wype", "{}")]);
    w.turn("s", "wipe it");
    w.alias = vec![];
    w.script(vec![asks("confirm_pending", "{}")]);
    w.turn("s", "yes");
    let log = w.log("s");
    assert!(log.iter().any(|e| matches!(
        &e.kind,
        EventKind::Rejected { reason: RejectReason::IllegalAction { action }, .. } if action == "wype"
    )));
    assert!(!log.iter().any(|e| matches!(&e.kind, EventKind::ToolCalled { .. })));
}

#[test]
fn a_late_confirmation_is_an_illegal_action() {
    let mut w = World::new(EngineConfig::default());
    w.tools.push(ToolKind::Wipe(wipe()));
    w.script(vec![asks("wipe", "{}")]);
    w.turn("s", "wipe it");
    w.script(vec![]);
    w.turn("s", "never mind");
    w.script(vec![asks("confirm_pending", "{}")]);
    w.turn("s", "yes");
    assert!(w.log("s").iter().any(|e| e.turn == 3 && matches!(
        &e.kind,
        EventKind::Rejected { reason: RejectReason::IllegalAction { action }, .. } if action == "confirm_pending"
    )));
}

#[test]
fn a_turn_adds_its_events_to_its_session_and_to_no_other() {
    let mut w = World::new(EngineConfig::default());
    w.turn("a", "one");
    let other = w.log("a");
    w.turn("b", "one");
    let before = w.log("b");
    w.turn("b", "two");
    let log = w.log("b");
    assert_eq!(format!("{:?}", &log[..before.len()]), format!("{before:?}"));
    assert!(matches!(&log[before.len()].kind, EventKind::UserSaid { text } if text == "two"));
    assert!(matches!(&log[log.len() - 1].kind, EventKind::Replied { .. }));
    assert!(log[before.len()..].iter().all(|e| e.turn == 2));
    assert!(log.windows(2).all(|p| p[1].id.0 == p[0].id.0 + 1));
    assert_eq!(format!("{:?}", w.log("a")), format!("{other:?}"));
}

#[test]
fn no_stand_in_is_made_for_an_action_of_the_engines_own() {
    let mut log = EventLog::new(SessionId("s".to_string()));
    for action in ["inspect_result", "exemplars", "recall"] {
        let call = log.append(1, Timestamp(1), EventKind::ToolCalled { action: action.to_string(), args: vec![] });
        let output = ToolOutput { summary: "x".to_string(), artifact: None, trust: Trust::System };
        log.append(1, Timestamp(2), EventKind::ToolReturned { call, outcome: ToolOutcome::Done { output } });
    }
    assert!(doubles_from(&log.events, &vec![], false).tools.is_empty());
}

#[test]
fn an_answer_to_something_else_is_not_taken() {
    let cfg = EngineConfig::default();
    let specs = vec![wipe()];
    let w = Around { cfg: &cfg, tools: &specs, recall_applies: true, scope_holds_facts: true };
    let at = Timestamp(1);
    let mut t = Turn::open(SessionId("s".to_string()), vec![], "global".to_string(), "hi".to_string(), at);
    let need = t.go_round(&w, at);
    assert!(matches!(&need, Need::Proposal { .. }));
    let before = format!("{:?}", t.log.events);
    assert!(t.take(&w, need.clone(), Answer::Stored { failure: None }, 3, at).is_none());
    assert_eq!(format!("{:?}", t.log.events), before, "and nothing happened");
    let none = Answer::Unproposed {
        failure: EmitFailure::Other,
        said: "gone".to_string(),
        retryable: false,
        calls: vec![BookedCall { usage: spent("emitter"), at }],
        manifest: ns_engine::turn::memory::blank_manifest(),
    };
    let taken = t.take(&w, need, none, 3, at).expect("it answers the need");
    assert_eq!(taken.spent, 4);
    assert!(matches!(&taken.need, Need::Nothing { .. }));
    assert!(taken.told.is_none() && !taken.store_now);
    assert!(t.take(&w, taken.need, Answer::Stored { failure: None }, 0, at).is_none(), "a turn at its end takes nothing");
}

#[test]
fn guards_look_at_tools_and_at_questions() {
    let at = Timestamp(1);
    let t = Turn::open(SessionId("s".to_string()), vec![], "global".to_string(), "hi".to_string(), at);
    let cx = |action: &str| Ctx {
        state: t.project(),
        proposal: asks(action, "{}"),
        pid: ns_engine::types::EventId(1),
        confirmed_now: true,
        active_pending: Some(ns_engine::types::EventId(7)),
        at,
    };
    let spec = wipe();
    let tool = cx("wipe");
    let shown = t.guard_ctx(&tool, &spec, true).expect("a registered tool");
    assert!(shown.confirmed_this_turn && shown.pending_confirmation.is_some());
    let question = cx("ask_clarification");
    let shown = t.guard_ctx(&question, &spec, false).expect("a question");
    assert!(!shown.confirmed_this_turn && shown.pending_confirmation.is_none());
    assert!(t.guard_ctx(&cx("recall"), &spec, false).is_none());
}
