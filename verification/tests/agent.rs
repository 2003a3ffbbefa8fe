use gen2::agent::{
    Agent, ApprovalMode, Budgets, Decision, Risk, Steering, DEFAULT_MAX_STEPS, TOOL_PROMPT,
};
use gen2::agent_config::{AgentConfig, OwnedAgent};
use gen2::agent_loop::{Action, AgentLoop, Happened};
use gen2::agent_run::{
    as_wire_call, asks, deliver, open_goal, refused, result_message, sift, CallOutcome, Next, Plan,
    Round, Run, ToolFacts, REPEAT_LIMIT,
};
use gen2::error::Error;
use gen2::generation::Sampling;
use gen2::json::Json;
use gen2::message::{Message, MessageBody};
use gen2::session::Session;
use gen2::spawned::{AgentStep, Update};
use gen2::stream::{Budget, Completion, ExecutionStats, Finish, StreamToolCall, Struggle};
use gen2::tools::{
    query_found, search_query, search_text, wire_specs, ToolBundle, ToolEntry, ToolLoading, ToolSearch,
    ToolSpec, SEARCH_TOOL,
};

fn plain(name: &str) -> ToolEntry {
    ToolEntry {
        spec: ToolSpec {
            name: name.to_string(),
            description: "Current weather for a city".to_string(),
            input_schema: Json::parse("{\"type\":\"object\"}").unwrap(),
        },
        parallel_safe: true,
        risk: Risk::Safe,
    }
}

fn risky(name: &str) -> ToolEntry {
    ToolEntry {
        risk: Risk::Risky,
        ..plain(name)
    }
}

fn free() -> Sampling {
    Sampling {
        greedy: false,
        seed: None,
    }
}

fn call(id: Option<&str>, name: &str, arguments: &str) -> StreamToolCall {
    StreamToolCall {
        id: id.map(str::to_string),
        name: name.to_string(),
        arguments: arguments.to_string(),
    }
}

fn calling(calls: Vec<StreamToolCall>) -> Completion {
    Completion {
        tool_calls: calls,
        ..Completion::default()
    }
}

fn saying(text: &str) -> Completion {
    Completion {
        text: text.to_string(),
        ..Completion::default()
    }
}

/// What the tools of a run do, and what was seen of them.
struct Bench {
    agent: Agent,
    /// What each tool answers, given its arguments.
    answer: fn(&str) -> CallOutcome,
    deny: Option<String>,
    asked: usize,
    ran: Vec<String>,
    /// What a reader of the run is told.
    updates: Vec<Update>,
}

impl Bench {
    fn new(agent: Agent) -> Bench {
        Bench {
            agent,
            answer: |args| CallOutcome::Output(format!("sunny given {args}")),
            deny: None,
            asked: 0,
            ran: vec![],
            updates: vec![],
        }
    }

    fn facts(&self, name: &str) -> Option<ToolFacts> {
        self.agent
            .entries
            .iter()
            .find(|(tool, _)| tool.spec.name == name)
            .map(|(tool, _)| ToolFacts {
                parallel_safe: tool.parallel_safe,
                risk: tool.risk,
            })
    }

    fn refusal(&mut self, name: &str) -> Option<CallOutcome> {
        let facts = self.facts(name);
        let decision = if asks(self.agent.approval, facts, self.deny.is_some()) {
            self.asked += 1;
            self.deny.clone().map(Decision::Deny)
        } else {
            None
        };
        refused(name, facts, decision)
    }

    fn execute(&mut self, asked: StreamToolCall) -> CallOutcome {
        self.ran.push(asked.name.clone());
        self.updates.push(Update::step(AgentStep::Calling {
            step: 0,
            tool: asked.name.clone(),
            args: Json::lenient(&asked.arguments),
        }));
        let outcome = (self.answer)(&asked.arguments);
        self.updates.push(Update::step(AgentStep::Called {
            step: 0,
            tool: asked.name.clone(),
            result: match &outcome {
                CallOutcome::Output(text) => Ok(text.clone()),
                CallOutcome::Failed { words, .. } => Err(words.clone()),
            },
            took: 0,
        }));
        outcome
    }

    /// Run a goal against turns that were written down.
    fn goal(
        &mut self,
        session: &mut Session,
        goal: &str,
        turns: &mut dyn Iterator<Item = Completion>,
        steering: &mut Steering,
    ) -> Result<Completion, Error> {
        open_goal(session, 1, Some(goal), &self.agent.images);
        let mut run = AgentLoop::new(self.agent.budgets, self.agent.answer_as.clone());
        loop {
            let asked = |i: &usize| run.call(*i).expect("a call of the round").clone();
            let happened = match run.action() {
                Action::Time => Happened::Passed(0),
                Action::Listen => Happened::Heard(steering.drain()),
                Action::Turn => Happened::Turned {
                    turn: turns.next().expect("the model was asked once too often"),
                    steering: steering.is_pending(),
                },
                Action::Shape => Happened::Shaped {
                    text: turns.next().expect("an answer in shape").text,
                    finish: Finish::Eos,
                },
                Action::Look => Happened::Looked {
                    interrupt: steering.wants_interrupt(),
                    facts: run.upcoming().and_then(|call| self.facts(&call.name)),
                },
                Action::Approve(batch) => Happened::Answered(
                    batch.iter().map(|i| self.refusal(&asked(i).name)).collect(),
                ),
                Action::Together(batch) => {
                    Happened::Ran(batch.iter().map(|i| self.execute(asked(i))).collect())
                }
                Action::Alone(i) => {
                    let call = asked(&i);
                    Happened::Ran(vec![match self.refusal(&call.name) {
                        Some(refusal) => refusal,
                        None => self.execute(call),
                    }])
                }
                Action::Stop => return run.outcome().expect("the run is over"),
            };
            assert!(run.has_room(session, &happened));
            run = run.advance(session, happened);
        }
    }

    fn alone(
        &mut self,
        session: &mut Session,
        goal: &str,
        turns: Vec<Completion>,
    ) -> Result<Completion, Error> {
        self.goal(
            session,
            goal,
            &mut turns.into_iter(),
            &mut Steering::default(),
        )
    }
}

fn transcript_of(session: &Session) -> String {
    session
        .messages()
        .iter()
        .map(|m| match &m.body {
            MessageBody::Tool { tool_calls } => tool_calls
                .iter()
                .map(|c| format!("{} {}", c.function.name, c.function.arguments.as_str()))
                .collect::<Vec<_>>()
                .join("\n"),
            _ => m.text(),
        })
        .collect::<Vec<_>>()
        .join("\n")
}

fn paris() -> StreamToolCall {
    call(None, "get_weather", r#"{"city":"Paris"}"#)
}

// ── Steering ────────────────────────────────────────────────────────────────

#[test]
fn steering_queues_in_the_order_it_was_given() {
    let mut s = Steering::default();
    assert!(!s.is_pending());
    s.follow_up("also check the logs");
    s.interrupt("actually, use staging");
    assert!(s.is_pending());

    let drained = s.drain();
    assert_eq!(drained.len(), 2);
    assert_eq!(drained[0].message, "also check the logs");
    assert!(!drained[0].interrupt);
    assert!(drained[1].interrupt);
    assert!(!s.is_pending(), "draining empties the queue");
}

#[test]
fn an_interrupt_is_visible_before_it_is_drained() {
    let mut s = Steering::default();
    s.follow_up("later");
    assert!(!s.wants_interrupt());
    s.interrupt("now");
    assert!(s.wants_interrupt());
    assert!(s.is_pending(), "checking must not consume");
}

#[test]
fn a_follow_up_does_not_read_as_an_interruption() {
    let mut s = Steering::default();
    s.follow_up("and also this");
    assert!(!s.wants_interrupt());
    assert!(!s.drain()[0].interrupt);
}

#[test]
fn default_budgets_are_bounded() {
    // An agent with no configured limit must still stop.
    let b = Budgets::default();
    assert_eq!(b.max_steps, DEFAULT_MAX_STEPS);
    assert!(
        b.max_steps > 0,
        "an unbounded default would never terminate"
    );
}

#[test]
fn agent_approval_is_off_unless_asked_for() {
    assert_eq!(ApprovalMode::default(), ApprovalMode::Auto);
    assert_eq!(Risk::default(), Risk::Safe);
}

// ── Configurations ──────────────────────────────────────────────────────────

#[test]
fn a_config_is_reusable_across_runs() {
    // The point: registering once, not per run.
    let cfg = AgentConfig::new().add_tool(plain("a")).add_tool(plain("b"));
    assert_eq!(cfg.len(), 2);
    let again = cfg.clone();
    assert_eq!(again.len(), 2, "cloning keeps the tools");
}

#[test]
fn deferred_and_resident_tools_keep_their_loading() {
    let cfg = AgentConfig::new()
        .add_tool(plain("a"))
        .defer_tool(plain("b"));
    let described = cfg.described().join(", ");
    assert!(described.contains("a (Resident)"), "{described}");
    assert!(described.contains("b (Deferred)"), "{described}");
}

#[test]
fn a_tool_set_keeps_what_was_put_in_it_and_in_order() {
    let set = ToolBundle::new()
        .add(plain("read_file"))
        .add(plain("write_file"))
        .add(plain("list_dir"));

    assert_eq!(set.len(), 3);
    assert!(!set.is_empty());
    assert_eq!(set.names(), ["read_file", "write_file", "list_dir"]);
}

#[test]
fn an_empty_tool_set_is_legal() {
    let set = ToolBundle::new();
    assert!(set.is_empty());
    assert_eq!(set.len(), 0);
    assert!(set.names().is_empty());
}

#[test]
fn extend_adds_a_whole_iterator_at_once() {
    let set = ToolBundle::new()
        .add(plain("first"))
        .extend(vec![plain("second"), plain("third")]);
    assert_eq!(set.names(), ["first", "second", "third"]);
}

#[test]
fn a_tool_set_can_be_registered_with_more_than_one_agent() {
    let filesystem = ToolBundle::new()
        .add(plain("read_file"))
        .add(plain("write_file"));
    let mut one = Bench::new(Agent::new(free()).add_tools(filesystem.tools.clone()));
    let mut two = Bench::new(Agent::new(free()).add_tools(filesystem.tools));
    one.alone(&mut Session::new(), "One", vec![saying("done")])
        .expect("the first agent should run");
    two.alone(&mut Session::new(), "Two", vec![saying("done")])
        .expect("the bundle must survive being registered once already");
}

#[test]
fn a_bundled_tool_is_dispatched_the_same_as_one_added_directly() {
    let set = ToolBundle::new().add(plain("get_weather"));
    let mut bench = Bench::new(Agent::new(free()).add_tools(set.tools));
    bench
        .alone(
            &mut Session::new(),
            "Weather?",
            vec![calling(vec![paris()]), saying("Sunny.")],
        )
        .expect("the run should complete");
    assert_eq!(bench.ran, ["get_weather"]);
}

#[test]
fn a_config_reports_what_it_holds() {
    let config = AgentConfig::new()
        .add_tool(plain("a"))
        .add_tool(plain("b"))
        .max_steps(4);
    assert_eq!(config.len(), 2);
    assert!(!config.is_empty());
    assert!(AgentConfig::new().is_empty());
}

#[test]
fn a_config_builds_the_same_agent_every_time() {
    let config = AgentConfig::new().add_tool(plain("get_weather"));
    let mut session = Session::new();
    let mut ran = 0;
    for city in ["Paris", "Berlin"] {
        let mut bench = Bench::new(config.agent(free()));
        let asked = call(None, "get_weather", &format!("{{\"city\":\"{city}\"}}"));
        bench
            .alone(
                &mut session,
                city,
                vec![calling(vec![asked]), saying("One.")],
            )
            .expect("the run should complete");
        ran += bench.ran.len();
    }
    assert_eq!(
        ran, 2,
        "the tool must be registered on the second run as well as the first"
    );
}

#[test]
fn a_configs_budget_applies_to_every_run_it_builds() {
    let config = AgentConfig::new()
        .add_tool(plain("get_weather"))
        .max_steps(2);
    let mut wandering = (0..40).map(|i| {
        calling(vec![call(
            None,
            "get_weather",
            &format!(r#"{{"city":"city-{i}"}}"#),
        )])
    });
    let mut session = Session::new();
    for run in 0..2 {
        let done = Bench::new(config.agent(free()))
            .goal(
                &mut session,
                "Keep going",
                &mut wandering,
                &mut Steering::default(),
            )
            .expect("hitting a budget is an outcome");
        assert_eq!(
            done.finish,
            Finish::OutOfBudget(Budget::Steps),
            "run {run} was not bounded by the configuration's budget"
        );
    }
}

#[test]
fn a_config_carries_its_approval_mode_into_every_run() {
    let config = AgentConfig::new()
        .add_tool(risky("delete_everything"))
        .approval(ApprovalMode::AskOnRisky);
    let mut bench = Bench::new(config.agent(free()));
    bench.deny = Some("no".into());
    let outcome = bench.alone(
        &mut Session::new(),
        "Clean up",
        vec![
            calling(vec![call(
                None,
                "delete_everything",
                r#"{"city":"Paris"}"#,
            )]),
            saying("Understood."),
        ],
    );
    assert!(outcome.is_err(), "a denial ends the run");
    assert!(
        bench.ran.is_empty(),
        "a configuration that carried AskOnRisky must still gate the call"
    );
}

#[test]
fn a_config_can_build_an_off_thread_run_too() {
    let config = AgentConfig::new().add_tool(plain("get_weather"));
    let (mut session, agent, goal) = config
        .agent_owned(Session::new())
        .goal("Weather?")
        .assemble(free());
    let mut bench = Bench::new(agent);
    let done = bench.alone(
        &mut session,
        goal.as_deref().unwrap(),
        vec![calling(vec![paris()]), saying("Sunny.")],
    );
    assert_eq!(bench.ran.len(), 1);
    assert!(
        matches!(Update::ending(done, session), Update::Done { .. }),
        "the spawned run should have ended cleanly"
    );
}

#[test]
fn a_config_means_the_same_off_the_thread() {
    let config = AgentConfig::new()
        .add_tool(plain("get_weather"))
        .max_steps(3)
        .tool_prompt("Tools:")
        .greedy();
    let here = config.agent(free());
    let (_, there, goal) = config.agent_owned(Session::new()).assemble(free());
    assert_eq!(there.tool_prompt, "Tools:");
    assert_eq!(there.tool_prompt, here.tool_prompt);
    assert_eq!(there.budgets, here.budgets);
    assert_eq!(there.sampling, here.sampling);
    assert_eq!(goal, None);
    let (_, plain, _) = AgentConfig::new()
        .agent_owned(Session::new())
        .tool_prompt("Use these:")
        .assemble(free());
    assert_eq!(plain.tool_prompt, "Use these:");
}

#[test]
fn deferred_tools_in_a_config_survive_into_the_agent() {
    let config = AgentConfig::new()
        .add_tool(plain("resident"))
        .defer_tool(plain("deferred"))
        .tool_search(ToolSearch::Bm25);
    assert_eq!(config.len(), 2, "both loadings count toward what is held");
    let agent = config.agent(free());
    assert_eq!(agent.entries.len(), 2);
    assert_eq!(agent.entries[1].1, ToolLoading::Deferred);
    assert_eq!(agent.search, Some(ToolSearch::Bm25));
    Bench::new(agent)
        .alone(&mut Session::new(), "Anything", vec![saying("done")])
        .expect("a config mixing resident and deferred tools must build");
}

// ── Dispatch ────────────────────────────────────────────────────────────────

#[test]
fn a_tool_call_reaches_the_handler_registered_under_that_name() {
    let mut bench = Bench::new(Agent::new(free()).add_tool(plain("get_weather")));
    let done = bench
        .alone(
            &mut Session::new(),
            "What is the weather in Paris?",
            vec![calling(vec![paris()]), saying("It is sunny.")],
        )
        .expect("the run should complete");

    assert_eq!(bench.ran, ["get_weather"], "the handler must have run");
    assert_eq!(done.tool_rounds, 1);
    assert_eq!(done.text, "It is sunny.");
}

#[test]
fn a_call_to_an_unregistered_tool_is_reported_rather_than_ignored() {
    let mut bench = Bench::new(Agent::new(free()).add_tool(plain("get_weather")));
    let mut session = Session::new();
    let typo = call(None, "get_wether", r#"{"city":"Paris"}"#);
    let done = bench
        .alone(
            &mut session,
            "What is the weather?",
            vec![calling(vec![typo]), saying("I cannot.")],
        )
        .expect("a typo in a tool name is the model's problem to recover from, not a crash");

    assert!(
        bench.ran.is_empty(),
        "nothing may run for a name that was never registered"
    );
    let transcript = transcript_of(&session);
    assert!(
        transcript.contains("error: no tool named 'get_wether'"),
        "the model must be told the call failed so it can correct itself:\n{transcript}"
    );
    assert_eq!(done.finish, Finish::Eos);
}

#[test]
fn malformed_json_arguments_are_recoverable() {
    let mut bench = Bench::new(Agent::new(free()).add_tool(plain("get_weather")));
    bench.answer = |_| CallOutcome::Failed {
        words: "expected an object".into(),
        actionable: true,
    };
    let mut session = Session::new();
    let done = bench
        .alone(
            &mut session,
            "What is the weather?",
            vec![
                calling(vec![call(None, "get_weather", "{not json at all")]),
                saying("Sorry."),
            ],
        )
        .expect("a model emitting broken JSON must not fail the run");
    assert_eq!(done.finish, Finish::Eos);
    assert!(
        transcript_of(&session).contains("get_weather \"{not json at all\""),
        "a malformed call is still visible rather than dropped"
    );
}

#[test]
fn a_tool_that_fails_reports_the_failure_to_the_model() {
    let mut bench = Bench::new(Agent::new(free()).add_tool(plain("get_weather")));
    bench.answer = |_| CallOutcome::Failed {
        words: "the weather service is down".into(),
        actionable: true,
    };
    let mut session = Session::new();
    let done = bench
        .alone(
            &mut session,
            "What is the weather?",
            vec![calling(vec![paris()]), saying("I could not check.")],
        )
        .expect("a failing tool must not fail the run");

    let transcript = transcript_of(&session);
    assert!(
        transcript.contains("error: the weather service is down"),
        "the model needs the reason to choose what to do next:\n{transcript}"
    );
    assert_eq!(done.finish, Finish::Eos);
}

#[test]
fn a_failure_the_model_cannot_fix_ends_the_run() {
    let mut bench = Bench::new(Agent::new(free()).add_tool(plain("get_weather")));
    bench.answer = |_| CallOutcome::Failed {
        words: "the socket is dead".into(),
        actionable: false,
    };
    let err = bench
        .alone(
            &mut Session::new(),
            "What is the weather?",
            vec![calling(vec![paris()])],
        )
        .unwrap_err();
    assert_eq!(err.code(), Some("tool_failed"));
    assert!(err.to_string().contains("get_weather: the socket is dead"));
}

// ── Budgets ─────────────────────────────────────────────────────────────────

#[test]
fn a_step_budget_stops_a_model_that_keeps_calling_tools() {
    let mut wandering = (0..50).map(|i| {
        calling(vec![call(
            None,
            "get_weather",
            &format!(r#"{{"city":"city-{i}"}}"#),
        )])
    });
    let mut bench = Bench::new(
        Agent::new(free())
            .add_tool(plain("get_weather"))
            .max_steps(3),
    );
    let done = bench
        .goal(
            &mut Session::new(),
            "Keep checking the weather",
            &mut wandering,
            &mut Steering::default(),
        )
        .expect("hitting a budget is an outcome, not an error");

    assert_eq!(done.finish, Finish::OutOfBudget(Budget::Steps));
    assert!(
        bench.ran.len() <= 3,
        "the budget is a bound: {} calls ran under a limit of 3",
        bench.ran.len(),
    );
}

#[test]
fn a_model_repeating_one_call_is_stopped_before_its_budget_runs_out() {
    let mut stuck = (0..50).map(|_| calling(vec![paris()]));
    let mut bench = Bench::new(
        Agent::new(free())
            .add_tool(plain("get_weather"))
            .max_steps(40),
    );
    let done = bench
        .goal(
            &mut Session::new(),
            "Keep checking the weather",
            &mut stuck,
            &mut Steering::default(),
        )
        .expect("giving up is an outcome, not an error");

    assert!(
        matches!(done.finish, Finish::GaveUp(_)),
        "an identical call repeated should end the run as stuck, got {:?}",
        done.finish,
    );
    assert_eq!(
        done.finish,
        Finish::GaveUp(Struggle::RepeatingCall {
            tool: "get_weather".into(),
            times: REPEAT_LIMIT,
        })
    );
    assert_eq!(
        bench.ran.len(),
        REPEAT_LIMIT - 1,
        "giving up early is the point"
    );
}

#[test]
fn a_run_that_answers_immediately_uses_no_steps() {
    let mut bench = Bench::new(Agent::new(free()).add_tool(plain("get_weather")));
    let done = bench
        .alone(
            &mut Session::new(),
            "What is the weather?",
            vec![saying("Paris is sunny.")],
        )
        .expect("answering without tools is the simplest path, not a failure");

    assert_eq!(done.tool_rounds, 0);
    assert!(bench.ran.is_empty());
    assert_eq!(done.finish, Finish::Eos);
    assert_eq!(done.text, "Paris is sunny.");
}

#[test]
fn a_token_budget_counts_the_whole_run() {
    let spending = |tokens: u32| Completion {
        stats: Some(ExecutionStats {
            decode_tokens: tokens,
            ..ExecutionStats::default()
        }),
        ..calling(vec![call(None, "t", &format!("{tokens}"))])
    };
    let mut bench = Bench::new(
        Agent::new(free())
            .add_tool(plain("t"))
            .max_tokens_total(10),
    );
    let done = bench
        .alone(
            &mut Session::new(),
            "Spend",
            vec![spending(4), spending(5), spending(1)],
        )
        .unwrap();
    assert_eq!(done.finish, Finish::OutOfBudget(Budget::Tokens));
    assert_eq!(done.stats.unwrap().decode_tokens, 10);
    assert_eq!(bench.ran.len(), 2);
}

#[test]
fn a_deadline_stops_the_next_round() {
    let mut run = Run::new(
        Budgets {
            deadline: Some(100),
            ..Budgets::default()
        },
        None,
    );
    assert!(run.begin_step(99));
    assert!(!run.begin_step(100));
    assert_eq!(
        run.into_completion().finish,
        Finish::OutOfBudget(Budget::Deadline)
    );
}

// ── Approval ────────────────────────────────────────────────────────────────

fn deleting() -> Completion {
    calling(vec![call(
        None,
        "delete_everything",
        r#"{"city":"Paris"}"#,
    )])
}

#[test]
fn a_denied_tool_never_runs() {
    let mut bench = Bench::new(
        Agent::new(free())
            .add_tool(risky("delete_everything"))
            .approval(ApprovalMode::AskOnRisky),
    );
    bench.deny = Some("not today".into());
    let outcome = bench.alone(
        &mut Session::new(),
        "Clean up",
        vec![deleting(), saying("Understood.")],
    );
    assert!(bench.ran.is_empty(), "a denied tool must not execute");
    let error = outcome.expect_err("a denial ends the run");
    assert!(
        error.to_string().contains("not today"),
        "the caller's own reason should survive to the error: {}",
        error.to_string()
    );
}

#[test]
fn an_allowed_risky_tool_runs() {
    let facts = Some(ToolFacts {
        parallel_safe: true,
        risk: Risk::Risky,
    });
    assert!(asks(ApprovalMode::AskOnRisky, facts, true));
    assert_eq!(
        refused("delete_everything", facts, Some(Decision::Allow)),
        None
    );
}

#[test]
fn a_safe_tool_is_not_put_through_approval() {
    let mut bench = Bench::new(
        Agent::new(free())
            .add_tool(plain("get_weather"))
            .approval(ApprovalMode::AskOnRisky),
    );
    bench.deny = Some("never".into());
    bench
        .alone(
            &mut Session::new(),
            "What is the weather?",
            vec![calling(vec![paris()]), saying("Sunny.")],
        )
        .expect("the run should complete");
    assert_eq!(
        bench.asked, 0,
        "AskOnRisky must not ask about a tool that declared itself safe"
    );
    assert_eq!(bench.ran.len(), 1);
}

#[test]
fn agent_contract_tests_approval_is_off_unless_asked_for() {
    let mut bench = Bench::new(Agent::new(free()).add_tool(risky("delete_everything")));
    bench.deny = Some("never".into());
    bench
        .alone(
            &mut Session::new(),
            "Clean up",
            vec![deleting(), saying("Done.")],
        )
        .expect("the run should complete");
    assert_eq!(
        bench.ran.len(),
        1,
        "without an approval mode, a risky tool runs like any other"
    );
}

// ── The transcript ──────────────────────────────────────────────────────────

#[test]
fn the_session_carries_the_whole_exchange_including_the_tool_result() {
    let mut bench = Bench::new(Agent::new(free()).add_tool(plain("get_weather")));
    let mut session = Session::new();
    bench
        .alone(
            &mut session,
            "What is the weather in Paris?",
            vec![calling(vec![paris()]), saying("It is sunny in Paris.")],
        )
        .expect("the run should complete");

    let transcript = transcript_of(&session);
    assert!(
        transcript.contains("What is the weather in Paris?"),
        "the goal is part of the conversation:\n{transcript}"
    );
    assert!(
        transcript.contains("sunny given {\"city\":\"Paris\"}"),
        "the tool result the answer rests on must be in the transcript:\n{transcript}"
    );
    let roles: Vec<&str> = session.messages().iter().map(|m| m.role.as_str()).collect();
    assert_eq!(roles, ["user", "assistant", "tool", "assistant"]);
}

#[test]
fn results_are_written_in_call_order_whatever_ran_alone() {
    let slow = ToolEntry {
        parallel_safe: false,
        ..plain("slow")
    };
    let mut bench = Bench::new(Agent::new(free()).add_tool(plain("quick")).add_tool(slow));
    bench.answer = |args| CallOutcome::Output(args.to_string());
    let mut session = Session::new();
    bench
        .alone(
            &mut session,
            "Go",
            vec![
                calling(vec![
                    call(Some("c0"), "quick", "0"),
                    call(Some("c1"), "slow", "1"),
                    call(Some("c2"), "quick", "2"),
                    call(Some("c3"), "quick", "3"),
                ]),
                saying("done"),
            ],
        )
        .unwrap();
    assert_eq!(bench.ran, ["quick", "slow", "quick", "quick"]);
    let results: Vec<(Option<&str>, String)> = session
        .messages()
        .iter()
        .filter(|m| m.role == "tool")
        .map(|m| (m.tool_call_id.as_deref(), m.text()))
        .collect();
    assert_eq!(
        results,
        [
            (Some("c0"), "0".to_string()),
            (Some("c1"), "1".to_string()),
            (Some("c2"), "2".to_string()),
            (Some("c3"), "3".to_string()),
        ]
    );
}

#[test]
fn an_interruption_leaves_the_rest_of_a_round_unrun() {
    let mut run = Run::new(Budgets::default(), None);
    let round = Round::new(vec![
        call(Some("c0"), "quick", "0"),
        call(Some("c1"), "quick", "1"),
    ]);
    let facts = Some(ToolFacts {
        parallel_safe: true,
        risk: Risk::Safe,
    });
    let (round, plan) = round.plan(&mut run, false, facts);
    assert_eq!(plan, Plan::Queued);
    let (_, plan) = round.plan(&mut run, true, facts);
    assert_eq!(plan, Plan::Last(vec![0]));
}

#[test]
fn a_follow_up_reaches_the_model_at_the_next_step() {
    let mut steering = Steering::default();
    steering.follow_up("also check the tests");
    assert!(steering.is_pending());
    let mut bench = Bench::new(Agent::new(free()));
    let mut session = Session::new();
    bench
        .goal(
            &mut session,
            "Start",
            &mut vec![saying("first answer")].into_iter(),
            &mut steering,
        )
        .unwrap();
    assert!(transcript_of(&session).contains("also check the tests"));
    assert!(!steering.is_pending());
}

#[test]
fn queued_steers_keep_their_order() {
    let mut steering = Steering::default();
    steering.follow_up("first");
    steering.follow_up("second");
    steering.follow_up("third");
    let mut session = Session::new();
    Bench::new(Agent::new(free()))
        .goal(
            &mut session,
            "Go",
            &mut vec![saying("done")].into_iter(),
            &mut steering,
        )
        .unwrap();
    let texts: Vec<String> = session.messages().iter().map(Message::text).collect();
    assert_eq!(texts, ["Go", "first", "second", "third", "done"]);
}

#[test]
fn steering_a_finished_run_is_harmless() {
    let mut steering = Steering::default();
    let mut session = Session::new();
    Bench::new(Agent::new(free()))
        .goal(
            &mut session,
            "Go",
            &mut vec![saying("done")].into_iter(),
            &mut steering,
        )
        .unwrap();
    steering.follow_up("too late");
    steering.interrupt("also too late");
    assert!(
        steering.is_pending(),
        "the queue still accepts, and nobody reads it"
    );
}

#[test]
fn a_turn_stopped_in_order_to_say_something_goes_on() {
    let mut run = Run::new(Budgets::default(), None);
    let mut session = Session::new();
    let stopped = || Completion {
        finish: Finish::Stopped,
        ..saying("so far")
    };
    assert_eq!(run.absorb(&mut session, stopped(), true), Next::Again);
    assert_eq!(run.absorb(&mut session, stopped(), false), Next::Done);
    assert_eq!(run.into_completion().finish, Finish::Stopped);
}

#[test]
fn an_answer_with_a_shape_takes_one_more_turn() {
    let mut bench = Bench::new(Agent::new(free()).answer_as("As JSON, please."));
    let mut session = Session::new();
    let done = bench
        .alone(
            &mut session,
            "Go",
            vec![saying("sunny"), saying("{\"sky\":\"sunny\"}")],
        )
        .unwrap();
    assert_eq!(done.text, "{\"sky\":\"sunny\"}");
    assert!(transcript_of(&session).contains("As JSON, please."));
}

// ── What the model is told of tools ─────────────────────────────────────────

#[test]
fn a_call_without_an_id_answers_to_its_name() {
    assert_eq!(as_wire_call(&paris()).id, "get_weather");
    assert_eq!(as_wire_call(&call(Some("c1"), "t", "{}")).id, "c1");
    assert_eq!(
        result_message(&call(Some("c1"), "t", "{}"), "r").tool_call_id,
        Some("c1".into())
    );
    assert_eq!(result_message(&paris(), "r").tool_call_id, None);
}

#[test]
fn search_is_offered_only_where_there_is_something_to_find() {
    let seen = vec![plain("read").spec];
    let names = |can_search: bool, any: bool| -> Vec<String> {
        wire_specs(&seen, can_search, any)
            .iter()
            .map(|s| s.function.name.clone())
            .collect()
    };
    assert_eq!(names(true, true), ["read", SEARCH_TOOL]);
    assert_eq!(names(false, true), ["read"]);
    assert_eq!(names(true, false), ["read"]);
}

#[test]
fn a_search_names_what_it_found() {
    let asked = Json::parse("{\"query\": \"files\"}").unwrap();
    assert_eq!(search_query(&asked), Ok("files".to_string()));
    assert!(search_query(&Json::parse("{\"query\": 3}").unwrap()).is_err());
    assert!(search_query(&Json::parse("[]").unwrap()).is_err());
    assert_eq!(search_text("files", &vec![]), "No tools match 'files'.");
    assert_eq!(
        search_text("files", &vec![plain("read").spec]),
        "Found 1 tool(s), now available to call:\n\
         read: Current weather for a city — arguments: {\"type\":\"object\"}"
    );
}

#[test]
fn a_search_strategy_says_whether_it_needs_vectors() {
    assert!(!ToolSearch::Bm25.needs_embedder());
    assert!(ToolSearch::Semantic.needs_embedder());
    assert!(ToolSearch::Hybrid.needs_embedder());
}

#[test]
fn an_agent_starts_from_its_defaults() {
    let agent = Agent::new(free());
    assert_eq!(agent.tool_prompt, TOOL_PROMPT);
    assert_eq!(agent.budgets, Budgets::default());
    assert_eq!(agent.approval, ApprovalMode::Auto);
    let agent = agent.greedy().tool_prompt("Tools:").deadline(7).seed(3);
    assert!(agent.sampling.greedy);
    assert_eq!(agent.sampling.seed, Some(3));
    assert_eq!(agent.budgets.deadline, Some(7));
    assert_eq!(agent.tool_prompt, "Tools:");
}

#[test]
fn an_owned_agent_hands_everything_on() {
    let mut earlier = Session::new().with_system("Be terse.");
    earlier.push_user("hello");
    let id = earlier.id().clone();
    let (session, agent, goal) = OwnedAgent::new(earlier)
        .add_tool(plain("a"))
        .defer_tool(plain("b"))
        .max_steps(3)
        .max_tokens_total(9)
        .approval(ApprovalMode::AskOnRisky)
        .goal("Go")
        .assemble(free());
    assert_eq!(*session.id(), id, "the session it was given");
    assert_eq!(session.system(), Some("Be terse."));
    assert_eq!(session.latest_text().as_deref(), Some("hello"));
    assert_eq!(goal.as_deref(), Some("Go"));
    assert_eq!(agent.entries.len(), 2);
    assert_eq!(agent.budgets.max_steps, 3);
    assert_eq!(agent.budgets.max_tokens, Some(9));
    assert_eq!(agent.approval, ApprovalMode::AskOnRisky);
}

// ── Updates ─────────────────────────────────────────────────────────────────

#[test]
fn a_tool_call_is_announced_before_its_result() {
    let calling = Update::step(AgentStep::Calling {
        step: 0,
        tool: "read".into(),
        args: Json::parse("{}").unwrap(),
    });
    let called = Update::step(AgentStep::Called {
        step: 0,
        tool: "read".into(),
        result: Err("gone".into()),
        took: 5,
    });
    assert!(!calling.is_last() && !called.is_last());
    assert!(matches!(&calling, Update::ToolCall { id, tool, .. } if id == "read" && tool == "read"));
    assert!(
        matches!(&called, Update::ToolResult { result: Err(e), took: 5, .. } if e == "gone")
    );
}

#[test]
fn a_turn_has_one_ending_and_hands_the_session_back() {
    let mut session = Session::new();
    session.push_user("hi");
    let failed = Update::ending(Err(Error::ModelNotLoaded), session);
    assert!(failed.is_last());
    let Update::Failed { error, session } = failed else {
        panic!("a failure");
    };
    assert_eq!(error, Error::ModelNotLoaded);
    assert_eq!(session.len(), 1);
    let done = Update::ending(Ok(saying("done")), session);
    assert!(done.is_last());
    assert!(!Update::delta("d").is_last());
}

#[test]
fn a_run_says_when_it_has_no_room_for_a_turn() {
    let spent = |tokens: u32| Completion {
        stats: Some(ExecutionStats {
            decode_tokens: tokens,
            ..ExecutionStats::default()
        }),
        ..Completion::default()
    };
    let mut run = Run::new(Budgets::default(), None);
    assert!(run.has_room_for(&spent(u32::MAX)));
    run.absorb(&mut Session::new(), spent(u32::MAX), false);
    assert!(run.has_room_for(&spent(0)));
    assert!(!run.has_room_for(&spent(1)), "the tokens cannot be added up");
}

#[test]
fn a_search_without_a_query_is_told_so() {
    assert_eq!(query_found(Some("files".into())), Ok("files".to_string()));
    assert_eq!(
        query_found(None),
        Err("expected a 'query' string".to_string())
    );
}

// ── A run that is handed over ───────────────────────────────────────────────

fn handed_over(bench: &mut Bench, goal: &str, turns: Vec<Completion>) -> Vec<Update> {
    let mut session = Session::new();
    let result = bench.alone(&mut session, goal, turns);
    let mut updates = std::mem::take(&mut bench.updates);
    updates.push(Update::ending(result, session));
    let endings = updates.iter().filter(|u| u.is_last()).count();
    assert_eq!(endings, 1, "a run must end exactly once");
    updates
}

#[test]
fn a_spawned_agent_reports_each_tool_call_and_its_result() {
    let mut bench = Bench::new(Agent::new(free()).add_tool(plain("get_weather")));
    let updates = handed_over(
        &mut bench,
        "Weather in Paris?",
        vec![calling(vec![paris()]), saying("It is sunny.")],
    );
    assert_eq!(bench.ran, ["get_weather"]);
    let told = |u: &Update| match u {
        Update::ToolCall { tool, .. } => tool == "get_weather",
        _ => false,
    };
    assert_eq!(updates.iter().filter(|u| told(u)).count(), 1);
    let answered = updates
        .iter()
        .filter(|u| matches!(u, Update::ToolResult { result: Ok(_), .. }))
        .count();
    assert_eq!(answered, 1, "and learns it finished only from the result");
}

#[test]
fn a_failing_tool_reports_its_failure_through_the_stream() {
    let mut bench = Bench::new(Agent::new(free()).add_tool(plain("get_weather")));
    bench.answer = |_| CallOutcome::Failed {
        words: "service is down".into(),
        actionable: true,
    };
    let updates = handed_over(
        &mut bench,
        "Weather?",
        vec![calling(vec![paris()]), saying("I could not check.")],
    );
    assert!(
        updates
            .iter()
            .any(|u| matches!(u, Update::ToolResult { result, .. } if result.is_err())),
        "a consumer must be able to see that a tool failed, not just that it ran"
    );
}

#[test]
fn a_spawned_agent_hands_its_session_back_with_the_whole_exchange() {
    let mut bench = Bench::new(Agent::new(free()).add_tool(plain("get_weather")));
    bench.answer = |_| CallOutcome::Output("sunny in Paris".into());
    let updates = handed_over(
        &mut bench,
        "Weather in Paris?",
        vec![calling(vec![paris()]), saying("It is sunny in Paris.")],
    );
    match updates.last() {
        Some(Update::Done { session, .. }) => {
            let transcript = transcript_of(session);
            assert!(transcript.contains("\nsunny in Paris\n"), "{transcript}");
        }
        _ => panic!("expected Done"),
    }
}

// ── The run as a whole ──────────────────────────────────────────────────────

#[test]
fn what_a_run_does_not_wait_for_changes_nothing() {
    let mut session = Session::new();
    let run = AgentLoop::new(Budgets::default(), None);
    assert_eq!(run.action(), Action::Time);
    let run = run.advance(&mut session, Happened::Ran(vec![]));
    let run = run.advance(
        &mut session,
        Happened::Turned {
            turn: saying("too early"),
            steering: false,
        },
    );
    assert_eq!(run.action(), Action::Time);
    assert!(session.is_empty());
    let run = run.advance(&mut session, Happened::Passed(0));
    assert_eq!(run.action(), Action::Listen);
    assert_eq!(run.outcome(), None, "it has hardly begun");
}

#[test]
fn a_run_that_is_over_writes_nothing_more() {
    let mut session = Session::new();
    let spent = Budgets {
        max_steps: 0,
        ..Budgets::default()
    };
    let run = AgentLoop::new(spent, None).advance(&mut session, Happened::Passed(0));
    assert_eq!(run.action(), Action::Stop);
    let mut queue = Steering::default();
    queue.follow_up("anyone there?");
    let run = run.advance(&mut session, Happened::Heard(queue.drain()));
    assert_eq!(run.action(), Action::Stop);
    assert!(session.is_empty());
    let done = run.outcome().unwrap().unwrap();
    assert_eq!(done.finish, Finish::OutOfBudget(Budget::Steps));
}

#[test]
fn a_stopped_turn_with_something_to_say_counts_as_one_round() {
    let mut session = Session::new();
    let run = AgentLoop::new(Budgets::default(), None)
        .advance(&mut session, Happened::Passed(0))
        .advance(&mut session, Happened::Heard(vec![]))
        .advance(
            &mut session,
            Happened::Turned {
                turn: Completion {
                    finish: Finish::Stopped,
                    ..saying("so far")
                },
                steering: true,
            },
        );
    assert_eq!(run.step(), 1);
    assert_eq!(run.action(), Action::Time);
    assert_eq!(session.latest_text().as_deref(), Some("so far"));
}

#[test]
fn calls_are_approved_together_and_run_together() {
    let mut session = Session::new();
    let safe = Some(ToolFacts {
        parallel_safe: true,
        risk: Risk::Safe,
    });
    let looked = |facts| Happened::Looked {
        interrupt: false,
        facts,
    };
    let run = AgentLoop::new(Budgets::default(), None)
        .advance(&mut session, Happened::Passed(0))
        .advance(&mut session, Happened::Heard(vec![]))
        .advance(
            &mut session,
            Happened::Turned {
                turn: calling(vec![
                    call(Some("a"), "read", "{}"),
                    call(Some("b"), "list", "{}"),
                    call(Some("c"), "write", "{}"),
                ]),
                steering: false,
            },
        )
        .advance(&mut session, looked(safe))
        .advance(&mut session, looked(safe))
        .advance(&mut session, looked(None));
    assert_eq!(run.action(), Action::Approve(vec![0, 1]));
    assert_eq!(run.call(2).unwrap().name, "write");
    assert!(run.call(3).is_none());

    let run = run.advance(
        &mut session,
        Happened::Answered(vec![refused("read", None, None), None]),
    );
    assert_eq!(run.action(), Action::Together(vec![1]));
    let run = run.advance(
        &mut session,
        Happened::Ran(vec![CallOutcome::Output("two files".into())]),
    );
    assert_eq!(run.action(), Action::Alone(2));
    let run = run.advance(
        &mut session,
        Happened::Ran(vec![CallOutcome::Output("written".into())]),
    );
    assert_eq!(run.action(), Action::Look);
    assert!(run.upcoming().is_none());
    let run = run.advance(&mut session, looked(None));
    assert_eq!(run.action(), Action::Time);
    assert_eq!(run.step(), 1);
    let texts: Vec<String> = session.messages().iter().skip(1).map(Message::text).collect();
    assert_eq!(
        texts,
        ["error: no tool named 'read'", "two files", "written"]
    );
}

#[test]
fn a_batch_is_sifted_before_it_runs() {
    let round = Round::new(vec![
        call(None, "read", "{}"),
        call(None, "list", "{}"),
        call(None, "write", "{}"),
    ]);
    let denied = || {
        Some(CallOutcome::Failed {
            words: "not now".into(),
            actionable: false,
        })
    };
    let (round, approved) = sift(round, &vec![0, 2], vec![denied(), None]);
    assert_eq!(approved, [2]);
    let mut session = Session::new();
    let failed = round.settle(&mut session).unwrap_err();
    assert!(failed.to_string().contains("read: not now"));
    deliver(&mut session, vec![]);
    assert!(session.is_empty());
}
