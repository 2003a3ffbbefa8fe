use gen2::chat::{dispatched, record_turn, Chat, Command};
use gen2::engine::{Books, Delivery};
use gen2::error::Error;
use gen2::event_stream::{Fed, Pulled, StreamCore};
use gen2::extract::{decoded_part, undecoded};
use gen2::generation::{GenSpec, Generation};
use gen2::inference::Inference;
use gen2::input::Input;
use gen2::json::Json;
use gen2::message::Message;
use gen2::model::{Model, ModelId, ModelSourceKind};
use gen2::output::FinishReason;
use gen2::response::Response;
use gen2::session::Session;
use gen2::session_model::MessageId;
use gen2::spawned::{OwnedChat, Update};
use gen2::stream::{Completion, Finish, StreamToolCall, TokenEvent};
use gen2::tool_defs::{ToolDefinition, ToolSet};
use gen2::tools::{wire_specs, ToolSpec};

/// One thing a scripted backend does.
#[derive(Clone)]
enum Step {
    Token(&'static str),
    Call(&'static str, &'static str),
    Fail(&'static str),
    Stop,
}

/// An engine that plays a script to every turn, and keeps what it was told.
struct Scripted {
    script: Vec<Step>,
    books: Books,
    seen: Vec<String>,
    tools_seen: Vec<Vec<String>>,
}

impl Scripted {
    fn new(script: Vec<Step>) -> Scripted {
        Scripted {
            script,
            books: Books::new(),
            seen: vec![],
            tools_seen: vec![],
        }
    }

    fn saying(words: &[&'static str]) -> Scripted {
        Scripted::new(words.iter().map(|w| Step::Token(w)).collect())
    }

    /// Take a turn: what was streamed, and how it ended.
    fn run(
        &mut self,
        chat: Chat,
        session: &mut Session,
    ) -> Result<(Vec<TokenEvent>, Finish), Error> {
        let id = session.id().as_str().to_string();
        let (command, sent) = chat.begin(session, self.books.delivery.sent_through(&id));
        match command {
            Command::Start {
                messages, tools, ..
            } => {
                self.seen.extend(messages.iter().map(Message::text));
                let names = tools.map_or(vec![], |(specs, _)| {
                    specs.into_iter().map(|s| s.function.name).collect()
                });
                self.tools_seen.push(names);
            }
            Command::Continue { messages, .. } => {
                self.seen.extend(messages.iter().map(Message::text));
            }
        }
        let delivery = std::mem::replace(&mut self.books.delivery, Delivery::new());
        self.books.delivery = delivery.mark_sent(&id, sent);
        dispatched(session);
        let mut events = vec![];
        for step in &self.script {
            match step {
                Step::Token(text) => events.push(TokenEvent::Token(text.to_string())),
                Step::Call(name, arguments) => {
                    events.push(TokenEvent::ToolCall(StreamToolCall {
                        id: None,
                        name: name.to_string(),
                        arguments: arguments.to_string(),
                    }));
                }
                Step::Fail(words) => {
                    return Err(Error::Generation {
                        code: "generation_error".into(),
                        message: words.to_string(),
                    });
                }
                Step::Stop => return Ok((events, Finish::Stopped)),
            }
        }
        Ok((events, Finish::Eos))
    }

    fn send(
        &mut self,
        chat: Chat,
        session: &mut Session,
        on_token: &mut dyn FnMut(&str),
    ) -> Result<Completion, Error> {
        let (events, finish) = self.run(chat, session)?;
        let mut done = Completion {
            finish,
            ..Completion::default()
        };
        for event in events {
            if let TokenEvent::Token(text) = event {
                on_token(&text);
                done.text.push_str(&text);
            }
        }
        record_turn(session, &done);
        Ok(done)
    }

    fn infer(
        &mut self,
        text: &str,
        on_token: &mut dyn FnMut(&str),
    ) -> Result<Completion, Error> {
        let (mut session, chat) = Inference::new(text, GenSpec::default()).into_parts();
        self.send(chat, &mut session, on_token)
    }

    fn spawned(&mut self, chat: OwnedChat) -> Vec<Update> {
        let (mut session, chat) = chat.into_parts();
        let mut updates = vec![];
        let result = self.send(chat, &mut session, &mut |t| updates.push(Update::delta(t)));
        updates.push(Update::ending(result, session));
        updates
    }

    fn generate(&mut self, generation: Generation) -> Result<Response, Error> {
        let staged = generation.prepare();
        let mut session = staged.session;
        session.push(staged.message);
        let specs: Vec<ToolSpec> = session
            .tools()
            .definitions()
            .iter()
            .map(|tool| ToolSpec {
                name: tool.name.clone(),
                description: tool.description.clone().unwrap_or_default(),
                input_schema: tool.input.clone().unwrap_or_else(|| Json::lenient("{}")),
            })
            .collect();
        let chat = Chat::new(staged.options).tools(wire_specs(&specs, false, false), "Tools.");
        let next = MessageId(session.next_number());
        let (events, finish) = self.run(chat, &mut session)?;
        let mut core = StreamCore::new(next, None, false);
        for event in events {
            core.feed(Fed::Event(event));
        }
        core.feed(Fed::Ended);
        while let Pulled::Event(_) = core.pull() {}
        core.complete(&mut session, finish);
        while let Pulled::Event(_) = core.pull() {}
        Ok(core.take_response()?.detached())
    }
}

fn turn() -> Chat {
    Chat::new(GenSpec::default())
}

fn deltas(updates: &[Update]) -> String {
    updates
        .iter()
        .filter_map(|u| match u {
            Update::Delta(t) => Some(t.as_str()),
            _ => None,
        })
        .collect()
}

fn assert_one_ending(updates: &[Update]) {
    let endings: Vec<usize> = updates
        .iter()
        .enumerate()
        .filter(|(_, u)| matches!(u, Update::Done { .. } | Update::Failed { .. }))
        .map(|(i, _)| i)
        .collect();
    assert_eq!(endings.len(), 1, "a run must end exactly once");
    assert_eq!(
        endings[0],
        updates.len() - 1,
        "the ending must be the last update"
    );
    assert!(updates.last().unwrap().is_last());
}

// ── One prompt, nothing kept ────────────────────────────────────────────────

#[test]
fn infer_returns_the_text_and_keeps_nothing() {
    let mut engine = Scripted::saying(&["a title"]);
    let first = engine.infer("Title this.", &mut |_| {}).unwrap().text;
    let second = engine.infer("Title this.", &mut |_| {}).unwrap().text;
    assert_eq!(first, "a title");
    assert_eq!(second, first, "a second call must not continue the first");
    assert_eq!(engine.seen, ["Title this.", "Title this."]);
}

#[test]
fn infer_streams_every_fragment_it_returns() {
    let mut engine = Scripted::saying(&["one ", "two ", "three"]);
    let mut seen = String::new();
    let text = engine
        .infer("Count.", &mut |fragment| seen.push_str(fragment))
        .unwrap()
        .text;
    assert_eq!(text, "one two three");
    assert_eq!(seen, text);
}

#[test]
fn infer_reports_how_the_generation_ended() {
    let mut engine = Scripted::saying(&["done"]);
    let completion = engine.infer("Anything", &mut |_| {}).unwrap();
    assert_eq!(completion.finish, Finish::Eos);
    assert_eq!(completion.text, "done");
    assert_eq!(
        completion.tool_rounds, 0,
        "a plain inference runs no tool loop"
    );
}

#[test]
fn infer_surfaces_a_backend_failure_as_an_error() {
    let mut engine = Scripted::new(vec![Step::Fail("the GPU fell over")]);
    assert!(
        engine.infer("Anything", &mut |_| {}).is_err(),
        "a failed generation must not come back as an empty success"
    );
}

// ── A turn ──────────────────────────────────────────────────────────────────

#[test]
fn chat_streams_every_fragment_exactly_once() {
    let mut engine = Scripted::saying(&["Rust ", "is ", "fast"]);
    let mut session = Session::new();
    let mut seen = String::new();
    let chat = turn().user(&mut session, "Write something.");
    let completion = engine
        .send(chat, &mut session, &mut |f| seen.push_str(f))
        .unwrap();
    assert_eq!(seen, "Rust is fast");
    assert_eq!(completion.text, seen);
    assert_eq!(session.latest_text().as_deref(), Some("Rust is fast"));
    assert_eq!(session.len(), 2, "and the session must hold it once");
}

#[test]
fn a_cancelled_turn_keeps_what_was_generated_and_is_not_an_error() {
    let mut engine = Scripted::new(vec![
        Step::Token("kept"),
        Step::Stop,
        Step::Token("never seen"),
    ]);
    let mut session = Session::new();
    let chat = turn().user(&mut session, "Go");
    let completion = engine.send(chat, &mut session, &mut |_| {}).unwrap();
    assert_eq!(completion.finish, Finish::Stopped);
    assert!(completion.text.contains("kept"));
    assert!(
        session.messages().iter().any(|m| m.text() == "kept"),
        "and it must already be in the session"
    );
}

#[test]
fn changing_the_tool_set_between_turns_reaches_the_model() {
    let mut engine = Scripted::saying(&["ok"]);
    let mut session = Session::new();
    for (mark, name, goal) in [(1, "first_tool", "one"), (2, "second_tool", "two")] {
        session.note_tools(mark);
        let spec = ToolSpec {
            name: name.to_string(),
            description: "A tool".to_string(),
            input_schema: Json::lenient("{}"),
        };
        let chat = turn()
            .user(&mut session, goal)
            .tools(wire_specs(&vec![spec], false, false), "Tools.");
        engine.send(chat, &mut session, &mut |_| {}).unwrap();
    }
    assert!(
        engine
            .tools_seen
            .iter()
            .any(|s| s.iter().any(|n| n == "second_tool")),
        "the second run's tools never reached the backend; it saw {:?}",
        engine.tools_seen
    );
}

// ── A turn that is handed over ──────────────────────────────────────────────

#[test]
fn a_spawned_turn_streams_its_tokens_and_hands_the_session_back() {
    let mut engine = Scripted::saying(&["hel", "lo"]);
    let chat = OwnedChat::new(Session::new(), GenSpec::default()).user("Hi");
    let updates = engine.spawned(chat);
    assert_one_ending(&updates);
    assert_eq!(deltas(&updates), "hello");
    match updates.last() {
        Some(Update::Done {
            completion,
            session,
        }) => {
            assert_eq!(completion.text, "hello");
            assert_eq!(completion.finish, Finish::Eos);
            assert_eq!(session.latest_text().as_deref(), Some("hello"));
        }
        _ => panic!("expected Done"),
    }
}

#[test]
fn a_spawned_turn_that_generates_nothing_still_ends() {
    let mut engine = Scripted::saying(&[]);
    let chat = OwnedChat::new(Session::new(), GenSpec::default()).user("Hi");
    let updates = engine.spawned(chat);
    assert_one_ending(&updates);
    assert_eq!(deltas(&updates), "");
}

#[test]
fn a_backend_failure_reaches_the_caller_with_the_session_intact() {
    let mut engine = Scripted::new(vec![Step::Fail("the GPU fell over")]);
    let chat = OwnedChat::new(Session::new(), GenSpec::default()).user("Hi");
    let updates = engine.spawned(chat);
    assert_one_ending(&updates);
    match updates.last() {
        Some(Update::Failed { error, session }) => {
            assert!(!session.messages().is_empty(), "something to retry with");
            assert!(error.to_string().contains("the GPU fell over"));
        }
        _ => panic!("expected a failure"),
    }
}

#[test]
fn cancelling_a_spawned_turn_ends_it_and_keeps_what_was_generated() {
    let mut engine = Scripted::new(vec![
        Step::Token("kept"),
        Step::Stop,
        Step::Token("never seen"),
    ]);
    let chat = OwnedChat::new(Session::new(), GenSpec::default()).user("Hi");
    let updates = engine.spawned(chat);
    assert_one_ending(&updates);
    assert_eq!(deltas(&updates), "kept");
}

// ── A model ─────────────────────────────────────────────────────────────────

fn model() -> Model {
    Model::new(
        ModelId(0),
        Some("scripted".into()),
        ModelSourceKind::LocalFile,
        None,
    )
}

fn ask(text: &str) -> Generation {
    model().generate(Input::new().text(text))
}

#[test]
fn a_model_generates_text_and_keeps_nothing() {
    let mut engine = Scripted::saying(&["hi ", "there"]);
    let first = engine.generate(ask("x")).unwrap().text();
    let second = engine.generate(ask("x")).unwrap().text();
    assert_eq!(first, "hi there");
    assert_eq!(second, first, "each generation starts fresh");
}

#[test]
fn run_returns_a_structured_response() {
    let mut engine = Scripted::saying(&["done"]);
    let response = engine.generate(ask("x").max_tokens(64)).unwrap();
    assert_eq!(response.text(), "done");
    assert_eq!(*response.finish_reason(), FinishReason::Stop);
    assert!(response.tool_calls().is_empty());
    assert_eq!(response.reasoning(), None);
}

#[test]
fn a_tool_call_comes_back_structured_with_its_own_finish_reason() {
    let mut engine = Scripted::new(vec![Step::Call("get_weather", r#"{"city":"Paris"}"#)]);
    let tools = ToolSet::new().with(
        ToolDefinition::new("get_weather")
            .description("Current weather")
            .input(Json::parse(r#"{"type": "object"}"#).unwrap()),
    );
    let response = engine
        .generate(ask("Weather in Paris?").tools(tools))
        .unwrap();
    assert_eq!(*response.finish_reason(), FinishReason::ToolCall);
    let calls = response.tool_calls();
    assert_eq!(calls.len(), 1);
    assert_eq!(calls[0].name(), "get_weather");
    assert_eq!(calls[0].arguments().field("city").as_deref(), Some("Paris"));
    assert_eq!(response.text(), "");
}

#[test]
fn tools_and_system_reach_the_backend() {
    let mut engine = Scripted::saying(&["ok"]);
    let tools = ToolSet::new().with(ToolDefinition::new("read"));
    engine
        .generate(ask("x").system("Be terse.").tools(tools))
        .unwrap();
    assert_eq!(engine.tools_seen, vec![vec!["read".to_string()]]);
    assert!(engine.seen.iter().any(|m| m.contains("Be terse.")));
}

#[test]
fn clones_are_the_same_model() {
    let model = model();
    let other = model.clone();
    assert_eq!(model.id(), other.id());
    assert_eq!(model.info(None), other.info(None));
    let text = Scripted::saying(&["a"])
        .generate(other.generate(Input::new().text("x")))
        .unwrap()
        .text();
    assert_eq!(text, "a");
}

#[test]
fn model_is_clone_send_and_sync() {
    fn assert_all<T: Clone + Send + Sync + 'static>() {}
    assert_all::<Model>();
}

// ── Decoding a reply ────────────────────────────────────────────────────────

/// The total of an invoice, decoded as a number.
fn total(reply: &str) -> Result<f64, Error> {
    serde_json::from_str::<serde_json::Value>(&decoded_part(reply))
        .map_err(|e| undecoded("Invoice", &e.to_string(), reply.to_string()))
        .and_then(|value| {
            value
                .get("total")
                .and_then(|t| t.as_f64())
                .ok_or_else(|| undecoded("Invoice", "total is no number", reply.to_string()))
        })
}

#[test]
fn a_valid_reply_decodes_into_the_requested_type() {
    let decoded = total("\n {\"vendor\":\"Acme Ltd\",\"total\":1240.0} ").unwrap();
    assert_eq!(decoded, 1240.0);
}

#[test]
fn json_that_does_not_fit_the_type_is_reported_as_an_extraction_failure() {
    match total(r#"{"vendor":"Acme","total":"a lot"}"#) {
        Err(Error::Extraction { wanted, raw, .. }) => {
            assert!(wanted.contains("Invoice"));
            assert!(
                raw.contains("a lot"),
                "the raw reply is what tells the caller what went wrong"
            );
        }
        other => panic!("expected an extraction failure, got {other:?}"),
    }
}

#[test]
fn text_that_is_not_json_at_all_is_also_an_extraction_failure() {
    let outcome = total("I could not find an invoice in that.");
    assert!(matches!(outcome, Err(Error::Extraction { .. })));
}
