use gen2::bridge::{Bridge, Received, Turned, EVENT_BUFFER};
use gen2::channels::{ChannelMarkers, ReplyStateMachine, StreamEmission};
use gen2::chat::{
    dispatch, dispatched, record_turn, Chat, Command, Round, ToolLoop, DEFAULT_TOOL_DEPTH,
};
use gen2::engine::{Books, Delivery};
use gen2::error::Error;
use gen2::event::{record_of, Assembled, Assembler, CallIds, Event};
use gen2::event_stream::{Fed, Pulled, StreamCore};
use gen2::generation::{GenSpec, Generation, GrammarSpec, Sampling, ThinkingMode};
use gen2::inference::Inference;
use gen2::input::Input;
use gen2::json::Json;
use gen2::message::{FunctionDefinition, Message, MessageBody};
use gen2::output::{
    AssistantMessage, FinishReason, GenerationStats, OutputPart, ToolCall, ToolCallId, Usage,
};
use gen2::response::Response;
use gen2::session::Session;
use gen2::session_model::MessageId;
use gen2::spawned::OwnedChat;
use gen2::stream::{Completion, ExecutionStats, Finish, StreamToolCall, TokenEvent};
use gen2::tool_defs::{ToolDefinition, ToolSet};
use gen2::tools::WireToolSpec;

// ── Assembling a reply ──────────────────────────────────────────────────────

fn assembler() -> Assembler {
    Assembler::new(CallIds::new(MessageId(7)), None)
}

fn run(tokens: &[&str], finish: Finish) -> (Vec<Event>, AssistantMessage, FinishReason) {
    let mut a = assembler();
    let mut events = Vec::new();
    for t in tokens {
        events.extend(a.push(TokenEvent::Token((*t).to_string())));
    }
    events.extend(a.finish(finish));
    let Assembled {
        message,
        finish_reason,
        ..
    } = a.take();
    (events, message, finish_reason)
}

#[test]
fn plain_tokens_are_text_deltas_then_finished() {
    let (events, message, reason) = run(&["Hel", "lo"], Finish::Eos);
    assert_eq!(
        events,
        vec![
            Event::TextDelta("Hel".into()),
            Event::TextDelta("lo".into()),
            Event::Finished(FinishReason::Stop),
        ]
    );
    assert_eq!(message.text(), "Hello");
    assert_eq!(message.reasoning(), None);
    assert_eq!(reason, FinishReason::Stop);
}

#[test]
fn a_think_scaffold_becomes_reasoning_deltas_and_a_reasoning_part() {
    let (events, message, _) = run(
        &[
            "<think>",
            "\n",
            "weigh",
            " it",
            "\n</think>",
            "\n\n",
            "Yes",
            ".",
        ],
        Finish::Eos,
    );
    assert_eq!(
        events,
        vec![
            Event::ReasoningDelta("weigh".into()),
            Event::ReasoningDelta(" it".into()),
            Event::TextDelta("Yes".into()),
            Event::TextDelta(".".into()),
            Event::Finished(FinishReason::Stop),
        ],
        "the scaffold's own newlines are not deltas"
    );
    assert_eq!(message.text(), "Yes.");
    assert_eq!(message.reasoning().as_deref(), Some("weigh it"));
    assert_eq!(
        message.content,
        vec![
            OutputPart::Reasoning("weigh it".into()),
            OutputPart::Text("Yes.".into())
        ]
    );
}

#[test]
fn a_marker_split_across_tokens_is_still_a_marker() {
    let (events, message, _) = run(&["<th", "ink>", "hm", "</th", "ink>", "ok"], Finish::Eos);
    assert_eq!(message.reasoning().as_deref(), Some("hm"));
    assert_eq!(message.text(), "ok");
    assert!(
        !events
            .iter()
            .any(|e| matches!(e, Event::TextDelta(t) if t.contains('<'))),
        "no marker fragment leaks as text: {events:?}"
    );
}

#[test]
fn gemma_thought_channel_is_recognised_too() {
    let (_, message, _) = run(
        &["<|channel>thought\n", "hmm", "\n<channel|>", "yes"],
        Finish::Eos,
    );
    assert_eq!(message.reasoning().as_deref(), Some("hmm"));
    assert_eq!(message.text(), "yes");
}

#[test]
fn an_unclosed_scaffold_is_all_reasoning_and_no_reply() {
    let (_, message, _) = run(&["<think>", "still going"], Finish::Eos);
    assert_eq!(message.text(), "");
    assert_eq!(message.reasoning().as_deref(), Some("still going"));
    assert_eq!(
        message.content,
        vec![OutputPart::Reasoning("still going".into())]
    );
}

#[test]
fn an_empty_scaffold_leaves_no_reasoning_and_no_reasoning_events() {
    let (events, message, _) = run(&["<think>\n\n</think>\n\n", "fine"], Finish::Eos);
    assert_eq!(message.content, vec![OutputPart::Text("fine".into())]);
    assert_eq!(
        events,
        vec![
            Event::TextDelta("fine".into()),
            Event::Finished(FinishReason::Stop)
        ]
    );
}

#[test]
fn an_empty_reply_is_one_empty_text_part() {
    let (_, message, _) = run(&[], Finish::Eos);
    assert_eq!(message.content, vec![OutputPart::Text(String::new())]);
    assert_eq!(message.text(), "");
}

fn asked(id: Option<&str>, name: &str, arguments: &str) -> TokenEvent {
    TokenEvent::ToolCall(StreamToolCall {
        id: id.map(str::to_string),
        name: name.into(),
        arguments: arguments.into(),
    })
}

#[test]
fn parts_stand_in_the_order_the_model_produced_them() {
    let mut a = assembler();
    let mut events = Vec::new();
    events.extend(a.push(TokenEvent::Token("<think>why</think>Look".into())));
    events.extend(a.push(TokenEvent::Token("ing <".into())));
    events.extend(a.push(asked(None, "read", "{}")));
    events.extend(a.push(TokenEvent::Token(" and ".into())));
    events.extend(a.push(asked(Some("abc"), "list", "{}")));
    events.extend(a.push(TokenEvent::Token("done".into())));
    events.extend(a.finish(Finish::Eos));
    let call = |id: &str, name: &str| ToolCall {
        id: ToolCallId(id.into()),
        name: name.into(),
        arguments: Json::parse("{}").unwrap(),
    };
    let Assembled {
        message,
        finish_reason,
        ..
    } = a.take();
    assert_eq!(
        message.content,
        vec![
            OutputPart::Reasoning("why".into()),
            OutputPart::Text("Looking <".into()),
            OutputPart::ToolCall(call("call_7_0", "read")),
            OutputPart::Text(" and ".into()),
            OutputPart::ToolCall(call("abc", "list")),
            OutputPart::Text("done".into()),
        ]
    );
    assert_eq!(message.text(), "Looking < and done");
    assert_eq!(message.tool_calls().len(), 2);
    assert_eq!(finish_reason, FinishReason::ToolCall);
    let reported: Vec<&str> = events
        .iter()
        .filter_map(|e| match e {
            Event::TextDelta(t) => Some(t.as_str()),
            Event::ToolCallEnd { call } => Some(call.name.as_str()),
            _ => None,
        })
        .collect();
    assert_eq!(
        reported,
        ["Look", "ing ", "read", "< and ", "list", "done"]
    );
}

#[test]
fn a_marker_that_a_call_falls_into_is_still_a_marker() {
    let mut a = assembler();
    assert!(a.push(TokenEvent::Token("<thi".into())).is_empty());
    assert_eq!(a.push(asked(None, "read", "{}")).len(), 3);
    assert!(a.push(TokenEvent::Token("nk>".into())).is_empty());
    assert_eq!(
        a.push(TokenEvent::Token("why".into())),
        [Event::ReasoningDelta("why".into())]
    );
    a.push(TokenEvent::Token("</think>so".into()));
    a.finish(Finish::Eos);
    let message = a.take().message;
    assert_eq!(message.text(), "so");
    assert_eq!(message.reasoning().as_deref(), Some("why"));
    assert_eq!(message.tool_calls().len(), 1);
}

/// The parts a stream comes to, a call shown as its name in brackets.
fn parts(stream: Vec<TokenEvent>) -> Vec<String> {
    let mut a = assembler();
    for event in stream {
        a.push(event);
    }
    a.finish(Finish::Eos);
    a.take()
        .message
        .content
        .iter()
        .map(|part| match part {
            OutputPart::Text(text) => text.clone(),
            OutputPart::Reasoning(text) => format!("({text})"),
            OutputPart::ToolCall(call) => format!("[{}]", call.name),
        })
        .collect()
}

#[test]
fn text_held_back_stands_before_a_call_that_came_after_it() {
    let token = |text: &str| TokenEvent::Token(text.to_string());
    let call = |name: &str| asked(None, name, "{}");
    // Nothing follows.
    assert_eq!(parts(vec![token("a<"), call("x")]), ["a<", "[x]"]);
    // It turns out to be text.
    assert_eq!(
        parts(vec![token("a<"), call("x"), token("b")]),
        ["a<", "[x]", "b"]
    );
    assert_eq!(
        parts(vec![
            token("a<t"),
            call("x"),
            token("hi"),
            call("y"),
            token("s is"),
            call("z"),
            token(" it"),
        ]),
        ["a<t", "[x]", "hi", "[y]", "s is", "[z]", " it"]
    );
    // It turns out to be a marker.
    assert_eq!(
        parts(vec![token("a<thi"), call("x"), token("nk>why</think>b")]),
        ["a", "[x]", "(why)", "b"]
    );
    // A marker, and then the same characters as text.
    assert_eq!(
        parts(vec![token("<thi"), call("x"), token("nk></think><thix")]),
        ["[x]", "<thix"]
    );
}

#[test]
fn calls_leave_the_fragments_as_they_are() {
    let run = |with_call: bool| {
        let mut a = assembler();
        let mut events = a.push(TokenEvent::Token("a<".into()));
        if with_call {
            a.push(asked(None, "x", "{}"));
        }
        events.extend(a.push(TokenEvent::Token("b c".into())));
        events
    };
    assert_eq!(run(true), run(false));
    assert_eq!(
        run(true),
        [
            Event::TextDelta("a".into()),
            Event::TextDelta("<b c".into())
        ]
    );
}

#[test]
fn ids_go_on_from_the_count_they_are_given() {
    let mut ids = CallIds::new(MessageId(7));
    assert_eq!(ids.mint().as_str(), "call_7_0");
    let mut a = Assembler::new(ids, None);
    a.push(asked(None, "read", "{}"));
    a.finish(Finish::Eos);
    assert_eq!(a.take().message.tool_calls()[0].id.as_str(), "call_7_1");
}

#[test]
fn a_complete_tool_call_is_start_arguments_end() {
    let mut a = assembler();
    let events = a.push(asked(None, "get_weather", r#"{"city":"Paris"}"#));
    let id = ToolCallId("call_7_0".into());
    assert_eq!(
        events,
        vec![
            Event::ToolCallStart {
                id: id.clone(),
                name: "get_weather".into()
            },
            Event::ToolCallArgumentsDelta {
                id: id.clone(),
                delta: r#"{"city":"Paris"}"#.into()
            },
            Event::ToolCallEnd {
                call: ToolCall {
                    id,
                    name: "get_weather".into(),
                    arguments: Json::parse("{\"city\": \"Paris\"}").unwrap(),
                }
            },
        ]
    );
    let end = a.finish(Finish::Eos);
    assert_eq!(end.last(), Some(&Event::Finished(FinishReason::ToolCall)));
    let done = a.take();
    assert_eq!(done.finish_reason, FinishReason::ToolCall);
    assert_eq!(
        done.message.text(),
        "",
        "no text part is invented for a tool-only turn"
    );
    assert_eq!(done.message.tool_calls().len(), 1);
}

#[test]
fn ids_are_minted_per_message_and_provider_ids_are_kept() {
    let mut a = assembler();
    a.push(asked(None, "a", "{}"));
    a.push(asked(Some("abc"), "b", "not json"));
    a.push(asked(None, "c", "{}"));
    a.finish(Finish::Eos);
    let done = a.take();
    let calls = done.message.tool_calls();
    assert_eq!(calls[0].id().as_str(), "call_7_0");
    assert_eq!(calls[1].id().as_str(), "abc", "a provider id is kept");
    assert_eq!(calls[2].id().as_str(), "call_7_1");
    assert_eq!(
        calls[1].arguments(),
        &Json::string("not json"),
        "malformed arguments survive as a string"
    );
}

#[test]
fn a_stop_is_cancelled_with_the_partial_text_kept() {
    let (events, message, reason) = run(&["partial"], Finish::Stopped);
    assert_eq!(reason, FinishReason::Cancelled);
    assert_eq!(message.text(), "partial");
    assert_eq!(
        events.last(),
        Some(&Event::Finished(FinishReason::Cancelled))
    );
}

#[test]
fn hitting_the_budget_is_length_and_usage_is_reported_first() {
    let mut a = Assembler::new(CallIds::new(MessageId(1)), Some(8));
    a.push(TokenEvent::Token("and then".into()));
    a.push(TokenEvent::Stats(ExecutionStats {
        prompt_tokens: 10,
        decode_tokens: 8,
        ..Default::default()
    }));
    let end = a.finish(Finish::Eos);
    assert_eq!(
        end,
        vec![
            Event::Usage(Usage {
                prompt_tokens: 10,
                completion_tokens: 8
            }),
            Event::Finished(FinishReason::Length),
        ]
    );
    // Same stream under a larger budget: the model chose to stop.
    let mut a = Assembler::new(CallIds::new(MessageId(1)), Some(64));
    a.push(TokenEvent::Stats(ExecutionStats {
        decode_tokens: 8,
        ..Default::default()
    }));
    a.finish(Finish::Eos);
    assert_eq!(a.take().finish_reason, FinishReason::Stop);
    // No token count means no grounds to claim the budget was hit.
    let (_, _, reason) = run(&["x"], Finish::Eos);
    assert_eq!(reason, FinishReason::Stop);
}

#[test]
fn the_recorded_message_carries_the_calls_under_their_ids() {
    let mut a = assembler();
    a.push(asked(None, "read", r#"{"path":"x"}"#));
    a.finish(Finish::Eos);
    let message = a.take().message;
    let record = record_of(&message);
    let MessageBody::Tool { tool_calls } = &record.body else {
        panic!("a tool turn is recorded as its calls");
    };
    assert_eq!(tool_calls[0].id, "call_7_0");
    assert_eq!(
        tool_calls[0].function.arguments.field("path").as_deref(),
        Some("x")
    );

    let plain = record_of(&AssistantMessage {
        content: vec![
            OutputPart::Reasoning("why".into()),
            OutputPart::Text("because".into()),
        ],
    });
    assert_eq!(plain.role, "assistant");
    assert_eq!(plain.text(), "because");
}

#[test]
fn what_streams_is_what_is_said() {
    let cut: [&[&str]; 3] = [
        &["<think>\nso \n</think>\n\nthe ", "answer "],
        &["<think>", "\nso ", "\n</thi", "nk>\n", "\nthe answer "],
        &["<think>\nso \n</think>\n\nthe answer "],
    ];
    for tokens in cut {
        let (events, message, _) = run(tokens, Finish::Eos);
        let streamed: String = events
            .iter()
            .filter_map(|e| match e {
                Event::TextDelta(t) => Some(t.as_str()),
                _ => None,
            })
            .collect();
        assert_eq!(streamed, "the answer ");
        assert_eq!(message.text(), streamed);
        assert_eq!(message.reasoning().as_deref(), Some("so"));
        let ends = events
            .iter()
            .filter(|e| matches!(e, Event::Finished(_)))
            .count();
        assert_eq!(ends, 1);
        assert!(matches!(events.last(), Some(Event::Finished(_))));
    }
}

#[test]
fn a_finish_without_a_reason_of_its_own_keeps_its_name() {
    let (_, _, reason) = run(&["x"], Finish::ToolDepthReached);
    assert_eq!(reason, FinishReason::Other("ToolDepthReached".into()));
    let stuck = Finish::GaveUp(gen2::stream::Struggle::RepeatingCall {
        tool: "a\"b".into(),
        times: 3,
    });
    let shown = format!("{stuck:?}");
    let (_, _, reason) = run(&["x"], stuck);
    assert_eq!(reason, FinishReason::Other(shown));
}

#[test]
fn shed_messages_are_counted_up() {
    let mut a = assembler();
    a.push(TokenEvent::ContextTruncated { dropped: 2 });
    a.push(TokenEvent::ContextCompacted { compacted: 3 });
    a.push(TokenEvent::Other);
    a.finish(Finish::Eos);
    assert_eq!(a.take().shed, 5);
}

#[test]
fn the_scanner_splits_channels_wherever_the_text_is_cut() {
    let whole = "a<think>b</think>c";
    for at in 0..whole.len() {
        let mut scanner = ReplyStateMachine::new(ChannelMarkers::all());
        let mut out = scanner.push_emit(&whole[..at]);
        out.extend(scanner.push_emit(&whole[at..]));
        out.extend(scanner.flush_pending());
        let mut content = String::new();
        let mut reasoning = String::new();
        for emission in &out {
            match emission {
                StreamEmission::Content(t) => content.push_str(t),
                StreamEmission::Reasoning(t) => reasoning.push_str(t),
            }
        }
        assert_eq!(content, "ac", "cut at {at}");
        assert_eq!(reasoning, "b", "cut at {at}");
    }
}

// ── Responses ───────────────────────────────────────────────────────────────

#[test]
fn accessors_read_the_parts() {
    let r = Response::assembled(
        AssistantMessage {
            content: vec![
                OutputPart::Reasoning("weigh it".into()),
                OutputPart::Text("Yes.".into()),
            ],
        },
        FinishReason::Stop,
        GenerationStats::default(),
        Some(MessageId(3)),
    );
    assert_eq!(r.text(), "Yes.");
    assert_eq!(r.reasoning().as_deref(), Some("weigh it"));
    assert!(r.tool_calls().is_empty());
    assert_eq!(*r.finish_reason(), FinishReason::Stop);
    assert_eq!(r.message_id(), Some(MessageId(3)));
    assert!(!r.stats().reported());
    assert_eq!(r.detached().message_id(), None);
}

// ── A stream and the session it settles into ────────────────────────────────

fn stream_of(session: &Session, events: Vec<TokenEvent>) -> StreamCore {
    let mut core = StreamCore::new(MessageId(session.next_number()), None, false);
    for event in events {
        assert_eq!(core.feed(Fed::Event(event)), None);
    }
    core.feed(Fed::Ended);
    core
}

fn drained(core: &mut StreamCore) -> Vec<Event> {
    let mut out = vec![];
    while let Pulled::Event(event) = core.pull() {
        out.push(event);
    }
    out
}

#[test]
fn a_finished_stream_is_recorded_and_answers_with_what_it_recorded() {
    let mut session = Session::new();
    session.push_user("hi");
    let mut core = stream_of(
        &session,
        vec![
            TokenEvent::Token("hello".into()),
            TokenEvent::ContextTruncated { dropped: 1 },
        ],
    );
    assert_eq!(drained(&mut core), [Event::TextDelta("hello".into())]);
    assert!(core.needs_completion());
    core.complete(&mut session, Finish::Eos);
    assert!(!core.needs_completion());
    assert_eq!(drained(&mut core), [Event::Finished(FinishReason::Stop)]);
    let response = core.take_response().unwrap();
    assert_eq!(response.text(), "hello");
    assert_eq!(response.message_id(), Some(session.active_ids()[1]));
    assert_eq!(session.latest_text().as_deref(), Some("hello"));
    assert_eq!(session.shed(), 1);
    assert_eq!(core.take_response().unwrap_err().code(), Some("stream_failed"));
}

#[test]
fn a_stop_keeps_the_partial_reply_and_closes_the_conversation() {
    let mut session = Session::new();
    session.push_user("hi");
    session.set_opened(true);
    let mut core = stream_of(&session, vec![TokenEvent::Token("kept".into())]);
    core.complete(&mut session, Finish::Stopped);
    assert!(!session.opened());
    assert_eq!(session.latest_text().as_deref(), Some("kept"));
    // With nothing produced there is nothing to record.
    let mut empty = stream_of(&session, vec![]);
    let before = session.len();
    empty.complete(&mut session, Finish::Stopped);
    assert_eq!(session.len(), before);
    assert_eq!(empty.take_response().unwrap().message_id(), None);
}

#[test]
fn a_failed_stream_is_reported_once_and_records_nothing() {
    let mut core = StreamCore::new(MessageId(0), None, false);
    assert_eq!(
        core.feed(Fed::Failed("the GPU fell over".into())).as_deref(),
        Some("the GPU fell over")
    );
    assert!(core.is_done());
    assert!(!core.needs_completion());
    assert_eq!(core.pull(), Pulled::Over);
    let error = core.take_response().unwrap_err();
    assert!(error.to_string().contains("the GPU fell over"));
}

#[test]
fn a_turn_cancelled_before_it_began_ends_as_cancelled() {
    let mut core = StreamCore::cancelled_before_start(MessageId(0));
    assert!(core.is_done() && core.has_queued());
    assert_eq!(
        drained(&mut core),
        [Event::Finished(FinishReason::Cancelled)]
    );
    let response = core.take_response().unwrap();
    assert_eq!(*response.finish_reason(), FinishReason::Cancelled);
    assert_eq!(response.text(), "");
}

#[test]
fn two_turns_never_mint_one_call_id() {
    let mut session = Session::new();
    session.push_user("go");
    let mut seen = vec![];
    for _ in 0..3 {
        let mut core = stream_of(&session, vec![asked(None, "t", "{}")]);
        drained(&mut core);
        core.complete(&mut session, Finish::Eos);
        let response = core.take_response().unwrap();
        seen.push(response.tool_calls()[0].id().as_str().to_string());
    }
    seen.sort();
    seen.dedup();
    assert_eq!(seen.len(), 3);
}

// ── The same stream, from another task ──────────────────────────────────────

#[test]
fn the_bridge_hands_out_what_the_stream_would() {
    assert_eq!(EVENT_BUFFER, 64);
    let mut session = Session::new();
    session.push_user("hi");
    let core = StreamCore::new(MessageId(session.next_number()), None, false);
    let (mut bridge, worker) = Bridge::start(core);
    let mut core = worker.expect("there is something to pull");
    assert_eq!(bridge.turn(Received::Nothing), Turned::Wait);
    assert_eq!(bridge.turn(Received::Something), Turned::Pass);
    core.feed(Fed::Event(TokenEvent::Token("hello".into())));
    core.feed(Fed::Ended);
    assert_eq!(drained(&mut core).len(), 1, "these crossed the channel");
    assert_eq!(bridge.turn(Received::Closed), Turned::Join);
    assert!(!bridge.is_terminated());
    bridge.joined(core, &mut session, Finish::Eos);
    assert_eq!(
        bridge.turn(Received::Closed),
        Turned::Event(Event::Finished(FinishReason::Stop))
    );
    assert_eq!(bridge.turn(Received::Closed), Turned::Over);
    assert_eq!(bridge.turn(Received::Closed), Turned::Over, "fused");
    assert!(bridge.is_terminated());
    assert!(!bridge.leave(&mut session), "it was read to the end");
    assert_eq!(session.latest_text().as_deref(), Some("hello"));
    let response = bridge.finish(true).unwrap();
    assert_eq!(response.text(), "hello");
    assert_eq!(response.message_id(), None, "there is no session to name");
}

#[test]
fn a_stream_left_half_read_makes_the_next_turn_rebuild() {
    let mut session = Session::new();
    session.set_opened(true);
    let (bridge, _) = Bridge::start(StreamCore::new(MessageId(0), None, false));
    assert!(bridge.leave(&mut session));
    assert!(!session.opened());
    assert_eq!(bridge.finish(false).unwrap_err().code(), Some("stream_failed"));
}

#[test]
fn a_worker_that_panicked_is_an_error_and_the_end() {
    let (mut bridge, _) = Bridge::start(StreamCore::new(MessageId(0), None, false));
    let error = bridge.panicked();
    assert_eq!(error.code(), Some("task_panicked"));
    assert_eq!(bridge.turn(Received::Closed), Turned::Over);
    assert!(bridge.is_terminated());
}

#[test]
fn a_stream_cancelled_before_it_began_needs_no_worker() {
    let (mut bridge, worker) = Bridge::start(StreamCore::cancelled_before_start(MessageId(0)));
    assert!(worker.is_none());
    assert_eq!(
        bridge.turn(Received::Nothing),
        Turned::Event(Event::Finished(FinishReason::Cancelled))
    );
    assert_eq!(bridge.turn(Received::Nothing), Turned::Over);
}

// ── Turns against an engine ─────────────────────────────────────────────────

/// An engine that answers with what was written down, and remembers what it
/// was shown.
struct Scripted {
    books: Books,
    seen: Vec<String>,
    refuses: bool,
}

impl Scripted {
    fn new() -> Scripted {
        Scripted {
            books: Books::new(),
            seen: vec![],
            refuses: false,
        }
    }

    fn send(&mut self, session: &mut Session, reply: &str) -> Result<Completion, Error> {
        session.note_model(self.books.generation);
        let id = session.id().as_str().to_string();
        let sent = dispatch(session, self.books.delivery.sent_through(&id));
        if self.refuses {
            return Err(Error::ModelNotLoaded);
        }
        self.seen.extend(sent.messages.iter().map(Message::text));
        let delivery = std::mem::replace(&mut self.books.delivery, Delivery::new());
        self.books.delivery = delivery.mark_sent(&id, sent.sent);
        dispatched(session);
        let done = Completion {
            text: reply.to_string(),
            ..Completion::default()
        };
        record_turn(session, &done);
        // The engine wrote the reply itself.
        let delivery = std::mem::replace(&mut self.books.delivery, Delivery::new());
        self.books.delivery = delivery.mark_sent(&id, session.transcript().len());
        Ok(done)
    }
}

fn chat() -> Chat {
    Chat::new(GenSpec::default())
}

fn transcript(session: &Session) -> String {
    session
        .messages()
        .iter()
        .map(Message::text)
        .collect::<Vec<_>>()
        .join("\n")
}

#[test]
fn chat_appends_both_sides_of_the_turn_to_the_caller_s_session() {
    let mut engine = Scripted::new();
    let mut session = Session::new();
    chat().user(&mut session, "Name two colours.");
    engine.send(&mut session, "Blue and green.").unwrap();

    let text = transcript(&session);
    assert!(text.contains("Name two colours."), "the question:\n{text}");
    assert!(text.contains("Blue and green."), "the answer:\n{text}");
    assert_eq!(
        session.latest_text().as_deref(),
        Some("Blue and green."),
        "the reply must be the latest message, which is what a caller renders"
    );
}

#[test]
fn a_second_turn_continues_the_same_conversation() {
    let mut engine = Scripted::new();
    let mut session = Session::new();
    chat().user(&mut session, "First");
    engine.send(&mut session, "ok").unwrap();
    let after_one = session.len();
    chat().user(&mut session, "Second");
    engine.send(&mut session, "ok").unwrap();

    assert!(
        session.len() > after_one,
        "the second turn must add to the conversation rather than replace it"
    );
    let text = transcript(&session);
    assert!(text.contains("First") && text.contains("Second"));
}

#[test]
fn messages_added_before_sending_all_reach_the_conversation() {
    let mut engine = Scripted::new();
    let mut session = Session::new();
    chat()
        .system(&mut session, "Be terse.")
        .user(&mut session, "First thing")
        .user(&mut session, "Second thing");
    engine.send(&mut session, "ok").unwrap();

    let text = transcript(&session);
    for expected in ["Be terse.", "First thing", "Second thing"] {
        assert!(text.contains(expected), "{expected} was dropped:\n{text}");
    }
}

#[test]
fn a_turn_with_nothing_added_still_sends_the_existing_conversation() {
    let mut engine = Scripted::new();
    let mut session = Session::new();
    session.push_user("the only thing said so far");
    let completion = engine.send(&mut session, "continued").unwrap();
    assert_eq!(completion.text, "continued");
    assert_eq!(engine.seen, ["the only thing said so far"]);
}

#[test]
fn editing_a_transcript_removes_it_from_what_the_model_sees() {
    let mut engine = Scripted::new();
    let mut session = Session::new();
    for text in ["keep one", "SECRET", "keep two"] {
        chat().user(&mut session, text);
        engine.send(&mut session, "ok").unwrap();
    }

    session.edit(|m| m.retain(|msg| msg.text() != "SECRET"));
    chat().user(&mut session, "after");
    engine.send(&mut session, "ok").unwrap();

    assert!(!session.messages().iter().any(|m| m.text() == "SECRET"));
    let last_start = engine
        .seen
        .iter()
        .rposition(|m| m == "keep one")
        .expect("a rebuild resends the transcript from the beginning");
    assert!(
        !engine.seen[last_start..].iter().any(|m| m == "SECRET"),
        "the model was rebuilt with a message the caller deleted: {:?}",
        engine.seen
    );
    assert!(engine.seen[last_start..].iter().any(|m| m == "after"));
}

#[test]
fn clearing_a_session_does_not_leave_the_old_conversation_in_the_model() {
    let mut engine = Scripted::new();
    let mut session = Session::new();
    chat().user(&mut session, "FORGET ME");
    engine.send(&mut session, "ok").unwrap();
    session.clear();
    let before = engine.seen.len();
    chat().user(&mut session, "fresh start");
    engine.send(&mut session, "ok").unwrap();
    assert_eq!(engine.seen[before..], ["fresh start"]);
}

#[test]
fn a_conversation_evicted_for_capacity_still_works_when_you_come_back() {
    let mut engine = Scripted::new();
    let mut session = Session::new();
    chat().user(&mut session, "in the first");
    engine.send(&mut session, "ok").unwrap();
    // Pushed out: the engine holds nothing of it any more.
    session.set_opened(false);
    let id = session.id().as_str().to_string();
    let delivery = std::mem::replace(&mut engine.books.delivery, Delivery::new());
    engine.books.delivery = delivery.forget(&id);
    let before = engine.seen.len();
    chat().user(&mut session, "back again");
    engine.send(&mut session, "ok").unwrap();
    assert_eq!(engine.seen[before..], ["in the first", "ok", "back again"]);
}

#[test]
fn a_turn_the_engine_never_accepted_is_not_recorded_as_delivered() {
    let mut engine = Scripted::new();
    engine.refuses = true;
    let mut session = Session::new();
    chat().user(&mut session, "first attempt");
    assert!(engine.send(&mut session, "never").is_err());
    assert!(
        !session.opened(),
        "a conversation the engine never accepted must not be marked open"
    );

    engine.refuses = false;
    chat().user(&mut session, "second attempt");
    engine.send(&mut session, "ok").unwrap();
    assert!(
        engine.seen.iter().any(|m| m == "first attempt"),
        "the retry skipped a message the backend never accepted; it sent {:?}",
        engine.seen
    );
}

#[test]
fn an_accepted_turn_is_recorded_so_the_next_one_sends_only_what_is_new() {
    let mut engine = Scripted::new();
    let mut session = Session::new().with_system("Be terse.");
    chat().user(&mut session, "first");
    engine.send(&mut session, "ok").unwrap();
    assert!(session.opened(), "an accepted turn opens the conversation");

    let before = engine.seen.len();
    chat().user(&mut session, "second");
    engine.send(&mut session, "ok").unwrap();
    assert_eq!(engine.seen[before..], ["second"]);
}

#[test]
fn a_failed_turn_leaves_a_session_the_caller_can_retry_with() {
    let mut engine = Scripted::new();
    engine.refuses = true;
    let mut session = Session::new();
    session.push_user("something earlier");
    let before = session.len();
    chat().user(&mut session, "Now this");
    assert!(engine.send(&mut session, "never").is_err());
    assert!(session.len() >= before);
    assert!(transcript(&session).contains("something earlier"));
}

#[test]
fn swapping_the_model_makes_every_conversation_resend() {
    let mut engine = Scripted::new();
    let mut session = Session::new();
    chat().user(&mut session, "first");
    engine.send(&mut session, "ok").unwrap();
    let books = std::mem::replace(&mut engine.books, Books::new());
    engine.books = books.after(true);
    assert_eq!(engine.books.generation, 1);
    let before = engine.seen.len();
    chat().user(&mut session, "second");
    engine.send(&mut session, "ok").unwrap();
    assert_eq!(engine.seen[before..], ["first", "ok", "second"]);
}

#[test]
fn what_was_delivered_is_kept_in_bounds() {
    let mut delivery = Delivery::new();
    for i in 0..gen2::engine::MAX_TRACKED {
        delivery = delivery.mark_sent(&format!("s{i}"), i);
    }
    assert_eq!(delivery.len(), gen2::engine::MAX_TRACKED);
    assert_eq!(delivery.sent_through("s5"), 5);
    delivery = delivery.mark_sent("s5", 9);
    assert_eq!(delivery.sent_through("s5"), 9);
    delivery = delivery.mark_sent("one more", 1);
    assert_eq!(delivery.len(), 1, "a forgotten entry only costs a resend");
    assert_eq!(delivery.sent_through("s5"), 0);
    assert_eq!(delivery.sent_through("one more"), 1);
    assert_eq!(delivery.forget("one more").len(), 0);
}

#[test]
fn a_swapped_model_has_been_handed_nothing() {
    let mut books = Books::new();
    assert_eq!(books.delivery.len(), 0);
    books.delivery = books.delivery.mark_sent("s", 3);
    assert_eq!(books.delivery.len(), 1);
    books.delivery = books.delivery.mark_sent("s", 4);
    assert_eq!(books.delivery.len(), 1);
    books = books.after(false);
    assert_eq!((books.delivery.len(), books.generation), (1, 0));
    books = books.after(true);
    assert_eq!((books.delivery.len(), books.generation), (0, 1));
}

// ── The tool loop of a turn ─────────────────────────────────────────────────

#[test]
fn a_model_still_asking_with_no_rounds_left_is_reported_as_such() {
    let calling = || Completion {
        tool_calls: vec![StreamToolCall {
            id: Some("c".into()),
            name: "t".into(),
            arguments: "{}".into(),
        }],
        ..Completion::default()
    };
    let mut session = Session::new();
    let mut rounds: ToolLoop = chat().tool_depth(1).tool_loop();
    assert_eq!(chat().tool_loop().limit, DEFAULT_TOOL_DEPTH);
    let Round::Calls(calls) = rounds.absorb(&mut session, calling()) else {
        panic!("there is a round left");
    };
    assert_eq!(calls.len(), 1);
    rounds.results(&mut session, vec!["r".into()]);
    let Round::Over(done) = rounds.absorb(&mut session, calling()) else {
        panic!("there is none any more");
    };
    assert_eq!(done.finish, Finish::ToolDepthReached);
    assert_eq!(done.tool_rounds, 1);
    let roles: Vec<&str> = session.messages().iter().map(|m| m.role.as_str()).collect();
    assert_eq!(roles, ["assistant", "tool", "assistant"]);
}

// ── One prompt ──────────────────────────────────────────────────────────────

#[test]
fn one_shot_runs_over_a_throwaway_session_and_produces_a_response() {
    let staged = Generation::new(Input::new().text("hello"))
        .system("Be brief.")
        .max_tokens(8)
        .prepare();
    let mut session = staged.session;
    assert_eq!(staged.options.max_tokens, Some(8));
    session.push(staged.message);
    let shown: Vec<String> = session.transcript().iter().map(Message::text).collect();
    assert_eq!(shown, ["Be brief.", "hello"]);

    let mut core = stream_of(
        &session,
        vec![
            TokenEvent::Token("hi ".into()),
            TokenEvent::Token("there".into()),
        ],
    );
    core.complete(&mut session, Finish::Eos);
    let response = core.take_response().unwrap().detached();
    assert_eq!(response.text(), "hi there");
    assert_eq!(*response.finish_reason(), FinishReason::Stop);
    assert_eq!(response.message_id(), None, "there is no session to name");
}

#[test]
fn one_shot_tools_come_back_as_calls() {
    let staged = Generation::new(Input::new().text("Weather in Paris?"))
        .tools(ToolSet::new().with(ToolDefinition::new("get_weather").description("Weather")))
        .prepare();
    let mut session = staged.session;
    assert_eq!(session.tools().names(), ["get_weather"]);
    session.push(staged.message);
    let mut core = stream_of(
        &session,
        vec![asked(None, "get_weather", r#"{"city":"Paris"}"#)],
    );
    core.complete(&mut session, Finish::Eos);
    let response = core.take_response().unwrap();
    assert_eq!(*response.finish_reason(), FinishReason::ToolCall);
    assert_eq!(response.tool_calls()[0].name(), "get_weather");
}

#[test]
fn sampling_knobs_reach_the_backend() {
    let staged = Generation::new(Input::new().text("x"))
        .max_tokens(7)
        .seed(9)
        .top_k(3)
        .reasoning(ThinkingMode::Off)
        .prepare();
    assert_eq!(staged.options.max_tokens, Some(7));
    assert_eq!(staged.options.sampling.seed, Some(9));
    assert_eq!(staged.options.top_k, Some(3));
    assert_eq!(staged.reasoning, ThinkingMode::Off);
}

#[test]
fn greedy_keeps_a_seed_and_sets_one_where_there_is_none() {
    let free = Sampling {
        greedy: false,
        seed: None,
    };
    assert_eq!(
        free.greedy(),
        Sampling {
            greedy: true,
            seed: Some(0)
        }
    );
    assert_eq!(
        GenSpec::default().seed(5).greedy().sampling,
        GenSpec::default().greedy().seed(5).sampling
    );
}

#[test]
fn infer_respects_a_system_prompt() {
    let (session, _) = Inference::new("Hello", GenSpec::default())
        .system("Be verbose.")
        .system("Be terse.")
        .into_parts();
    let shown: Vec<String> = session.transcript().iter().map(Message::text).collect();
    assert_eq!(shown, ["Be terse.", "Hello"]);
}

#[test]
fn an_inference_starts_from_the_engine_s_defaults() {
    let defaults = GenSpec::default().max_tokens(5).seed(2);
    let (_, plain) = Inference::new("x", defaults.clone()).into_parts();
    assert_eq!(plain, Chat::new(defaults.clone()));
    let (_, capped) = Inference::new("x", defaults.clone())
        .max_tokens(9)
        .greedy()
        .into_parts();
    assert_eq!(capped, Chat::new(defaults.max_tokens(9).greedy()));
}

#[test]
fn the_session_that_comes_back_carries_what_the_caller_put_in() {
    let mut session = Session::new();
    session.push_user("before");
    let (session, chat) = OwnedChat::new(session, GenSpec::default())
        .user("after")
        .max_tokens(3)
        .grammar(GrammarSpec::Regex("a+".into()))
        .unconstrained()
        .thinking(ThinkingMode::On)
        .into_parts();
    assert_eq!(transcript(&session), "before\nafter");
    assert_eq!(
        chat,
        Chat::new(GenSpec::default().max_tokens(3)).thinking(ThinkingMode::On)
    );
}

// ── What the engine is told ─────────────────────────────────────────────────

fn offered() -> Chat {
    Chat::new(GenSpec::default().max_tokens(9))
        .tools(
            vec![WireToolSpec {
                kind: "function".into(),
                function: FunctionDefinition {
                    description: Some("Read a file".into()),
                    name: "read".into(),
                    arguments: Json::parse("{}").unwrap(),
                },
            }],
            "Use these.",
        )
        .thinking(ThinkingMode::Off)
}

#[test]
fn a_conversation_is_opened_with_its_tools_and_continued_without() {
    let mut session = Session::new().with_system("Be terse.");
    session.push_user("hello");
    let (command, sent) = offered().begin(&session, 0);
    assert_eq!(sent, 2);
    match command {
        Command::Start {
            chat_id,
            messages,
            spec,
            thinking,
            tools,
        } => {
            assert_eq!(chat_id, session.id().as_str());
            let texts: Vec<String> = messages.iter().map(Message::text).collect();
            assert_eq!(texts, ["Be terse.", "hello"]);
            assert_eq!(spec.max_tokens, Some(9));
            assert_eq!(thinking, ThinkingMode::Off);
            let (specs, prompt) = tools.expect("the tools travel when it is opened");
            assert_eq!(specs[0].function.name, "read");
            assert_eq!(prompt, "Use these.");
        }
        Command::Continue { .. } => panic!("nothing was opened yet"),
    }

    dispatched(&mut session);
    session.push_user("and again");
    let (command, sent) = offered().begin(&session, sent);
    assert_eq!(sent, 3);
    match command {
        Command::Continue { messages, spec, .. } => {
            let texts: Vec<String> = messages.iter().map(Message::text).collect();
            assert_eq!(texts, ["and again"], "only what is new");
            assert_eq!(spec.max_tokens, Some(9));
        }
        Command::Start { .. } => panic!("the engine holds the conversation"),
    }
}

#[test]
fn a_changed_tool_set_reaches_the_model() {
    let mut session = Session::new();
    session.push_user("hello");
    session.note_tools(1);
    let (_, sent) = offered().begin(&session, 0);
    dispatched(&mut session);

    assert!(session.note_tools(2), "other tools reopen it");
    let (command, _) = offered().begin(&session, sent);
    match command {
        Command::Start {
            messages, tools, ..
        } => {
            assert_eq!(messages.len(), 1, "all of it is sent again");
            assert!(tools.is_some());
        }
        Command::Continue { .. } => panic!("the new tools would be lost"),
    }
}

#[test]
fn a_copied_turn_asks_the_same() {
    let mut session = Session::new();
    session.push_user("hello");
    let turn = offered().tool_depth(3);
    assert_eq!(turn.clone(), turn);
    assert_eq!(turn.clone().tool_loop(), turn.tool_loop());
    assert_eq!(turn.clone().begin(&session, 0), turn.begin(&session, 0));
}

#[test]
fn counters_say_when_they_have_no_room() {
    let mut core = StreamCore::new(MessageId(0), None, false);
    let all = TokenEvent::ContextTruncated {
        dropped: usize::MAX,
    };
    let one = TokenEvent::ContextCompacted { compacted: 1 };
    assert!(core.has_room_for(&all) && core.has_room_for(&one));
    core.feed(Fed::Event(all));
    assert!(!core.has_room_for(&one), "nothing more can be counted");
    assert!(core.has_room_for(&TokenEvent::Token("still".into())));
    assert!(core.has_room_for(&TokenEvent::ContextTruncated { dropped: 0 }));
}
