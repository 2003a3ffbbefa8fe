use gen2::error::{Error, SessionError};
use gen2::json::Json;
use gen2::message::{
    FunctionDefinition, Message, MessageBody, MessageChunk, MessageContent, ToolCall,
};
use gen2::session::{Session, SessionEvent, SessionId, ToolResult};
use gen2::session_model::MessageId;
use gen2::tool_defs::{ToolDefinition, ToolSet};

fn call_msg(ids: &[&str]) -> Message {
    Message::assistant_tool_calls(
        ids.iter()
            .map(|id| ToolCall {
                id: id.to_string(),
                kind: "function".into(),
                function: FunctionDefinition {
                    description: None,
                    name: "t".into(),
                    arguments: Json::parse("{}").unwrap(),
                },
            })
            .collect(),
    )
}

fn texts(s: &Session) -> Vec<String> {
    s.messages().iter().map(Message::text).collect()
}

fn said(text: &str) -> ToolResult {
    ToolResult::from(text.to_string())
}

/// What every mutation keeps: earlier events and records stay, and the
/// projection is a part of the records.
fn assert_invariants(before: &[SessionEvent], before_records: usize, s: &Session) {
    assert!(
        s.events().starts_with(before),
        "earlier events changed or vanished"
    );
    assert!(
        s.all_messages().len() >= before_records,
        "a record was lost"
    );
    for m in s.messages() {
        assert!(
            s.all_messages().iter().any(|r| r.message == m && r.active),
            "an active message is not among the records"
        );
    }
    assert_eq!(
        s.all_messages().iter().filter(|r| r.active).count(),
        s.len(),
        "active flags disagree with the projection"
    );
    let context_events = s
        .events()
        .iter()
        .filter(|e| !matches!(e, SessionEvent::MessageRecorded { .. }))
        .count() as u64;
    assert_eq!(s.revision().as_u64(), context_events);
}

// ── Identity and basics ─────────────────────────────────────────────────────

#[test]
fn sessions_get_distinct_ids() {
    assert_ne!(Session::new().id(), Session::new().id());
}

#[test]
fn latest_is_the_most_recent_message() {
    let mut s = Session::new();
    s.push_user("first");
    s.push_user("second");
    assert_eq!(s.latest_text().as_deref(), Some("second"));
    assert_eq!(s.len(), 2);
}

#[test]
fn a_new_session_has_no_history_and_revision_zero() {
    let s = Session::new();
    assert_eq!(s.revision().as_u64(), 0);
    assert!(s.events().is_empty());
    assert!(s.all_messages().is_empty());
    assert_eq!(s.system(), None);
    assert!(s.tools().is_empty());
}

#[test]
fn reads_do_not_change_the_revision() {
    let mut s = Session::new().with_system("sys");
    s.push_user("hi");
    let r = s.revision();
    let _ = (
        s.messages(),
        s.all_messages(),
        s.events(),
        s.system(),
        s.tools(),
        s.latest(),
        s.latest_text(),
        s.transcript(),
        s.pending(0),
        s.len(),
    );
    assert_eq!(s.revision(), r);
}

// ── The system prompt ───────────────────────────────────────────────────────

#[test]
fn the_system_prompt_is_state_not_a_message() {
    let s = Session::new().with_system("Be terse.");
    assert_eq!(s.system(), Some("Be terse."));
    assert!(s.messages().is_empty(), "not in the projection");
    assert!(s.all_messages().is_empty(), "not a record either");
    assert_eq!(s.revision().as_u64(), 1);
    assert!(matches!(
        s.events(),
        [SessionEvent::SystemSet { system: Some(t) }] if t == "Be terse."
    ));
    // But it is what the model is rendered from, at index 0.
    let transcript = s.transcript();
    assert_eq!(transcript.len(), 1);
    assert_eq!(transcript[0].role, "system");
    assert_eq!(transcript[0].text(), "Be terse.");
}

#[test]
fn set_and_append_system_bump_the_revision_and_close_the_conversation() {
    let mut s = Session::new().with_system("a");
    s.push_user("hi");
    s.set_opened(true);
    let before = s.events().to_vec();
    let r = s.revision();

    s.append_system("b");
    assert_eq!(s.system(), Some("ab"));
    assert!(s.revision() > r);
    assert!(!s.opened(), "the prefix changed");
    assert_eq!(s.len(), 1, "messages untouched");
    assert_invariants(&before, 1, &s);

    let r = s.revision();
    s.set_system("ab");
    assert_eq!(s.revision(), r, "the same text again is not a change");

    s.clear_system();
    assert_eq!(s.system(), None);
    assert!(s.transcript().iter().all(|m| m.role != "system"));
}

// ── Tools ───────────────────────────────────────────────────────────────────

#[test]
fn tools_are_state_with_deterministic_order() {
    let mut s = Session::new();
    s.set_opened(true);
    let r = s.revision();
    s.add_tool(ToolDefinition::new("read"));
    s.add_tool(ToolDefinition::new("write"));
    assert_eq!(s.tools().names(), ["read", "write"]);
    assert!(s.revision() > r);
    assert!(!s.opened());
    assert!(s.messages().is_empty(), "tools are not messages");

    assert!(s.remove_tool("read"));
    assert!(!s.remove_tool("read"), "already gone");
    assert_eq!(s.tools().names(), ["write"]);

    let r = s.revision();
    s.set_tools(s.tools().clone());
    assert_eq!(s.revision(), r, "the same set again is not a change");

    let set_events = s
        .events()
        .iter()
        .filter(|e| matches!(e, SessionEvent::ToolsSet { .. }))
        .count();
    assert_eq!(set_events, 3, "add, add, remove — each recorded whole");
}

// ── Identity of messages ────────────────────────────────────────────────────

#[test]
fn every_push_gets_a_fresh_id_and_a_record() {
    let mut s = Session::new();
    let a = s.push_user("a");
    let b = s.push(Message::user("b"));
    assert_ne!(a, b);
    assert_eq!(s.active_ids(), [a, b]);
    assert_eq!(s.message(a).map(Message::text).as_deref(), Some("a"));
    let records = s.all_messages();
    assert_eq!(records.len(), 2);
    assert!(records.iter().all(|r| r.active && r.replaced_by.is_none()));
    assert_eq!(s.revision().as_u64(), 2);
}

// ── Replacing ───────────────────────────────────────────────────────────────

#[test]
fn walkthrough_28_8_edit_a_user_message_without_losing_history() {
    let mut s = Session::new();
    let id = s.push_user("helo");
    let before = s.events().to_vec();

    let new = s
        .replace_message(id, Message::user("hello"))
        .expect("a plain edit");

    assert_eq!(s.messages().last().unwrap().text(), "hello");
    assert_eq!(s.len(), 1);

    // Both revisions still exist.
    let records = s.all_messages();
    assert_eq!(records.len(), 2);
    let old = records.iter().find(|r| r.id == id).unwrap();
    let replacement = records.iter().find(|r| r.id == new).unwrap();
    assert_eq!(old.message.text(), "helo");
    assert!(!old.active);
    assert_eq!(old.replaced_by, Some(new));
    assert_eq!(replacement.message.text(), "hello");
    assert!(replacement.active);
    assert_eq!(replacement.replaced_by, None);

    // And the log explains it.
    assert!(matches!(
        s.events().last(),
        Some(SessionEvent::MessageReplaced { old_id, new_id, .. }) if *old_id == id && *new_id == new
    ));
    assert_invariants(&before, 1, &s);
}

#[test]
fn replacing_keeps_the_position() {
    let mut s = Session::new();
    s.push_user("a");
    let b = s.push_user("b");
    s.push_user("c");
    s.replace_message(b, Message::user("B")).unwrap();
    assert_eq!(texts(&s), ["a", "B", "c"]);
}

#[test]
fn replacing_an_unknown_or_inactive_message_is_refused() {
    let mut s = Session::new();
    let a = s.push_user("a");
    s.remove_message(a).unwrap();
    let events = s.events().to_vec();
    let err = s.replace_message(a, Message::user("x")).unwrap_err();
    assert!(matches!(
        err,
        Error::Session(SessionError::NotActive(id)) if id == a
    ));
    let err = s
        .replace_message(MessageId(99), Message::user("x"))
        .unwrap_err();
    assert!(matches!(
        err,
        Error::Session(SessionError::UnknownMessage(_))
    ));
    assert_eq!(s.events(), &events[..], "a refusal leaves no trace");
}

// ── Removing ────────────────────────────────────────────────────────────────

#[test]
fn removing_hides_a_message_without_erasing_it() {
    let mut s = Session::new();
    let a = s.push_user("a");
    let b = s.push_user("b");
    let before = s.events().to_vec();
    s.remove_message(a).unwrap();
    assert_eq!(s.active_ids(), [b]);
    assert_eq!(texts(&s), ["b"]);
    let records = s.all_messages();
    assert_eq!(records.len(), 2);
    assert!(!records[0].active);
    assert_eq!(records[0].message.text(), "a");
    assert!(matches!(
        s.events().last(),
        Some(SessionEvent::MessageRemoved { id }) if *id == a
    ));
    assert_invariants(&before, 2, &s);
    assert!(s.remove_message(a).is_err(), "not active any more");
}

// ── Replacing and restoring the whole context ───────────────────────────────

#[test]
fn walkthrough_28_9_compact_without_erasing_old_history() {
    let mut s = Session::new().with_system("sys");
    s.push_user("one");
    s.push(Message::assistant_structured("two", None));
    s.push_user("three");
    let latest = s.latest().unwrap().clone();
    let before = s.events().to_vec();
    let before_ids = s.active_ids().to_vec();

    s.replace_messages(vec![Message::user("Summary of prior context: ..."), latest])
        .expect("compaction");

    assert_eq!(texts(&s), ["Summary of prior context: ...", "three"]);
    assert_eq!(s.system(), Some("sys"), "instruction state untouched");
    // `all_messages()` and `events()` retain pre-compaction history.
    let records = s.all_messages();
    assert_eq!(records.len(), 5);
    assert!(
        records
            .iter()
            .filter(|r| !r.active)
            .map(|r| r.message.text())
            .eq(["one", "two", "three"]),
        "the three originals are all still here, inactive"
    );
    assert!(matches!(
        s.events().last(),
        Some(SessionEvent::ContextReplaced { active, .. }) if active.len() == 2
    ));
    assert_invariants(&before, 3, &s);

    // And undo is a restore of the old ids.
    s.restore_context(before_ids.clone()).expect("undo");
    assert_eq!(texts(&s), ["one", "two", "three"]);
    assert_eq!(s.active_ids(), &before_ids[..]);
    assert_eq!(s.all_messages().len(), 5, "restore mints nothing");
}

#[test]
fn restore_context_refuses_unknown_and_duplicate_ids() {
    let mut s = Session::new();
    let a = s.push_user("a");
    let events = s.events().to_vec();
    assert!(matches!(
        s.restore_context(vec![a, MessageId(7)]).unwrap_err(),
        Error::Session(SessionError::UnknownMessage(_))
    ));
    assert!(matches!(
        s.restore_context(vec![a, a]).unwrap_err(),
        Error::Session(SessionError::Duplicate(_))
    ));
    assert_eq!(s.events(), &events[..]);
}

#[test]
fn restore_context_can_reorder_and_revive() {
    let mut s = Session::new();
    let a = s.push_user("a");
    let b = s.push_user("b");
    s.remove_message(a).unwrap();
    s.restore_context(vec![b, a]).unwrap();
    assert_eq!(texts(&s), ["b", "a"]);
}

// ── Forking ─────────────────────────────────────────────────────────────────

#[test]
fn a_fork_shares_state_and_provenance_but_not_identity() {
    let mut a = Session::new().with_system("sys");
    a.add_tool(ToolDefinition::new("read"));
    let first = a.push_user("hello");
    a.set_opened(true);
    a.note_shed(2);

    let b = a.fork();
    assert_ne!(
        b.id(),
        a.id(),
        "a fork must not share the engine's cache key"
    );
    assert_eq!(b.messages(), a.messages());
    assert_eq!(b.system(), a.system());
    assert_eq!(b.tools(), a.tools());
    assert!(!b.opened(), "the engine has nothing cached for a fork");
    assert_eq!(b.shed(), 0, "a fork is resent whole, so nothing is missing");

    // Provenance: the parent's log verbatim, then the fork event.
    assert!(b.events().starts_with(a.events()));
    assert!(matches!(
        b.events().last(),
        Some(SessionEvent::Forked { parent, at: None }) if parent == a.id()
    ));
    assert_eq!(b.revision().as_u64(), a.revision().as_u64() + 1);
    // Ids survive, so a parent's id still names the same record.
    assert_eq!(b.message(first).map(Message::text), Some("hello".into()));
}

#[test]
fn the_two_branches_of_a_fork_diverge_independently() {
    let mut a = Session::new();
    a.push_user("shared");
    let mut b = a.fork();
    a.push_user("only in a");
    b.push_user("only in b");

    assert_eq!(a.len(), 2);
    assert_eq!(b.len(), 2);
    assert_eq!(a.latest_text().as_deref(), Some("only in a"));
    assert_eq!(b.latest_text().as_deref(), Some("only in b"));
}

#[test]
fn fork_at_cuts_the_projection_after_the_named_message() {
    let mut a = Session::new();
    let one = a.push_user("one");
    a.push_user("two");
    a.push_user("three");
    let b = a.fork_at(one).unwrap();
    assert_eq!(texts(&b), ["one"]);
    assert_eq!(b.all_messages().len(), 3, "the records all came along");
    assert!(matches!(
        b.events().last(),
        Some(SessionEvent::Forked { at: Some(id), .. }) if *id == one
    ));
    assert_eq!(
        texts(&a),
        ["one", "two", "three"],
        "the parent is untouched"
    );
    assert!(a.fork_at(MessageId(42)).is_err());
}

#[test]
fn a_fork_under_a_given_id_has_that_id() {
    let mut a = Session::new();
    let one = a.push_user("one");
    a.push_user("two");
    let b = a.fork_as(SessionId("branch".into()));
    assert_eq!(b.id().as_str(), "branch");
    assert_eq!(texts(&b), ["one", "two"]);
    let c = a.fork_at_as(SessionId("cut".into()), one).unwrap();
    assert_eq!(c.id().as_str(), "cut");
    assert_eq!(texts(&c), ["one"]);
    assert!(a
        .fork_at_as(SessionId("cut".into()), MessageId(42))
        .is_err());
    assert_eq!(a.fork().id().as_str().len(), "session-".len() + 36);
    let d = a.fork_at(one).unwrap();
    assert!(d.id().as_str().starts_with("session-"));
    assert_eq!(d.id().as_str().len(), "session-".len() + 36);
    assert_ne!(d.id(), a.id());
}

// ── The revision ────────────────────────────────────────────────────────────

#[test]
fn every_context_affecting_mutation_bumps_the_revision_exactly_once() {
    let mut s = Session::new();
    let mut last = s.revision();
    let mut bumped = |s: &Session, what: &str| {
        assert_eq!(
            s.revision().as_u64(),
            last.as_u64() + 1,
            "{what} should bump exactly once"
        );
        last = s.revision();
    };
    s.set_system("x");
    bumped(&s, "set_system");
    s.set_tools(ToolSet::new().with(ToolDefinition::new("t")));
    bumped(&s, "set_tools");
    let a = s.push_user("a");
    bumped(&s, "push");
    let b = s.replace_message(a, Message::user("b")).unwrap();
    bumped(&s, "replace_message");
    s.remove_message(b).unwrap();
    bumped(&s, "remove_message");
    s.replace_messages(vec![Message::user("c")]).unwrap();
    bumped(&s, "replace_messages");
    s.restore_context(vec![a]).unwrap();
    bumped(&s, "restore_context");
    s.edit(|m| m.clear());
    bumped(&s, "edit");
    s.push_user("d");
    bumped(&s, "push");
    s.clear();
    bumped(&s, "clear");
}

// ── Edit, clear, rollback ───────────────────────────────────────────────────

#[test]
fn edit_is_a_lossless_context_replacement() {
    let mut s = Session::new();
    let a = s.push_user("a");
    let b = s.push_user("b");
    s.push_user("c");
    s.set_opened(true);
    let before = s.events().to_vec();

    s.edit(|m| m.truncate(2));
    assert_eq!(texts(&s), ["a", "b"]);
    assert_eq!(s.active_ids(), [a, b], "unchanged messages keep their ids");
    assert!(!s.opened());
    assert_eq!(
        s.all_messages().len(),
        3,
        "the trimmed message is still recorded"
    );
    assert_invariants(&before, 3, &s);

    s.edit(|m| m[0] = Message::user("A"));
    assert_eq!(texts(&s), ["A", "b"]);
    assert_ne!(s.active_ids()[0], a, "a rewritten message is a new record");
    assert_eq!(s.active_ids()[1], b);
    assert_eq!(s.all_messages().len(), 4);
}

#[test]
fn editing_history_invalidates_the_engines_cached_prefill() {
    let mut s = Session::new();
    s.push_user("secret");
    s.set_opened(true);
    s.edit(|m| m.clear());
    assert!(!s.opened());
    assert_eq!(s.pending(1).len(), 0);
}

#[test]
fn clearing_resets_the_conversation_but_keeps_the_id_and_instructions() {
    let mut s = Session::new().with_system("sys");
    let id = s.id().clone();
    s.push_user("hi");
    s.set_opened(true);
    s.clear();
    assert!(s.is_empty());
    assert!(!s.opened());
    assert_eq!(s.id(), &id);
    assert_eq!(s.system(), Some("sys"), "instruction state is not history");
    assert_eq!(s.all_messages().len(), 1, "cleared, not erased");
}

#[test]
fn rollback_withdraws_appended_messages_without_closing() {
    let mut s = Session::new();
    s.push_user("sent");
    s.set_opened(true);
    s.push_user("staged");
    s.rollback_to(1);
    assert_eq!(texts(&s), ["sent"]);
    assert!(s.opened(), "nothing withdrawn ever reached the engine");
    assert_eq!(s.all_messages().len(), 2, "still lossless");
    let r = s.revision();
    s.rollback_to(5);
    assert_eq!(s.revision(), r, "nothing to withdraw is not a change");
}

// ── What the engine is handed ───────────────────────────────────────────────

#[test]
fn an_unopened_session_sends_its_whole_history_system_first() {
    let mut s = Session::new().with_system("sys");
    s.push_user("hi");
    let pending = s.pending(0);
    assert_eq!(pending.len(), 2, "engine has nothing yet");
    assert_eq!(pending[0].role, "system");
    assert_eq!(pending[1].role, "user");
}

#[test]
fn an_opened_session_sends_only_what_is_new() {
    let mut s = Session::new().with_system("sys");
    s.push_user("hi");
    s.set_opened(true);
    s.push_user("more");
    assert_eq!(s.pending(2).len(), 1, "only the message the engine lacks");
    assert_eq!(s.pending(2)[0].text(), "more");
}

#[test]
fn an_unopened_session_always_sends_its_whole_transcript() {
    let mut session = Session::new();
    session.push(Message::user("one"));
    session.push(Message::user("two"));

    for claimed in 0..5 {
        assert_eq!(
            session.pending(claimed).len(),
            2,
            "the engine has no prefill, so a claim of {claimed} sent messages means nothing",
        );
    }
}

#[test]
fn from_messages_lifts_a_leading_system_message_into_state() {
    let restored = Session::from_messages(vec![
        Message::system("sys"),
        Message::user("hi"),
        Message::assistant_structured("yo", None),
    ]);
    assert_eq!(restored.system(), Some("sys"));
    assert_eq!(restored.len(), 2);
    // What the model sees is exactly what the flat transcript was.
    let roles: Vec<String> = restored
        .transcript()
        .iter()
        .map(|m| m.role.clone())
        .collect();
    assert_eq!(roles, ["system", "user", "assistant"]);
    // A system message that is not leading is left alone.
    let odd = Session::from_messages(vec![Message::user("hi"), Message::system("late")]);
    assert_eq!(odd.system(), None);
    assert_eq!(odd.len(), 2);
}

// ── Images ──────────────────────────────────────────────────────────────────

#[test]
fn images_become_chunks_on_a_user_message() {
    let mut s = Session::new();
    s.push_user_with_images("what is this?", &vec!["/tmp/a.png".to_string()]);

    let MessageBody::Content {
        content: MessageContent::MultipleChunks(chunks),
    } = &s.latest().unwrap().body
    else {
        panic!("expected a multi-chunk message");
    };
    assert_eq!(chunks.len(), 2, "text plus one image");
    assert!(matches!(chunks[0], MessageChunk::Text { .. }));
    match &chunks[1] {
        MessageChunk::ImageUrl { image_url } => {
            assert!(
                image_url.url.starts_with("file://"),
                "got {}",
                image_url.url
            );
        }
        other => panic!("expected an image chunk, got {other:?}"),
    }
}

#[test]
fn an_http_image_url_is_left_alone() {
    let mut s = Session::new();
    s.push_user_with_images("look", &vec!["https://example.com/a.png".to_string()]);
    let MessageBody::Content {
        content: MessageContent::MultipleChunks(chunks),
    } = &s.latest().unwrap().body
    else {
        panic!("expected chunks");
    };
    match &chunks[1] {
        MessageChunk::ImageUrl { image_url } => {
            assert_eq!(image_url.url, "https://example.com/a.png");
        }
        other => panic!("expected an image chunk, got {other:?}"),
    }
}

#[test]
fn no_images_is_a_plain_user_message() {
    let mut s = Session::new();
    s.push_user_with_images("hello", &Vec::<String>::new());
    assert_eq!(s.latest_text().as_deref(), Some("hello"));
}

// ── Tool results ────────────────────────────────────────────────────────────

#[test]
fn a_tool_result_is_tied_to_its_call() {
    let mut s = Session::new();
    s.push(call_msg(&["c1"]));
    s.push_tool_result("c1", said("18C, clear"));
    let last = s.latest().unwrap();
    assert_eq!(last.role, "tool");
    assert_eq!(last.tool_call_id.as_deref(), Some("c1"));
    assert_eq!(last.text(), "18C, clear");

    s.push(call_msg(&["c2"]));
    s.push_tool_result(
        "c2",
        ToolResult::from(Json::parse("{ \"temp\": 18 }").unwrap()),
    );
    assert_eq!(s.latest().unwrap().text(), r#"{"temp":18}"#);
    assert_eq!(said("x"), ToolResult::Text("x".into()));
}

// ── Tool rounds stay whole ──────────────────────────────────────────────────

#[test]
fn removing_a_call_whose_result_stays_is_refused() {
    let mut s = Session::new();
    s.push_user("go");
    let call = s.push(call_msg(&["c1"]));
    s.push_tool_result("c1", said("done"));
    let events = s.events().to_vec();
    let err = s.remove_message(call).unwrap_err();
    assert!(
        matches!(
            err,
            Error::Session(SessionError::OrphanResult { ref call_id }) if call_id == "c1"
        ),
        "got {err:?}"
    );
    assert_eq!(s.events(), &events[..], "refused means untouched");
    assert_eq!(s.len(), 3);
}

#[test]
fn removing_a_result_whose_call_stays_is_refused() {
    let mut s = Session::new();
    let call = s.push(call_msg(&["c1", "c2"]));
    s.push_tool_result("c1", said("one"));
    let two = s.push_tool_result("c2", said("two"));
    let err = s.remove_message(two).unwrap_err();
    assert!(
        matches!(
            err,
            Error::Session(SessionError::UnansweredCall { ref call_id }) if call_id == "c2"
        ),
        "got {err:?}"
    );
    // The whole round can go together, though.
    s.restore_context(vec![]).unwrap();
    assert!(s.is_empty());
    // And come back together.
    s.restore_context(vec![call, two]).unwrap_err();
    let all: Vec<MessageId> = s.all_messages().iter().map(|r| r.id).collect();
    s.restore_context(all).unwrap();
    assert_eq!(s.len(), 3);
}

#[test]
fn a_call_nothing_has_answered_may_be_removed_alone() {
    let mut s = Session::new();
    s.push_user("go");
    let call = s.push(call_msg(&["c1"]));
    s.remove_message(call)
        .expect("an unanswered call stands alone");
    assert_eq!(s.len(), 1);
}

#[test]
fn replace_messages_refuses_half_a_round_and_accepts_a_whole_one() {
    let mut s = Session::new();
    s.push(call_msg(&["c1"]));
    s.push_tool_result("c1", said("r"));
    let events = s.events().to_vec();
    let records = s.all_messages().len();

    assert!(
        s.replace_messages(vec![Message::tool_result_for("c1", "r")])
            .is_err(),
        "a result with no call"
    );
    assert!(
        s.replace_messages(vec![call_msg(&["c1"])]).is_err(),
        "a call whose answer exists but is not shown"
    );
    assert_eq!(s.events(), &events[..]);
    assert_eq!(s.all_messages().len(), records, "a refusal mints nothing");

    s.replace_messages(vec![
        Message::user("summary"),
        call_msg(&["c1"]),
        Message::tool_result_for("c1", "r"),
    ])
    .expect("a whole round is fine");
    assert_eq!(s.len(), 3);
}

#[test]
fn restore_context_and_fork_at_refuse_to_split_a_round() {
    let mut s = Session::new();
    let call = s.push(call_msg(&["c1"]));
    let result = s.push_tool_result("c1", said("r"));
    assert!(s.restore_context(vec![result]).is_err(), "result without call");
    assert!(
        s.restore_context(vec![call]).is_err(),
        "call without its result"
    );
    assert!(s.fork_at(call).is_err(), "cutting between call and result");
    assert!(s.fork_at(result).is_ok(), "cutting after the round");
}

#[test]
fn edit_trims_to_a_round_boundary_instead_of_refusing() {
    let mut s = Session::new();
    s.push_user("go");
    s.push(call_msg(&["c1", "c2"]));
    s.push_tool_result("c1", said("one"));
    s.push_tool_result("c2", said("two"));
    s.push_user("next");

    // Truncating between the two results would leave `c2` unanswered: the
    // whole round goes.
    s.edit(|m| m.truncate(3));
    assert_eq!(texts(&s), ["go"]);

    // Dropping only the call would orphan the results: they go too.
    let ids: Vec<MessageId> = s.all_messages().iter().map(|r| r.id).collect();
    s.restore_context(ids[..4].to_vec()).unwrap();
    s.edit(|m| {
        m.remove(1);
    });
    assert_eq!(texts(&s), ["go"]);
}

#[test]
fn a_legacy_result_without_an_id_still_needs_a_preceding_call() {
    let mut s = Session::new();
    let call = s.push(call_msg(&["c1"]));
    let result = s.push(Message::tool_result("legacy"));
    assert!(s.remove_message(call).is_err(), "would orphan the result");
    // An id-less result cannot be proven to answer anything, so removing it
    // alone is allowed: the call is then merely unanswered.
    s.remove_message(result).unwrap();
    assert_eq!(s.len(), 1);
    assert!(
        s.restore_context(vec![result]).is_err(),
        "a result first is an orphan"
    );
}

// ── Persistence ─────────────────────────────────────────────────────────────

#[test]
fn a_restored_session_never_claims_engine_state_it_lacks() {
    let mut a = Session::new();
    a.push_user("hello");
    a.set_opened(true);
    a.note_shed(3);

    let restored = Session::replay(a.id().clone(), a.events().to_vec());

    assert_eq!(restored.messages().len(), 1, "the transcript survives");
    assert!(!restored.opened(), "but the engine's cache does not");
    assert_eq!(restored.shed(), 0);
}

#[test]
fn the_event_log_round_trips_and_the_rest_is_replayed() {
    let mut a = Session::new().with_system("sys");
    a.add_tool(ToolDefinition::new("read"));
    let x = a.push_user("helo");
    let y = a.replace_message(x, Message::user("hello")).unwrap();
    a.push(call_msg(&["c1"]));
    a.push_tool_result("c1", said("r"));
    a.push_user("gone");
    a.edit(|m| m.truncate(3));
    let b = a.fork();

    for s in [&a, &b] {
        let r = Session::replay(s.id().clone(), s.events().to_vec());
        assert_eq!(r.id(), s.id());
        assert_eq!(r.events(), s.events());
        assert_eq!(r.revision(), s.revision());
        assert_eq!(r.system(), s.system());
        assert_eq!(r.tools(), s.tools());
        assert_eq!(r.messages(), s.messages());
        assert_eq!(r.active_ids(), s.active_ids());
        assert_eq!(r.all_messages(), s.all_messages());
        assert_eq!(
            r.all_messages()
                .iter()
                .find(|r| r.id == x)
                .unwrap()
                .replaced_by,
            Some(y)
        );
        // Fresh ids after a restore never collide with restored ones.
        let mut r = r;
        let fresh = r.push_user("after");
        assert!(s.all_messages().iter().all(|rec| rec.id != fresh));
    }
}

#[test]
fn the_old_flat_transcript_format_still_opens() {
    let s = Session::stored(
        SessionId("session-old".into()),
        vec![],
        vec![Message::system("sys"), Message::user("hi")],
    )
    .unwrap();
    assert_eq!(s.id().as_str(), "session-old");
    assert_eq!(s.system(), Some("sys"));
    assert_eq!(texts(&s), ["hi"]);
}

#[test]
fn a_stored_log_wins_over_a_flat_transcript() {
    let mut a = Session::new();
    let hi = a.push_user("hi");
    a.remove_message(hi).unwrap();
    a.push_user("hello");
    let s = Session::stored(
        a.id().clone(),
        a.events().to_vec(),
        vec![Message::user("stale")],
    )
    .unwrap();
    assert_eq!(texts(&s), ["hello"]);
    assert_eq!(s.revision(), a.revision());
    assert_eq!(s.all_messages().len(), 2, "the removed one is still there");

    let empty = Session::stored(SessionId("s".into()), vec![], vec![]).unwrap();
    assert!(empty.is_empty() && empty.events().is_empty());
}

#[test]
fn a_log_that_leaves_no_number_is_not_opened() {
    let last = |id: u64| SessionEvent::MessageAdded {
        id: MessageId(id),
        message: Message::user("hi"),
    };
    assert!(Session::stored(SessionId("s".into()), vec![last(u64::MAX)], vec![]).is_none());
    let s = Session::stored(SessionId("s".into()), vec![last(u64::MAX - 1)], vec![]).unwrap();
    assert_eq!(s.next_number(), u64::MAX);
}

// ── Engine bookkeeping ──────────────────────────────────────────────────────

#[test]
fn swapping_the_model_reopens_a_conversation() {
    let mut s = Session::new();
    assert!(!s.note_model(0), "first use has nothing to invalidate");
    s.set_opened(true);
    assert!(!s.note_model(0), "the same model keeps the warm prefill");
    assert!(s.note_model(1), "a swap must reopen");
    assert!(!s.opened());
}

#[test]
fn the_same_tool_set_does_not_reopen_a_conversation() {
    let mut s = Session::new();
    assert!(!s.note_tools(7), "first use has nothing to invalidate");
    s.set_opened(true);
    assert!(!s.note_tools(7), "an unchanged set keeps the warm prefill");
    assert!(s.opened());
}

#[test]
fn a_changed_tool_set_reopens_the_conversation() {
    let mut s = Session::new();
    s.note_tools(7);
    s.set_opened(true);
    assert!(s.note_tools(9), "a different set must reopen");
    assert!(!s.opened(), "so the new definitions actually get sent");
}

// ── More of the same ────────────────────────────────────────────────────────

#[test]
fn a_session_id_is_a_prefix_and_a_random_uuid() {
    let id = SessionId::random();
    let tail = id.as_str().strip_prefix("session-").unwrap().to_string();
    assert_eq!(tail.len(), 36);
    assert_eq!(tail.matches('-').count(), 4);
    assert!(tail.chars().all(|c| c == '-' || c.is_ascii_hexdigit()));
    assert_eq!(tail.chars().nth(14), Some('4'), "version four");
}

#[test]
fn ids_and_revisions_have_words() {
    let mut s = Session::new();
    let first = s.push_user("a");
    let second = s.push_user("b");
    assert_eq!(first.to_string(), "m0");
    assert_eq!(second.to_string(), "m1");
    assert_eq!(first.as_u64(), 0);
    assert_eq!(s.revision().to_string(), "r2");
    assert_eq!(s.next_number(), 2);
}

#[test]
fn what_the_engine_shed_is_counted_and_forgotten_when_it_is_resent() {
    let mut s = Session::new();
    s.push_user("a");
    assert!(s.fully_in_context());
    s.note_shed(2);
    s.note_shed(1);
    assert_eq!(s.shed(), 3);
    assert!(!s.fully_in_context());
    s.clear();
    assert_eq!(s.shed(), 0);
}

#[test]
fn a_session_refusal_says_what_is_wrong() {
    let mut s = Session::new();
    let call = s.push(call_msg(&["c1"]));
    let result = s.push_tool_result("c1", said("r"));
    let words = |e: Error| e.to_string();
    assert!(words(s.remove_message(MessageId(9)).unwrap_err()).contains("m9"));
    assert!(words(s.remove_message(call).unwrap_err()).contains("c1"));
    assert!(words(s.remove_message(result).unwrap_err()).contains("c1"));
    assert!(words(s.restore_context(vec![call, result, call]).unwrap_err()).contains("m0"));
}

#[test]
fn an_undone_compaction_shows_what_was_there() {
    let mut s = Session::new();
    s.push_user("a");
    s.push_user("b");
    let ids = s.active_ids().to_vec();
    let shown = s.messages().to_vec();
    s.clear();
    s.restore_context(ids).unwrap();
    assert_eq!(s.messages(), &shown[..]);
}

// ── What an edit leaves ─────────────────────────────────────────────────────

#[test]
fn a_message_left_in_place_keeps_its_id_beside_an_equal_new_one() {
    let mut s = Session::new();
    let a = s.push_user("a");
    let b = s.push_user("b");
    s.edit(|m| m[0] = Message::user("b"));
    assert_eq!(texts(&s), ["b", "b"]);
    let ids = s.active_ids();
    assert_eq!(ids.len(), 2);
    assert_eq!(ids[1], b, "the second message was left unchanged");
    assert_ne!(ids[0], a);
    assert_ne!(ids[0], b, "the first one is a new record");
    assert_eq!(s.all_messages().len(), 3);
    assert_eq!(s.message(a).map(Message::text), Some("a".into()));
}

#[test]
fn the_last_of_three_keeps_its_id_when_the_first_comes_to_read_like_it() {
    let mut s = Session::new();
    let a = s.push_user("a");
    let b = s.push_user("b");
    let c = s.push_user("c");
    s.edit(|m| m[0] = Message::user("c"));
    assert_eq!(texts(&s), ["c", "b", "c"]);
    let ids = s.active_ids();
    assert_eq!(&ids[1..], &[b, c]);
    assert!(![a, b, c].contains(&ids[0]));
}

#[test]
fn every_message_left_in_place_keeps_its_id_between_changed_ones() {
    let mut s = Session::new();
    let ids: Vec<MessageId> = ["a", "b", "c", "d"].map(|t| s.push_user(t)).to_vec();
    s.edit(|m| {
        m[0] = Message::user("c");
        m[2] = Message::user("x");
        m[3] = Message::user("y");
    });
    assert_eq!(texts(&s), ["c", "b", "x", "y"]);
    assert_eq!(s.active_ids()[1], ids[1]);
    assert_eq!(s.all_messages().len(), 7, "three of them are new records");
}

#[test]
fn what_comes_before_and_after_an_insertion_keeps_its_id() {
    let mut s = Session::new();
    let a = s.push_user("a");
    let b = s.push_user("b");
    let c = s.push_user("c");
    s.edit(|m| m.insert(1, Message::user("c")));
    let ids = s.active_ids().to_vec();
    assert_eq!(texts(&s), ["a", "c", "b", "c"]);
    assert_eq!((ids[0], ids[2], ids[3]), (a, b, c));
    assert!(![a, b, c].contains(&ids[1]));
    let inserted = ids[1];
    s.edit(|m| {
        m.remove(0);
    });
    assert_eq!(s.active_ids(), [inserted, b, c]);
}

#[test]
fn a_window_that_slides_keeps_the_ids_of_what_stays() {
    let mut s = Session::new();
    let a = s.push_user("a");
    let b = s.push_user("b");
    let c = s.push_user("c");
    s.edit(|m| {
        m.remove(0);
        m.push(Message::user("d"));
    });
    assert_eq!(texts(&s), ["b", "c", "d"]);
    let ids = s.active_ids();
    assert_eq!(&ids[..2], &[b, c]);
    assert!(![a, b, c].contains(&ids[2]));
}

#[test]
fn a_message_moved_earlier_than_one_it_used_to_follow_is_new() {
    let mut s = Session::new();
    let a = s.push_user("a");
    let b = s.push_user("b");
    s.edit(|m| m.swap(0, 1));
    assert_eq!(texts(&s), ["b", "a"]);
    assert_eq!(s.active_ids()[1], a);
    assert!(![a, b].contains(&s.active_ids()[0]));

    let mut s = Session::new();
    let ids: Vec<MessageId> = ["a", "b", "c"].map(|t| s.push_user(t)).to_vec();
    s.edit(|m| {
        let last = m.pop().unwrap();
        m.insert(0, last);
    });
    assert_eq!(texts(&s), ["c", "a", "b"]);
    assert_eq!(&s.active_ids()[1..], &ids[..2]);
    assert!(!ids.contains(&s.active_ids()[0]));
}

#[test]
fn an_edit_that_changes_nothing_only_closes_the_conversation() {
    let mut s = Session::new();
    s.push_user("a");
    s.push_user("a");
    s.set_opened(true);
    let before = (s.active_ids().to_vec(), s.revision(), s.events().len());
    s.edit(|_| {});
    assert_eq!(
        (s.active_ids().to_vec(), s.revision(), s.events().len()),
        before
    );
    assert_eq!(s.all_messages().len(), 2);
    assert!(!s.opened());
}

#[test]
fn an_edit_keeps_as_many_ids_as_the_order_allows() {
    // Equal messages stand between the others. The first two go, two come.
    let mut s = Session::new();
    let ids: Vec<MessageId> = ["p", "k", "q", "k", "r", "k"]
        .iter()
        .map(|text| s.push_user(text))
        .collect();
    s.edit(|m| {
        m.drain(..2);
        m.push(Message::user("t"));
        m.push(Message::user("k"));
    });
    assert_eq!(texts(&s), ["q", "k", "r", "k", "t", "k"]);
    assert_eq!(s.active_ids()[..4], ids[2..]);
    assert!(s.active_ids()[4..].iter().all(|id| !ids.contains(id)));
    assert_eq!(s.all_messages().len(), 8);
}

#[test]
fn rewriting_one_of_two_equal_messages_keeps_the_other() {
    let mut s = Session::new();
    let first = s.push_user("a");
    let second = s.push_user("a");
    s.edit(|m| m[0] = Message::user("x"));
    assert_eq!(texts(&s), ["x", "a"]);
    assert_ne!(s.active_ids()[0], first);
    assert_eq!(s.active_ids()[1], second);
}

#[test]
fn dropping_messages_records_nothing() {
    let mut s = Session::new();
    let ids: Vec<MessageId> = ["a", "b", "a", "c", "a"]
        .iter()
        .map(|text| s.push_user(text))
        .collect();
    s.edit(|m| m.retain(|msg| msg.text() != "b"));
    assert_eq!(s.active_ids(), [ids[0], ids[2], ids[3], ids[4]]);
    s.edit(|m| m.retain(|msg| msg.text() == "a"));
    assert_eq!(s.active_ids(), [ids[0], ids[2], ids[4]]);
    assert_eq!(s.all_messages().len(), 5);
}

#[test]
fn an_edit_takes_equal_values_for_the_same_message() {
    let asking = |arguments: &str| {
        Message::assistant_tool_calls(vec![ToolCall {
            id: "c".into(),
            kind: "function".into(),
            function: FunctionDefinition {
                description: None,
                name: "t".into(),
                arguments: Json::parse(arguments).unwrap(),
            },
        }])
    };
    let mut s = Session::new();
    let id = s.push(asking("{\"x\":-0.0}"));
    s.edit(|m| m[0] = asking("{\"x\":0.0}"));
    assert_eq!(s.active_ids(), [id], "equal arguments are no change");
    s.edit(|m| m[0] = asking("{\"x\":1.0}"));
    assert_ne!(s.active_ids(), [id]);
}

#[test]
fn tools_that_are_equal_as_values_are_no_change() {
    let takes = |input: &str| {
        ToolSet::new().with(ToolDefinition::new("t").input(Json::parse(input).unwrap()))
    };
    let mut s = Session::new();
    s.set_tools(takes("{\"minimum\":-0.0}"));
    let revision = s.revision();
    s.set_tools(takes("{\"minimum\":0.0}"));
    assert_eq!(s.revision(), revision);
    s.set_tools(takes("{\"minimum\":1.0}"));
    assert_ne!(s.revision(), revision);
}

#[test]
fn a_session_keeps_its_id_and_its_record_ids_rise() {
    let mut s = Session::new();
    let id = s.id().clone();
    let first = s.push_user("a");
    s.push_user("b");
    s.replace_message(first, Message::user("A")).unwrap();
    s.edit(|m| m.push(Message::user("c")));
    s.replace_messages(vec![Message::user("d")]).unwrap();
    s.clear();
    s.push_user("e");
    assert_eq!(s.id(), &id);
    let ids: Vec<u64> = s.all_messages().iter().map(|r| r.id.0).collect();
    assert!(ids.windows(2).all(|pair| pair[0] < pair[1]), "{ids:?}");
    let fork = s.fork_as(SessionId("other".into()));
    assert_eq!(fork.id().as_str(), "other");
    assert_eq!(s.id(), &id, "the parent keeps its own");
}
