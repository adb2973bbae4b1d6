use dsh_rs::session::log::{user_message, Session};
use dsh_rs::session::persistence::{
    corrupt_line, frame, load_with_repair, repair_crash_turns, repair_crash_turns_at,
    stored_lines, stored_sessions, JsonlPersistence,
};
use dsh_rs::session::render::{show_block, show_chunk, show_reason, show_todos};
use dsh_rs::session::store::{flush_outcome, SessionError, SessionStore, STORE_NOTIFIER};
use dsh_rs::types::llm::{
    ContentBlock, FinishReason, LlmCallConfig, LlmFailure, Message, MessageSource, Role,
    StreamChunk, TokenUsage,
};
use dsh_rs::types::session::{
    now_ms, reading_ms, CreateSessionOptions, EpochHeader, SessionEvent, SessionEventData,
    SessionHeader, TodoItem, TodoStatus, TurnEndReason,
};

fn seed_session(store: &mut SessionStore, id: &str) -> String {
    store.create(CreateSessionOptions {
        id: Some(id.to_string()),
        cwd: Some("/tmp".to_string()),
        ..Default::default()
    })
}

fn assistant(content: Vec<ContentBlock>) -> SessionEventData {
    SessionEventData::AssistantMessage {
        turn: 1,
        step: 1,
        message: Message {
            id: "a-1".into(),
            role: Role::Assistant,
            content,
            source: MessageSource::Model { provider: "mock".into(), model: "mock-1".into() },
        },
        usage: None,
        interrupted: None,
    }
}

#[test]
fn append_assigns_contiguous_seq_and_derives_messages() {
    let mut store = SessionStore::new();
    let id = seed_session(&mut store, "s1");

    store.append(&id, SessionEventData::TurnStart { turn: 1 });
    let user = store
        .append(&id, SessionEventData::UserMessage { message: user_message("u-1", "hello") })
        .unwrap();
    store.append(&id, assistant(vec![ContentBlock::text("hi")]));
    store.append(
        &id,
        SessionEventData::TurnEnd { turn: 1, reason: TurnEndReason::Completed },
    );

    let session = store.get("s1").unwrap();
    assert_eq!(user.seq, 1);
    assert_eq!(session.seq(), 4);
    let events = session.events();
    assert_eq!(events.len(), 4);
    for (i, event) in events.iter().enumerate() {
        assert_eq!(event.seq, i as u64, "seq must equal log position");
    }

    let derived = session.derive_messages();
    assert_eq!(derived.len(), 2);
    assert_eq!(derived[0].text(), "hello");
    assert_eq!(derived[1].text(), "hi");
    assert_eq!(session.open_turn(), None);
}

#[test]
fn empty_assistant_message_is_skipped_in_derivation() {
    let mut store = SessionStore::new();
    let id = seed_session(&mut store, "s2");
    store.append(&id, assistant(vec![]));
    assert!(store.get("s2").unwrap().derive_messages().is_empty());
}

#[test]
fn request_header_folds_latest_snapshot() {
    let mut store = SessionStore::new();
    let id = seed_session(&mut store, "s3");
    let header = EpochHeader {
        config: LlmCallConfig {
            provider: "mock".into(),
            model: "mock-1".into(),
            ..Default::default()
        },
        system: Some("you are helpful".into()),
        tools: None,
    };
    store.append(&id, SessionEventData::RequestHeader { header: header.clone() });
    assert_eq!(store.get("s3").unwrap().request_header(), Some(header.clone()));
    let mut later = header;
    later.system = None;
    store.append(&id, SessionEventData::RequestHeader { header: later.clone() });
    assert_eq!(store.get("s3").unwrap().request_header(), Some(later));
}

#[test]
fn fork_from_stable_prefix_and_rejects_open_turn() {
    let mut store = SessionStore::new();
    let source = seed_session(&mut store, "src");
    store.append(&source, SessionEventData::TurnStart { turn: 1 });
    store.append(
        &source,
        SessionEventData::UserMessage { message: user_message("u-1", "parent prompt") },
    );
    store.append(
        &source,
        SessionEventData::TurnEnd { turn: 1, reason: TurnEndReason::Completed },
    );

    // Forking an open turn must fail.
    let open = seed_session(&mut store, "open");
    store.append(&open, SessionEventData::TurnStart { turn: 1 });
    let refused = store.fork("open", None, None).unwrap_err();
    assert!(matches!(refused, SessionError::OpenTurn(1)));
    assert_eq!(refused.display(), "the forked prefix ends inside open turn 1");

    let child = store.fork("src", None, Some("child".to_string())).unwrap();
    let child = store.get(&child).unwrap();
    assert_eq!(child.header().parent_session.as_deref(), Some("src"));
    assert_eq!(child.header().seed_length, 3);
    // The child continues from the parent's last seq and marks the seed end.
    let derived = child.derive_messages();
    assert_eq!(derived.len(), 1);
    assert_eq!(derived[0].text(), "parent prompt");
    let child_events = child.events();
    let last = child_events.last().unwrap();
    assert!(matches!(last.data, SessionEventData::SessionEndSeed));
}

#[test]
fn fork_takes_the_prefix_up_to_its_boundary() {
    let mut store = SessionStore::new();
    let id = seed_session(&mut store, "src");
    for text in ["one", "two", "three"] {
        store.append(
            &id,
            SessionEventData::UserMessage { message: user_message("u", text) },
        );
    }
    let child = store.fork_at("src", Some(1), None, 50, 60).unwrap();
    assert_eq!(child, "session-1");
    let child = store.get(&child).unwrap();
    let texts: Vec<String> = child.derive_messages().iter().map(|m| m.text()).collect();
    assert_eq!(texts, vec!["one", "two"]);
    assert_eq!(child.header().created_at, 50);
    assert_eq!(child.events()[2].seq, 2);
    assert_eq!(child.events()[2].time, 60);
}

#[test]
fn fork_of_a_session_outside_the_store() {
    let mut store = SessionStore::new();
    let id = seed_session(&mut store, "src");
    store.append(&id, SessionEventData::UserMessage { message: user_message("u", "one") });
    let mut source = store.remove("src").unwrap();
    assert!(store.get("src").is_none());
    let child = store.fork_session(&source, None, None, 5, 6).unwrap();
    let child = store.get(&child).unwrap();
    assert_eq!(child.events().len(), 2);
    assert_eq!(child.events()[0], source.events()[0]);
    assert!(matches!(child.events()[1].data, SessionEventData::SessionEndSeed));
    assert_eq!(child.header().cwd.as_deref(), Some("/tmp"));
    assert_eq!(child.header().parent_session.as_deref(), Some("src"));

    // A refused fork leaves the store and the source alone.
    source.append(SessionEventData::TurnStart { turn: 4 });
    let refused = store.fork_session(&source, None, Some("c".into()), 7, 8).unwrap_err();
    assert!(matches!(refused, SessionError::OpenTurn(4)));
    assert!(store.get("c").is_none());
    assert_eq!(store.list().len(), 1);
    assert_eq!(source.events().len(), 2);
    // Before the turn it is still possible.
    assert_eq!(store.fork_session(&source, Some(0), Some("c".into()), 7, 8).unwrap(), "c");
}

#[test]
fn appends_are_noted_once_for_each_observer() {
    let mut session = Session::new("s".into(), SessionHeader::created(0), vec![]);
    session.append(SessionEventData::TurnStart { turn: 1 });
    session.add_notifier(7);
    session.add_notifier(3);
    assert!(session.take_notes().is_empty(), "nothing was appended since");
    let first = session.append(SessionEventData::StepStart { turn: 1, step: 1 });
    session.add_notifier(7);
    let second = session.append(SessionEventData::StepEnd { turn: 1, step: 1 });
    let notes = session.take_notes();
    let told: Vec<(u64, u64)> = notes.iter().map(|n| (n.notifier, n.event.seq)).collect();
    assert_eq!(told, vec![(7, 1), (3, 1), (7, 2), (3, 2), (7, 2)]);
    assert_eq!(notes[0].event, first);
    assert_eq!(notes[4].event, second);
    assert!(session.take_notes().is_empty(), "told once");
}

#[test]
fn store_is_told_of_every_append_to_its_sessions() {
    let mut store = SessionStore::new();
    let told = |store: &mut SessionStore, id: &str| -> Vec<(u64, &'static str)> {
        let notes = store.get_mut(id).unwrap().take_notes();
        notes.iter().map(|n| (n.notifier, n.event.event_type())).collect()
    };
    let id = seed_session(&mut store, "s");
    assert!(told(&mut store, &id).is_empty());
    store.append(&id, SessionEventData::TurnStart { turn: 1 });
    store.append(&id, SessionEventData::TurnEnd { turn: 1, reason: TurnEndReason::Completed });
    assert_eq!(
        told(&mut store, &id),
        vec![(STORE_NOTIFIER, "turn/start"), (STORE_NOTIFIER, "turn/end")]
    );
    // A fork reports the mark of its seed's end, and nothing of the seed.
    let child = store.fork(&id, None, None).unwrap();
    assert_eq!(told(&mut store, &child), vec![(STORE_NOTIFIER, "session/end-seed")]);
    // A prepared session reports once it has entered.
    let mut session = store.prepare(CreateSessionOptions::with_id("p"), 9);
    session.append(SessionEventData::TurnStart { turn: 1 });
    store.enter(session).unwrap();
    assert!(told(&mut store, "p").is_empty());
    store.append("p", SessionEventData::TurnStart { turn: 2 });
    assert_eq!(told(&mut store, "p"), vec![(STORE_NOTIFIER, "turn/start")]);
}

#[test]
fn history_follows_a_log_with_gaps() {
    let event = |seq: u64, text: &str| {
        SessionEvent::new(
            seq,
            0,
            SessionEventData::UserMessage { message: user_message("u", text) },
        )
    };
    let mut session = Session::new(
        "s".into(),
        SessionHeader::created(0),
        vec![event(3, "three"), event(9, "nine")],
    );
    let appended = session.append(SessionEventData::UserMessage {
        message: user_message("u", "ten"),
    });
    assert_eq!(appended.seq, 10);
    assert_eq!(session.seq(), 11);
    assert_eq!(session.surface(), vec![3, 9, 10]);
    session.append(SessionEventData::TurnStart { turn: 1 });
    assert_eq!(session.surface(), vec![3, 9, 10]);
    let texts: Vec<String> = session.derive_messages().iter().map(|m| m.text()).collect();
    assert_eq!(texts, vec!["three", "nine", "ten"]);
}

#[test]
fn entered_session_is_found_once() {
    let mut store = SessionStore::new();
    let session = store.prepare(CreateSessionOptions::with_id("p"), 9);
    assert!(store.get("p").is_none(), "a prepared session is not in the store");
    store.enter(session).unwrap();
    assert_eq!(store.get("p").unwrap().id(), "p");
    let twin = store.prepare(CreateSessionOptions::with_id("p"), 9);
    let refused = store.enter(twin).unwrap_err();
    assert_eq!(refused.display(), "a session with id \"p\" already exists");
    assert_eq!(store.list().len(), 1);
    assert!(store.remove("p").is_some());
    assert!(store.remove("p").is_none());
}

#[test]
fn minted_ids_differ() {
    let mut store = SessionStore::default();
    let a = store.create(CreateSessionOptions::default());
    let b = store.create(CreateSessionOptions::default());
    assert_eq!(a, "session-1");
    assert_eq!(b, "session-2");
    let ids: Vec<String> = store.list().iter().map(|s| s.id().to_string()).collect();
    assert_eq!(ids, vec!["session-1", "session-2"]);
}

#[test]
fn flush_reports_the_first_failure() {
    assert!(flush_outcome(Ok(()), Ok(())).is_ok());
    let io = flush_outcome(Err("disk full".into()), Err("late".into())).unwrap_err();
    assert_eq!(io.display(), "persistence error: disk full");
    let other = flush_outcome(Ok(()), Err("late".into())).unwrap_err();
    assert_eq!(other.display(), "late");
}

#[test]
fn jsonl_persistence_roundtrip_and_crash_repair() {
    let mut backend = JsonlPersistence::new("/store");
    assert_eq!(backend.path("p1"), "/store/p1.jsonl");
    assert_eq!(backend.take_flush("p1"), None);
    backend.on_event("p1", "{\"a\":1}");
    backend.on_event("p1", "{\"b\":2}");
    let mut file = backend.take_flush("p1").unwrap();
    assert_eq!(file, "{\"a\":1}\n{\"b\":2}\n");
    assert_eq!(backend.take_flush("p1"), None, "a flushed buffer is empty");
    assert_eq!(JsonlPersistence::new("/store").path("p1"), backend.path("p1"));
    backend.on_event("p2", "{\"z\":0}");
    assert_eq!(backend.take_flush("p1"), None);
    assert_eq!(backend.take_flush("p2").unwrap(), "{\"z\":0}\n");
    assert_eq!(stored_lines(""), Vec::<String>::new());
    backend.on_event("p1", "{\"c\":3}");
    file.push_str(&backend.take_flush("p1").unwrap());
    assert_eq!(stored_lines(&file), vec!["{\"a\":1}", "{\"b\":2}", "{\"c\":3}"]);
    assert_eq!(stored_lines("x\n\n  \ny"), vec!["x", "y"]);
    assert_eq!(frame(&vec!["x".into()]), "x\n");

    let mut loaded = vec![
        SessionEvent::new(0, 1, SessionEventData::TurnStart { turn: 1 }),
        SessionEvent::new(
            1,
            2,
            SessionEventData::UserMessage { message: user_message("u-1", "persist me") },
        ),
    ];
    assert!(repair_crash_turns(&mut loaded));
    assert_eq!(loaded.len(), 3);
    match &loaded.last().unwrap().data {
        SessionEventData::TurnEnd { turn, reason } => {
            assert_eq!(*turn, 1);
            assert_eq!(*reason, TurnEndReason::Interrupted);
        }
        other => panic!("expected turn/end, got {other:?}"),
    }
    // Reapplying repair is idempotent.
    assert!(!repair_crash_turns(&mut loaded));
    assert_eq!(
        stored_sessions(&vec!["p2.jsonl".into(), "notes.txt".into(), "p1.jsonl".into()]),
        vec!["p1", "p2"]
    );
}

#[test]
fn load_with_repair_helper() {
    let stored = vec![SessionEvent::new(0, 1, SessionEventData::TurnStart { turn: 5 })];
    let events = load_with_repair(Ok(stored)).unwrap();
    assert_eq!(events.len(), 2);
    assert_eq!(events[1].seq, 1);
    match &events[1].data {
        SessionEventData::TurnEnd { turn, reason } => {
            assert_eq!(*turn, 5);
            assert_eq!(*reason, TurnEndReason::Interrupted);
        }
        other => panic!("expected turn/end, got {other:?}"),
    }
    assert_eq!(load_with_repair(Err("gone".into())).unwrap_err(), "gone");
}

#[test]
fn repair_keeps_a_closed_log() {
    let mut log = vec![
        SessionEvent::new(0, 1, SessionEventData::TurnStart { turn: 1 }),
        SessionEvent::new(
            1,
            1,
            SessionEventData::TurnEnd { turn: 1, reason: TurnEndReason::Completed },
        ),
    ];
    assert!(!repair_crash_turns_at(&mut log, 7));
    assert_eq!(log.len(), 2);
    log.push(SessionEvent::new(2, 1, SessionEventData::TurnStart { turn: 2 }));
    assert!(repair_crash_turns_at(&mut log, 7));
    assert_eq!(log[3].time, 7);
    assert_eq!(log[3].seq, 3);
}

#[test]
fn corrupt_lines_are_explained() {
    let message = corrupt_line("/store/p.jsonl", "expected value");
    assert!(message.contains("/store/p.jsonl"));
    assert!(message.contains("expected value"));
}

#[test]
fn session_renders_transcript() {
    let mut store = SessionStore::new();
    let id = seed_session(&mut store, "s9");
    store.append(
        &id,
        SessionEventData::UserMessage { message: user_message("u-1", "list files") },
    );
    let rendered = store.get("s9").unwrap().render();
    assert!(rendered.contains("[user] list files"));
}

#[test]
fn every_entry_has_a_rendering() {
    let render = |data: SessionEventData| Session::render_event(&SessionEvent::new(0, 0, data));
    assert_eq!(render(assistant(vec![ContentBlock::text("hi")])), "[assistant] hi");
    assert_eq!(
        render(SessionEventData::ToolCall {
            turn: 1,
            step: 1,
            call_id: "c".into(),
            name: "bash".into(),
            arguments: "{ \"b\": 1, \"a\": 2 }".into(),
        }),
        "[tool-call] bash {\"a\":2,\"b\":1}"
    );
    assert_eq!(
        render(SessionEventData::ToolCall {
            turn: 1,
            step: 1,
            call_id: "c".into(),
            name: "bash".into(),
            arguments: "{".into(),
        }),
        "[tool-call] bash null"
    );
    assert_eq!(render(SessionEventData::TurnStart { turn: 3 }), "[turn/start]");
    assert_eq!(render(SessionEventData::StepStart { turn: 1, step: 1 }), "[step/start]");
    assert_eq!(render(SessionEventData::StepEnd { turn: 1, step: 1 }), "[step/end]");
    assert_eq!(render(SessionEventData::SessionEndSeed), "[session/end-seed]");
    assert_eq!(
        render(SessionEventData::TurnEnd {
            turn: 1,
            reason: TurnEndReason::Aborted { cause: "us\"er".into() },
        }),
        "[turn/end] Aborted { cause: \"us\\\"er\" }"
    );
}

#[test]
fn renderings_are_what_debug_writes() {
    for reason in [
        TurnEndReason::Completed,
        TurnEndReason::Aborted { cause: "a\nb".into() },
        TurnEndReason::Blocked,
        TurnEndReason::Error { message: "m\u{7f}".into(), code: "c".into() },
        TurnEndReason::MaxTokens,
        TurnEndReason::Interrupted,
    ] {
        assert_eq!(show_reason(&reason), format!("{reason:?}"));
    }
    let todos = vec![
        TodoItem { content: "x".into(), status: TodoStatus::Pending },
        TodoItem { content: "y".into(), status: TodoStatus::InProgress },
        TodoItem { content: "".into(), status: TodoStatus::Completed },
    ];
    assert_eq!(show_todos(&todos), format!("{todos:?}"));
    assert_eq!(show_todos(&vec![]), "[]");
    let block = ContentBlock::ToolResult {
        tool_call_id: "t".into(),
        content: vec![
            ContentBlock::text("x"),
            ContentBlock::Reasoning { text: "r".into() },
            ContentBlock::ToolCall { id: "i".into(), name: "n".into(), arguments: "{}".into() },
        ],
        is_error: Some(true),
    };
    assert_eq!(show_block(&block), format!("{block:?}"));
    let usage = TokenUsage {
        input_tokens: 1,
        output_tokens: 2,
        cache_read_tokens: Some(3),
        cache_write_tokens: None,
        reasoning_tokens: None,
    };
    for chunk in [
        StreamChunk::BlockStart { index: 2, block_type: "text".into() },
        StreamChunk::TextDelta { index: 0, text: "a".into() },
        StreamChunk::ReasoningDelta { index: 1, text: "b".into() },
        StreamChunk::ToolCallDelta {
            index: 3,
            id: "i".into(),
            name: Some("n".into()),
            arguments_delta: "{".into(),
        },
        StreamChunk::BlockEnd { index: 2, block: block.clone() },
        StreamChunk::Usage { usage },
        StreamChunk::Finish { reason: FinishReason::ToolCalls },
        StreamChunk::Finish {
            reason: FinishReason::Error {
                failure: LlmFailure {
                    message: "m".into(),
                    code: "c".into(),
                    status: Some(500),
                    provider_retry_after_ms: Some(10),
                },
            },
        },
    ] {
        assert_eq!(show_chunk(&chunk), format!("{chunk:?}"));
    }
}

#[test]
fn entries_know_their_type_and_surface() {
    let user = SessionEventData::UserMessage { message: user_message("u", "x") };
    assert_eq!(user.event_type(), "user/message");
    assert!(user.is_surface());
    let start = SessionEvent::new(0, 0, SessionEventData::TurnStart { turn: 1 });
    assert_eq!(start.event_type(), "turn/start");
    assert!(!start.data.is_surface());
}

#[test]
fn clock_readings_become_milliseconds() {
    assert_eq!(reading_ms(Some(1_700_000_000_123)), 1_700_000_000_123);
    assert_eq!(reading_ms(None), 0);
    let before = std::time::SystemTime::now()
        .duration_since(std::time::UNIX_EPOCH)
        .unwrap()
        .as_millis() as u64;
    assert!(now_ms() >= before);
    assert_eq!(SessionHeader::created(5).created_at, 5);
}

#[test]
fn seeded_session_continues_its_seed() {
    let seed = vec![
        SessionEvent::new(
            0,
            1,
            SessionEventData::UserMessage { message: user_message("u", "old") },
        ),
        SessionEvent::new(1, 1, SessionEventData::TurnStart { turn: 4 }),
    ];
    let mut session = Session::new("s".to_string(), SessionHeader::created(0), seed);
    assert_eq!(session.seq(), 2);
    assert_eq!(session.open_turn(), Some(4));
    assert_eq!(session.surface(), vec![0]);
    let event = session.append_at(
        9,
        SessionEventData::UserMessage { message: user_message("v", "new") },
    );
    assert_eq!(event.seq, 2);
    assert_eq!(session.surface(), vec![0, 2]);
    let texts: Vec<String> = session.derive_messages().iter().map(|m| m.text()).collect();
    assert_eq!(texts, vec!["old", "new"]);
}
