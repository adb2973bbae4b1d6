use dsh_rs::agent::handle::Agent;
use dsh_rs::cli::chat::{announced_event, message_is_error, tool_result_text, ChatItem, ChatState};
use dsh_rs::cli::tui::{
    one_line, render_item, Area, ChatFrame, ChatTui, Color, KeyCode, KeyEvent, ScreenEvent, Span,
    PASTE_LIMIT,
};
use dsh_rs::json;
use dsh_rs::types::agent::AgentOptions;
use dsh_rs::types::llm::{ContentBlock, Message, MessageSource, Role, StreamChunk};
use dsh_rs::types::session::{SessionEvent, SessionEventData, TurnEndReason};

fn agent() -> Agent {
    Agent::new("agent-1", AgentOptions::mock("mock-1"))
}

fn key(code: KeyCode) -> KeyEvent {
    KeyEvent::plain(code)
}

fn type_text(tui: &mut ChatTui, agent: &mut Agent, text: &str) {
    for c in text.chars() {
        assert!(!tui.handle_key(key(KeyCode::Char(c)), agent), "typing must not quit");
    }
}

fn user_event(text: &str) -> SessionEvent {
    let message = Message::user("u-1", vec![ContentBlock::text(text)]);
    SessionEvent::new(0, 0, SessionEventData::UserMessage { message })
}

fn chunk_event(text: &str) -> SessionEvent {
    SessionEvent::new(
        1,
        0,
        SessionEventData::AssistantChunk {
            turn: 1,
            step: 1,
            chunk: StreamChunk::TextDelta { index: 0, text: text.into() },
        },
    )
}

fn assistant_event(text: &str) -> SessionEvent {
    SessionEvent::new(
        2,
        0,
        SessionEventData::AssistantMessage {
            turn: 1,
            step: 1,
            message: Message {
                id: "a-1".into(),
                role: Role::Assistant,
                content: vec![ContentBlock::text(text)],
                source: MessageSource::Model { provider: "mock".into(), model: "mock-1".into() },
            },
            usage: None,
            interrupted: None,
        },
    )
}

fn tool_call_event() -> SessionEvent {
    SessionEvent::new(
        3,
        0,
        SessionEventData::ToolCall {
            turn: 1,
            step: 2,
            call_id: "call-1".into(),
            name: "bash".into(),
            arguments: "{\"command\":\"ls\"}".into(),
        },
    )
}

fn tool_result_message_of(text: &str, is_error: bool) -> Message {
    Message {
        id: "tr-call-1".into(),
        role: Role::User,
        content: vec![ContentBlock::ToolResult {
            tool_call_id: "call-1".into(),
            content: vec![ContentBlock::text(text)],
            is_error: Some(is_error),
        }],
        source: MessageSource::Tool { tool: "bash".into() },
    }
}

fn tool_result_event(text: &str, is_error: bool) -> SessionEvent {
    SessionEvent::new(
        4,
        0,
        SessionEventData::ToolResult {
            turn: 1,
            step: 2,
            message: tool_result_message_of(text, is_error),
        },
    )
}

fn text_of(spans: &[Span]) -> String {
    spans.iter().map(|s| s.text.as_str()).collect()
}

fn lines_of(frame: &ChatFrame) -> Vec<String> {
    frame.lines.iter().map(|l| text_of(l)).collect()
}

fn screen(width: u16, height: u16) -> Area {
    Area { x: 0, y: 0, width, height }
}

#[test]
fn state_projects_a_full_step() {
    let mut state = ChatState::default();

    // User message renders as a user item first.
    state.apply_event(&user_event("run ls"));
    assert_eq!(state.items.first(), Some(&ChatItem::User { text: "run ls".to_string() }));

    // Streaming deltas accumulate in `pending`.
    state.apply_event(&chunk_event("Hel"));
    state.apply_event(&chunk_event("lo"));
    assert_eq!(state.pending, "Hello");

    // The assembled assistant message finalizes the pending text.
    state.apply_event(&assistant_event("Hello"));
    assert!(state.pending.is_empty());
    assert_eq!(state.items.last(), Some(&ChatItem::Assistant { text: "Hello".to_string() }));

    // Tool call and tool result render as distinct items.
    state.apply_event(&tool_call_event());
    assert!(matches!(state.items.last(), Some(ChatItem::ToolCall { name, .. }) if name == "bash"));
    state.apply_event(&tool_result_event("bin\nlib", false));
    assert!(matches!(
        state.items.last(),
        Some(ChatItem::ToolResult { text, is_error: false }) if text == "bin\nlib"
    ));

    // Non-completed turn ends surface as a system note; completed ones do not.
    state.apply_event(&SessionEvent::new(
        5,
        0,
        SessionEventData::TurnEnd {
            turn: 1,
            reason: TurnEndReason::Aborted { cause: "user".into() },
        },
    ));
    assert!(matches!(state.items.last(), Some(ChatItem::System { .. })));

    let mut state2 = ChatState::default();
    state2.apply_event(&assistant_event("ok"));
    state2.apply_event(&SessionEvent::new(
        0,
        0,
        SessionEventData::TurnEnd { turn: 1, reason: TurnEndReason::Completed },
    ));
    assert_eq!(state2.items.len(), 1, "completed turns add no system item");
}

#[test]
fn change_is_told_only_where_something_shows() {
    let mut state = ChatState::default();
    let ended = |reason: TurnEndReason| {
        SessionEvent::new(0, 0, SessionEventData::TurnEnd { turn: 1, reason })
    };
    assert!(!state.apply_event(&ended(TurnEndReason::Completed)));
    assert!(!state.apply_event(&user_event("")));
    assert!(!state.apply_event(&chunk_event("")));
    assert!(!state.apply_event(&assistant_event("")));
    assert_eq!(state, ChatState::default());
    assert!(state.apply_event(&user_event("hi")));
    assert!(state.apply_event(&chunk_event("Hel")));
    assert!(state.apply_event(&assistant_event("Hello")));
    assert!(state.apply_event(&tool_call_event()));
    assert!(state.apply_event(&tool_result_event("x", false)));
    assert!(state.apply_event(&ended(TurnEndReason::Aborted { cause: "user".into() })));
    assert_eq!(state.items.len(), 5);
}

#[test]
fn unfinished_text_is_flushed() {
    let mut state = ChatState::default();
    state.apply_event(&chunk_event("half"));
    let count = state.item_count();
    state.flush_pending();
    assert!(state.pending.is_empty());
    assert_eq!(state.items, vec![ChatItem::Assistant { text: "half".into() }]);
    assert!(count <= state.item_count());
}

#[test]
fn events_of_other_sessions_are_ignored() {
    let payload =
        json::parse("{\"session\":\"s-1\",\"event\":{\"seq\":3}}").unwrap();
    assert_eq!(announced_event(&payload, "s-1").unwrap().u64_at("seq"), Some(3));
    assert!(announced_event(&payload, "s-2").is_none());
    assert!(announced_event(&json::parse("{}").unwrap(), "s-1").is_none());
    assert!(message_is_error(&tool_result_message_of("x", true)));
    assert!(!message_is_error(&tool_result_message_of("x", false)));
    assert_eq!(tool_result_text(&tool_result_message_of("x", false)), "x");
}

#[test]
fn tui_keys_type_submit_and_receive() {
    let mut agent = agent();
    let mut tui = ChatTui::default();

    // Type "hi" character by character, then submit with Enter.
    type_text(&mut tui, &mut agent, "hi");
    assert_eq!(tui.input(), "hi");

    assert!(!tui.handle_key(key(KeyCode::Enter), &mut agent));
    assert!(tui.input().is_empty(), "input cleared after submit");
    let batch = agent.claim_batch();
    assert_eq!(batch.len(), 1);
    assert_eq!(batch[0].text(), "hi");

    // Blank input is not submitted.
    type_text(&mut tui, &mut agent, "  ");
    assert!(!tui.handle_key(key(KeyCode::Enter), &mut agent));
    assert!(agent.claim_batch().is_empty());
}

#[test]
fn tui_keys_history_navigation() {
    let mut agent = agent();
    let mut tui = ChatTui::default();
    for text in ["one", "two"] {
        type_text(&mut tui, &mut agent, text);
        tui.handle_key(key(KeyCode::Enter), &mut agent);
    }
    assert_eq!(tui.history().len(), 2);
    assert_eq!(tui.submissions(), 2);

    // Up recalls the most recent submission, then the older one.
    tui.handle_key(key(KeyCode::Up), &mut agent);
    assert_eq!(tui.input(), "two");
    tui.handle_key(key(KeyCode::Up), &mut agent);
    assert_eq!(tui.input(), "one");

    // Down returns to "two", then clears past the newest entry.
    tui.handle_key(key(KeyCode::Down), &mut agent);
    assert_eq!(tui.input(), "two");
    tui.handle_key(key(KeyCode::Down), &mut agent);
    assert!(tui.input().is_empty());

    // Esc clears the current input.
    type_text(&mut tui, &mut agent, "abc");
    tui.handle_key(key(KeyCode::Esc), &mut agent);
    assert!(tui.input().is_empty());
}

#[test]
fn tui_keys_quit_semantics() {
    let mut agent = agent();
    let mut tui = ChatTui::default();

    // A bare 'q' must never quit, even with an empty input buffer.
    assert!(
        !tui.handle_key(key(KeyCode::Char('q')), &mut agent),
        "bare 'q' must not quit: an input method commits it as a normal character"
    );
    assert_eq!(tui.input(), "q");

    // Ctrl-C always quits.
    assert!(tui.handle_key(KeyEvent::ctrl('c'), &mut agent));
}

#[test]
fn tui_keys_ctrl_q_quits() {
    let mut agent = agent();
    let mut tui = ChatTui::default();
    assert!(tui.handle_key(KeyEvent::ctrl('q'), &mut agent));
}

#[test]
fn tui_paste_appends_whole_text_single_line() {
    let mut tui = ChatTui::default();

    // Multi-line paste with CRLF must collapse to a single line, appended
    // whole so CJK text is never torn into garbled pieces.
    tui.handle_paste("第一行\r\n第二行\n第三行");
    assert_eq!(tui.input(), "第一行 第二行 第三行");
    assert!(!tui.input().contains('\n'));
    assert!(!tui.input().contains('\r'));

    // Pasting into existing input appends, and oversize pastes are capped.
    let mut tui2 = ChatTui::default();
    tui2.handle_paste("a");
    tui2.handle_paste(&"x".repeat(10_000));
    assert!(tui2.input().len() <= 4096 + 1);
    assert_eq!(tui2.input().len(), PASTE_LIMIT + 1);
}

#[test]
fn tui_ctrl_u_clears_and_ctrl_w_deletes_word() {
    let mut agent = agent();
    let mut tui = ChatTui::default();
    type_text(&mut tui, &mut agent, "hello world");
    assert_eq!(tui.input(), "hello world");

    // Ctrl-W deletes the last whitespace-delimited word.
    tui.handle_key(KeyEvent::ctrl('w'), &mut agent);
    assert_eq!(tui.input(), "hello ");

    // Ctrl-U clears the whole line.
    tui.handle_key(KeyEvent::ctrl('u'), &mut agent);
    assert!(tui.input().is_empty());

    // White space of several bytes ends a word too.
    type_text(&mut tui, &mut agent, "a\u{3000}bc");
    tui.handle_key(KeyEvent::ctrl('w'), &mut agent);
    assert_eq!(tui.input(), "a\u{3000}");
}

#[test]
fn tui_backspace_deletes_full_graphemes() {
    let mut agent = agent();
    let mut tui = ChatTui::default();

    // Typing an emoji, then backspace, removes the whole cluster.
    type_text(&mut tui, &mut agent, "a👨‍👩‍👧");
    assert_eq!(tui.input(), "a👨\u{200d}👩\u{200d}👧");
    tui.handle_key(key(KeyCode::Backspace), &mut agent);
    assert_eq!(tui.input(), "a", "backspace must remove the whole ZWJ emoji cluster");

    // Combining mark: 'e' + U+0301 is one grapheme; one backspace removes both.
    let mut tui2 = ChatTui::default();
    type_text(&mut tui2, &mut agent, "e\u{0301}");
    assert_eq!(tui2.input(), "e\u{0301}");
    tui2.handle_key(key(KeyCode::Backspace), &mut agent);
    assert!(tui2.input().is_empty(), "combining sequence deleted as one grapheme");
}

#[test]
fn tui_repeat_keys_still_enter_text() {
    let mut agent = agent();
    let mut tui = ChatTui::default();
    for _ in 0..3 {
        let event = ScreenEvent::Key { key: key(KeyCode::Char('a')) };
        assert!(!tui.handle_event(&event, &mut agent));
    }
    assert_eq!(tui.input(), "aaa");
    assert!(!tui.handle_event(&ScreenEvent::Paste { text: "b".into() }, &mut agent));
    assert_eq!(tui.input(), "aaab");
    assert!(!tui.handle_event(&ScreenEvent::Resize, &mut agent));
    assert!(!tui.handle_event(&ScreenEvent::Other, &mut agent));
    assert!(tui.handle_event(&ScreenEvent::Key { key: KeyEvent::ctrl('c') }, &mut agent));
}

#[test]
fn tui_caret_moves_and_edits_in_the_middle() {
    let mut agent = agent();
    let mut tui = ChatTui::default();

    // Type "abc": caret sits after 'c'.
    type_text(&mut tui, &mut agent, "abc");
    assert_eq!(tui.input(), "abc");
    assert_eq!(tui.cursor(), 3);

    // Move left twice: caret between 'a' and 'b'.
    tui.handle_key(key(KeyCode::Left), &mut agent);
    tui.handle_key(key(KeyCode::Left), &mut agent);
    assert_eq!(tui.cursor(), 1);

    // Insert 'X' at the caret, caret now after 'X'.
    tui.handle_key(key(KeyCode::Char('X')), &mut agent);
    assert_eq!(tui.input(), "aXbc");
    assert_eq!(tui.cursor(), 2);

    // Backspace deletes what is before the caret ('X'), caret at 1.
    tui.handle_key(key(KeyCode::Backspace), &mut agent);
    assert_eq!(tui.input(), "abc");
    assert_eq!(tui.cursor(), 1);

    // Jump to the start; Delete removes what is after the caret ('a').
    tui.handle_key(key(KeyCode::Home), &mut agent);
    tui.handle_key(key(KeyCode::Delete), &mut agent);
    assert_eq!(tui.input(), "bc");

    // Home / End jump the caret around further edits.
    tui.handle_key(key(KeyCode::Char('Z')), &mut agent);
    assert_eq!(tui.input(), "Zbc");
    tui.handle_key(key(KeyCode::Home), &mut agent);
    tui.handle_key(key(KeyCode::Char('0')), &mut agent);
    assert_eq!(tui.input(), "0Zbc");
    tui.handle_key(key(KeyCode::End), &mut agent);
    tui.handle_key(key(KeyCode::Char('1')), &mut agent);
    assert_eq!(tui.input(), "0Zbc1");

    // Ctrl-A / Ctrl-E also jump the caret.
    tui.handle_key(KeyEvent::ctrl('a'), &mut agent);
    assert_eq!(tui.cursor(), 0);
    tui.handle_key(KeyEvent::ctrl('e'), &mut agent);
    assert_eq!(tui.cursor(), tui.input().len());
}

#[test]
fn cursor_stays_on_a_character_after_every_key() {
    let mut agent = agent();
    let mut tui = ChatTui::default();
    tui.handle_paste("añ日本e\u{301} 👩\u{200d}👩\u{200d}👧 end");
    let keys = [
        KeyCode::Left,
        KeyCode::Left,
        KeyCode::Backspace,
        KeyCode::Char('é'),
        KeyCode::Home,
        KeyCode::Right,
        KeyCode::Delete,
        KeyCode::Enter,
        KeyCode::Enter,
        KeyCode::Up,
        KeyCode::Left,
        KeyCode::Down,
        KeyCode::Esc,
        KeyCode::PageUp,
    ];
    for code in keys {
        let before = tui.history().clone();
        let submits = code == KeyCode::Enter && !tui.input().trim().is_empty();
        tui.handle_key(key(code), &mut agent);
        assert!(tui.input().is_char_boundary(tui.cursor()), "{code:?}");
        assert!(tui.cursor() <= tui.input().len());
        assert!(tui.history().starts_with(&before));
        assert_eq!(tui.history().len(), before.len() + usize::from(submits));
    }
    assert_eq!(tui.history().len(), 1);
}

#[test]
fn tui_caret_moves_by_grapheme_clusters() {
    let mut agent = agent();
    let mut tui = ChatTui::default();

    // A ZWJ emoji family is one grapheme cluster: one Left jump crosses it.
    type_text(&mut tui, &mut agent, "a👨\u{200d}👩\u{200d}👧");
    assert_eq!(tui.cursor(), tui.input().len());
    tui.handle_key(key(KeyCode::Left), &mut agent);
    assert_eq!(&tui.input()[..tui.cursor()], "a", "one Left must cross the whole emoji cluster");
    tui.handle_key(key(KeyCode::Right), &mut agent);
    assert_eq!(tui.cursor(), tui.input().len(), "one Right crosses it back");

    // Backspace at the caret deletes the whole cluster.
    let mut tui2 = ChatTui::default();
    type_text(&mut tui2, &mut agent, "e\u{0301}x");
    // Caret at end; move left past 'x' to the combining sequence.
    tui2.handle_key(key(KeyCode::Left), &mut agent);
    tui2.handle_key(key(KeyCode::Backspace), &mut agent);
    assert_eq!(tui2.input(), "x", "backspace deletes e + combining mark as one grapheme");
}

#[test]
fn tui_caret_scrolls_the_input_window() {
    let mut agent = agent();
    let mut tui = ChatTui::default();

    // Long CJK input; jump the caret to the very start and back to the end.
    let long = "这是一个很长的中文输入".repeat(5);
    type_text(&mut tui, &mut agent, &long);
    // Walk the caret all the way back to the start.
    while tui.cursor() > 0 {
        tui.handle_key(key(KeyCode::Left), &mut agent);
    }
    assert_eq!(tui.cursor(), 0);

    // Compose a narrow field; the caret (at 0) must be visible.
    let frame = tui.draw(&ChatState::default(), false, screen(40, 12)).unwrap();
    let text = text_of(&frame.input);
    assert!(text.contains("❯"), "caret window must render: {text}");
    assert!(text.contains('这'), "start of input must be visible at caret 0: {text}");
    assert_eq!(frame.caret_x, frame.input_area.x + 3);
}

#[test]
fn tui_renders_conversation_and_input() {
    let mut tui = ChatTui::default();
    let mut state =
        ChatState { session_id: Some("agent-1".to_string()), ..ChatState::default() };
    state.apply_event(&user_event("hello"));
    state.apply_event(&assistant_event("hello"));

    let frame = tui.draw(&state, false, screen(120, 30)).unwrap();

    // Title carries the session id.
    assert!(frame.title.text.contains("dsh chat"), "{}", frame.title.text);
    assert!(frame.title.text.contains("agent-1"), "{}", frame.title.text);

    // The conversation is rendered: user line, assistant line.
    let lines = lines_of(&frame);
    assert!(lines.iter().any(|l| l.contains("hello")), "{lines:?}");

    // Input area with the prompt marker; status line with the idle hint.
    assert!(text_of(&frame.input).contains("❯"));
    let status = text_of(&frame.status);
    assert!(status.contains("idle"), "{status}");
    assert!(status.contains("quit"), "{status}");
    assert!(status.contains("←/→"), "{status}");
    let busy = tui.draw(&state, true, screen(120, 30)).unwrap();
    assert!(text_of(&busy.status).contains("running"));

    // The three areas tile the screen.
    assert_eq!(frame.list_area.height, 26);
    assert_eq!(frame.input_area.height, 3);
    assert_eq!(frame.status_area.height, 1);
    assert_eq!(frame.status_area.y, 29);
}

#[test]
fn rows_are_stacked_where_there_is_room() {
    let mut tui = ChatTui::default();
    let state = ChatState::default();
    for (y, height) in [(0, 7), (0, 8), (3, 24), (0, 200), (100, 65_435), (65_528, 7)] {
        let area = Area { x: 2, y, width: 60, height };
        let frame = tui.draw(&state, false, area).expect("a screen with room for every row");
        let list = Area { x: 2, y, width: 60, height: height - 4 };
        let input = Area { x: 2, y: y + height - 4, width: 60, height: 3 };
        let status = Area { x: 2, y: y + height - 1, width: 60, height: 1 };
        assert_eq!((frame.list_area, frame.input_area, frame.status_area), (list, input, status));
    }
}

#[test]
fn frame_stays_on_the_screen() {
    let mut tui = ChatTui::default();
    let state = ChatState::default();
    for (y, height) in [(0, 0), (0, 1), (0, 3), (0, 6), (0, 7), (0, 500), (40, 2), (60_000, 5_534)] {
        let area = Area { x: 5, y, width: 80, height };
        let frame = tui.draw(&state, false, area).expect("a screen that ends above the last line");
        for row in [frame.list_area, frame.input_area, frame.status_area] {
            assert_eq!((row.x, row.width), (5, 80));
            assert!(row.y >= y && row.y + row.height <= y + height, "{row:?} in {area:?}");
        }
    }
}

#[test]
fn tui_renders_long_input_without_overflow() {
    let mut agent = agent();
    let mut tui = ChatTui::default();

    // A long CJK input (each char is 2 columns wide) must stay inside the
    // input field: the field scrolls, and the tail stays visible.
    let long_cjk = "这是一个很长的中文输入".repeat(5);
    type_text(&mut tui, &mut agent, &long_cjk);
    assert_eq!(tui.input(), long_cjk);

    let frame = tui.draw(&ChatState::default(), false, screen(60, 20)).unwrap();
    let shown = &frame.input[1].text;
    let tail = &long_cjk[long_cjk.len() - 6..];
    assert!(shown.ends_with(tail), "input tail not visible: {shown}");
    assert!(shown.chars().count() * 2 <= 56, "the field overflowed: {shown}");
    assert!(frame.caret_x < frame.input_area.x + frame.input_area.width);
    assert_eq!(tui.visible_window(4), "输入");
    assert_eq!(tui.visible_window(5), "输入", "half a cluster is not shown");
}

#[test]
fn tui_renders_tool_activity() {
    let mut tui = ChatTui::default();
    let mut state = ChatState::default();
    state.apply_event(&user_event("go"));
    state.apply_event(&tool_call_event());
    state.apply_event(&tool_result_event("rendered-ok", false));
    state.apply_event(&assistant_event("all done"));
    let text = lines_of(&tui.draw(&state, false, screen(100, 30)).unwrap()).join("\n");
    assert!(text.contains("bash"), "tool call missing: {text}");
    assert!(text.contains("rendered-ok"), "tool result missing: {text}");
    assert!(text.contains("all done"), "final answer missing: {text}");
}

#[test]
fn failed_results_are_red() {
    let failed = render_item(&ChatItem::ToolResult { text: "bad".into(), is_error: true });
    assert!(failed.iter().all(|s| s.style.color == Some(Color::Red)));
    assert!(text_of(&failed).ends_with("bad"));
    assert_eq!(one_line("a\r\nb\rc\nd"), "a b c d");
}

#[test]
fn screen_is_redrawn_only_after_changes() {
    let mut agent = agent();
    let mut tui = ChatTui::default();
    let state = ChatState::default();
    tui.take_redraw(&state, false);
    assert!(!tui.take_redraw(&state, false));
    assert!(tui.take_redraw(&state, true), "a busy agent animates");
    tui.handle_key(key(KeyCode::Char('x')), &mut agent);
    assert!(tui.take_redraw(&state, false));
    assert!(!tui.take_redraw(&state, false));
    let mut grown = ChatState::default();
    grown.apply_event(&chunk_event("hi"));
    assert!(tui.take_redraw(&grown, false));
}
