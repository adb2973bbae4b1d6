use dsh_rs::agent::handle::CancelToken;
use dsh_rs::json::{self, Json};
use dsh_rs::llm::assembler::BlockAssembler;
use dsh_rs::llm::mock::MockAdapter;
use dsh_rs::llm::openai::{http_error, into_failure, openai_message, role_str, OpenAiAdapter};
use dsh_rs::llm::providers::{mount_adapters, segment_routes, segments};
use dsh_rs::llm::runtime::{dispatch_outcome, dispatched, Dispatched, LlmRuntime, StreamTable};
use dsh_rs::llm::sse::{event_fits, parse_event, SseParser};
use dsh_rs::types::llm::{
    ContentBlock, FinishReason, GenerateOptions, LlmCallConfig, LlmError, LlmFailure, Message,
    MessageSource, Role, StreamChunk, TokenUsage, ToolSchema,
};

fn text_delta(index: usize, text: &str) -> StreamChunk {
    StreamChunk::TextDelta { index, text: text.to_string() }
}

fn value(text: &str) -> Json {
    json::parse(text).expect("valid JSON")
}

fn options(provider: &str, messages: Vec<Message>) -> GenerateOptions {
    GenerateOptions {
        provider: provider.into(),
        model: "mock-1".into(),
        messages,
        system: None,
        tools: None,
        temperature: None,
        max_tokens: None,
        stop: None,
        session_id: None,
    }
}

#[test]
fn assembler_folds_delta_only_text() {
    let mut a = BlockAssembler::new();
    a.push(&text_delta(0, "Hello"));
    a.push(&text_delta(0, ", world"));
    a.push(&StreamChunk::Finish { reason: FinishReason::Stop });
    let blocks = a.blocks();
    assert_eq!(blocks.len(), 1);
    assert_eq!(blocks[0], ContentBlock::Text { text: "Hello, world".into() });
    assert_eq!(a.finish(), FinishReason::Stop);
}

#[test]
fn assembler_folds_tool_call_deltas() {
    let mut a = BlockAssembler::new();
    a.push(&StreamChunk::BlockStart { index: 0, block_type: "tool-call".into() });
    a.push(&StreamChunk::ToolCallDelta {
        index: 0,
        id: "call-1".into(),
        name: Some("bash".into()),
        arguments_delta: "{\"comma".into(),
    });
    a.push(&StreamChunk::ToolCallDelta {
        index: 0,
        id: "call-1".into(),
        name: None,
        arguments_delta: "nd\":\"ls\"}".into(),
    });
    let blocks = a.blocks();
    assert_eq!(
        blocks[0],
        ContentBlock::ToolCall {
            id: "call-1".into(),
            name: "bash".into(),
            arguments: "{\"command\":\"ls\"}".into(),
        }
    );
}

#[test]
fn assembler_max_tokens_drops_tool_calls() {
    let mut a = BlockAssembler::new();
    let chunks =
        MockAdapter::tool_call_response("call-1", "bash", &value("{ \"command\": \"ls\" }"));
    for chunk in chunks.into_iter().filter(|c| !matches!(c, StreamChunk::Finish { .. })) {
        a.push(&chunk);
    }
    a.push(&StreamChunk::Finish { reason: FinishReason::MaxTokens });
    assert!(a.blocks().is_empty(), "truncated tool calls must be dropped");
}

#[test]
fn assembler_interrupted_blocks_keep_text_only() {
    let mut a = BlockAssembler::new();
    a.push(&text_delta(0, "partial output"));
    a.push(&MockAdapter::tool_call_response("call-9", "bash", &value("{}"))[0].clone());
    let kept = a.interrupted_blocks();
    assert_eq!(kept.len(), 1);
    assert_eq!(kept[0], ContentBlock::Text { text: "partial output".into() });
}

#[test]
fn assembler_message_carries_source() {
    let mut a = BlockAssembler::new();
    a.push(&text_delta(0, "hi"));
    let msg = a.message(
        "m-1",
        MessageSource::Model { provider: "mock".into(), model: "mock-1".into() },
    );
    assert_eq!(msg.role, Role::Assistant);
    assert_eq!(msg.id, "m-1");
    assert_eq!(msg.text(), "hi");
}

#[test]
fn assembler_ignores_what_follows_the_finish() {
    let mut a = BlockAssembler::new();
    a.push(&text_delta(0, "a"));
    a.push(&StreamChunk::Finish { reason: FinishReason::Stop });
    a.push(&text_delta(0, "b"));
    a.push(&StreamChunk::Finish { reason: FinishReason::MaxTokens });
    assert_eq!(a.blocks(), vec![ContentBlock::text("a")]);
    assert_eq!(a.finish(), FinishReason::Stop);
}

#[test]
fn assembler_closed_block_is_final() {
    let mut a = BlockAssembler::new();
    a.push(&text_delta(3, "draft"));
    a.push(&StreamChunk::BlockEnd { index: 3, block: ContentBlock::text("whole") });
    a.push(&text_delta(3, " more"));
    a.push(&text_delta(1, "next"));
    assert!(a.is_closed(3));
    assert!(!a.is_closed(1));
    assert_eq!(a.blocks(), vec![ContentBlock::text("whole"), ContentBlock::text("next")]);
}

#[test]
fn assembler_keeps_usage() {
    let mut a = BlockAssembler::new();
    assert_eq!(a.usage(), None);
    let usage = TokenUsage {
        input_tokens: 7,
        output_tokens: 2,
        cache_read_tokens: None,
        cache_write_tokens: None,
        reasoning_tokens: None,
    };
    a.push(&StreamChunk::Usage { usage });
    assert_eq!(a.usage(), Some(usage));
}

#[test]
fn mock_adapter_echoes_last_user_message() {
    let mut adapter = MockAdapter::new();
    let chunks = adapter.next_response(&options(
        "mock",
        vec![
            Message::user("u-0", vec![ContentBlock::text("first")]),
            Message::user("u-1", vec![ContentBlock::text("ping")]),
        ],
    ));
    let mut assembler = BlockAssembler::new();
    for chunk in &chunks {
        assembler.push(chunk);
    }
    assert_eq!(assembler.blocks()[0], ContentBlock::Text { text: "ping".into() });
    assert_eq!(adapter.name(), "mock");
}

#[test]
fn mock_adapter_plays_its_script_in_order() {
    let mut adapter = MockAdapter::scripted(vec![
        MockAdapter::text_response("one"),
        MockAdapter::text_response("two"),
    ]);
    let request = options("mock", vec![]);
    assert_eq!(adapter.next_response(&request), MockAdapter::text_response("one"));
    assert_eq!(adapter.next_response(&request), MockAdapter::text_response("two"));
    assert_eq!(adapter.next_response(&request), MockAdapter::text_response(""));
}

#[test]
fn mock_tool_call_response_assembles() {
    let mut a = BlockAssembler::new();
    for chunk in &MockAdapter::tool_call_response("c", "bash", &value("{\"b\":1, \"a\":2}")) {
        a.push(chunk);
    }
    assert_eq!(
        a.blocks(),
        vec![ContentBlock::ToolCall {
            id: "c".into(),
            name: "bash".into(),
            arguments: "{\"a\":2,\"b\":1}".into(),
        }]
    );
    assert_eq!(a.finish(), FinishReason::ToolCalls);
}

#[test]
fn runtime_routes_and_rejects_duplicates() {
    let mut runtime = LlmRuntime::new();
    runtime.register_adapter(&["mock"], 0, "mock").unwrap();
    assert!(runtime.has_provider("mock"));
    let refused = runtime.register_adapter(&["other", "mock"], 1, "mock").unwrap_err();
    assert_eq!(refused.failure.code, "ROUTE_CONFLICT");
    assert_eq!(refused.failure.message, "provider route already registered: mock");
    assert!(!runtime.has_provider("other"), "a refused registration leaves no route");
    runtime.unregister_adapter(&["mock"]);
    assert!(!runtime.has_provider("mock"));
    let unknown = runtime.resolve("nope").unwrap_err();
    assert_eq!(unknown.failure.code, "UNKNOWN_PROVIDER");
    assert_eq!(unknown.failure.message, "no adapter registered for provider \"nope\"");
}

#[test]
fn runtime_lists_routes_in_registration_order() {
    let mut runtime = LlmRuntime::default();
    runtime.register_adapter(&["b", "a"], 4, "endpoint").unwrap();
    runtime.register_adapter(&["mock"], 0, "mock").unwrap();
    let ids: Vec<String> = runtime.list_providers().into_iter().map(|p| p.id).collect();
    assert_eq!(ids, vec!["b", "a", "mock"]);
    assert_eq!(runtime.list_providers()[0].name, "endpoint");
    assert_eq!(runtime.resolve("a").unwrap(), 4);
}

#[test]
fn stream_is_taken_once() {
    let mut streams = StreamTable::new();
    let first = streams.insert(11);
    let second = streams.insert(12);
    assert_eq!(first, "stream-0");
    assert_eq!(second, "stream-1");
    let result = dispatched(&value("{\"stream_id\":\"stream-1\"}"));
    assert_eq!(dispatch_outcome(&mut streams, &result, None).unwrap(), 12);
    let again = dispatch_outcome(&mut streams, &result, None).unwrap_err();
    assert_eq!(again.failure.code, "STREAM_GONE");
    assert_eq!(again.failure.message, "stream handle already consumed");
    assert_eq!(streams.take("stream-0"), Some(11));
    assert_eq!(StreamTable::default().take("stream-0"), None);
}

#[test]
fn dispatch_without_a_stream_is_an_error() {
    let mut streams = StreamTable::new();
    assert_eq!(dispatched(&value("{}")), Dispatched::Nothing);
    let none = dispatch_outcome(&mut streams, &Dispatched::Nothing, None).unwrap_err();
    assert_eq!(none.failure.code, "NO_STREAM");
    let answered = dispatched(&value("{\"error\":{\"b\":1,\"a\":[]}}"));
    let unknown = dispatch_outcome(&mut streams, &answered, None).unwrap_err();
    assert_eq!(unknown.failure, LlmFailure::new("UNKNOWN", "{\"a\":[],\"b\":1}"));
    let described = LlmFailure::new("RATE", "slow down");
    let known = dispatch_outcome(&mut streams, &answered, Some(described.clone())).unwrap_err();
    assert_eq!(known.failure, described);
}

#[test]
fn configured_endpoints_are_mounted() {
    let adapters = value(
        "{\"mock\":{\"providers\":[\"x\"]},\"openai\":{\"providers\":[\"deepseek\",\"openai\"],\
         \"base_url\":\"https://api.deepseek.com/v1/\"},\"opencode\":{\"api_key\":\"k\"}}",
    );
    let mounted = mount_adapters(&segments(&adapters)).unwrap();
    let ids: Vec<String> = mounted.runtime.list_providers().into_iter().map(|p| p.id).collect();
    assert_eq!(ids, vec!["mock", "deepseek", "openai", "opencode"]);
    assert_eq!(mounted.runtime.resolve("mock").unwrap(), 0);
    assert_eq!(mounted.runtime.resolve("openai").unwrap(), 1);
    assert_eq!(mounted.runtime.resolve("opencode").unwrap(), 2);
    assert_eq!(mounted.endpoints.len(), 2);
    assert_eq!(mounted.endpoints[0].url(), "https://api.deepseek.com/v1/chat/completions");
    assert_eq!(mounted.endpoints[1].api_key.as_deref(), Some("k"));
    assert!(segments(&Json::Null).is_empty());
    assert_eq!(segment_routes("openai", &value("{\"providers\":[1]}")), vec!["openai"]);
}

#[test]
fn each_segment_is_listed_once() {
    let entry = |name: &str, key: &str| {
        (name.to_string(), value(&format!("{{\"api_key\":\"{key}\"}}")))
    };
    let twice = Json::object(vec![entry("b", "1"), entry("a", "2"), entry("b", "3")]);
    let listed = segments(&twice);
    let names: Vec<&str> = listed.iter().map(|s| s.0.as_str()).collect();
    assert_eq!(names, vec!["a", "b"]);
    assert_eq!(listed[1].1.str_at("api_key"), Some("3"), "the later entry counts");
    let mounted = mount_adapters(&listed).unwrap();
    assert_eq!(mounted.endpoints.len(), 2);
    assert_eq!(mounted.endpoints[1].api_key.as_deref(), Some("3"));
}

#[test]
fn conflicting_endpoints_are_refused() {
    let adapters = value("{\"a\":{\"providers\":[\"r\"]},\"b\":{\"providers\":[\"r\"]}}");
    let refused = mount_adapters(&segments(&adapters)).unwrap_err();
    assert_eq!(refused.failure.code, "ROUTE_CONFLICT");
    assert_eq!(refused.failure.message, "provider route already registered: r");
    let taken = value("{\"a\":{\"providers\":[\"mock\"]}}");
    assert!(mount_adapters(&segments(&taken)).is_err(), "mock stays the mock adapter");
}

#[test]
fn cancel_token_fires_once() {
    let mut token = CancelToken::new();
    assert!(!token.is_cancelled());
    token.cancel();
    token.cancel();
    assert!(token.is_cancelled());
}

#[test]
fn openai_adapter_is_set_up_from_its_section() {
    let adapter = OpenAiAdapter::new(&value(
        "{\"base_url\":\"http://h/v1//\",\"api_key\":\"secret\",\"model\":\"m\"}",
    ));
    assert_eq!(adapter.base_url, "http://h/v1");
    assert_eq!(adapter.url(), "http://h/v1/chat/completions");
    assert_eq!(adapter.api_key.as_deref(), Some("secret"));
    assert_eq!(adapter.default_model.as_deref(), Some("m"));
    assert_eq!(adapter.name(), "openai-compatible");
    let bare = OpenAiAdapter::new(&Json::Null);
    assert_eq!(bare.base_url, "https://api.openai.com/v1");
    assert_eq!(bare.api_key, None);
}

#[test]
fn openai_body_holds_the_request() {
    let adapter = OpenAiAdapter::new(&Json::Null);
    let mut request = options("openai", vec![Message::user("u", vec![ContentBlock::text("hi")])]);
    request.model = "gpt".into();
    request.system = Some("be brief".into());
    request.tools = Some(vec![ToolSchema {
        name: "bash".into(),
        description: "d".into(),
        parameters: value("{\"type\":\"object\"}"),
    }]);
    request.temperature = Some(value("0.5"));
    request.max_tokens = Some(64);
    let body = adapter.build_body(&request);
    assert_eq!(body.str_at("model"), Some("gpt"));
    assert_eq!(body.u64_at("max_tokens"), Some(64));
    assert_eq!(json::print(body.get("stream").unwrap()), "true");
    assert_eq!(json::print(body.get("temperature").unwrap()), "0.5");
    let messages = body.array_at("messages").unwrap();
    assert_eq!(messages.len(), 2);
    assert_eq!(messages[0].str_at("role"), Some("system"));
    assert_eq!(messages[0].str_at("content"), Some("be brief"));
    assert_eq!(messages[1].str_at("role"), Some("user"));
    let tools = body.array_at("tools").unwrap();
    assert_eq!(tools[0].str_at("type"), Some("function"));
    assert_eq!(tools[0].get("function").unwrap().str_at("name"), Some("bash"));
}

#[test]
fn openai_messages_carry_tool_calls_and_results() {
    let call = Message {
        id: "a".into(),
        role: Role::Assistant,
        content: vec![
            ContentBlock::Reasoning { text: "think".into() },
            ContentBlock::ToolCall {
                id: "c-1".into(),
                name: "bash".into(),
                arguments: "{}".into(),
            },
        ],
        source: MessageSource::Model { provider: "p".into(), model: "m".into() },
    };
    let wire = openai_message(&call, true);
    assert_eq!(wire.len(), 1);
    assert_eq!(wire[0].str_at("role"), Some("assistant"));
    assert_eq!(wire[0].str_at("reasoning_content"), Some("think"));
    let calls = wire[0].array_at("tool_calls").unwrap();
    assert_eq!(calls[0].str_at("id"), Some("c-1"));
    let answer = Message {
        id: "r".into(),
        role: Role::User,
        content: vec![ContentBlock::ToolResult {
            tool_call_id: "c-1".into(),
            content: vec![ContentBlock::text("done")],
            is_error: Some(false),
        }],
        source: MessageSource::Tool { tool: "bash".into() },
    };
    let wire = openai_message(&answer, false);
    assert_eq!(wire[0].str_at("role"), Some("tool"));
    assert_eq!(wire[0].str_at("tool_call_id"), Some("c-1"));
    assert_eq!(wire[0].str_at("content"), Some("done"));
    assert_eq!(role_str(Role::System), "system");
}

#[test]
fn http_errors_become_failures() {
    let long = "x".repeat(600);
    let failure = into_failure("HTTP", 503, &long);
    assert_eq!(failure.message.len(), 500);
    assert_eq!(failure.status, Some(503));
    assert_eq!(failure.code, "HTTP");
    let silent = into_failure("HTTP", 404, "");
    assert_eq!(silent.message, "openai error (http 404)");
    let error = http_error(429, "slow");
    assert_eq!(error.failure.status, Some(429));
    assert_eq!(error.failure.message, "slow");
}

#[test]
fn sse_events_become_chunks_whatever_the_pieces() {
    let stream = b"data: {\"choices\":[{\"delta\":{\"content\":\"h\xC3\xA9\"}}]}\n\n: ping\n\
        data: not json\ndata: {\"usage\":{\"prompt_tokens\":3,\"completion_tokens\":4}}\n\
        data: [DONE]\n";
    let mut whole = SseParser::new();
    whole.feed(stream);
    let mut all = Vec::new();
    while let Some(chunk) = whole.parse_buffered() {
        all.push(chunk);
    }
    assert!(whole.is_done());
    let mut split = SseParser::new();
    let mut pieces = Vec::new();
    for byte in stream.iter() {
        split.feed(&[*byte]);
        while let Some(chunk) = split.parse_buffered() {
            pieces.push(chunk);
        }
    }
    assert_eq!(all, pieces);
    assert!(matches!(&all[0], StreamChunk::TextDelta { text, .. } if text == "h\u{e9}"));
    assert!(matches!(
        &all[1],
        StreamChunk::Usage { usage } if usage.input_tokens == 3 && usage.output_tokens == 4
    ));
}

#[test]
fn sse_reads_bytes_that_are_not_utf8() {
    let mut parser = SseParser::new();
    parser.feed(b"data: {\"choices\":[{\"delta\":{\"content\":\"a\xFFb\"}}]}\n");
    let chunk = parser.parse_buffered().unwrap();
    assert!(matches!(&chunk, StreamChunk::TextDelta { text, .. } if text == "a\u{fffd}b"));
}

#[test]
fn sse_failure_ends_the_stream() {
    let mut parser = SseParser::new();
    let chunk = parser.fail("reset");
    assert!(parser.is_done());
    assert_eq!(
        chunk,
        StreamChunk::Finish {
            reason: FinishReason::Error { failure: LlmFailure::new("STREAM", "reset") },
        }
    );
    let mut other = SseParser::new();
    other.end();
    assert!(other.is_done());
    assert_eq!(other.parse_buffered(), None);
}

#[test]
fn events_with_tool_calls_get_their_own_index() {
    let event = value(
        "{\"choices\":[{\"delta\":{\"tool_calls\":[{\"index\":1,\"id\":\"c\",\
         \"function\":{\"name\":\"bash\",\"arguments\":\"{}\"}}]}}]}",
    );
    assert!(event_fits(&event));
    assert_eq!(
        parse_event(&event),
        StreamChunk::ToolCallDelta {
            index: 3,
            id: "c".into(),
            name: Some("bash".into()),
            arguments_delta: "{}".into(),
        }
    );
    let finish = value("{\"choices\":[{\"delta\":{},\"finish_reason\":\"length\"}]}");
    assert_eq!(parse_event(&finish), StreamChunk::Finish { reason: FinishReason::MaxTokens });
}

#[test]
fn errors_show_code_and_message() {
    let error = LlmError::code("RATE", "slow down");
    assert_eq!(error.failure.display(), "RATE: slow down");
    assert_eq!(error.display(), "llm failure (RATE: slow down)");
    assert!(FinishReason::Error { failure: LlmFailure::new("X", "y") }.is_terminal_error());
    assert!(!FinishReason::Stop.is_terminal_error());
}

#[test]
fn call_config_defaults_to_nothing() {
    let config = LlmCallConfig::default();
    assert_eq!(config.max_tokens, None);
    assert_eq!(config.stop, None);
}

#[test]
fn reasoning_is_echoed_back_to_providers_that_want_it() {
    let message = Message {
        id: "m-1".into(),
        role: Role::Assistant,
        content: vec![
            ContentBlock::Reasoning { text: "first ".into() },
            ContentBlock::ToolResult {
                tool_call_id: "c".into(),
                content: vec![ContentBlock::text("r")],
                is_error: None,
            },
            ContentBlock::Reasoning { text: "second".into() },
            ContentBlock::text("done"),
        ],
        source: MessageSource::User,
    };
    let echoed: String = openai_message(&message, true)
        .iter()
        .filter_map(|m| m.str_at("reasoning_content").map(|s| s.to_string()))
        .collect();
    assert_eq!(echoed, "first second");
    for wire in openai_message(&message, false) {
        assert_eq!(wire.str_at("reasoning_content"), None);
        assert!(wire.get("tool_calls").is_none());
    }
}
