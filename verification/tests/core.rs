use dsh_rs::api::services::SystemPromptApi;
use dsh_rs::agent::handle::{
    user_message_with_text, Agent, AgentError, AgentRegistry, CancelToken, Drive,
};
use dsh_rs::agent::prompt::{
    interpolate, PromptContext, PromptSection, PromptText, SystemPromptService,
};
use dsh_rs::agent::turn::{
    default_call_config, enter_decision, injected_message, next_turn_number, tool_result_message,
    Opening, Turn, TurnEvent, TurnRequest,
};
use dsh_rs::json::{self, Json};
use dsh_rs::llm::mock::MockAdapter;
use dsh_rs::session::log::{user_message, Session};
use dsh_rs::session::store::SessionStore;
use dsh_rs::tools::builtin::register_builtin_tools;
use dsh_rs::tools::registry::ToolRegistry;
use dsh_rs::types::agent::{AgentCancelCause, AgentOptions, AgentStatus};
use dsh_rs::types::llm::{
    ContentBlock, FinishReason, GenerateOptions, Message, Role, StreamChunk,
};
use dsh_rs::types::session::{SessionEventData, SessionHeader, TurnEndReason};
use dsh_rs::types::tools::ToolExecutionResult;

type Fragment = fn() -> String;
type Variable = fn() -> Option<String>;

fn fixed(text: &str) -> PromptText<Fragment> {
    PromptText::Static(text.to_string())
}

fn session() -> Session {
    Session::new("s-1".to_string(), SessionHeader::created(7), vec![])
}

/// Drives a turn with a scripted model until it ends; `steering` is handed out
/// once, at the first opportunity.
struct Harness {
    adapter: MockAdapter,
    tools: ToolRegistry,
    claimed: Vec<Message>,
    steering: Vec<Message>,
    requests: Vec<GenerateOptions>,
}

impl Harness {
    fn new(script: Vec<Vec<StreamChunk>>) -> Self {
        let mut tools = ToolRegistry::new();
        register_builtin_tools(&mut tools);
        Harness {
            adapter: MockAdapter::scripted(script),
            tools,
            claimed: vec![],
            steering: vec![],
            requests: vec![],
        }
    }

    fn drive(&mut self, session: &mut Session) -> Option<String> {
        let options = AgentOptions::mock("mock-1");
        let mut turn = Turn::start(session, "agent-1", &options);
        let mut chunks: Vec<StreamChunk> = vec![];
        for _ in 0..1000 {
            let event = match turn.request() {
                TurnRequest::RunPreStep { .. } => TurnEvent::Decided {
                    decision: Ok(json::parse("{\"kind\":\"enter\",\"messages\":[]}").unwrap()),
                },
                TurnRequest::ReadMessages { .. } => {
                    TurnEvent::Entered { messages: Ok(std::mem::take(&mut self.claimed)) }
                }
                TurnRequest::ResolveConfig { fallback, .. } => TurnEvent::Configured {
                    config: Ok(fallback),
                    system: "be kind".to_string(),
                    tools: self.tools.schemas(),
                },
                TurnRequest::OpenStream { options } => {
                    self.requests.push(options.clone());
                    chunks = self.adapter.next_response(&options);
                    chunks.reverse();
                    TurnEvent::StreamOpened { opening: Opening::Opened }
                }
                TurnRequest::NextChunk => match chunks.pop() {
                    Some(chunk) => TurnEvent::Chunk { chunk },
                    None => TurnEvent::StreamEnded,
                },
                TurnRequest::RunTool { name, .. } => TurnEvent::ToolDone {
                    result: ToolExecutionResult::success_text(
                        &format!("{name}: hello-dsh"),
                        Json::Null,
                    ),
                },
                TurnRequest::ClaimSteering { .. } => TurnEvent::Steered {
                    messages: std::mem::take(&mut self.steering),
                    tools: self.tools.schemas(),
                },
                TurnRequest::RunStopping { .. } => TurnEvent::Stopped,
                TurnRequest::Done { error } => return error,
            };
            turn.step(session, event);
        }
        panic!("the turn did not end");
    }
}

fn types(session: &Session) -> Vec<&'static str> {
    session.events().iter().map(|e| e.event_type()).collect()
}

fn end_reason(session: &Session) -> TurnEndReason {
    let ends: Vec<TurnEndReason> = session
        .events()
        .into_iter()
        .filter_map(|e| match e.data {
            SessionEventData::TurnEnd { reason, .. } => Some(reason),
            _ => None,
        })
        .collect();
    assert_eq!(ends.len(), 1);
    ends[0].clone()
}

fn message_tool_result_text(message: &Message) -> String {
    let mut out = String::new();
    for block in &message.content {
        if let ContentBlock::ToolResult { content, .. } = block {
            for inner in content {
                if let ContentBlock::Text { text } = inner {
                    out.push_str(text);
                }
            }
        }
    }
    out
}

#[test]
fn prompt_assemble_orders_and_interpolates() {
    let mut service: SystemPromptService<Fragment, Variable> = SystemPromptService::new();
    service.section(PromptSection::new("persona", 0, fixed("You are {{name}}, a helpful agent.")));
    service.section(PromptSection::new("harness", -100, fixed("dsh-rs harness identity")));
    service.section(PromptSection::new("tools", 100, fixed("You have tools.")));
    service.variable("name", || Some("rover".to_string()));
    let assembly = service.assemble();
    assert!(assembly.system.starts_with("dsh-rs harness identity"));
    assert!(assembly.system.contains("You are rover, a helpful agent."));
    assert!(assembly.system.ends_with("You have tools."));
}

fn contribute<F: Fn() -> String, G: Fn() -> Option<String>, S: SystemPromptApi<F, G>>(
    service: &mut S,
    provider: G,
) -> String {
    service.section("persona", 0, "You are {{name}}.", false);
    service.section("persona", 10, "I am {{name}}.", false);
    service.section("harness", -100, "harness", false);
    service.variable("name", provider);
    service.assemble().system
}

#[test]
fn prompt_is_contributed_through_the_interface() {
    let mut service: SystemPromptService<Fragment, Variable> = SystemPromptService::new();
    assert_eq!(
        contribute(&mut service, || Some("rover".to_string())),
        "harness\n\nI am rover."
    );
    SystemPromptApi::section(&mut service, "all", 0, "only this", true);
    assert_eq!(SystemPromptApi::assemble(&service).system, "only this");
}

#[test]
fn prompt_complete_section_wins() {
    let mut service: SystemPromptService<Fragment, Variable> = SystemPromptService::new();
    service.section(PromptSection::new("persona", 0, fixed("normal persona")));
    service.section(PromptSection::new("complete", -50, fixed("ONLY THIS MATTERS")).complete());
    let assembly = service.assemble();
    assert_eq!(assembly.system, "ONLY THIS MATTERS");
}

#[test]
fn prompt_sections_are_replaced_in_place() {
    let mut service: SystemPromptService<Fragment, Variable> = SystemPromptService::new();
    service.section(PromptSection::new("a", 0, fixed("first")));
    service.section(PromptSection::new("a", 0, PromptText::Dynamic(|| "second".to_string())));
    service.section(PromptSection::new("b", 0, fixed("tied")));
    service.context(PromptContext::new("c", 0, fixed("context")));
    service.section(PromptSection::new("blank", 5, fixed("  \n")));
    assert_eq!(service.assemble().system, "second\n\ntied");
}

#[test]
fn placeholders_are_replaced_everywhere_or_nowhere() {
    assert_eq!(interpolate("{{x}} and {{x}}", "x", Some("y")), "y and y");
    assert_eq!(interpolate("{{x}}", "x", None), "{{x}}");
    assert_eq!(interpolate("no placeholder", "x", Some("y")), "no placeholder");
}

#[test]
fn agent_loop_runs_tool_then_finishes() {
    let mut harness = Harness::new(vec![
        MockAdapter::tool_call_response(
            "call-1",
            "bash",
            &json::parse("{\"command\":\"echo hello-dsh\"}").unwrap(),
        ),
        MockAdapter::text_response("task complete"),
    ]);
    harness.claimed.push(user_message_with_text("u-1", "list the files please"));
    let mut session = session();
    assert_eq!(harness.drive(&mut session), None);

    let types = types(&session);
    for expected in [
        "turn/start",
        "user/message",
        "assistant/chunk",
        "tool/call",
        "tool/result",
        "assistant/message",
        "turn/end",
    ] {
        assert!(types.contains(&expected), "{expected} missing from {types:?}");
    }

    // The turn completed cleanly.
    assert_eq!(end_reason(&session), TurnEndReason::Completed);

    // The final assistant message carries the model's answer.
    let messages = session.derive_messages();
    assert_eq!(messages.last().unwrap().text(), "task complete");

    // The bash tool result is in the log.
    assert!(session.events().iter().any(|e| matches!(
        &e.data,
        SessionEventData::ToolResult { message, .. }
            if message_tool_result_text(message).contains("hello-dsh")
    )));

    // Request headers were logged for the steps.
    let headers = types.iter().filter(|t| **t == "request/header").count();
    assert!(headers >= 2, "one header per model request, got {headers}");
    assert_eq!(session.open_turn(), None);
}

#[test]
fn agent_loop_uses_system_prompt_and_tool_schemas() {
    let mut harness = Harness::new(vec![]);
    harness.claimed.push(user_message_with_text("u-1", "hello"));
    let mut session = session();
    assert_eq!(harness.drive(&mut session), None);
    let first = &harness.requests[0];
    assert_eq!(first.system.as_deref(), Some("be kind"));
    let names: Vec<&str> = first.tools.as_ref().unwrap().iter().map(|t| t.name.as_str()).collect();
    assert!(names.contains(&"bash"));
    assert!(names.contains(&"todo_write"));
    // The mock echoes the last user message.
    assert_eq!(session.derive_messages().last().unwrap().text(), "hello");
}

#[test]
fn cancel_aborts_the_turn() {
    let mut session = session();
    let mut turn = Turn::start(&mut session, "agent-1", &AgentOptions::mock("mock-1"));
    turn.step(
        &mut session,
        TurnEvent::Decided {
            decision: Ok(json::parse("{\"kind\":\"enter\",\"messages\":[]}").unwrap()),
        },
    );
    turn.step(
        &mut session,
        TurnEvent::Entered {
            messages: Ok(vec![user_message_with_text("u-1", "do something slow")]),
        },
    );
    let config = match turn.request() {
        TurnRequest::ResolveConfig { fallback, .. } => fallback,
        other => panic!("{other:?}"),
    };
    turn.step(
        &mut session,
        TurnEvent::Configured { config: Ok(config), system: String::new(), tools: vec![] },
    );
    assert!(matches!(turn.request(), TurnRequest::OpenStream { .. }));
    turn.step(&mut session, TurnEvent::StreamOpened { opening: Opening::Cancelled });
    assert_eq!(end_reason(&session), TurnEndReason::Aborted { cause: "user".to_string() });
}

/// Runs a turn up to its first chunk.
fn streaming_turn(session: &mut Session) -> Turn {
    let mut turn = Turn::start(session, "agent-1", &AgentOptions::mock("mock-1"));
    let decision = Ok(json::parse("{\"kind\":\"enter\",\"messages\":[]}").unwrap());
    turn.step(session, TurnEvent::Decided { decision });
    let messages = Ok(vec![user_message_with_text("u-1", "go")]);
    turn.step(session, TurnEvent::Entered { messages });
    let config = Ok(default_call_config(&AgentOptions::mock("mock-1")));
    turn.step(session, TurnEvent::Configured { config, system: String::new(), tools: vec![] });
    turn.step(session, TurnEvent::StreamOpened { opening: Opening::Opened });
    assert_eq!(turn.request(), TurnRequest::NextChunk);
    turn
}

#[test]
fn interrupted_stream_keeps_what_was_visible() {
    let mut session = session();
    let mut turn = streaming_turn(&mut session);
    turn.step(
        &mut session,
        TurnEvent::Chunk { chunk: StreamChunk::TextDelta { index: 0, text: "half".into() } },
    );
    turn.step(&mut session, TurnEvent::Interrupted);
    let kept = session
        .events()
        .into_iter()
        .find_map(|e| match e.data {
            SessionEventData::AssistantMessage { message, interrupted, .. } => {
                Some((message.text(), interrupted))
            }
            _ => None,
        })
        .expect("the partial answer is logged");
    assert_eq!(kept, ("half".to_string(), Some(true)));
    assert_eq!(end_reason(&session), TurnEndReason::Aborted { cause: "user".to_string() });
    assert_eq!(session.open_turn(), None);
}

#[test]
fn token_ceiling_ends_the_turn() {
    let mut session = session();
    let mut turn = streaming_turn(&mut session);
    turn.step(
        &mut session,
        TurnEvent::Chunk { chunk: StreamChunk::TextDelta { index: 0, text: "cut".into() } },
    );
    turn.step(
        &mut session,
        TurnEvent::Chunk { chunk: StreamChunk::Finish { reason: FinishReason::MaxTokens } },
    );
    assert_eq!(turn.request(), TurnRequest::Done { error: None });
    assert_eq!(end_reason(&session), TurnEndReason::MaxTokens);
    assert_eq!(session.derive_messages().last().unwrap().text(), "cut");
}

#[test]
fn failed_opening_breaks_the_turn_off() {
    let mut session = session();
    let mut turn = Turn::start(&mut session, "agent-1", &AgentOptions::mock("mock-1"));
    let decision = Ok(json::parse("{\"kind\":\"enter\",\"messages\":[]}").unwrap());
    turn.step(&mut session, TurnEvent::Decided { decision });
    let messages = Ok(vec![user_message_with_text("u-1", "go")]);
    turn.step(&mut session, TurnEvent::Entered { messages });
    let config = Ok(default_call_config(&AgentOptions::mock("mock-1")));
    turn.step(
        &mut session,
        TurnEvent::Configured { config, system: String::new(), tools: vec![] },
    );
    turn.step(
        &mut session,
        TurnEvent::StreamOpened { opening: Opening::Failed { message: "NO_PROVIDER".into() } },
    );
    match turn.request() {
        TurnRequest::Done { error: Some(message) } => assert!(message.contains("NO_PROVIDER")),
        other => panic!("{other:?}"),
    }
    assert_eq!(session.open_turn(), Some(1), "the log shows where it broke off");
}

#[test]
fn blocked_input_ends_the_turn() {
    let mut session = session();
    let mut turn = Turn::start(&mut session, "agent-1", &AgentOptions::mock("mock-1"));
    assert_eq!(turn.request(), TurnRequest::RunPreStep { turn: turn.turn() });
    turn.step(
        &mut session,
        TurnEvent::Decided { decision: Ok(json::parse("{\"kind\":\"reject\"}").unwrap()) },
    );
    assert_eq!(end_reason(&session), TurnEndReason::Blocked);
}

#[test]
fn failures_before_the_request_break_the_turn_off() {
    let mut session = session();
    let mut turn = Turn::start(&mut session, "agent-1", &AgentOptions::mock("mock-1"));
    turn.step(&mut session, TurnEvent::Decided { decision: Err("boom".into()) });
    match turn.request() {
        TurnRequest::Done { error: Some(message) } => assert!(message.contains("boom")),
        other => panic!("{other:?}"),
    }
    let entries = session.events().len();
    turn.step(&mut session, TurnEvent::Stopped);
    assert_eq!(session.events().len(), entries, "an ended turn is final");
}

#[test]
fn steering_opens_the_next_step() {
    let mut harness =
        Harness::new(vec![MockAdapter::text_response("one"), MockAdapter::text_response("two")]);
    harness.claimed.push(user_message_with_text("u-1", "go"));
    harness.steering.push(user_message_with_text("u-2", "and then"));
    let mut session = session();
    assert_eq!(harness.drive(&mut session), None);
    assert_eq!(harness.requests.len(), 2);
    let texts: Vec<String> = session.derive_messages().iter().map(|m| m.text()).collect();
    assert_eq!(texts, vec!["go", "one", "and then", "two"]);
    let steps = types(&session).iter().filter(|t| **t == "step/start").count();
    assert_eq!(steps, 2);
}

#[test]
fn claimed_batch_enters_the_turn() {
    let batch = json::parse("[{\"id\":\"u-1\"},{\"id\":\"u-2\"}]").unwrap();
    let decision = enter_decision(batch.clone());
    assert_eq!(decision.str_at("kind"), Some("enter"));
    let mut session = session();
    let mut turn = Turn::start(&mut session, "agent-1", &AgentOptions::mock("mock-1"));
    assert_eq!(turn.steps(), 0);
    turn.step(&mut session, TurnEvent::Decided { decision: Ok(decision) });
    assert_eq!(turn.request(), TurnRequest::ReadMessages { value: batch });
    let messages = vec![user_message_with_text("u-1", "a"), user_message_with_text("u-2", "b")];
    turn.step(&mut session, TurnEvent::Entered { messages: Ok(messages) });
    let config = Ok(default_call_config(&AgentOptions::mock("mock-1")));
    let configured = TurnEvent::Configured { config, system: String::new(), tools: vec![] };
    turn.step(&mut session, configured);
    assert_eq!(turn.steps(), 1);
    assert_eq!(
        types(&session),
        vec!["turn/start", "step/start", "user/message", "user/message", "request/header"]
    );
    let texts: Vec<String> = session.derive_messages().iter().map(|m| m.text()).collect();
    assert_eq!(texts, vec!["a", "b"]);
}

#[test]
fn finished_turn_is_whole() {
    let mut session = session();
    session.append(SessionEventData::TurnStart { turn: 6 });
    session.append(SessionEventData::TurnEnd { turn: 6, reason: TurnEndReason::Completed });
    let call = |id: &str| {
        MockAdapter::tool_call_response(id, "bash", &json::parse("{\"command\":\"ls\"}").unwrap())
    };
    let mut harness =
        Harness::new(vec![call("c-1"), call("c-2"), MockAdapter::text_response("done")]);
    harness.claimed.push(user_message_with_text("u-1", "go"));
    harness.steering.push(user_message_with_text("u-2", "and then"));
    assert_eq!(harness.drive(&mut session), None);
    let marks: Vec<String> = session.events()[2..]
        .iter()
        .filter_map(|e| match &e.data {
            SessionEventData::TurnStart { turn } => Some(format!("turn {turn}")),
            SessionEventData::TurnEnd { turn, .. } => Some(format!("end {turn}")),
            SessionEventData::StepStart { turn, step } => Some(format!("step {turn}.{step}")),
            SessionEventData::StepEnd { turn, step } => Some(format!("done {turn}.{step}")),
            SessionEventData::RequestHeader { .. } => Some("request".to_string()),
            _ => None,
        })
        .collect();
    assert_eq!(
        marks,
        vec![
            "turn 7", "step 7.1", "request", "done 7.1", "step 7.2", "request", "done 7.2",
            "step 7.3", "request", "done 7.3", "end 7",
        ]
    );
    let types = types(&session);
    assert_eq!((types[2], types[types.len() - 1]), ("turn/start", "turn/end"));
}

#[test]
fn turns_are_numbered_in_order() {
    let mut session = session();
    assert_eq!(next_turn_number(&session.events()), 1);
    for n in 1..4u64 {
        let mut harness = Harness::new(vec![]);
        harness.claimed.push(user_message_with_text("u", "hi"));
        assert_eq!(harness.drive(&mut session), None);
        assert_eq!(next_turn_number(&session.events()), n + 1);
    }
}

#[test]
fn tool_results_become_messages() {
    let result = ToolExecutionResult::error("DENIED", "no");
    let message = tool_result_message("call-1", "bash", &result);
    assert_eq!(message.role, Role::User);
    match &message.content[0] {
        ContentBlock::ToolResult { tool_call_id, is_error, .. } => {
            assert_eq!(tool_call_id, "call-1");
            assert_eq!(*is_error, Some(true));
        }
        other => panic!("{other:?}"),
    }
    assert_eq!(injected_message("i-1", "note").text(), "note");
}

#[test]
fn agents_registry_tracks_live_agents() {
    let mut sessions = SessionStore::new();
    let mut agents = AgentRegistry::new();
    let id = agents
        .create(&mut sessions, Some("agent-x".into()), AgentOptions::mock("mock-1"), None, None)
        .unwrap();
    assert_eq!(id, "agent-x");
    assert_eq!(agents.get("agent-x").unwrap().id(), "agent-x");
    assert_eq!(agents.list().len(), 1);
    let again = agents.create(
        &mut sessions,
        Some("agent-x".into()),
        AgentOptions::mock("mock-1"),
        None,
        None,
    );
    assert_eq!(again, Err(AgentError::Duplicate("agent-x".to_string())));
    let mut gone = agents.dispose(&id).unwrap();
    assert!(gone.is_disposed());
    assert!(matches!(gone.drive(), Drive::Exit));
    assert!(agents.get("agent-x").is_none());
    assert!(agents.dispose_all().is_empty());
}

#[test]
fn agent_errors_are_displayed() {
    assert!(AgentError::Duplicate("a".into()).display().contains("a"));
    assert!(AgentError::Loop("lost".into()).display().contains("lost"));
}

#[test]
fn seed_prompt_enters_the_log() {
    let mut sessions = SessionStore::new();
    let mut agents = AgentRegistry::new();
    let id = agents
        .create(
            &mut sessions,
            None,
            AgentOptions::mock("mock-1"),
            Some("/tmp".to_string()),
            Some("context seed".to_string()),
        )
        .unwrap();
    let mut harness = Harness::new(vec![]);
    harness.claimed.push(user_message_with_text("u-1", "go"));
    assert_eq!(harness.drive(sessions.get_mut(&id).unwrap()), None);
    let users: Vec<String> = sessions
        .get(&id)
        .unwrap()
        .events()
        .iter()
        .filter_map(|e| match &e.data {
            SessionEventData::UserMessage { message } => Some(message.text()),
            _ => None,
        })
        .collect();
    assert!(users.iter().any(|t| t == "context seed"));
    assert!(users.iter().any(|t| t == "go"));
    assert!(sessions.get_mut("ghost").is_none());
}

#[test]
fn followups_wait_in_order() {
    let mut agent = Agent::new("a", AgentOptions::mock("mock-1"));
    assert!(agent.is_idle());
    assert!(matches!(agent.drive(), Drive::Wait));
    agent.followup(user_message("m-1", "one"));
    agent.followup(user_message("m-2", "two"));
    agent.steer(user_message("m-3", "now"));
    agent.inject(injected_message("m-4", "note"));
    assert!(agent.has_work());
    let mut turns: Vec<Vec<String>> = vec![];
    while let Drive::RunTurn { messages } = agent.drive() {
        assert!(agent.driver_busy());
        turns.push(messages.iter().map(|m| m.text()).collect());
    }
    assert_eq!(turns, vec![vec!["one", "now", "note"], vec!["two"]]);
    assert!(agent.is_idle());
    assert!(agent.claim_batch().is_empty());
    assert!(agent.claim_next_step().is_empty());
}

#[test]
fn injected_context_does_not_wake() {
    let mut agent = Agent::new("a", AgentOptions::mock("mock-1"));
    agent.inject(injected_message("m-1", "note"));
    assert!(agent.is_idle());
    assert!(!agent.driver_busy());
    // a wake takes it along
    agent.wake();
    assert!(!agent.is_idle());
    match agent.drive() {
        Drive::RunTurn { messages } => assert_eq!(messages[0].text(), "note"),
        other => panic!("{other:?}"),
    }
    // so does the next follow-up
    let mut other = Agent::new("b", AgentOptions::mock("mock-1"));
    other.inject(injected_message("m-1", "note"));
    other.followup(user_message("m-2", "go"));
    assert!(!other.is_idle());
    match other.drive() {
        Drive::RunTurn { messages } => {
            let texts: Vec<String> = messages.iter().map(|m| m.text()).collect();
            assert_eq!(texts, vec!["go", "note"]);
        }
        other => panic!("{other:?}"),
    }
}

#[test]
fn cancelling_leaves_nothing_pending() {
    let mut agent = Agent::new("a", AgentOptions::mock("mock-1"));
    agent.inject(injected_message("m-1", "note"));
    agent.wake();
    agent.followup(user_message("m-2", "go"));
    agent.cancel(AgentCancelCause::User, false);
    assert!(!agent.has_work());
    assert!(agent.is_idle());
}

#[test]
fn cancelling_clears_the_inbox_unless_it_is_kept() {
    let mut agent = Agent::new("a", AgentOptions::mock("mock-1"));
    agent.begin_turn();
    assert_eq!(agent.status(), AgentStatus::Running);
    assert!(agent.driver_busy());
    agent.followup(user_message("m-1", "one"));
    agent.cancel(AgentCancelCause::User, true);
    assert!(agent.turn_token().unwrap().is_cancelled());
    assert!(agent.has_work());
    agent.cancel(AgentCancelCause::User, false);
    assert!(agent.claim_batch().is_empty());
    assert!(!agent.has_work());
    agent.complete_turn();
    agent.end_turn();
    assert_eq!(agent.completed_turns(), 1);
    assert_eq!(agent.status(), AgentStatus::Idle);
    let mut token = CancelToken::new();
    assert!(!token.is_cancelled());
    token.cancel();
    token.cancel();
    assert!(token.is_cancelled());
}
