use dsh_rs::api::events::{
    AgentCreatedPayload, AgentDisposedPayload, AgentErrorPayload, AgentStatusPayload, EventPayload,
    SessionCreatedPayload, SessionDisposedPayload, SessionEventPayload, SystemPromptChangePayload,
};
use dsh_rs::api::manifest::{ManifestApi, ManifestRegistry, ManifestService, PluginManifest};
use dsh_rs::bundle::config::{override_config, BaseConfig};
use dsh_rs::bundle::dynamic::{
    call_result, check_table, load_dynamic_plugin, reply_to_result, to_tool_result, CallOutcome,
    DynamicDeclaration, DynamicPlugin, DynamicPluginError, DynamicToolDecl, LoadOutcome,
};
use dsh_rs::bundle::plan::{base_plan, profile_plan, register_manifests, start_failure};
use dsh_rs::cli::args::parse_args;
use dsh_rs::json::{self, Json};
use dsh_rs::llm::providers::{mount_adapters, segments, Mounted};
use dsh_rs::plugin::contract::{read_in, write_out, ABI_VERSION};
use dsh_rs::plugin::hello::{self, HelloState};
use dsh_rs::tools::builtin::register_builtin_tools;
use dsh_rs::tools::registry::ToolRegistry;
use dsh_rs::types::tools::ToolExecutionResult;

fn value(text: &str) -> Json {
    json::parse(text).expect("valid JSON")
}

fn registered() -> ManifestRegistry {
    let mut tools = ToolRegistry::new();
    register_builtin_tools(&mut tools);
    let mut registry = ManifestRegistry::new();
    register_manifests(&mut registry, tools.schemas());
    registry
}

fn hello_plugin() -> DynamicPlugin {
    let outcome = LoadOutcome::Described {
        name: hello::name().as_bytes().to_vec(),
        declaration: Ok(DynamicDeclaration {
            inject: vec!["tools".into()],
            tools: vec![DynamicToolDecl {
                name: "dsh_hello".into(),
                description: "greets".into(),
                parameters: value("{\"type\":\"object\"}"),
                exec_id: "hello".into(),
            }],
        }),
    };
    load_dynamic_plugin("libhello.so", outcome).expect("plugin should load")
}

#[test]
fn base_bundle_has_six_plugins() {
    let plan = base_plan(&BaseConfig::default());
    assert_eq!(plan.len(), 6);
    assert_eq!(plan.last().unwrap().name, "agent-loop");
    let stored = base_plan(&BaseConfig {
        store_dir: Some("/var/dsh".into()),
        ..BaseConfig::default()
    });
    assert_eq!(stored.len(), 7);
    assert!(stored.iter().any(|e| e.store_dir.as_deref() == Some("/var/dsh")));
    assert!(start_failure("llm", "broken").contains("llm"));
    assert!(start_failure("llm", "broken").contains("broken"));
}

fn mounted(config: &BaseConfig) -> Mounted {
    let plan = base_plan(config);
    let llm = plan.iter().find(|e| e.name == "llm").unwrap();
    let adapters = llm.config.as_ref().unwrap().get("adapters").unwrap();
    mount_adapters(&segments(adapters)).expect("every segment is mounted")
}

#[test]
fn openai_section_takes_the_place_of_an_openai_segment() {
    let config = BaseConfig::from_value(&value(
        "{\"adapters\":{\"opencode\":{\"base_url\":\"http://localhost/v1\"},\
         \"openai\":{\"base_url\":\"http://old/v1\"}},\"openai\":{\"base_url\":\"http://new/v1\"}}",
    ));
    let both = mounted(&config);
    let ids: Vec<String> = both.runtime.list_providers().into_iter().map(|p| p.id).collect();
    assert_eq!(ids, vec!["mock", "openai", "opencode"]);
    assert_eq!(both.endpoints.len(), 2);
    let openai = both.runtime.resolve("openai").unwrap() as usize;
    assert_eq!(both.endpoints[openai - 1].url(), "http://new/v1/chat/completions");
    let opencode = both.runtime.resolve("opencode").unwrap() as usize;
    assert_eq!(both.endpoints[opencode - 1].url(), "http://localhost/v1/chat/completions");

    // the same with a flag instead of a section
    let (flags, _) = parse_args(&vec!["--openai-base".to_string(), "http://flag/v1".to_string()]);
    let file = BaseConfig::from_value(&value(
        "{\"adapters\":{\"openai\":{\"base_url\":\"http://old/v1\"}}}",
    ));
    let flagged = mounted(&override_config(file, &flags));
    assert_eq!(flagged.endpoints.len(), 1);
    assert_eq!(flagged.endpoints[0].url(), "http://flag/v1/chat/completions");
}

#[test]
fn one_segment_is_routed_beside_the_mock_adapter() {
    let config = BaseConfig::from_value(&value(
        "{\"adapters\":{\"opencode\":{\"base_url\":\"http://localhost/v1\",\"model\":\"m\"}}}",
    ));
    let one = mounted(&config);
    assert!(one.runtime.has_provider("mock"));
    assert!(one.runtime.has_provider("opencode"));
    assert!(!one.runtime.has_provider("openai"));
}

#[test]
fn manifest_registry_declares_full_coverage() {
    let manifests = registered().list();
    // manifest, llm, sessions, session-persistence, tools, system-prompt,
    // agent-loop.
    assert_eq!(manifests.len(), 7);

    // agent-loop declares its five service requirements; coverage holds.
    let agent_loop = manifests.iter().find(|m| m.name == "agent-loop").unwrap();
    assert_eq!(agent_loop.required.len(), 5);
    let missing = ManifestRegistry::new().validate_coverage(&manifests);
    assert!(missing.is_empty(), "unsatisfied requirements: {missing:?}");

    // The declared provided services cover every seam the harness needs.
    let provided = registered().provided_services();
    for service in [
        "llm",
        "llmStreams",
        "sessions",
        "sessionPersistence",
        "tools",
        "systemPrompt",
        "agents",
        "manifest",
    ] {
        assert!(provided.iter().any(|s| s.name == service), "service {service} not declared");
    }

    // The tools manifest reflects the actually registered built-ins.
    let tools = manifests.iter().find(|m| m.name == "tools").unwrap();
    let names: Vec<&str> = tools.tools.iter().map(|t| t.name.as_str()).collect();
    assert!(names.contains(&"todo_write"), "todo_write must be in the tools manifest");
    assert!(names.contains(&"bash"));
}

#[test]
fn missing_requirements_are_named() {
    let manifests =
        vec![PluginManifest::new("a").describe("needs b").require("b").provides("c", "gives c")];
    let missing = ManifestRegistry::new().validate_coverage(&manifests);
    assert_eq!(missing.len(), 1);
    assert!(missing[0].contains("b"), "{missing:?}");
    let mut service = ManifestService::new(ManifestRegistry::new());
    service.inner.register(manifests[0].clone());
    service.inner.register(PluginManifest::new("a"));
    assert_eq!(service.inner.list().len(), 1, "registration by name is idempotent");
}

#[test]
fn profile_install_stacks_base_bundle() {
    let plan = profile_plan(&value("{\"bundles\":[\"base\"],\"config\":{}}"));
    assert_eq!(plan.bases, 1);
    assert_eq!(plan.error, None);
    assert_eq!(base_plan(&plan.config).len(), 6);
}

#[test]
fn unknown_bundle_is_rejected() {
    let plan = profile_plan(&value("{\"bundles\":[\"nope\"]}"));
    assert_eq!(plan.bases, 0);
    let error = plan.error.expect("expected an error");
    assert!(error.contains("unknown bundle"), "got: {error}");
}

#[test]
fn loading_a_non_plugin_library_fails_cleanly() {
    // A nonexistent file must produce a structured error, not a panic.
    let outcome = LoadOutcome::NotOpened { source: "no such file".into() };
    let err = load_dynamic_plugin("/nonexistent/libnope.dylib", outcome).unwrap_err();
    assert!(err.display().contains("cannot open"), "got: {}", err.display());
    assert!(err.display().contains("/nonexistent/libnope.dylib"));
}

#[test]
fn abi_mismatch_is_rejected() {
    let outcome = LoadOutcome::NoSymbol { source: "undefined symbol".into() };
    let err = load_dynamic_plugin("/usr/lib/libz.dylib", outcome).unwrap_err();
    assert!(err.display().contains("dsh_plugin_exports"), "got: {}", err.display());

    assert_eq!(check_table("p", Some(ABI_VERSION)), Ok(()));
    assert!(matches!(check_table("p", None), Err(DynamicPluginError::NullTable { .. })));
    let refused = check_table("p", Some(ABI_VERSION + 1)).unwrap_err();
    let rejected = load_dynamic_plugin("p", LoadOutcome::Rejected { abi: Some(ABI_VERSION + 1) });
    assert_eq!(rejected.unwrap_err(), refused, "reported as the check says");
    let other = load_dynamic_plugin("p", LoadOutcome::Rejected { abi: Some(ABI_VERSION + 1) });
    assert_eq!(
        other.unwrap_err(),
        DynamicPluginError::AbiMismatch {
            path: "p".into(),
            actual: ABI_VERSION + 1,
            expected: ABI_VERSION
        }
    );
    assert!(matches!(
        load_dynamic_plugin("p", LoadOutcome::NotSetUp),
        Err(DynamicPluginError::Call { .. })
    ));
    assert!(load_dynamic_plugin("p", LoadOutcome::NotDescribed).is_err());
    let unreadable =
        LoadOutcome::Described { name: b"x".to_vec(), declaration: Err("not JSON".into()) };
    assert!(matches!(
        load_dynamic_plugin("p", unreadable),
        Err(DynamicPluginError::BadDeclaration { .. })
    ));
}

#[test]
fn dynamic_plugin_registers_and_executes_a_tool() {
    let plugin = hello_plugin();
    assert_eq!(plugin.name(), "dsh-plugin-hello");
    assert_eq!(plugin.tools().len(), 1);
    assert_eq!(plugin.tools()[0].name, "dsh_hello");
    assert_eq!(plugin.tools()[0].exec_id, "hello");
    assert_eq!(plugin.inject(), &vec!["tools".to_string()]);
    assert!(plugin.active_note().contains("dsh-plugin-hello"));

    let mut tools = ToolRegistry::new();
    plugin.mount(&mut tools, 100);
    assert!(tools.list().contains(&"dsh_hello".to_string()));
    assert_eq!(tools.get("dsh_hello").unwrap().body, 100);

    // The host calls back into the plugin, whose state persists.
    let mut state = HelloState::new();
    for expected in 1..3u64 {
        let reply = state.run_op(&b"hello".to_vec()).into_bytes();
        match call_result(&CallOutcome::Replied { reply }) {
            ToolExecutionResult::Success { content, value, .. } => {
                let text: String = content.iter().filter_map(|b| b.as_text()).collect();
                assert!(text.contains("hello from dynamic plugin"), "unexpected content: {text}");
                assert_eq!(value.u64_at("invocations"), Some(expected));
            }
            other => panic!("expected success, got {other:?}"),
        }
    }

    plugin.unmount(&mut tools);
    assert!(!tools.list().contains(&"dsh_hello".to_string()), "tool unregistered after unload");
}

#[test]
fn plugin_calls_can_fail() {
    let mut state = HelloState::new();
    let refused = state.answer(&b"nope".to_vec());
    assert_eq!(refused, hello::refuse("nope"));
    assert!(to_tool_result(&refused).is_error());
    let failed = call_result(&CallOutcome::Failed { op: "hello".into() });
    assert!(failed.is_error());
    assert!(call_result(&CallOutcome::NotJoined { message: "gone".into() }).is_error());
    assert!(call_result(&CallOutcome::Replied { reply: b"not json".to_vec() }).is_error());
    assert!(reply_to_result(&Err("bad".into())).is_error());
}

#[test]
fn hello_declares_its_tool() {
    let declaration = value(&hello::declaration());
    let tools = declaration.array_at("tools").unwrap();
    assert_eq!(tools.len(), 1);
    assert_eq!(tools[0].str_at("name"), Some("dsh_hello"));
    assert_eq!(tools[0].str_at("exec_id"), Some("hello"));
    assert_eq!(declaration.array_at("inject").unwrap()[0].as_str(), Some("tools"));
}

#[test]
fn buffers_carry_bytes_across() {
    let mut buffer = vec![0u8; 8];
    assert_eq!(write_out(b"abc", &mut buffer), Some(3));
    assert_eq!(read_in(&buffer, 3), b"abc".to_vec());
    assert_eq!(write_out(b"too long for it", &mut buffer), None);
    assert_eq!(read_in(&buffer, 3), b"abc".to_vec(), "a refused write leaves the buffer");
}

#[test]
fn payloads_are_named_and_written() {
    let created = SessionCreatedPayload { session: "s".into() };
    assert_eq!(json::print(&created.to_value()), "{\"session\":\"s\"}");
    let event = SessionEventPayload { session: "s".into(), event: value("{\"seq\":1}") };
    assert_eq!(json::print(&event.to_value()), "{\"event\":{\"seq\":1},\"session\":\"s\"}");
    let status = AgentStatusPayload { agent: "a".into(), status: "idle".into() };
    assert_eq!(json::print(&status.to_value()), "{\"agent\":\"a\",\"status\":\"idle\"}");
    assert_eq!(SessionCreatedPayload::name(), "session/created");
    assert_eq!(SessionDisposedPayload::name(), "session/disposed");
    assert_eq!(SessionEventPayload::name(), "session/event");
    assert_eq!(AgentCreatedPayload::name(), "agent/created");
    assert_eq!(AgentDisposedPayload::name(), "agent/disposed");
    assert_eq!(AgentStatusPayload::name(), "agent/status");
    assert_eq!(AgentErrorPayload::name(), "agent/error");
    assert_eq!(SystemPromptChangePayload::name(), "system-prompt/change");
}
