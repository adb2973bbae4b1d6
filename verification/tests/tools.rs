use dsh_rs::json::{self, Json};
use dsh_rs::session::store::SessionStore;
use dsh_rs::tools::builtin::{
    base_directory, bash_result, edit_file_result, edited, glob_result, glob_select,
    invalid_args, read_file_result, register_builtin_tools, register_todo_tool, relative_text,
    run_todo_write, slashed_text, todo_write, workdir, write_file_result, BashArgs, BashOutcome,
    EditArgs, EditOutcome, GrepSearch, TodoTarget, WriteOutcome, MAX_MATCHES,
};
use dsh_rs::tools::matcher::{glob_match, match_here};
use dsh_rs::tools::registry::{
    allow_decision, ToolAnswer, ToolDefinition, ToolEvent, ToolExecution, ToolRegistry, ToolRequest,
};
use dsh_rs::tools::walk::{DirEntry, Walk};
use dsh_rs::types::session::{CreateSessionOptions, SessionEventData, TodoStatus};
use dsh_rs::types::tools::ToolExecutionResult;

fn value(text: &str) -> Json {
    json::parse(text).expect("valid JSON")
}

fn make_registry() -> ToolRegistry {
    let mut registry = ToolRegistry::new();
    register_builtin_tools(&mut registry);
    registry
}

fn error_code(result: &ToolExecutionResult) -> &str {
    match result {
        ToolExecutionResult::Error { code, .. } => code,
        other => panic!("expected an error, got {other:?}"),
    }
}

fn success_value(result: &ToolExecutionResult) -> &Json {
    match result {
        ToolExecutionResult::Success { value, .. } => value,
        other => panic!("expected success, got {other:?}"),
    }
}

fn finished(execution: &ToolExecution) -> ToolExecutionResult {
    match execution.request() {
        ToolRequest::Finish { result } => result,
        other => panic!("expected the end, got {other:?}"),
    }
}

#[test]
fn matches_basic_patterns() {
    assert!(glob_match("*.rs", "lib.rs"));
    assert!(!glob_match("*.rs", "lib.rs.bak"));
    assert!(!glob_match("*.rs", "src/lib.rs"), "* must not cross separators");
    assert!(glob_match("**/*.rs", "src/lib.rs"));
    assert!(glob_match("**/*.rs", "lib.rs"));
    assert!(glob_match("src/**", "src/a/b/c"));
    assert!(glob_match("?.txt", "a.txt"));
    assert!(!glob_match("?.txt", "ab.txt"));
    assert!(glob_match("docs/*.md", "docs/readme.md"));
}

#[test]
fn literal_pattern_matches_only_itself() {
    assert!(glob_match("a/b.c", "a/b.c"));
    assert!(!glob_match("a/b.c", "a/b_c"));
    assert!(glob_match("", ""));
    assert!(!glob_match("", "a"));
    assert!(glob_match("*", "abc"));
    assert!(!glob_match("*", "a/c"));
    assert!(glob_match("**", "a/b/c"));
}

#[test]
fn registers_every_builtin_tool() {
    let registry = make_registry();
    assert_eq!(
        registry.list(),
        vec!["bash", "edit_file", "glob", "grep", "read_file", "todo_write", "write_file"]
    );
    assert_eq!(registry.schemas().len(), 7);
    let bash = registry.get("bash").unwrap();
    assert_eq!(bash.parameters.str_at("type"), Some("object"));
    assert_eq!(json::print(bash.parameters.get("required").unwrap()), "[\"command\"]");
    let mut alone = ToolRegistry::new();
    register_todo_tool(&mut alone);
    assert_eq!(alone.list(), vec!["todo_write"]);
}

#[test]
fn last_registration_wins() {
    let mut registry = make_registry();
    registry.register(ToolDefinition::new("bash", "mine", Json::Null, 99));
    assert_eq!(registry.get("bash").unwrap().body, 99);
    assert_eq!(registry.schemas().len(), 7);
    registry.unregister("bash");
    assert!(registry.get("bash").is_none());
}

#[test]
fn unknown_tool_is_an_error() {
    let registry = make_registry();
    let execution = registry.execute("call-1", "nope", value("{}"));
    let result = finished(&execution);
    assert!(result.is_error());
    assert_eq!(error_code(&result), "UNKNOWN_TOOL");
}

#[test]
fn call_runs_through_the_pipeline() {
    let mut registry = make_registry();
    registry.add_guard();
    let mut execution = registry.execute("call-1", "bash", value("{\"command\":\"ls\"}"));
    match execution.request() {
        ToolRequest::PreExecute { payload } => {
            assert_eq!(
                json::print(&payload),
                "{\"arguments\":{\"command\":\"ls\"},\"name\":\"bash\"}"
            );
        }
        other => panic!("{other:?}"),
    }
    execution.step(ToolEvent::PreDecision { decision: Ok(value("{\"kind\":\"allow\"}")) });
    assert_eq!(execution.request(), ToolRequest::AskGuard { index: 0 });
    execution.step(ToolEvent::GuardVerdict { reason: None });
    assert!(matches!(execution.request(), ToolRequest::Execute { body: 0, .. }));
    let args = execution.body_args(&value("{\"arguments\":{\"command\":\"pwd\"}}"));
    assert_eq!(args.arguments.str_at("command"), Some("pwd"));
    assert_eq!(execution.body_args(&Json::Null).arguments.str_at("command"), Some("ls"));
    let result = ToolExecutionResult::success_text("ok", Json::Null);
    execution.step(ToolEvent::Executed { answer: ToolAnswer::Answered { result: result.clone() } });
    assert!(matches!(execution.request(), ToolRequest::PostExecute { .. }));
    let changed = ToolExecutionResult::success_text("changed", Json::Null);
    execution.step(ToolEvent::PostExecuted {
        answer: ToolAnswer::Answered { result: changed.clone() },
    });
    assert_eq!(finished(&execution), changed);
    execution.step(ToolEvent::GuardVerdict { reason: Some("late".into()) });
    assert_eq!(finished(&execution), changed, "a finished call is final");
}

#[test]
fn pre_execute_waterfall_can_deny() {
    let registry = make_registry();
    let decide = |text: &str| {
        let mut execution = registry.execute("call-1", "bash", value("{}"));
        execution.step(ToolEvent::PreDecision { decision: Ok(value(text)) });
        execution
    };
    let denied =
        finished(&decide("{ \"kind\": \"deny\", \"reason\": \"bash is disabled in this scope\" }"));
    match &denied {
        ToolExecutionResult::Error { code, message, .. } => {
            assert_eq!(code, "DENIED");
            assert!(message.contains("bash is disabled"));
        }
        other => panic!("expected denial, got {other:?}"),
    }
    assert_eq!(error_code(&finished(&decide("{\"kind\":\"ask\"}"))), "APPROVAL");
    assert!(matches!(decide("{\"kind\":\"allow\"}").request(), ToolRequest::Execute { .. }));
    assert!(matches!(decide("{}").request(), ToolRequest::Execute { .. }));
    let mut failed = registry.execute("call-1", "bash", value("{}"));
    failed.step(ToolEvent::PreDecision { decision: Err("boom".into()) });
    assert_eq!(error_code(&finished(&failed)), "PRE_EXECUTE");
}

#[test]
fn guard_denies_after_waterfall() {
    let mut registry = make_registry();
    registry.add_guard();
    registry.add_guard();
    let mut execution = registry.execute("call-1", "write_file", value("{}"));
    execution.step(ToolEvent::PreDecision { decision: Ok(Json::Null) });
    execution.step(ToolEvent::GuardVerdict { reason: None });
    execution.step(ToolEvent::GuardVerdict {
        reason: Some("writes are read-only in this scope".to_string()),
    });
    assert_eq!(error_code(&finished(&execution)), "DENIED");
}

#[test]
fn allowed_call_goes_on() {
    let mut registry = make_registry();
    let mut execution = registry.execute("call-1", "bash", value("{}"));
    execution.step(ToolEvent::PreDecision { decision: Ok(allow_decision()) });
    assert!(matches!(execution.request(), ToolRequest::Execute { .. }));
    registry.add_guard();
    let mut guarded = registry.execute("call-1", "bash", value("{}"));
    guarded.step(ToolEvent::PreDecision { decision: Ok(allow_decision()) });
    assert_eq!(guarded.request(), ToolRequest::AskGuard { index: 0 });
}

#[test]
fn guards_are_read_when_the_decision_comes() {
    let mut registry = make_registry();
    let mut execution = registry.execute("call-1", "bash", value("{}"));
    registry.add_guard();
    execution.refresh_guards(&registry);
    execution.step(ToolEvent::PreDecision { decision: Ok(Json::Null) });
    assert_eq!(execution.request(), ToolRequest::AskGuard { index: 0 });
    // one that comes after the decision is not asked
    registry.add_guard();
    execution.refresh_guards(&registry);
    execution.step(ToolEvent::GuardVerdict { reason: None });
    assert!(matches!(execution.request(), ToolRequest::Execute { .. }));
}

#[test]
fn failed_dispatches_end_the_call() {
    let registry = make_registry();
    let run = |answer: ToolAnswer| {
        let mut execution = registry.execute("c", "bash", Json::Null);
        execution.step(ToolEvent::PreDecision { decision: Ok(Json::Null) });
        execution.step(ToolEvent::Executed { answer });
        execution
    };
    let failed = run(ToolAnswer::Failed { message: "x".into() });
    assert_eq!(error_code(&finished(&failed)), "EXECUTE");
    let unreadable = run(ToolAnswer::Unreadable { message: "x".into() });
    assert_eq!(error_code(&finished(&unreadable)), "BAD_RESULT");
    let mut post = run(ToolAnswer::Answered {
        result: ToolExecutionResult::success_value(value("[1]")),
    });
    post.step(ToolEvent::PostExecuted { answer: ToolAnswer::Failed { message: "y".into() } });
    assert_eq!(error_code(&finished(&post)), "POST_EXECUTE");
}

#[test]
fn results_carry_content() {
    let shown = ToolExecutionResult::success_value(value("{\"a\":1}"));
    assert_eq!(shown.content()[0].as_text(), Some("{\n  \"a\": 1\n}"));
    let error = ToolExecutionResult::error("CODE", "what happened");
    assert_eq!(error.content()[0].as_text(), Some("Error: what happened"));
    assert!(error.is_error());
}

fn bash(command: &str) -> BashArgs {
    BashArgs { command: command.into(), timeout_ms: None, cwd: None }
}

#[test]
fn bash_echoes() {
    let result = bash_result(
        &bash("echo hello-dsh"),
        &BashOutcome::Exited {
            code: Some(0),
            stdout: b"hello-dsh\n".to_vec(),
            stderr: vec![],
        },
    );
    let value = success_value(&result);
    assert_eq!(value.str_at("stdout"), Some("hello-dsh\n"));
    assert_eq!(value.u64_at("exit_code"), Some(0));
}

#[test]
fn bash_failure_reports_exit_code() {
    let result = bash_result(
        &bash("exit 3"),
        &BashOutcome::Exited { code: Some(3), stdout: vec![], stderr: b"\xFFbad".to_vec() },
    );
    assert!(result.is_error());
    match &result {
        ToolExecutionResult::Error { message, .. } => {
            assert!(message.contains("3"), "{message}");
            assert!(message.contains("\u{fffd}bad"), "{message}");
        }
        _ => unreachable!(),
    }
}

#[test]
fn bash_cancellation_returns_cancelled() {
    let result = bash_result(&bash("sleep 30"), &BashOutcome::Cancelled);
    assert_eq!(error_code(&result), "CANCELLED");
}

#[test]
fn read_write_edit_roundtrip() {
    let write = write_file_result("hello.txt", "one\ntwo\nthree", &WriteOutcome::Written);
    assert!(!write.is_error(), "write failed: {write:?}");
    assert_eq!(success_value(&write).u64_at("bytes"), Some(13));

    let read = read_file_result("hello.txt", &Ok("one\ntwo\nthree".to_string()));
    assert_eq!(success_value(&read).str_at("content"), Some("one\ntwo\nthree"));

    let args = EditArgs {
        path: "hello.txt".into(),
        old_string: "two".into(),
        new_string: "2".into(),
        replace_all: false,
    };
    let updated = edited(&args, "one\ntwo\nthree\ntwo").unwrap();
    assert_eq!(updated, "one\n2\nthree\ntwo");
    let edit = edit_file_result("hello.txt", &EditOutcome::Written { updated });
    assert!(!edit.is_error(), "edit failed: {edit:?}");

    let every = EditArgs { replace_all: true, ..args.clone() };
    assert_eq!(edited(&every, "two two").unwrap(), "2 2");

    // Missing old_string fails cleanly.
    let absent = EditArgs { old_string: "absent".into(), ..args };
    assert_eq!(edited(&absent, "one"), None);
    let bad = edit_file_result("hello.txt", &EditOutcome::NotFound);
    assert_eq!(error_code(&bad), "NOT_FOUND");
}

#[test]
fn glob_finds_files() {
    let files: Vec<String> = ["README.md", "src/lib.rs", "src/sub/deep.rs"]
        .iter()
        .map(|s| s.to_string())
        .collect();
    let shallow = glob_select("src/*.rs", &files);
    assert_eq!(shallow, vec!["src/lib.rs"]);
    let deep = glob_result("**/*.rs", &glob_select("**/*.rs", &files));
    assert_eq!(success_value(&deep).u64_at("count"), Some(2));
    assert_eq!(slashed_text("a\\b"), "a/b");
    assert_eq!(relative_text("/a"), "a");
}

fn entry(name: &str, is_dir: bool) -> DirEntry {
    DirEntry { name: name.into(), is_dir }
}

#[test]
fn walk_finds_everything_in_path_order() {
    let mut walk = Walk::new();
    while let Some(dir) = walk.next() {
        let entries = match dir.as_str() {
            "" => vec![entry("src", true), entry("src.txt", false), entry("README.md", false)],
            "src" => vec![entry("sub", true), entry("lib.rs", false)],
            "src/sub" => vec![entry("deep.rs", false)],
            other => panic!("unexpected directory {other}"),
        };
        walk.visit(&dir, &entries);
    }
    // Names compare one by one, so what stands in src comes before src.txt.
    assert_eq!(walk.files(), vec!["README.md", "src/lib.rs", "src/sub/deep.rs", "src.txt"]);
    assert_eq!(
        walk.everything(),
        vec!["README.md", "src", "src/lib.rs", "src/sub", "src/sub/deep.rs", "src.txt"]
    );
    let mut single = Walk::of_file();
    assert_eq!(single.next(), None);
    assert_eq!(single.files(), vec![""]);
}

#[test]
fn grep_finds_matches_with_line_numbers() {
    let mut search = match GrepSearch::new("a$", None) {
        Ok(search) => search,
        Err(error) => panic!("{error:?}"),
    };
    assert!(search.wants("a.txt"));
    search.scan("a.txt", "alpha\nbeta\ngamma\n");
    search.scan("b.txt", "delta\n");
    let result = search.finish();
    let matches = success_value(&result).as_array().unwrap();
    assert_eq!(matches.len(), 4);
    assert_eq!(matches[0].u64_at("line"), Some(1));
    assert_eq!(matches[0].str_at("text"), Some("alpha"));
    assert_eq!(matches[1].str_at("text"), Some("beta"));
    assert_eq!(matches[2].str_at("text"), Some("gamma"));
    assert_eq!(matches[3].str_at("text"), Some("delta"));
    let bad = match GrepSearch::new("(", None) {
        Ok(_) => panic!("an open group is no pattern"),
        Err(error) => error,
    };
    assert!(bad.is_error());
}

#[test]
fn grep_is_capped_and_filters_names() {
    let mut search = match GrepSearch::new("x", Some("*.rs".into())) {
        Ok(search) => search,
        Err(error) => panic!("{error:?}"),
    };
    assert!(search.wants("lib.rs"));
    assert!(!search.wants("notes.md"));
    let text = "x\n".repeat(MAX_MATCHES + 10);
    search.scan("big.rs", &text);
    assert!(search.is_full());
    let result = search.finish();
    assert_eq!(success_value(&result).as_array().unwrap().len(), MAX_MATCHES);
}

#[test]
fn directories_are_resolved() {
    assert_eq!(workdir(&Some("/w".into()), &Some("sub".into())).as_deref(), Some("/w/sub"));
    assert_eq!(workdir(&Some("/w".into()), &None).as_deref(), Some("/w"));
    assert_eq!(workdir(&None, &None), None);
    assert_eq!(base_directory(&None, &Some("/x".into())), "/x");
    assert_eq!(error_code(&invalid_args("no")), "INVALID_ARGS");
}

#[test]
fn todo_tool_writes_session_event() {
    let mut sessions = SessionStore::new();
    let agent = sessions.create(CreateSessionOptions::with_id("agent-1"));
    let arguments = value(
        "{\"todos\":[{\"content\":\"design\",\"status\":\"completed\"},{\"content\":\"implement\"}]}",
    );
    let result = run_todo_write(&arguments, &Some(agent.clone()), &mut sessions);
    assert_eq!(result.content()[0].as_text(), Some("todo list updated (2 items)"));
    let events = sessions.get(&agent).unwrap().events();
    assert_eq!(events.len(), 1);
    match &events[0].data {
        SessionEventData::TodoWrite { todos } => {
            assert_eq!(todos.len(), 2);
            assert_eq!(todos[0].content, "design");
            assert_eq!(todos[0].status, TodoStatus::Completed);
            assert_eq!(todos[1].status, TodoStatus::Pending);
        }
        other => panic!("{other:?}"),
    }
    assert_eq!(error_code(&run_todo_write(&arguments, &None, &mut sessions)), "NO_AGENT");
    let lost = run_todo_write(&arguments, &Some("ghost".into()), &mut sessions);
    assert_eq!(error_code(&lost), "NO_SESSION");
    let none = todo_write(&arguments, &TodoTarget::NoSessions);
    assert_eq!(error_code(&none.result), "NO_SESSIONS");
    assert_eq!(none.append, None);
}

#[test]
fn matching_looks_at_nothing_before_its_positions() {
    let pattern: Vec<char> = "xx*.rs".chars().collect();
    let path: Vec<char> = "dir/main.rs".chars().collect();
    for (pi, si) in [(0, 0), (2, 0), (2, 4), (3, 8), (6, 11), (6, 3), (2, 11)] {
        let rest: String = pattern[pi..].iter().collect();
        let left: String = path[si..].iter().collect();
        assert_eq!(match_here(&pattern, pi, &path, si), glob_match(&rest, &left), "{pi} {si}");
        let (rest, left) = (rest.chars().collect(), left.chars().collect());
        assert_eq!(match_here(&pattern, pi, &path, si), match_here(&rest, 0, &left, 0));
    }
    assert!(match_here(&pattern, 2, &path, 4));
    assert!(!match_here(&pattern, 2, &path, 0));
    assert!(match_here(&pattern, 99, &path, 99));
}
