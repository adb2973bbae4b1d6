//! Built-in tools: `bash`, `read_file`, `write_file`, `edit_file`, `glob`,
//! `grep` and `todo_write`.
//!
//! Each tool's decisions stand here: what its schema is, how its arguments
//! resolve, and which result an outcome of the outside work has. Running
//! processes and touching files is left to the caller. Paths are texts with
//! `/` between components.

use crate::json;
use crate::json::Json;
use crate::llm::sse;
use crate::llm::sse::lossy_text;
use crate::paths;
use crate::paths::resolve_path;
use crate::session::store::SessionStore;
use crate::text;
use crate::text::{
    chars_of, clone_opt, concat2, concat3, concat4, contains, decimal_text, joined, lines_of,
    replaced_all, replaced_first, signed_text, str_eq, string_of, take_chars, trimmed,
};
use crate::tools::matcher;
use crate::tools::matcher::glob_match;
use crate::tools::registry::{ToolDefinition, ToolRegistry};
use crate::types::session::{SessionEventData, TodoItem, TodoStatus};
use crate::types::tools;
use crate::types::tools::{one_text_block, ToolExecutionResult};
use vstd::prelude::*;

#[allow(unused_imports)]
use crate::json::{JsonNumber, JsonView};
#[allow(unused_imports)]
use crate::ordered_map;
#[allow(unused_imports)]
use crate::session::store::SessionStoreView;
#[allow(unused_imports)]
use crate::tools::registry::{ToolDefinitionView, ToolRegistryView};
#[allow(unused_imports)]
use crate::types::llm::ContentBlockView;
#[allow(unused_imports)]
use crate::types::session::{SessionEventDataView, TodoItemView};
#[allow(unused_imports)]
use crate::types::tools::ToolExecutionResultView;

verus! {

// ---------------------------------------------------------------------------
// schemas
// ---------------------------------------------------------------------------

/// The schema of one argument.
pub open spec fn argument_schema(kind: Seq<char>, description: Seq<char>) -> JsonView {
    json::object_of(
        seq![("type"@, JsonView::Text(kind)), ("description"@, JsonView::Text(description))],
    )
}

/// The schema of an object with these properties.
pub open spec fn object_schema(
    properties: Seq<(Seq<char>, JsonView)>,
    required: Seq<Seq<char>>,
) -> JsonView {
    json::object_of(
        seq![
            ("type"@, JsonView::Text("object"@)),
            ("properties"@, json::object_of(properties)),
            ("required"@, JsonView::Array(json::text_values(required))),
        ],
    )
}

fn argument_json(kind: &str, description: &str) -> (r: Json)
    ensures
        r@ == argument_schema(kind@, description@),
{
    let mut e = json::no_entries();
    json::put(&mut e, "type", Json::text(kind));
    json::put(&mut e, "description", Json::text(description));
    assert(json::json_entries(e@) =~= seq![
        ("type"@, JsonView::Text(kind@)),
        ("description"@, JsonView::Text(description@)),
    ]);
    Json::object(e)
}

fn object_json(properties: Vec<(String, Json)>, required: Vec<String>) -> (r: Json)
    ensures
        r@ == object_schema(json::json_entries(properties@), text::views(required@)),
{
    let ghost inner = json::json_entries(properties@);
    let mut e = json::no_entries();
    json::put(&mut e, "type", Json::text("object"));
    json::put(&mut e, "properties", Json::object(properties));
    json::put(&mut e, "required", Json::texts(&required));
    assert(json::json_entries(e@) =~= seq![
        ("type"@, JsonView::Text("object"@)),
        ("properties"@, json::object_of(inner)),
        ("required"@, JsonView::Array(json::text_values(text::views(required@)))),
    ]);
    Json::object(e)
}

fn one_name(a: &str) -> (r: Vec<String>)
    ensures
        text::views(r@) == seq![a@],
{
    let mut v: Vec<String> = Vec::new();
    v.push(a.to_owned());
    assert(text::views(v@) =~= seq![a@]);
    v
}

/// The number of the body of `bash`.
pub const BASH_BODY: u64 = 0;

/// The number of the body of `read_file`.
pub const READ_FILE_BODY: u64 = 1;

/// The number of the body of `write_file`.
pub const WRITE_FILE_BODY: u64 = 2;

/// The number of the body of `edit_file`.
pub const EDIT_FILE_BODY: u64 = 3;

/// The number of the body of `glob`.
pub const GLOB_BODY: u64 = 4;

/// The number of the body of `grep`.
pub const GREP_BODY: u64 = 5;

/// The number of the body of `todo_write`.
pub const TODO_WRITE_BODY: u64 = 6;

/// The `bash` tool.
pub open spec fn bash_definition() -> ToolDefinitionView {
    ToolDefinitionView {
        name: "bash"@,
        description: "Run a shell command and capture its output. Use for anything requiring a terminal, process execution, or system access."@,
        parameters: object_schema(
            seq![
                ("command"@, argument_schema("string"@, "The shell command to execute."@)),
                ("timeout_ms"@, argument_schema("integer"@, "Optional timeout in milliseconds."@)),
                ("cwd"@, argument_schema("string"@, "Optional working directory."@)),
            ],
            seq!["command"@],
        ),
        body: BASH_BODY,
        is_concurrency_safe: false,
    }
}

/// The `bash` tool.
pub fn bash_tool() -> (r: ToolDefinition)
    ensures
        r@ == bash_definition(),
{
    let mut properties = json::no_entries();
    json::put(&mut properties, "command", argument_json("string", "The shell command to execute."));
    json::put(&mut properties, "timeout_ms", argument_json("integer", "Optional timeout in milliseconds."));
    json::put(&mut properties, "cwd", argument_json("string", "Optional working directory."));
    assert(json::json_entries(properties@) =~= seq![
        ("command"@, argument_schema("string"@, "The shell command to execute."@)),
        ("timeout_ms"@, argument_schema("integer"@, "Optional timeout in milliseconds."@)),
        ("cwd"@, argument_schema("string"@, "Optional working directory."@)),
    ]);
    let required = one_name("command");
    ToolDefinition::new(
        "bash",
        "Run a shell command and capture its output. Use for anything requiring a terminal, process execution, or system access.",
        object_json(properties, required),
        BASH_BODY,
    )
}

/// The `read_file` tool.
pub open spec fn read_file_definition() -> ToolDefinitionView {
    ToolDefinitionView {
        name: "read_file"@,
        description: "Read a text file and return its full contents."@,
        parameters: object_schema(
            seq![
                ("path"@, argument_schema("string"@, "Path of the file to read."@)),
            ],
            seq!["path"@],
        ),
        body: READ_FILE_BODY,
        is_concurrency_safe: false,
    }
}

/// The `read_file` tool.
pub fn read_file_tool() -> (r: ToolDefinition)
    ensures
        r@ == read_file_definition(),
{
    let mut properties = json::no_entries();
    json::put(&mut properties, "path", argument_json("string", "Path of the file to read."));
    assert(json::json_entries(properties@) =~= seq![
        ("path"@, argument_schema("string"@, "Path of the file to read."@)),
    ]);
    let required = one_name("path");
    ToolDefinition::new(
        "read_file",
        "Read a text file and return its full contents.",
        object_json(properties, required),
        READ_FILE_BODY,
    )
}

/// The `write_file` tool.
pub open spec fn write_file_definition() -> ToolDefinitionView {
    ToolDefinitionView {
        name: "write_file"@,
        description: "Write a file with the given content, creating parent directories."@,
        parameters: object_schema(
            seq![
                ("path"@, argument_schema("string"@, "Path of the file to write."@)),
                ("content"@, argument_schema("string"@, "Full new content of the file."@)),
            ],
            seq!["path"@, "content"@],
        ),
        body: WRITE_FILE_BODY,
        is_concurrency_safe: false,
    }
}

/// The `write_file` tool.
pub fn write_file_tool() -> (r: ToolDefinition)
    ensures
        r@ == write_file_definition(),
{
    let mut properties = json::no_entries();
    json::put(&mut properties, "path", argument_json("string", "Path of the file to write."));
    json::put(&mut properties, "content", argument_json("string", "Full new content of the file."));
    assert(json::json_entries(properties@) =~= seq![
        ("path"@, argument_schema("string"@, "Path of the file to write."@)),
        ("content"@, argument_schema("string"@, "Full new content of the file."@)),
    ]);
    let mut required: Vec<String> = Vec::new();
    required.push("path".to_owned());
    required.push("content".to_owned());
    assert(text::views(required@) =~= seq!["path"@, "content"@]);
    ToolDefinition::new(
        "write_file",
        "Write a file with the given content, creating parent directories.",
        object_json(properties, required),
        WRITE_FILE_BODY,
    )
}

/// The `edit_file` tool.
pub open spec fn edit_file_definition() -> ToolDefinitionView {
    ToolDefinitionView {
        name: "edit_file"@,
        description: "Replace old_string with new_string in a file. Fails when old_string is absent."@,
        parameters: object_schema(
            seq![
                ("path"@, argument_schema("string"@, "Path of the file to edit."@)),
                ("old_string"@, argument_schema("string"@, "Text to find."@)),
                ("new_string"@, argument_schema("string"@, "Replacement text."@)),
                ("replace_all"@, argument_schema("boolean"@, "Replace every occurrence (default false)."@)),
            ],
            seq!["path"@, "old_string"@, "new_string"@],
        ),
        body: EDIT_FILE_BODY,
        is_concurrency_safe: false,
    }
}

/// The `edit_file` tool.
pub fn edit_file_tool() -> (r: ToolDefinition)
    ensures
        r@ == edit_file_definition(),
{
    let mut properties = json::no_entries();
    json::put(&mut properties, "path", argument_json("string", "Path of the file to edit."));
    json::put(&mut properties, "old_string", argument_json("string", "Text to find."));
    json::put(&mut properties, "new_string", argument_json("string", "Replacement text."));
    json::put(&mut properties, "replace_all", argument_json("boolean", "Replace every occurrence (default false)."));
    assert(json::json_entries(properties@) =~= seq![
        ("path"@, argument_schema("string"@, "Path of the file to edit."@)),
        ("old_string"@, argument_schema("string"@, "Text to find."@)),
        ("new_string"@, argument_schema("string"@, "Replacement text."@)),
        ("replace_all"@, argument_schema("boolean"@, "Replace every occurrence (default false)."@)),
    ]);
    let mut required: Vec<String> = Vec::new();
    required.push("path".to_owned());
    required.push("old_string".to_owned());
    required.push("new_string".to_owned());
    assert(text::views(required@) =~= seq!["path"@, "old_string"@, "new_string"@]);
    ToolDefinition::new(
        "edit_file",
        "Replace old_string with new_string in a file. Fails when old_string is absent.",
        object_json(properties, required),
        EDIT_FILE_BODY,
    )
}

/// The `glob` tool.
pub open spec fn glob_definition() -> ToolDefinitionView {
    ToolDefinitionView {
        name: "glob"@,
        description: "List files matching a glob pattern under a directory."@,
        parameters: object_schema(
            seq![
                ("pattern"@, argument_schema("string"@, "Glob pattern; ** crosses directories."@)),
                ("path"@, argument_schema("string"@, "Base directory (default: cwd)."@)),
            ],
            seq!["pattern"@],
        ),
        body: GLOB_BODY,
        is_concurrency_safe: false,
    }
}

/// The `glob` tool.
pub fn glob_tool() -> (r: ToolDefinition)
    ensures
        r@ == glob_definition(),
{
    let mut properties = json::no_entries();
    json::put(&mut properties, "pattern", argument_json("string", "Glob pattern; ** crosses directories."));
    json::put(&mut properties, "path", argument_json("string", "Base directory (default: cwd)."));
    assert(json::json_entries(properties@) =~= seq![
        ("pattern"@, argument_schema("string"@, "Glob pattern; ** crosses directories."@)),
        ("path"@, argument_schema("string"@, "Base directory (default: cwd)."@)),
    ]);
    let required = one_name("pattern");
    ToolDefinition::new(
        "glob",
        "List files matching a glob pattern under a directory.",
        object_json(properties, required),
        GLOB_BODY,
    )
}

/// The `grep` tool.
pub open spec fn grep_definition() -> ToolDefinitionView {
    ToolDefinitionView {
        name: "grep"@,
        description: "Search files for lines matching a regular expression, returning matches with line numbers."@,
        parameters: object_schema(
            seq![
                ("pattern"@, argument_schema("string"@, "Regular expression to search for."@)),
                ("path"@, argument_schema("string"@, "File or directory to search (default: cwd)."@)),
                ("include"@, argument_schema("string"@, "Optional glob filter over file names."@)),
            ],
            seq!["pattern"@],
        ),
        body: GREP_BODY,
        is_concurrency_safe: false,
    }
}

/// The `grep` tool.
pub fn grep_tool() -> (r: ToolDefinition)
    ensures
        r@ == grep_definition(),
{
    let mut properties = json::no_entries();
    json::put(&mut properties, "pattern", argument_json("string", "Regular expression to search for."));
    json::put(&mut properties, "path", argument_json("string", "File or directory to search (default: cwd)."));
    json::put(&mut properties, "include", argument_json("string", "Optional glob filter over file names."));
    assert(json::json_entries(properties@) =~= seq![
        ("pattern"@, argument_schema("string"@, "Regular expression to search for."@)),
        ("path"@, argument_schema("string"@, "File or directory to search (default: cwd)."@)),
        ("include"@, argument_schema("string"@, "Optional glob filter over file names."@)),
    ]);
    let required = one_name("pattern");
    ToolDefinition::new(
        "grep",
        "Search files for lines matching a regular expression, returning matches with line numbers.",
        object_json(properties, required),
        GREP_BODY,
    )
}

/// The schema of one todo item.
pub open spec fn todo_item_schema() -> JsonView {
    object_schema(
        seq![
            ("content"@, json::object_of(seq![("type"@, JsonView::Text("string"@))])),
            (
                "status"@,
                json::object_of(
                    seq![
                        ("type"@, JsonView::Text("string"@)),
                        (
                            "enum"@,
                            JsonView::Array(
                                json::text_values(
                                    seq!["pending"@, "in_progress"@, "completed"@],
                                ),
                            ),
                        ),
                    ],
                ),
            ),
        ],
        seq!["content"@],
    )
}

/// The `todo_write` tool.
pub open spec fn todo_write_definition() -> ToolDefinitionView {
    ToolDefinitionView {
        name: "todo_write"@,
        description: "Replace the agent's whole todo list. Use to track multi-step work; the list is overwritten on every call."@,
        parameters: object_schema(
            seq![
                (
                    "todos"@,
                    json::object_of(
                        seq![("type"@, JsonView::Text("array"@)), ("items"@, todo_item_schema())],
                    ),
                ),
            ],
            seq!["todos"@],
        ),
        body: TODO_WRITE_BODY,
        is_concurrency_safe: false,
    }
}

fn todo_item_json() -> (r: Json)
    ensures
        r@ == todo_item_schema(),
{
    let mut content = json::no_entries();
    json::put(&mut content, "type", Json::text("string"));
    assert(json::json_entries(content@) =~= seq![("type"@, JsonView::Text("string"@))]);
    let mut names: Vec<String> = Vec::new();
    names.push("pending".to_owned());
    names.push("in_progress".to_owned());
    names.push("completed".to_owned());
    assert(text::views(names@) =~= seq!["pending"@, "in_progress"@, "completed"@]);
    let mut status = json::no_entries();
    json::put(&mut status, "type", Json::text("string"));
    json::put(&mut status, "enum", Json::texts(&names));
    let ghost status_entries = seq![
        ("type"@, JsonView::Text("string"@)),
        (
            "enum"@,
            JsonView::Array(json::text_values(seq!["pending"@, "in_progress"@, "completed"@])),
        ),
    ];
    assert(json::json_entries(status@) =~= status_entries);
    let mut properties = json::no_entries();
    json::put(&mut properties, "content", Json::object(content));
    json::put(&mut properties, "status", Json::object(status));
    assert(json::json_entries(properties@) =~= seq![
        ("content"@, json::object_of(seq![("type"@, JsonView::Text("string"@))])),
        ("status"@, json::object_of(status_entries)),
    ]);
    object_json(properties, one_name("content"))
}

/// The `todo_write` tool.
pub fn todo_write_tool() -> (r: ToolDefinition)
    ensures
        r@ == todo_write_definition(),
{
    let mut todos = json::no_entries();
    json::put(&mut todos, "type", Json::text("array"));
    json::put(&mut todos, "items", todo_item_json());
    let ghost todos_entries = seq![
        ("type"@, JsonView::Text("array"@)),
        ("items"@, todo_item_schema()),
    ];
    assert(json::json_entries(todos@) =~= todos_entries);
    let mut properties = json::no_entries();
    json::put(&mut properties, "todos", Json::object(todos));
    assert(json::json_entries(properties@) =~= seq![("todos"@, json::object_of(todos_entries))]);
    ToolDefinition::new(
        "todo_write",
        "Replace the agent's whole todo list. Use to track multi-step work; the list is overwritten on every call.",
        object_json(properties, one_name("todos")),
        TODO_WRITE_BODY,
    )
}

/// The tools with one more registered.
pub open spec fn with_tool(r: ToolRegistryView, tool: ToolDefinitionView) -> ToolRegistryView {
    ToolRegistryView { tools: ordered_map::inserted(r.tools, tool.name, tool), ..r }
}

/// The registry with every built-in tool registered.
pub open spec fn with_builtin_tools(r: ToolRegistryView) -> ToolRegistryView {
    let a = with_tool(with_tool(r, bash_definition()), read_file_definition());
    let b = with_tool(with_tool(a, write_file_definition()), edit_file_definition());
    with_tool(
        with_tool(with_tool(b, glob_definition()), grep_definition()),
        todo_write_definition(),
    )
}

/// Registers every built-in tool.
pub fn register_builtin_tools(registry: &mut ToolRegistry)
    requires
        old(registry).well_formed(),
    ensures
        final(registry).well_formed(),
        final(registry)@ == with_builtin_tools(old(registry)@),
{
    registry.register(bash_tool());
    registry.register(read_file_tool());
    registry.register(write_file_tool());
    registry.register(edit_file_tool());
    registry.register(glob_tool());
    registry.register(grep_tool());
    registry.register(todo_write_tool());
}

/// Registers the `todo_write` tool alone.
pub fn register_todo_tool(registry: &mut ToolRegistry)
    requires
        old(registry).well_formed(),
    ensures
        final(registry).well_formed(),
        final(registry)@ == with_tool(old(registry)@, todo_write_definition()),
{
    registry.register(todo_write_tool());
}

// ---------------------------------------------------------------------------
// directories
// ---------------------------------------------------------------------------

/// The directory that a tool works in: the one it was given, resolved, else
/// the working directory.
pub open spec fn work_directory(cwd: Option<Seq<char>>, path: Option<Seq<char>>) -> Option<
    Seq<char>,
> {
    match path {
        Some(p) => Some(paths::resolved(cwd, p)),
        None => cwd,
    }
}

/// The directory that a command runs in, if it is set.
pub fn workdir(cwd: &Option<String>, path: &Option<String>) -> (r: Option<String>)
    ensures
        text::opt_view(r) == work_directory(text::opt_view(*cwd), text::opt_view(*path)),
{
    match path {
        Some(p) => Some(resolve_path(cwd, p.as_str())),
        None => clone_opt(cwd),
    }
}

/// The directory that a search starts in.
pub open spec fn search_base(cwd: Option<Seq<char>>, path: Option<Seq<char>>) -> Seq<char> {
    match work_directory(cwd, path) {
        Some(dir) => dir,
        None => "."@,
    }
}

/// The directory that a search starts in: the current one where nothing says
/// otherwise.
pub fn base_directory(cwd: &Option<String>, path: &Option<String>) -> (r: String)
    ensures
        r@ == search_base(text::opt_view(*cwd), text::opt_view(*path)),
{
    match workdir(cwd, path) {
        Some(dir) => dir,
        None => ".".to_owned(),
    }
}

/// The result of a call whose arguments could not be read.
pub fn invalid_args(message: &str) -> (r: ToolExecutionResult)
    ensures
        r@ == tools::failure("INVALID_ARGS"@, message@),
{
    ToolExecutionResult::error("INVALID_ARGS", message)
}

// ---------------------------------------------------------------------------
// bash
// ---------------------------------------------------------------------------

/// The arguments of `bash`.
#[derive(Debug, PartialEq)]
pub struct BashArgs {
    pub command: String,
    pub timeout_ms: Option<u64>,
    pub cwd: Option<String>,
}

/// What a [`BashArgs`] says.
#[verifier::ext_equal]
pub struct BashArgsView {
    pub command: Seq<char>,
    pub timeout_ms: Option<u64>,
    pub cwd: Option<Seq<char>>,
}

impl View for BashArgs {
    type V = BashArgsView;

    open spec fn view(&self) -> BashArgsView {
        BashArgsView {
            command: self.command@,
            timeout_ms: self.timeout_ms,
            cwd: text::opt_view(self.cwd),
        }
    }
}

impl Clone for BashArgs {
    fn clone(&self) -> (r: Self)
        ensures
            r@ == self@,
    {
        BashArgs {
            command: self.command.clone(),
            timeout_ms: self.timeout_ms,
            cwd: clone_opt(&self.cwd),
        }
    }
}

/// How a command ended.
#[derive(Debug, PartialEq)]
pub enum BashOutcome {
    /// It could not be started.
    NotSpawned { message: String },
    /// The call was cancelled first.
    Cancelled,
    /// It ran out of time.
    TimedOut,
    /// Waiting for it failed.
    Failed { message: String },
    /// It exited; a command that a signal ended has no code.
    Exited { code: Option<i32>, stdout: Vec<u8>, stderr: Vec<u8> },
}

/// The code that is reported of a command.
pub open spec fn reported_code(code: Option<i32>) -> int {
    match code {
        Some(c) => c as int,
        None => -1,
    }
}

/// The value of a command that exited.
pub open spec fn exit_value(code: Option<i32>, stdout: Seq<char>, stderr: Seq<char>) -> JsonView {
    json::object_of(
        seq![
            ("stdout"@, JsonView::Text(stdout)),
            ("stderr"@, JsonView::Text(stderr)),
            ("exit_code"@, JsonView::Number(json::integer(reported_code(code)))),
        ],
    )
}

/// The text of a command that succeeded.
pub open spec fn success_output(stdout: Seq<char>, stderr: Seq<char>) -> Seq<char> {
    text::trim(
        if stderr.len() > 0 {
            stdout + "\n[stderr]\n"@ + stderr
        } else {
            stdout
        },
    )
}

/// The text of a command that failed.
pub open spec fn failure_output(
    code: Option<i32>,
    stdout: Seq<char>,
    stderr: Seq<char>,
) -> Seq<char> {
    text::trim(
        "command exited with code "@ + text::signed_decimal(reported_code(code)) + "\n"@ + stdout
            + "\n[stderr]\n"@ + stderr,
    )
}

/// The result of a command that exited.
pub open spec fn exit_result(
    code: Option<i32>,
    stdout: Seq<char>,
    stderr: Seq<char>,
) -> ToolExecutionResultView {
    if code == Some(0i32) {
        tools::success(success_output(stdout, stderr), exit_value(code, stdout, stderr))
    } else {
        let message = failure_output(code, stdout, stderr);
        ToolExecutionResultView::Error {
            message,
            code: "EXIT"@,
            content: tools::text_block(message),
        }
    }
}

/// The result of a `bash` call.
pub open spec fn bash_result_of(
    args: BashArgsView,
    outcome: BashOutcome,
) -> ToolExecutionResultView {
    match outcome {
        BashOutcome::NotSpawned { message } => tools::failure("SPAWN"@, message@),
        BashOutcome::Cancelled => tools::failure(
            "CANCELLED"@,
            "command cancelled: "@ + args.command,
        ),
        BashOutcome::TimedOut => tools::failure(
            "TIMEOUT"@,
            "command timed out after "@ + text::decimal(
                match args.timeout_ms {
                    Some(ms) => ms as nat,
                    None => 0,
                },
            ) + "ms: "@ + args.command,
        ),
        BashOutcome::Failed { message } => tools::failure("EXEC"@, message@),
        BashOutcome::Exited { code, stdout, stderr } => exit_result(
            code,
            sse::utf8_lossy(stdout@),
            sse::utf8_lossy(stderr@),
        ),
    }
}

/// The result of a command that exited and left these texts.
pub fn exited(code: Option<i32>, stdout: &str, stderr: &str) -> (r: ToolExecutionResult)
    ensures
        r@ == exit_result(code, stdout@, stderr@),
{
    let exit_code: i32 = match code {
        Some(c) => c,
        None => -1,
    };
    if matches!(code, Some(0)) {
        let mut value = json::no_entries();
        json::put(&mut value, "stdout", Json::text(stdout));
        json::put(&mut value, "stderr", Json::text(stderr));
        json::put(&mut value, "exit_code", Json::signed(exit_code as i64));
        assert(json::json_entries(value@) =~= seq![
            ("stdout"@, JsonView::Text(stdout@)),
            ("stderr"@, JsonView::Text(stderr@)),
            ("exit_code"@, JsonView::Number(json::integer(reported_code(code)))),
        ]);
        let output = if stderr.is_empty() {
            stdout.to_owned()
        } else {
            concat3(stdout, "\n[stderr]\n", stderr)
        };
        ToolExecutionResult::success_text(trimmed(output.as_str()).as_str(), Json::object(value))
    } else {
        let shown = signed_text(exit_code);
        let mut output = concat4("command exited with code ", shown.as_str(), "\n", stdout);
        output.push_str("\n[stderr]\n");
        output.push_str(stderr);
        let message = trimmed(output.as_str());
        ToolExecutionResult::Error {
            content: one_text_block(message.as_str()),
            message,
            code: "EXIT".to_owned(),
        }
    }
}

/// The result of a `bash` call.
pub fn bash_result(args: &BashArgs, outcome: &BashOutcome) -> (r: ToolExecutionResult)
    ensures
        r@ == bash_result_of(args@, *outcome),
{
    match outcome {
        BashOutcome::NotSpawned { message } => ToolExecutionResult::error(
            "SPAWN",
            message.as_str(),
        ),
        BashOutcome::Cancelled => {
            let message = concat2("command cancelled: ", args.command.as_str());
            ToolExecutionResult::error("CANCELLED", message.as_str())
        },
        BashOutcome::TimedOut => {
            let ms: u64 = match args.timeout_ms {
                Some(ms) => ms,
                None => 0,
            };
            let shown = decimal_text(ms);
            let message = concat4(
                "command timed out after ",
                shown.as_str(),
                "ms: ",
                args.command.as_str(),
            );
            ToolExecutionResult::error("TIMEOUT", message.as_str())
        },
        BashOutcome::Failed { message } => ToolExecutionResult::error("EXEC", message.as_str()),
        BashOutcome::Exited { code, stdout, stderr } => {
            let out = lossy_text(stdout);
            let err = lossy_text(stderr);
            exited(*code, out.as_str(), err.as_str())
        },
    }
}

// ---------------------------------------------------------------------------
// read_file, write_file, edit_file
// ---------------------------------------------------------------------------

/// The value that names a path and counts bytes.
pub open spec fn written_value(path: Seq<char>, bytes: usize) -> JsonView {
    json::object_of(seq![("path"@, JsonView::Text(path)), ("bytes"@, json::number_of(bytes as u64))])
}

fn written_json(path: &str, bytes: usize) -> (r: Json)
    ensures
        r@ == written_value(path@, bytes),
{
    let mut value = json::no_entries();
    json::put(&mut value, "path", Json::text(path));
    json::put(&mut value, "bytes", Json::unsigned(bytes as u64));
    assert(json::json_entries(value@) =~= seq![
        ("path"@, JsonView::Text(path@)),
        ("bytes"@, json::number_of(bytes as u64)),
    ]);
    Json::object(value)
}

/// The failure to read a file.
pub open spec fn read_failure(path: Seq<char>, message: Seq<char>) -> ToolExecutionResultView {
    tools::failure("READ_FAILED"@, "cannot read "@ + path + ": "@ + message)
}

fn read_failed(path: &str, message: &str) -> (r: ToolExecutionResult)
    ensures
        r@ == read_failure(path@, message@),
{
    let shown = concat4("cannot read ", path, ": ", message);
    ToolExecutionResult::error("READ_FAILED", shown.as_str())
}

/// The result of a `read_file` call on `path`, of which `content` was read or
/// an error reported.
pub open spec fn read_result(
    path: Seq<char>,
    content: Result<Seq<char>, Seq<char>>,
) -> ToolExecutionResultView {
    match content {
        Ok(content) => tools::success(
            content,
            json::object_of(
                seq![("path"@, JsonView::Text(path)), ("content"@, JsonView::Text(content))],
            ),
        ),
        Err(message) => read_failure(path, message),
    }
}

/// The result of a `read_file` call on `path`, of which `content` was read or
/// an error reported.
pub fn read_file_result(path: &str, content: &Result<String, String>) -> (r: ToolExecutionResult)
    ensures
        r@ == read_result(
            path@,
            match *content {
                Ok(content) => Ok(content@),
                Err(message) => Err(message@),
            },
        ),
{
    match content {
        Ok(content) => {
            let mut value = json::no_entries();
            json::put(&mut value, "path", Json::text(path));
            json::put(&mut value, "content", Json::text(content.as_str()));
            assert(json::json_entries(value@) =~= seq![
                ("path"@, JsonView::Text(path@)),
                ("content"@, JsonView::Text(content@)),
            ]);
            ToolExecutionResult::success_text(content.as_str(), Json::object(value))
        },
        Err(message) => read_failed(path, message.as_str()),
    }
}

/// How writing a file ended.
#[derive(Debug, PartialEq)]
pub enum WriteOutcome {
    /// The directory of the file could not be made.
    NoDirectory { parent: String, message: String },
    /// The file could not be written.
    Failed { message: String },
    /// The file was written.
    Written,
}

/// The result of a `write_file` call on `path`.
pub open spec fn write_result(
    path: Seq<char>,
    content: Seq<char>,
    outcome: WriteOutcome,
) -> ToolExecutionResultView {
    match outcome {
        WriteOutcome::NoDirectory { parent, message } => tools::failure(
            "MKDIR_FAILED"@,
            "cannot create "@ + parent@ + ": "@ + message@,
        ),
        WriteOutcome::Failed { message } => tools::failure(
            "WRITE_FAILED"@,
            "cannot write "@ + path + ": "@ + message@,
        ),
        WriteOutcome::Written => tools::success(
            "wrote "@ + text::decimal(text::byte_length(content) as nat) + " bytes to "@ + path,
            written_value(path, text::byte_length(content)),
        ),
    }
}

/// The result of a `write_file` call on `path`.
pub fn write_file_result(path: &str, content: &str, outcome: &WriteOutcome) -> (r:
    ToolExecutionResult)
    ensures
        r@ == write_result(path@, content@, *outcome),
{
    match outcome {
        WriteOutcome::NoDirectory { parent, message } => {
            let shown = concat4("cannot create ", parent.as_str(), ": ", message.as_str());
            ToolExecutionResult::error("MKDIR_FAILED", shown.as_str())
        },
        WriteOutcome::Failed { message } => {
            let shown = concat4("cannot write ", path, ": ", message.as_str());
            ToolExecutionResult::error("WRITE_FAILED", shown.as_str())
        },
        WriteOutcome::Written => {
            let bytes: usize = content.len();
            let count = decimal_text(bytes as u64);
            let shown = concat4("wrote ", count.as_str(), " bytes to ", path);
            ToolExecutionResult::success_text(shown.as_str(), written_json(path, bytes))
        },
    }
}

/// The arguments of `edit_file`.
#[derive(Debug, PartialEq)]
pub struct EditArgs {
    pub path: String,
    pub old_string: String,
    pub new_string: String,
    pub replace_all: bool,
}

/// What a [`EditArgs`] says.
#[verifier::ext_equal]
pub struct EditArgsView {
    pub path: Seq<char>,
    pub old_string: Seq<char>,
    pub new_string: Seq<char>,
    pub replace_all: bool,
}

impl View for EditArgs {
    type V = EditArgsView;

    open spec fn view(&self) -> EditArgsView {
        EditArgsView {
            path: self.path@,
            old_string: self.old_string@,
            new_string: self.new_string@,
            replace_all: self.replace_all,
        }
    }
}

impl Clone for EditArgs {
    fn clone(&self) -> (r: Self)
        ensures
            r@ == self@,
    {
        EditArgs {
            path: self.path.clone(),
            old_string: self.old_string.clone(),
            new_string: self.new_string.clone(),
            replace_all: self.replace_all,
        }
    }
}

/// The text after an edit: every occurrence replaced, or the first; `None`
/// where there is none.
pub open spec fn edit_of(args: EditArgsView, content: Seq<char>) -> Option<Seq<char>> {
    if !text::occurs_in(content, args.old_string) {
        None
    } else if args.replace_all {
        Some(text::replace_all(content, args.old_string, args.new_string))
    } else {
        Some(text::replace_first(content, args.old_string, args.new_string))
    }
}

/// The text after an edit.
pub fn edited(args: &EditArgs, content: &str) -> (r: Option<String>)
    ensures
        text::opt_view(r) == edit_of(args@, content@),
{
    if !contains(content, args.old_string.as_str()) {
        None
    } else if args.replace_all {
        Some(replaced_all(content, args.old_string.as_str(), args.new_string.as_str()))
    } else {
        Some(replaced_first(content, args.old_string.as_str(), args.new_string.as_str()))
    }
}

/// How an edit ended.
#[derive(Debug, PartialEq)]
pub enum EditOutcome {
    /// The file could not be read.
    NotRead { message: String },
    /// The text to replace does not occur.
    NotFound,
    /// The file could not be written.
    NotWritten { message: String },
    /// The file holds `updated` now.
    Written { updated: String },
}

/// The result of an `edit_file` call on `path`.
pub open spec fn edit_result(path: Seq<char>, outcome: EditOutcome) -> ToolExecutionResultView {
    match outcome {
        EditOutcome::NotRead { message } => read_failure(path, message@),
        EditOutcome::NotFound => tools::failure("NOT_FOUND"@, "old_string not found in "@ + path),
        EditOutcome::NotWritten { message } => tools::failure("WRITE_FAILED"@, message@),
        EditOutcome::Written { updated } => tools::success(
            "edited "@ + path,
            written_value(path, text::byte_length(updated@)),
        ),
    }
}

/// The result of an `edit_file` call on `path`.
pub fn edit_file_result(path: &str, outcome: &EditOutcome) -> (r: ToolExecutionResult)
    ensures
        r@ == edit_result(path@, *outcome),
{
    match outcome {
        EditOutcome::NotRead { message } => read_failed(path, message.as_str()),
        EditOutcome::NotFound => {
            let shown = concat2("old_string not found in ", path);
            ToolExecutionResult::error("NOT_FOUND", shown.as_str())
        },
        EditOutcome::NotWritten { message } => ToolExecutionResult::error(
            "WRITE_FAILED",
            message.as_str(),
        ),
        EditOutcome::Written { updated } => {
            let shown = concat2("edited ", path);
            ToolExecutionResult::success_text(
                shown.as_str(),
                written_json(path, updated.as_str().len()),
            )
        },
    }
}

/// An edit whose text occurs changes exactly that text: what stood before and
/// after the first occurrence stays.
pub proof fn law_edit_replaces_first_occurrence(
    before: Seq<char>,
    old_text: Seq<char>,
    new_text: Seq<char>,
    after: Seq<char>,
)
    requires
        forall|i: int| 0 <= i < before.len() ==> !text::occurs_at(before + old_text + after, old_text, i),
    ensures
        text::replace_first(before + old_text + after, old_text, new_text) == before + new_text
            + after,
    decreases before.len(),
{
    let s = before + old_text + after;
    if before.len() == 0 {
        assert(s =~= old_text + after);
        assert(old_text.is_prefix_of(s)) by {
            assert(s.subrange(0, old_text.len() as int) =~= old_text);
        }
        assert(s.skip(old_text.len() as int) =~= after);
        assert(before + new_text + after =~= new_text + after);
    } else {
        assert(!text::occurs_at(s, old_text, 0));
        assert(!old_text.is_prefix_of(s));
        let tail = before.skip(1);
        assert(s.skip(1) =~= tail + old_text + after);
        assert forall|i: int| 0 <= i < tail.len() implies !text::occurs_at(
            tail + old_text + after,
            old_text,
            i,
        ) by {
            if text::occurs_at(tail + old_text + after, old_text, i) {
                assert(s.subrange(i + 1, i + 1 + old_text.len()) =~= (tail + old_text
                    + after).subrange(i, i + old_text.len()));
                assert(text::occurs_at(s, old_text, i + 1));
            }
        }
        law_edit_replaces_first_occurrence(tail, old_text, new_text, after);
        assert(seq![s[0]] + (tail + new_text + after) =~= before + new_text + after);
    }
}

// ---------------------------------------------------------------------------
// glob
// ---------------------------------------------------------------------------

/// A path below the base as it is shown: `/` between components, none before.
pub open spec fn shown_path(rel: Seq<char>) -> Seq<char> {
    without_leading_slashes(slashed(rel))
}

/// `\\` turned into `/`.
pub open spec fn slashed(s: Seq<char>) -> Seq<char> {
    s.map_values(
        |c: char|
            if c == '\\' {
                '/'
            } else {
                c
            },
    )
}

/// `s` without the slashes at its start.
pub open spec fn without_leading_slashes(s: Seq<char>) -> Seq<char>
    decreases s.len(),
{
    if s.len() > 0 && s[0] == '/' {
        without_leading_slashes(s.skip(1))
    } else {
        s
    }
}

fn slashed_chars(s: &str) -> (r: Vec<char>)
    ensures
        r@ == slashed(s@),
{
    let v = chars_of(s);
    let mut out: Vec<char> = Vec::new();
    for i in 0..v.len()
        invariant
            out@ == slashed(v@.take(i as int)),
    {
        let c = if v[i] == '\\' {
            '/'
        } else {
            v[i]
        };
        out.push(c);
        assert(slashed(v@.take(i + 1)) =~= slashed(v@.take(i as int)).push(c));
    }
    assert(v@.take(v@.len() as int) =~= v@);
    out
}

/// A path below the base as it is matched: `/` between components.
pub fn slashed_text(s: &str) -> (r: String)
    ensures
        r@ == slashed(s@),
{
    let v = slashed_chars(s);
    let r = string_of(&v, 0, v.len());
    assert(r@ =~= v@);
    r
}

/// A path below the base as it is shown.
pub fn relative_text(rel: &str) -> (r: String)
    ensures
        r@ == shown_path(rel@),
{
    let v = slashed_chars(rel);
    let mut from: usize = 0;
    assert(v@.skip(0) =~= v@);
    while from < v.len() && v[from] == '/'
        invariant
            from <= v@.len(),
            without_leading_slashes(v@.skip(from as int)) == without_leading_slashes(v@),
        decreases v@.len() - from,
    {
        assert(v@.skip(from as int).skip(1) =~= v@.skip(from + 1));
        from = from + 1;
    }
    assert(without_leading_slashes(v@.skip(from as int)) == v@.skip(from as int)) by {
        if from < v@.len() {
            assert(v@.skip(from as int)[0] == v@[from as int]);
        }
    }
    let r = string_of(&v, from, v.len());
    assert(r@ =~= v@.skip(from as int));
    r
}

/// The paths below the base that match the pattern, as they are shown.
pub open spec fn glob_selected(pattern: Seq<char>, rels: Seq<Seq<char>>) -> Seq<Seq<char>>
    decreases rels.len(),
{
    if rels.len() == 0 {
        seq![]
    } else {
        let rest = glob_selected(pattern, rels.drop_last());
        if matcher::glob_matches(pattern, slashed(rels.last())) {
            rest.push(shown_path(rels.last()))
        } else {
            rest
        }
    }
}

/// The paths below the base that match the pattern, as they are shown. `rels`
/// are the paths of everything below the base, in order.
pub fn glob_select(pattern: &str, rels: &Vec<String>) -> (r: Vec<String>)
    ensures
        text::views(r@) == glob_selected(pattern@, text::views(rels@)),
{
    let mut out: Vec<String> = Vec::new();
    let ghost all = text::views(rels@);
    assert(all.take(0) =~= seq![]);
    assert(text::views(out@) =~= seq![]);
    for i in 0..rels.len()
        invariant
            all == text::views(rels@),
            text::views(out@) == glob_selected(pattern@, all.take(i as int)),
    {
        let ghost before = text::views(out@);
        assert(all.take(i + 1).drop_last() =~= all.take(i as int));
        assert(all.take(i + 1).last() == rels@[i as int]@);
        let rel = slashed_text(rels[i].as_str());
        if glob_match(pattern, rel.as_str()) {
            let shown = relative_text(rels[i].as_str());
            let ghost item = shown@;
            out.push(shown);
            assert(text::views(out@) =~= before.push(item));
        }
    }
    assert(all.take(all.len() as int) =~= all);
    out
}

/// The result of a `glob` call.
pub open spec fn glob_result_of(pattern: Seq<char>, found: Seq<Seq<char>>) -> ToolExecutionResultView {
    tools::success(
        if found.len() == 0 {
            "no files match "@ + pattern
        } else {
            text::join(found, "\n"@)
        },
        json::object_of(
            seq![
                ("matches"@, JsonView::Array(json::text_values(found))),
                ("count"@, json::number_of(found.len() as u64)),
            ],
        ),
    )
}

/// The result of a `glob` call that found these paths.
pub fn glob_result(pattern: &str, found: &Vec<String>) -> (r: ToolExecutionResult)
    ensures
        r@ == glob_result_of(pattern@, text::views(found@)),
{
    let mut value = json::no_entries();
    json::put(&mut value, "matches", Json::texts(found));
    json::put(&mut value, "count", Json::unsigned(found.len() as u64));
    assert(json::json_entries(value@) =~= seq![
        ("matches"@, JsonView::Array(json::text_values(text::views(found@)))),
        ("count"@, json::number_of(text::views(found@).len() as u64)),
    ]);
    let shown = if found.len() == 0 {
        concat2("no files match ", pattern)
    } else {
        joined(found, "\n")
    };
    ToolExecutionResult::success_text(shown.as_str(), Json::object(value))
}

// ---------------------------------------------------------------------------
// grep
// ---------------------------------------------------------------------------

/// `regex::Regex`: a compiled regular expression.
#[verifier::external_type_specification]
#[verifier::external_body]
pub struct ExRegex(regex::Regex);

/// The pattern that a `regex::Regex` was compiled from.
pub uninterp spec fn regex_pattern(re: regex::Regex) -> Seq<char>;

/// Whether `regex::Regex::is_match` finds the pattern anywhere in the text.
pub uninterp spec fn regex_matches(pattern: Seq<char>, text: Seq<char>) -> bool;

/// `regex::Regex::new`: compiles a pattern, or says why it cannot be. Which
/// patterns compile is not stated: the limit on their compiled size depends on
/// the machine.
#[verifier::external_body]
fn compile_regex(pattern: &str) -> (r: Result<regex::Regex, String>)
    ensures
        r matches Ok(re) ==> regex_pattern(re) == pattern@,
{
    regex::Regex::new(pattern).map_err(|err| err.to_string())
}

/// `regex::Regex::is_match`: whether the pattern stands anywhere in the text.
#[verifier::external_body]
fn regex_is_match(re: &regex::Regex, text: &str) -> (r: bool)
    ensures
        r == regex_matches(regex_pattern(*re), text@),
{
    re.is_match(text)
}

/// At most this many matches are reported.
pub const MAX_MATCHES: usize = 500;

/// At most this many characters of a line are reported.
pub const MAX_LINE_CHARS: usize = 300;

/// One matching line.
#[derive(Debug, PartialEq)]
pub struct GrepMatch {
    pub path: String,
    /// Counted from one.
    pub line: u64,
    pub text: String,
}

/// What a [`GrepMatch`] says.
#[verifier::ext_equal]
pub struct GrepMatchView {
    pub path: Seq<char>,
    pub line: u64,
    pub text: Seq<char>,
}

impl View for GrepMatch {
    type V = GrepMatchView;

    open spec fn view(&self) -> GrepMatchView {
        GrepMatchView {
            path: self.path@,
            line: self.line,
            text: self.text@,
        }
    }
}

impl Clone for GrepMatch {
    fn clone(&self) -> (r: Self)
        ensures
            r@ == self@,
    {
        GrepMatch {
            path: self.path.clone(),
            line: self.line,
            text: self.text.clone(),
        }
    }
}

/// A search in progress.
#[derive(Debug)]
pub struct GrepSearch {
    re: regex::Regex,
    pattern: String,
    include_glob: Option<String>,
    found: Vec<GrepMatch>,
}

/// What a [`GrepSearch`] looks for and has found.
#[verifier::ext_equal]
pub struct GrepView {
    pub pattern: Seq<char>,
    pub include_glob: Option<Seq<char>>,
    pub found: Seq<GrepMatchView>,
}

impl View for GrepSearch {
    type V = GrepView;

    closed spec fn view(&self) -> GrepView {
        GrepView {
            pattern: self.pattern@,
            include_glob: text::opt_view(self.include_glob),
            found: text::views(self.found@),
        }
    }
}

/// The matching lines of a file, the first of which has number `first`.
pub open spec fn matching_lines(
    pattern: Seq<char>,
    path: Seq<char>,
    lines: Seq<Seq<char>>,
) -> Seq<GrepMatchView>
    decreases lines.len(),
{
    if lines.len() == 0 {
        seq![]
    } else {
        let rest = matching_lines(pattern, path, lines.drop_last());
        if regex_matches(pattern, lines.last()) {
            rest.push(
                GrepMatchView {
                    path,
                    line: lines.len() as u64,
                    text: text::first_chars(lines.last(), MAX_LINE_CHARS as nat),
                },
            )
        } else {
            rest
        }
    }
}

/// At most the first [`MAX_MATCHES`] of `found`.
pub open spec fn capped(found: Seq<GrepMatchView>) -> Seq<GrepMatchView> {
    if found.len() <= MAX_MATCHES {
        found
    } else {
        found.take(MAX_MATCHES as int)
    }
}

/// How a match is shown.
pub open spec fn shown_match(m: GrepMatchView) -> Seq<char> {
    m.path + ":"@ + text::decimal(m.line as nat) + ":"@ + m.text
}

/// A match as a value.
pub open spec fn match_value(m: GrepMatchView) -> JsonView {
    json::object_of(
        seq![
            ("path"@, JsonView::Text(m.path)),
            ("line"@, json::number_of(m.line)),
            ("text"@, JsonView::Text(m.text)),
        ],
    )
}

impl GrepView {
    /// Whether a file of that name is searched.
    pub open spec fn wants(self, name: Seq<char>) -> bool {
        match self.include_glob {
            Some(glob) => matcher::glob_matches(glob, name),
            None => true,
        }
    }

    /// The search after a file.
    pub open spec fn scanned(self, path: Seq<char>, content: Seq<char>) -> GrepView {
        GrepView {
            found: capped(
                self.found + matching_lines(self.pattern, path, text::lines(content)),
            ),
            ..self
        }
    }

    /// The result of the search.
    pub open spec fn result(self) -> ToolExecutionResultView {
        tools::success(
            if self.found.len() == 0 {
                "no matches for "@ + self.pattern
            } else {
                text::join(self.found.map_values(|m: GrepMatchView| shown_match(m)), "\n"@)
            },
            JsonView::Array(self.found.map_values(|m: GrepMatchView| match_value(m))),
        )
    }
}

fn shown_match_text(m: &GrepMatch) -> (r: String)
    ensures
        r@ == shown_match(m@),
{
    let line = decimal_text(m.line);
    let mut out = concat4(m.path.as_str(), ":", line.as_str(), ":");
    out.push_str(m.text.as_str());
    out
}

fn match_json(m: &GrepMatch) -> (r: Json)
    ensures
        r@ == match_value(m@),
{
    let mut value = json::no_entries();
    json::put(&mut value, "path", Json::text(m.path.as_str()));
    json::put(&mut value, "line", Json::unsigned(m.line));
    json::put(&mut value, "text", Json::text(m.text.as_str()));
    assert(json::json_entries(value@) =~= seq![
        ("path"@, JsonView::Text(m@.path)),
        ("line"@, json::number_of(m@.line)),
        ("text"@, JsonView::Text(m@.text)),
    ]);
    Json::object(value)
}

/// The search for a compiled pattern; or the result that a pattern ends in
/// which does not compile.
pub fn grep_start(
    pattern: &str,
    compiled: Result<regex::Regex, String>,
    include_glob: Option<String>,
) -> (r: Result<GrepSearch, ToolExecutionResult>)
    requires
        compiled matches Ok(re) ==> regex_pattern(re) == pattern@,
    ensures
        match r {
            Ok(s) => compiled is Ok && s.well_formed() && s@ == (GrepView {
                pattern: pattern@,
                include_glob: text::opt_view(include_glob),
                found: seq![],
            }),
            Err(e) => compiled matches Err(message) && e@ == tools::failure(
                "BAD_REGEX"@,
                message@,
            ),
        },
{
    match compiled {
        Ok(re) => {
            let s = GrepSearch {
                re,
                pattern: pattern.to_owned(),
                include_glob,
                found: Vec::new(),
            };
            assert(s@.found =~= seq![]);
            Ok(s)
        },
        Err(message) => Err(ToolExecutionResult::error("BAD_REGEX", message.as_str())),
    }
}

impl GrepSearch {
    /// The compiled pattern is the pattern's, and the cap is kept.
    pub closed spec fn well_formed(&self) -> bool {
        regex_pattern(self.re) == self.pattern@ && self.found@.len() <= MAX_MATCHES
    }

    /// Starts a search. A pattern that does not compile is a `BAD_REGEX`
    /// failure, with the compiler's message.
    pub fn new(pattern: &str, include_glob: Option<String>) -> (r: Result<
        GrepSearch,
        ToolExecutionResult,
    >)
        ensures
            match r {
                Ok(s) => s.well_formed() && s@ == (GrepView {
                    pattern: pattern@,
                    include_glob: text::opt_view(include_glob),
                    found: seq![],
                }),
                Err(e) => exists|message: Seq<char>|
                    e@ == #[trigger] tools::failure("BAD_REGEX"@, message),
            },
    {
        grep_start(pattern, compile_regex(pattern), include_glob)
    }

    /// Whether a file of that name is searched.
    pub fn wants(&self, name: &str) -> (r: bool)
        ensures
            r == self@.wants(name@),
    {
        match &self.include_glob {
            Some(glob) => glob_match(glob.as_str(), name),
            None => true,
        }
    }

    /// Whether the search has found all that is reported.
    pub fn is_full(&self) -> (r: bool)
        ensures
            r == (self@.found.len() >= MAX_MATCHES),
    {
        self.found.len() >= MAX_MATCHES
    }

    /// Searches the text of one file.
    pub fn scan(&mut self, path: &str, content: &str)
        requires
            old(self).well_formed(),
        ensures
            final(self).well_formed(),
            final(self)@ == old(self)@.scanned(path@, content@),
    {
        let lines = lines_of(content);
        let ghost all = text::lines(content@);
        let ghost start = self@;
        let mut i: usize = 0;
        assert(all.take(0) =~= seq![]);
        assert(start.found + matching_lines(start.pattern, path@, all.take(0)) =~= start.found);
        while i < lines.len() && self.found.len() < MAX_MATCHES
            invariant
                i <= lines@.len(),
                all == text::views(lines@),
                self.well_formed(),
                self.found@.len() <= MAX_MATCHES,
                regex_pattern(self.re) == self.pattern@,
                self@.pattern == start.pattern,
                self@.include_glob == start.include_glob,
                self@.found == start.found + matching_lines(
                    start.pattern,
                    path@,
                    all.take(i as int),
                ),
            decreases lines@.len() - i,
        {
            let ghost before = self@.found;
            assert(all.take(i + 1).drop_last() =~= all.take(i as int));
            assert(all.take(i + 1).last() == lines@[i as int]@);
            if regex_is_match(&self.re, lines[i].as_str()) {
                let m = GrepMatch {
                    path: path.to_owned(),
                    line: (i + 1) as u64,
                    text: take_chars(lines[i].as_str(), MAX_LINE_CHARS),
                };
                let ghost item = m@;
                self.found.push(m);
                assert(self@.found =~= before.push(item));
                assert(self@.found =~= start.found + matching_lines(
                    start.pattern,
                    path@,
                    all.take(i + 1),
                ));
            }
            i = i + 1;
        }
        proof {
            let upto = matching_lines(start.pattern, path@, all.take(i as int));
            let whole = matching_lines(start.pattern, path@, all);
            lemma_matching_prefix(start.pattern, path@, all, i as int);
            if i < all.len() {
                assert((start.found + whole).take(MAX_MATCHES as int) =~= self@.found);
            } else {
                assert(all.take(i as int) =~= all);
            }
            assert(self@.found == capped(start.found + whole));
        }
    }

    /// The result of the search.
    pub fn finish(&self) -> (r: ToolExecutionResult)
        ensures
            r@ == self@.result(),
    {
        let ghost found = self@.found;
        let mut shown: Vec<String> = Vec::new();
        let mut values = json::no_values();
        for i in 0..self.found.len()
            invariant
                found == text::views(self.found@),
                text::views(shown@) == found.take(i as int).map_values(
                    |m: GrepMatchView| shown_match(m),
                ),
                json::json_views(values@) == found.take(i as int).map_values(
                    |m: GrepMatchView| match_value(m),
                ),
        {
            let ghost before = text::views(shown@);
            let line = shown_match_text(&self.found[i]);
            let ghost item = line@;
            shown.push(line);
            assert(text::views(shown@) =~= before.push(item));
            json::push_value(&mut values, match_json(&self.found[i]));
            assert(found.take(i + 1) =~= found.take(i as int).push(found[i as int]));
            assert(found.take(i + 1).map_values(|m: GrepMatchView| shown_match(m)) =~= found.take(
                i as int,
            ).map_values(|m: GrepMatchView| shown_match(m)).push(shown_match(found[i as int])));
            assert(found.take(i + 1).map_values(|m: GrepMatchView| match_value(m)) =~= found.take(
                i as int,
            ).map_values(|m: GrepMatchView| match_value(m)).push(match_value(found[i as int])));
        }
        assert(found.take(found.len() as int) =~= found);
        let text = if self.found.len() == 0 {
            concat2("no matches for ", self.pattern.as_str())
        } else {
            joined(&shown, "\n")
        };
        ToolExecutionResult::success_text(text.as_str(), Json::Array(values))
    }
}

proof fn lemma_matching_prefix(
    pattern: Seq<char>,
    path: Seq<char>,
    lines: Seq<Seq<char>>,
    i: int,
)
    requires
        0 <= i <= lines.len(),
    ensures
        matching_lines(pattern, path, lines.take(i)).is_prefix_of(
            matching_lines(pattern, path, lines),
        ),
    decreases lines.len(),
{
    if i == lines.len() {
        assert(lines.take(i) =~= lines);
    } else {
        lemma_matching_prefix(pattern, path, lines.drop_last(), i);
        assert(lines.drop_last().take(i) =~= lines.take(i));
        let a = matching_lines(pattern, path, lines.take(i));
        let b = matching_lines(pattern, path, lines.drop_last());
        let c = matching_lines(pattern, path, lines);
        assert(a =~= c.subrange(0, a.len() as int));
    }
}

/// A search never reports more than [`MAX_MATCHES`] lines, and what it has
/// found it keeps, in place, whatever files follow.
pub proof fn law_search_is_capped_and_keeps_matches(
    s: GrepView,
    path: Seq<char>,
    content: Seq<char>,
)
    requires
        s.found.len() <= MAX_MATCHES,
    ensures
        s.scanned(path, content).found.len() <= MAX_MATCHES,
        s.found.is_prefix_of(s.scanned(path, content).found),
{
    let n = s.scanned(path, content).found;
    assert(s.found =~= n.subrange(0, s.found.len() as int));
}

// ---------------------------------------------------------------------------
// todo_write
// ---------------------------------------------------------------------------

/// The status that a name stands for.
pub open spec fn status_of(name: Option<Seq<char>>) -> TodoStatus {
    match name {
        Some(s) => if s == "in_progress"@ {
            TodoStatus::InProgress
        } else if s == "completed"@ {
            TodoStatus::Completed
        } else {
            TodoStatus::Pending
        },
        None => TodoStatus::Pending,
    }
}

/// The status that a name stands for.
pub fn parse_status(name: Option<&str>) -> (r: TodoStatus)
    ensures
        r == status_of(
            match name {
                Some(s) => Some(s@),
                None => None,
            },
        ),
{
    match name {
        Some(s) => if str_eq(s, "in_progress") {
            TodoStatus::InProgress
        } else if str_eq(s, "completed") {
            TodoStatus::Completed
        } else {
            TodoStatus::Pending
        },
        None => TodoStatus::Pending,
    }
}

/// The item that an entry of the arguments stands for.
pub open spec fn todo_of(entry: JsonView) -> TodoItemView {
    TodoItemView {
        content: match entry.str_at("content"@) {
            Some(s) => s,
            None => seq![],
        },
        status: status_of(entry.str_at("status"@)),
    }
}

/// The list that the arguments ask for. Arguments without a list ask for none.
pub open spec fn todos_of(arguments: JsonView) -> Seq<TodoItemView> {
    match arguments.array_at("todos"@) {
        Some(entries) => entries.map_values(|e: JsonView| todo_of(e)),
        None => seq![],
    }
}

/// The list that the arguments ask for.
pub fn parse_todos(arguments: &Json) -> (r: Vec<TodoItem>)
    ensures
        text::views(r@) == todos_of(arguments@),
{
    let mut out: Vec<TodoItem> = Vec::new();
    assert(text::views(out@) =~= seq![]);
    if let Some(entries) = arguments.array_at("todos") {
        let ghost all = json::json_views(entries@);
        for i in 0..entries.len()
            invariant
                all == json::json_views(entries@),
                text::views(out@) == all.take(i as int).map_values(|e: JsonView| todo_of(e)),
        {
            let ghost before = text::views(out@);
            let item = TodoItem {
                content: match entries[i].str_at("content") {
                    Some(s) => s.to_owned(),
                    None => String::new(),
                },
                status: parse_status(entries[i].str_at("status")),
            };
            let ghost added = item@;
            assert(added == todo_of(all[i as int]));
            out.push(item);
            assert(text::views(out@) =~= before.push(added));
            assert(all.take(i + 1).map_values(|e: JsonView| todo_of(e)) =~= all.take(
                i as int,
            ).map_values(|e: JsonView| todo_of(e)).push(added));
        }
        assert(all.take(all.len() as int) =~= all);
    }
    out
}

/// The wire name of a status.
pub open spec fn status_text(s: TodoStatus) -> Seq<char> {
    match s {
        TodoStatus::Pending => "pending"@,
        TodoStatus::InProgress => "in-progress"@,
        TodoStatus::Completed => "completed"@,
    }
}

/// A list of items as a value.
pub open spec fn todos_value(todos: Seq<TodoItemView>) -> JsonView {
    json::object_of(
        seq![
            (
                "todos"@,
                JsonView::Array(todos.map_values(|t: TodoItemView| todo_value(t))),
            ),
        ],
    )
}

/// One item as a value.
pub open spec fn todo_value(t: TodoItemView) -> JsonView {
    json::object_of(
        seq![
            ("content"@, JsonView::Text(t.content)),
            ("status"@, JsonView::Text(status_text(t.status))),
        ],
    )
}

fn todo_json(t: &TodoItem) -> (r: Json)
    ensures
        r@ == todo_value(t@),
{
    let status = match t.status {
        TodoStatus::Pending => "pending",
        TodoStatus::InProgress => "in-progress",
        TodoStatus::Completed => "completed",
    };
    let mut e = json::no_entries();
    json::put(&mut e, "content", Json::text(t.content.as_str()));
    json::put(&mut e, "status", Json::text(status));
    assert(json::json_entries(e@) =~= seq![
        ("content"@, JsonView::Text(t@.content)),
        ("status"@, JsonView::Text(status_text(t@.status))),
    ]);
    Json::object(e)
}

/// The result of a `todo_write` call that wrote `todos`.
pub open spec fn todo_result_of(todos: Seq<TodoItemView>) -> ToolExecutionResultView {
    tools::success(
        "todo list updated ("@ + text::decimal(todos.len()) + " items)"@,
        todos_value(todos),
    )
}

/// The result of a `todo_write` call that wrote `todos`.
pub fn todo_result(todos: &Vec<TodoItem>) -> (r: ToolExecutionResult)
    ensures
        r@ == todo_result_of(text::views(todos@)),
{
    let ghost all = text::views(todos@);
    let ghost as_value = |t: TodoItemView| todo_value(t);
    let mut values = json::no_values();
    for i in 0..todos.len()
        invariant
            all == text::views(todos@),
            json::json_views(values@).len() == i,
            forall|k: int|
                0 <= k < i ==> (#[trigger] json::json_views(values@)[k]) == todo_value(all[k]),
    {
        json::push_value(&mut values, todo_json(&todos[i]));
    }
    let mut e = json::no_entries();
    assert(json::json_views(values@) =~= all.map_values(as_value));
    json::put(&mut e, "todos", Json::Array(values));
    assert(json::json_entries(e@) =~= seq![("todos"@, JsonView::Array(all.map_values(as_value)))]);
    let count = decimal_text(todos.len() as u64);
    let shown = concat3("todo list updated (", count.as_str(), " items)");
    ToolExecutionResult::success_text(shown.as_str(), Json::object(e))
}

/// What a `todo_write` call finds of the agent that made it.
#[derive(Debug, PartialEq)]
pub enum TodoTarget {
    /// The call was made by no agent.
    NoAgent,
    /// There is no session service.
    NoSessions,
    /// The agent has no live session.
    NoSession { agent_id: String },
    /// The session of the agent.
    Session,
}

/// The outcome of a `todo_write` call: the list to append to the session's
/// log, and the result; or the result alone.
#[derive(Debug, PartialEq)]
pub struct TodoWrite {
    pub append: Option<Vec<TodoItem>>,
    pub result: ToolExecutionResult,
}

/// Decides a `todo_write` call.
pub fn todo_write(arguments: &Json, target: &TodoTarget) -> (r: TodoWrite)
    ensures
        match *target {
            TodoTarget::NoAgent => r.append is None && r.result@ == tools::failure(
                "NO_AGENT"@,
                "tool called without an agent"@,
            ),
            TodoTarget::NoSessions => r.append is None && r.result@ == tools::failure(
                "NO_SESSIONS"@,
                "sessions service unavailable"@,
            ),
            TodoTarget::NoSession { agent_id } => r.append is None && r.result@ == tools::failure(
                "NO_SESSION"@,
                "no live session for agent "@ + agent_id@,
            ),
            TodoTarget::Session => r.append matches Some(todos) && text::views(todos@) == todos_of(
                arguments@,
            ) && r.result@ == todo_result_of(todos_of(arguments@)),
        },
{
    match target {
        TodoTarget::NoAgent => TodoWrite {
            append: None,
            result: ToolExecutionResult::error("NO_AGENT", "tool called without an agent"),
        },
        TodoTarget::NoSessions => TodoWrite {
            append: None,
            result: ToolExecutionResult::error("NO_SESSIONS", "sessions service unavailable"),
        },
        TodoTarget::NoSession { agent_id } => {
            let message = concat2("no live session for agent ", agent_id.as_str());
            TodoWrite {
                append: None,
                result: ToolExecutionResult::error("NO_SESSION", message.as_str()),
            }
        },
        TodoTarget::Session => {
            let todos = parse_todos(arguments);
            let result = todo_result(&todos);
            TodoWrite { append: Some(todos), result }
        },
    }
}

/// Runs a `todo_write` call of an agent on the session store: replaces the
/// agent's whole list by appending it to the log of its session.
pub fn run_todo_write(
    arguments: &Json,
    agent_id: &Option<String>,
    sessions: &mut SessionStore,
) -> (r: ToolExecutionResult)
    requires
        old(sessions).well_formed(),
    ensures
        final(sessions).well_formed(),
        match *agent_id {
            None => r@ == tools::failure("NO_AGENT"@, "tool called without an agent"@)
                && final(sessions)@ == old(sessions)@,
            Some(id) => match ordered_map::lookup(old(sessions)@.sessions, id@) {
                None => r@ == tools::failure("NO_SESSION"@, "no live session for agent "@ + id@)
                    && final(sessions)@ == old(sessions)@,
                Some(s) => r@ == todo_result_of(todos_of(arguments@)) && exists|time: u64|
                    final(sessions)@ == (SessionStoreView {
                        sessions: ordered_map::inserted(
                            old(sessions)@.sessions,
                            id@,
                            #[trigger] s.appended(
                                time,
                                SessionEventDataView::TodoWrite { todos: todos_of(arguments@) },
                            ),
                        ),
                        ..old(sessions)@
                    }),
            },
        },
{
    match agent_id {
        None => todo_write(arguments, &TodoTarget::NoAgent).result,
        Some(id) => {
            let todos = parse_todos(arguments);
            let result = todo_result(&todos);
            match sessions.append(id.as_str(), SessionEventData::TodoWrite { todos }) {
                Some(_) => result,
                None => todo_write(
                    arguments,
                    &TodoTarget::NoSession { agent_id: id.clone() },
                ).result,
            }
        },
    }
}

// ---------------------------------------------------------------------------
// laws
// ---------------------------------------------------------------------------

/// Whether a result is a success whose one visible text is `shown`.
pub open spec fn shows(r: ToolExecutionResultView, shown: Seq<char>) -> bool {
    r matches ToolExecutionResultView::Success { content, .. } && content.len() == 1 && content[0]
        == (ContentBlockView::Text { text: shown })
}

/// Whether a result is a failure with that code and message, which is what is
/// shown behind `prefix`.
pub open spec fn fails(
    r: ToolExecutionResultView,
    failed: Seq<char>,
    why: Seq<char>,
    prefix: Seq<char>,
) -> bool {
    r matches ToolExecutionResultView::Error { message, code, content } && code == failed && message
        == why && content.len() == 1 && content[0] == (ContentBlockView::Text {
        text: prefix + why,
    })
}

/// A command that exited with code zero is a success. It shows what the command
/// printed, trimmed: its output alone where it wrote no errors, else the output,
/// a line that says so and the errors. Its value carries both as they were
/// written, and the code.
pub proof fn law_command_output_is_shown(
    args: BashArgsView,
    outcome: BashOutcome,
    out: Seq<char>,
    err: Seq<char>,
)
    requires
        outcome matches BashOutcome::Exited { code, stdout, stderr } && code == Some(0i32) && out
            == sse::utf8_lossy(stdout@) && err == sse::utf8_lossy(stderr@),
    ensures
        err.len() == 0 ==> shows(bash_result_of(args, outcome), text::trim(out)),
        err.len() > 0 ==> shows(
            bash_result_of(args, outcome),
            text::trim(out + "\n[stderr]\n"@ + err),
        ),
        bash_result_of(args, outcome) matches ToolExecutionResultView::Success { value, .. } ==> {
            &&& value.get("stdout"@) == Some(JsonView::Text(out))
            &&& value.get("stderr"@) == Some(JsonView::Text(err))
            &&& value.get("exit_code"@) == Some(JsonView::Number(JsonNumber::Unsigned(0)))
        },
{
    lemma_exit_value(Some(0i32), out, err);
}

proof fn lemma_exit_value(code: Option<i32>, out: Seq<char>, err: Seq<char>)
    ensures
        exit_value(code, out, err).get("stdout"@) == Some(JsonView::Text(out)),
        exit_value(code, out, err).get("stderr"@) == Some(JsonView::Text(err)),
        exit_value(code, out, err).get("exit_code"@) == Some(
            JsonView::Number(json::integer(reported_code(code))),
        ),
{
    reveal_strlit("stdout");
    reveal_strlit("stderr");
    reveal_strlit("exit_code");
    assert("stdout"@[3] != "stderr"@[3]);
    assert("exit_code"@.len() != "stdout"@.len());
    let e = seq![
        ("stdout"@, JsonView::Text(out)),
        ("stderr"@, JsonView::Text(err)),
        ("exit_code"@, JsonView::Number(json::integer(reported_code(code)))),
    ];
    json::law_object_holds_its_entries(e, 0);
    json::law_object_holds_its_entries(e, 1);
    json::law_object_holds_its_entries(e, 2);
}

/// A command that exited otherwise is a failure that says so and shows what the
/// command printed: the code, or -1 where a signal ended it, then its output,
/// then its errors.
pub proof fn law_failed_command_shows_its_output(
    args: BashArgsView,
    outcome: BashOutcome,
    out: Seq<char>,
    err: Seq<char>,
)
    requires
        outcome matches BashOutcome::Exited { code, stdout, stderr } && code != Some(0i32) && out
            == sse::utf8_lossy(stdout@) && err == sse::utf8_lossy(stderr@),
    ensures
        ({
            let shown_code: Seq<char> = match outcome->code {
                None => "-"@ + text::decimal(1),
                Some(c) => if c < 0 {
                    "-"@ + text::decimal((-c) as nat)
                } else {
                    text::decimal(c as nat)
                },
            };
            fails(
                bash_result_of(args, outcome),
                "EXIT"@,
                text::trim(
                    "command exited with code "@ + shown_code + "\n"@ + out + "\n[stderr]\n"@ + err,
                ),
                seq![],
            )
        }),
{
    let r = bash_result_of(args, outcome);
    let message = r->message;
    assert(Seq::<char>::empty() + message =~= message);
}

/// A command that did not run to its end is a failure that says why.
pub proof fn law_command_that_does_not_exit_fails(args: BashArgsView, outcome: BashOutcome)
    ensures
        match outcome {
            BashOutcome::NotSpawned { message } => fails(
                bash_result_of(args, outcome),
                "SPAWN"@,
                message@,
                "Error: "@,
            ),
            BashOutcome::Cancelled => fails(
                bash_result_of(args, outcome),
                "CANCELLED"@,
                "command cancelled: "@ + args.command,
                "Error: "@,
            ),
            BashOutcome::TimedOut => args.timeout_ms matches Some(ms) ==> fails(
                bash_result_of(args, outcome),
                "TIMEOUT"@,
                "command timed out after "@ + text::decimal(ms as nat) + "ms: "@ + args.command,
                "Error: "@,
            ),
            BashOutcome::Failed { message } => fails(
                bash_result_of(args, outcome),
                "EXEC"@,
                message@,
                "Error: "@,
            ),
            BashOutcome::Exited { code, .. } => bash_result_of(args, outcome) is Success
                <==> code == Some(0i32),
        },
{
}

/// A tool works where it is told to: in the directory that the call names, taken
/// from the working directory unless it stands on its own, else in the working
/// directory, and a search without either starts where the process runs.
pub proof fn law_tools_work_where_they_are_told(cwd: Seq<char>, path: Seq<char>)
    ensures
        work_directory(None, Some(path)) == Some(path),
        work_directory(Some(cwd), None) == Some(cwd),
        work_directory(None, None) is None,
        path.len() > 0 && path[0] == '/' ==> work_directory(Some(cwd), Some(path)) == Some(path),
        (path.len() == 0 || path[0] != '/') && cwd.len() > 0 && cwd.last() != '/'
            ==> work_directory(Some(cwd), Some(path)) == Some(cwd + seq!['/'] + path),
        (path.len() == 0 || path[0] != '/') && (cwd.len() == 0 || cwd.last() == '/')
            ==> work_directory(Some(cwd), Some(path)) == Some(cwd + path),
        search_base(None, None) == seq!['.'],
        search_base(Some(cwd), None) == cwd,
        Some(search_base(Some(cwd), Some(path))) == work_directory(Some(cwd), Some(path)),
        search_base(None, Some(path)) == path,
{
    reveal_strlit("/");
    reveal_strlit(".");
    assert("/"@ =~= seq!['/']);
    assert("."@ =~= seq!['.']);
}

/// What was read of a file is shown whole and unchanged, and its value names the
/// file. A file that cannot be read is a failure that names it.
pub proof fn law_file_is_shown_as_it_was_read(
    path: Seq<char>,
    content: Seq<char>,
    message: Seq<char>,
)
    ensures
        shows(read_result(path, Ok(content)), content),
        read_result(path, Ok(content)) matches ToolExecutionResultView::Success { value, .. } ==> {
            &&& value.get("path"@) == Some(JsonView::Text(path))
            &&& value.get("content"@) == Some(JsonView::Text(content))
        },
        fails(
            read_result(path, Err(message)),
            "READ_FAILED"@,
            "cannot read "@ + path + ": "@ + message,
            "Error: "@,
        ),
{
    reveal_strlit("path");
    reveal_strlit("content");
    assert("path"@.len() != "content"@.len());
    let e = seq![("path"@, JsonView::Text(path)), ("content"@, JsonView::Text(content))];
    json::law_object_holds_its_entries(e, 0);
    json::law_object_holds_its_entries(e, 1);
}

proof fn lemma_written_value(path: Seq<char>, bytes: usize)
    ensures
        written_value(path, bytes).get("path"@) == Some(JsonView::Text(path)),
        written_value(path, bytes).get("bytes"@) == Some(
            JsonView::Number(JsonNumber::Unsigned(bytes as u64)),
        ),
{
    reveal_strlit("path");
    reveal_strlit("bytes");
    assert("path"@.len() != "bytes"@.len());
    let e = seq![("path"@, JsonView::Text(path)), ("bytes"@, json::number_of(bytes as u64))];
    json::law_object_holds_its_entries(e, 0);
    json::law_object_holds_its_entries(e, 1);
}

/// A file that was written is a success that counts the bytes of its content
/// and names it; one that was not is a failure that names what could not be
/// made.
pub proof fn law_write_counts_bytes(path: Seq<char>, content: Seq<char>, outcome: WriteOutcome)
    requires
        vstd::utf8::encode_utf8(content).len() <= usize::MAX,
    ensures
        match outcome {
            WriteOutcome::Written => {
                let n = vstd::utf8::encode_utf8(content).len();
                let r = write_result(path, content, outcome);
                &&& shows(r, "wrote "@ + text::decimal(n) + " bytes to "@ + path)
                &&& r->value.get("path"@) == Some(JsonView::Text(path))
                &&& r->value.get("bytes"@) == Some(
                    JsonView::Number(JsonNumber::Unsigned(n as u64)),
                )
            },
            WriteOutcome::NoDirectory { parent, message } => fails(
                write_result(path, content, outcome),
                "MKDIR_FAILED"@,
                "cannot create "@ + parent@ + ": "@ + message@,
                "Error: "@,
            ),
            WriteOutcome::Failed { message } => fails(
                write_result(path, content, outcome),
                "WRITE_FAILED"@,
                "cannot write "@ + path + ": "@ + message@,
                "Error: "@,
            ),
        },
{
    lemma_written_value(path, text::byte_length(content));
}

/// An edit says which file it changed and how many bytes that holds now; one
/// that failed says why, and names the file where its text was not found.
pub proof fn law_edit_reports_the_new_size(path: Seq<char>, outcome: EditOutcome)
    ensures
        match outcome {
            EditOutcome::Written { updated } => vstd::utf8::encode_utf8(updated@).len()
                <= usize::MAX ==> {
                let r = edit_result(path, outcome);
                &&& shows(r, "edited "@ + path)
                &&& r->value.get("path"@) == Some(JsonView::Text(path))
                &&& r->value.get("bytes"@) == Some(
                    JsonView::Number(
                        JsonNumber::Unsigned(vstd::utf8::encode_utf8(updated@).len() as u64),
                    ),
                )
            },
            EditOutcome::NotFound => fails(
                edit_result(path, outcome),
                "NOT_FOUND"@,
                "old_string not found in "@ + path,
                "Error: "@,
            ),
            EditOutcome::NotRead { message } => fails(
                edit_result(path, outcome),
                "READ_FAILED"@,
                "cannot read "@ + path + ": "@ + message@,
                "Error: "@,
            ),
            EditOutcome::NotWritten { message } => fails(
                edit_result(path, outcome),
                "WRITE_FAILED"@,
                message@,
                "Error: "@,
            ),
        },
{
    if let EditOutcome::Written { updated } = outcome {
        lemma_written_value(path, text::byte_length(updated@));
    }
}

/// An edit is made exactly where its text stands in the file, and it replaces
/// that text, the first time it stands there or every time, by the new one: the
/// rest of the file stays.
pub proof fn law_edit_changes_what_it_names(
    args: EditArgsView,
    before: Seq<char>,
    after: Seq<char>,
)
    requires
        forall|i: int|
            0 <= i < before.len() ==> !text::occurs_at(
                before + args.old_string + after,
                args.old_string,
                i,
            ),
    ensures
        !args.replace_all ==> edit_of(args, before + args.old_string + after) == Some(
            before + args.new_string + after,
        ),
        args.replace_all && args.old_string.len() > 0 && !text::occurs_in(after, args.old_string)
            ==> edit_of(args, before + args.old_string + after) == Some(
            before + args.new_string + after,
        ),
        args.replace_all && args.old_string.len() > 0 && text::occurs_in(after, args.old_string)
            ==> edit_of(args, before + args.old_string + after) == Some(
            before + args.new_string + edit_of(args, after)->0,
        ),
{
    let s = before + args.old_string + after;
    assert(s.subrange(before.len() as int, (before.len() + args.old_string.len()) as int)
        =~= args.old_string);
    assert(text::occurs_at(s, args.old_string, before.len() as int));
    law_edit_replaces_first_occurrence(before, args.old_string, args.new_string, after);
    if args.old_string.len() > 0 {
        text::law_every_occurrence_is_replaced(before, args.old_string, args.new_string, after);
        if !text::occurs_in(after, args.old_string) {
            text::law_absent_text_is_not_replaced(after, args.old_string, args.new_string);
        }
    }
}

/// An edit finds its text exactly where the file holds it, in one piece.
pub proof fn law_edit_fails_only_where_its_text_is_absent(args: EditArgsView, content: Seq<char>)
    ensures
        edit_of(args, content) is Some <==> exists|before: Seq<char>, after: Seq<char>|
            content == #[trigger] (before + args.old_string + after),
{
    let p = args.old_string;
    if edit_of(args, content) is Some {
        let i = choose|i: int| text::occurs_at(content, p, i);
        let before = content.take(i);
        let after = content.skip(i + p.len());
        assert(content =~= before + content.subrange(i, i + p.len()) + after);
        assert(content == before + p + after);
    }
    if exists|before: Seq<char>, after: Seq<char>| content == #[trigger] (before + p + after) {
        let (before, after) = choose|before: Seq<char>, after: Seq<char>|
            content == #[trigger] (before + p + after);
        assert(content.subrange(before.len() as int, (before.len() + p.len()) as int) =~= p);
        assert(text::occurs_at(content, p, before.len() as int));
    }
}

/// A path is shown with forward slashes and none before it; one that has
/// neither backslashes nor a slash in front is shown as it is.
pub proof fn law_paths_are_shown_with_slashes(rel: Seq<char>)
    ensures
        shown_path(rel).len() > 0 ==> shown_path(rel)[0] != '/',
        !shown_path(rel).contains('\\'),
        !rel.contains('\\') && (rel.len() == 0 || rel[0] != '/') ==> shown_path(rel) == rel,
        slashed(rel).len() == rel.len(),
        forall|i: int|
            0 <= i < rel.len() ==> #[trigger] slashed(rel)[i] == (if rel[i] == '\\' {
                '/'
            } else {
                rel[i]
            }),
        exists|n: int|
            #![trigger slashed(rel).skip(n)]
            0 <= n <= rel.len() && shown_path(rel) == slashed(rel).skip(n) && forall|i: int|
                0 <= i < n ==> #[trigger] slashed(rel)[i] == '/',
{
    let n = lemma_leading_slashes(slashed(rel));
    assert forall|i: int| 0 <= i < shown_path(rel).len() implies shown_path(rel)[i] != '\\' by {
        assert(shown_path(rel)[i] == slashed(rel)[n + i]);
    }
    if !rel.contains('\\') {
        assert forall|i: int| 0 <= i < rel.len() implies slashed(rel)[i] == rel[i] by {
            assert(rel.contains(rel[i]));
        }
        assert(slashed(rel) =~= rel);
    }
}

proof fn lemma_leading_slashes(s: Seq<char>) -> (n: int)
    ensures
        0 <= n <= s.len(),
        without_leading_slashes(s) == s.skip(n),
        forall|i: int| 0 <= i < n ==> s[i] == '/',
        n < s.len() ==> s[n] != '/',
    decreases s.len(),
{
    if s.len() > 0 && s[0] == '/' {
        let n = lemma_leading_slashes(s.skip(1));
        assert(s.skip(1).skip(n) =~= s.skip(n + 1));
        assert forall|i: int| 0 <= i < n + 1 implies s[i] == '/' by {
            if i > 0 {
                assert(s.skip(1)[i - 1] == s[i]);
            }
        }
        n + 1
    } else {
        assert(s.skip(0) =~= s);
        0
    }
}

/// A glob lists the paths that match it, each as it is shown, in the order in
/// which they were found, and no others.
pub proof fn law_glob_lists_what_matches(
    pattern: Seq<char>,
    rels: Seq<Seq<char>>,
    rel: Seq<char>,
)
    ensures
        glob_selected(pattern, seq![]) == Seq::<Seq<char>>::empty(),
        glob_selected(pattern, rels.push(rel)) == (if matcher::glob_matches(pattern, slashed(rel)) {
            glob_selected(pattern, rels).push(shown_path(rel))
        } else {
            glob_selected(pattern, rels)
        }),
        forall|i: int|
            0 <= i < rels.len() && matcher::glob_matches(pattern, slashed(rels[i]))
                ==> glob_selected(pattern, rels).contains(#[trigger] shown_path(rels[i])),
    decreases rels.len(),
{
    assert(rels.push(rel).drop_last() =~= rels);
    if rels.len() > 0 {
        let front = rels.drop_last();
        law_glob_lists_what_matches(pattern, front, rels.last());
        assert(front.push(rels.last()) =~= rels);
        let all = glob_selected(pattern, rels);
        let some = glob_selected(pattern, front);
        assert forall|i: int|
            0 <= i < rels.len() && matcher::glob_matches(pattern, slashed(rels[i])) implies
            all.contains(#[trigger] shown_path(rels[i])) by {
            if i < front.len() {
                assert(front[i] == rels[i]);
                assert(some.contains(shown_path(front[i])));
                let k = choose|k: int| 0 <= k < some.len() && some[k] == shown_path(front[i]);
                assert(all[k] == some[k]);
            } else {
                assert(all.last() == shown_path(rels[i]));
                assert(all[all.len() - 1] == shown_path(rels[i]));
            }
        }
    }
}

/// The result of a glob shows each path on a line of its own and carries them
/// all, with their number; where there is none it says so.
pub proof fn law_glob_result_shows_every_path(pattern: Seq<char>, found: Seq<Seq<char>>)
    requires
        found.len() <= u64::MAX,
    ensures
        ({
            let r = glob_result_of(pattern, found);
            &&& found.len() == 0 ==> shows(r, "no files match "@ + pattern)
            &&& found.len() > 0 ==> shows(r, text::join(found, seq!['\n']))
            &&& r->value.get("count"@) == Some(
                JsonView::Number(JsonNumber::Unsigned(found.len() as u64)),
            )
            &&& r->value.get("matches"@) matches Some(JsonView::Array(a)) && a.len() == found.len()
                && forall|i: int|
                0 <= i < found.len() ==> #[trigger] a[i] == JsonView::Text(found[i])
        }),
{
    reveal_strlit("\n");
    assert("\n"@ =~= seq!['\n']);
    reveal_strlit("matches");
    reveal_strlit("count");
    assert("matches"@.len() != "count"@.len());
    let e = seq![
        ("matches"@, JsonView::Array(json::text_values(found))),
        ("count"@, json::number_of(found.len() as u64)),
    ];
    json::law_object_holds_its_entries(e, 0);
    json::law_object_holds_its_entries(e, 1);
}

/// The lines that a search reports of a file are those on which the pattern is
/// found, each with its number, counted from one, and its first characters.
pub proof fn law_search_reports_matching_lines(
    pattern: Seq<char>,
    path: Seq<char>,
    lines: Seq<Seq<char>>,
    line: Seq<char>,
)
    requires
        lines.len() < u64::MAX,
    ensures
        matching_lines(pattern, path, seq![]) == Seq::<GrepMatchView>::empty(),
        !regex_matches(pattern, line) ==> matching_lines(pattern, path, lines.push(line))
            == matching_lines(pattern, path, lines),
        regex_matches(pattern, line) ==> matching_lines(pattern, path, lines.push(line))
            == matching_lines(pattern, path, lines).push(
            GrepMatchView {
                path,
                line: (lines.len() + 1) as u64,
                text: if line.len() <= 300 {
                    line
                } else {
                    line.take(300)
                },
            },
        ),
{
    assert(lines.push(line).drop_last() =~= lines);
}

/// A search adds what it finds in a file to what it has found, up to the limit,
/// and looks for the same in every file that it wants: all files, or those whose
/// name matches.
pub proof fn law_search_goes_on(s: GrepView, path: Seq<char>, content: Seq<char>, name: Seq<char>)
    ensures
        ({
            let more = matching_lines(s.pattern, path, text::lines(content));
            let after = s.scanned(path, content);
            &&& after.pattern == s.pattern
            &&& after.include_glob == s.include_glob
            &&& s.found.len() + more.len() <= 500 ==> after.found == s.found + more
            &&& s.found.len() + more.len() > 500 ==> after.found == (s.found + more).take(500)
        }),
        s.include_glob is None ==> s.wants(name),
        s.include_glob matches Some(glob) ==> s.wants(name) == matcher::glob_matches(glob, name),
{
}

/// The result of a search shows each match on a line of its own, with its file
/// and line number, and carries them all; where there is none it says so.
pub proof fn law_search_result_shows_every_match(s: GrepView)
    ensures
        s.found.len() == 0 ==> shows(s.result(), "no matches for "@ + s.pattern),
        s.found.len() > 0 ==> shows(
            s.result(),
            text::join(
                Seq::new(
                    s.found.len(),
                    |i: int|
                        s.found[i].path + seq![':'] + text::decimal(s.found[i].line as nat)
                            + seq![':'] + s.found[i].text,
                ),
                seq!['\n'],
            ),
        ),
        s.result()->value matches JsonView::Array(a) && a.len() == s.found.len() && forall|i: int|
            0 <= i < a.len() ==> {
                &&& (#[trigger] a[i]).get("path"@) == Some(JsonView::Text(s.found[i].path))
                &&& a[i].get("line"@) == Some(
                    JsonView::Number(JsonNumber::Unsigned(s.found[i].line)),
                )
                &&& a[i].get("text"@) == Some(JsonView::Text(s.found[i].text))
            },
{
    reveal_strlit("\n");
    reveal_strlit(":");
    assert("\n"@ =~= seq!['\n']);
    assert(":"@ =~= seq![':']);
    assert(s.found.map_values(|m: GrepMatchView| shown_match(m)) =~= Seq::new(
        s.found.len(),
        |i: int|
            s.found[i].path + seq![':'] + text::decimal(s.found[i].line as nat) + seq![':']
                + s.found[i].text,
    ));
    let a = s.found.map_values(|m: GrepMatchView| match_value(m));
    assert forall|i: int| 0 <= i < a.len() implies {
        &&& (#[trigger] a[i]).get("path"@) == Some(JsonView::Text(s.found[i].path))
        &&& a[i].get("line"@) == Some(JsonView::Number(JsonNumber::Unsigned(s.found[i].line)))
        &&& a[i].get("text"@) == Some(JsonView::Text(s.found[i].text))
    } by {
        lemma_match_value(s.found[i]);
    }
}

proof fn lemma_match_value(m: GrepMatchView)
    ensures
        match_value(m).get("path"@) == Some(JsonView::Text(m.path)),
        match_value(m).get("line"@) == Some(JsonView::Number(JsonNumber::Unsigned(m.line))),
        match_value(m).get("text"@) == Some(JsonView::Text(m.text)),
{
    reveal_strlit("path");
    reveal_strlit("line");
    reveal_strlit("text");
    assert("path"@[0] != "line"@[0] && "path"@[0] != "text"@[0] && "line"@[0] != "text"@[0]);
    let e = seq![
        ("path"@, JsonView::Text(m.path)),
        ("line"@, json::number_of(m.line)),
        ("text"@, JsonView::Text(m.text)),
    ];
    json::law_object_holds_its_entries(e, 0);
    json::law_object_holds_its_entries(e, 1);
    json::law_object_holds_its_entries(e, 2);
}

/// The list that a call asks for has an item for each entry of `todos`, in
/// order: its content, and the status it names; one that names no other is
/// pending.
pub proof fn law_every_todo_is_read(arguments: JsonView, entries: Seq<JsonView>, i: int)
    requires
        arguments.get("todos"@) == Some(JsonView::Array(entries)),
        0 <= i < entries.len(),
    ensures
        todos_of(arguments).len() == entries.len(),
        entries[i].get("content"@) matches Some(JsonView::Text(s)) ==> todos_of(
            arguments,
        )[i].content == s,
        entries[i].get("status"@) == Some(JsonView::Text("in_progress"@)) ==> todos_of(
            arguments,
        )[i].status == TodoStatus::InProgress,
        entries[i].get("status"@) == Some(JsonView::Text("completed"@)) ==> todos_of(
            arguments,
        )[i].status == TodoStatus::Completed,
        entries[i].get("status"@) == Some(JsonView::Text("pending"@)) || entries[i].get(
            "status"@,
        ) is None ==> todos_of(arguments)[i].status == TodoStatus::Pending,
{
    reveal_strlit("in_progress");
    reveal_strlit("completed");
    reveal_strlit("pending");
    assert("in_progress"@.len() == 11 && "completed"@.len() == 9 && "pending"@.len() == 7);
}

/// The result of a call that wrote a list counts its items and carries each
/// with its content and status.
pub proof fn law_written_todos_are_reported(todos: Seq<TodoItemView>, i: int)
    requires
        0 <= i < todos.len(),
    ensures
        shows(
            todo_result_of(todos),
            "todo list updated ("@ + text::decimal(todos.len()) + " items)"@,
        ),
        todo_result_of(todos)->value.get("todos"@) matches Some(JsonView::Array(a)) && a.len()
            == todos.len() && a[i].get("content"@) == Some(JsonView::Text(todos[i].content))
            && a[i].get("status"@) == Some(
            JsonView::Text(
                match todos[i].status {
                    TodoStatus::Pending => "pending"@,
                    TodoStatus::InProgress => "in-progress"@,
                    TodoStatus::Completed => "completed"@,
                },
            ),
        ),
{
    reveal_strlit("content");
    reveal_strlit("status");
    assert("content"@.len() != "status"@.len());
    let a = todos.map_values(|t: TodoItemView| todo_value(t));
    let e = seq![("todos"@, JsonView::Array(a))];
    json::law_object_holds_its_entries(e, 0);
    let f = seq![
        ("content"@, JsonView::Text(todos[i].content)),
        ("status"@, JsonView::Text(status_text(todos[i].status))),
    ];
    json::law_object_holds_its_entries(f, 0);
    json::law_object_holds_its_entries(f, 1);
}

/// Whether a tool tells the model of an argument of that name and kind.
pub open spec fn takes(tool: ToolDefinitionView, name: Seq<char>, kind: Seq<char>) -> bool {
    &&& tool.parameters.get("type"@) == Some(JsonView::Text("object"@))
    &&& tool.parameters.get("properties"@) matches Some(properties)
    &&& properties.get(name) matches Some(argument)
    &&& argument.get("type"@) == Some(JsonView::Text(kind))
}

/// Whether a tool has exactly those arguments as the ones that it must be given.
pub open spec fn demands(tool: ToolDefinitionView, names: Seq<Seq<char>>) -> bool {
    tool.parameters.get("required"@) matches Some(JsonView::Array(values)) && values.len()
        == names.len() && forall|i: int|
        0 <= i < names.len() ==> #[trigger] values[i] == JsonView::Text(names[i])
}

proof fn lemma_schema_keys_differ()
    ensures
        "type"@ != "properties"@,
        "type"@ != "required"@,
        "properties"@ != "required"@,
        "type"@ != "description"@,
        "type"@ != "items"@,
        "type"@ != "enum"@,
{
    reveal_strlit("type");
    reveal_strlit("properties");
    reveal_strlit("required");
    reveal_strlit("description");
    reveal_strlit("items");
    reveal_strlit("enum");
    assert("type"@.len() == 4);
    assert("properties"@.len() == 10);
    assert("required"@.len() == 8);
    assert("description"@.len() == 11);
    assert("items"@.len() == 5);
    assert("type"@[0] != "enum"@[0]);
}

proof fn lemma_schema(properties: Seq<(Seq<char>, JsonView)>, required: Seq<Seq<char>>)
    ensures
        ({
            let schema = object_schema(properties, required);
            &&& schema.get("type"@) == Some(JsonView::Text("object"@))
            &&& schema.get("properties"@) == Some(json::object_of(properties))
            &&& schema.get("required"@) == Some(JsonView::Array(json::text_values(required)))
        }),
{
    lemma_schema_keys_differ();
    let e = seq![
        ("type"@, JsonView::Text("object"@)),
        ("properties"@, json::object_of(properties)),
        ("required"@, JsonView::Array(json::text_values(required))),
    ];
    json::law_object_holds_its_entries(e, 0);
    json::law_object_holds_its_entries(e, 1);
    json::law_object_holds_its_entries(e, 2);
}

proof fn lemma_argument(kind: Seq<char>, description: Seq<char>)
    ensures
        argument_schema(kind, description).get("type"@) == Some(JsonView::Text(kind)),
        argument_schema(kind, description).get("description"@) == Some(
            JsonView::Text(description),
        ),
{
    lemma_schema_keys_differ();
    let e = seq![("type"@, JsonView::Text(kind)), ("description"@, JsonView::Text(description))];
    json::law_object_holds_its_entries(e, 0);
    json::law_object_holds_its_entries(e, 1);
}

/// The `bash` tool takes a command, which it must be given, and may be told how
/// long it may run and where.
pub proof fn law_bash_takes_a_command()
    ensures
        bash_definition().name == "bash"@,
        takes(bash_definition(), "command"@, "string"@),
        takes(bash_definition(), "timeout_ms"@, "integer"@),
        takes(bash_definition(), "cwd"@, "string"@),
        demands(bash_definition(), seq!["command"@]),
{
    reveal_strlit("command");
    reveal_strlit("timeout_ms");
    reveal_strlit("cwd");
    assert("command"@.len() == 7);
    assert("timeout_ms"@.len() == 10);
    assert("cwd"@.len() == 3);
    let a = "The shell command to execute."@;
    let b = "Optional timeout in milliseconds."@;
    let c = "Optional working directory."@;
    let e = seq![
        ("command"@, argument_schema("string"@, a)),
        ("timeout_ms"@, argument_schema("integer"@, b)),
        ("cwd"@, argument_schema("string"@, c)),
    ];
    lemma_schema(e, seq!["command"@]);
    lemma_argument("string"@, a);
    lemma_argument("integer"@, b);
    lemma_argument("string"@, c);
    json::law_object_holds_its_entries(e, 0);
    json::law_object_holds_its_entries(e, 1);
    json::law_object_holds_its_entries(e, 2);
}

/// The file tools take the path of a file, and what they need to write or to
/// change there, all of which they must be given; only whether every occurrence
/// is replaced may be left out.
pub proof fn law_file_tools_take_a_path()
    ensures
        read_file_definition().name == "read_file"@,
        takes(read_file_definition(), "path"@, "string"@),
        demands(read_file_definition(), seq!["path"@]),
        write_file_definition().name == "write_file"@,
        takes(write_file_definition(), "path"@, "string"@),
        takes(write_file_definition(), "content"@, "string"@),
        demands(write_file_definition(), seq!["path"@, "content"@]),
        edit_file_definition().name == "edit_file"@,
        takes(edit_file_definition(), "path"@, "string"@),
        takes(edit_file_definition(), "old_string"@, "string"@),
        takes(edit_file_definition(), "new_string"@, "string"@),
        takes(edit_file_definition(), "replace_all"@, "boolean"@),
        demands(edit_file_definition(), seq!["path"@, "old_string"@, "new_string"@]),
{
    reveal_strlit("path");
    reveal_strlit("content");
    reveal_strlit("old_string");
    reveal_strlit("new_string");
    reveal_strlit("replace_all");
    assert("path"@.len() == 4);
    assert("content"@.len() == 7);
    assert("old_string"@.len() == 10);
    assert("new_string"@.len() == 10);
    assert("replace_all"@.len() == 11);
    assert("old_string"@[0] != "new_string"@[0]);
    let r = seq![("path"@, argument_schema("string"@, "Path of the file to read."@))];
    lemma_schema(r, seq!["path"@]);
    lemma_argument("string"@, "Path of the file to read."@);
    json::law_object_holds_its_entries(r, 0);
    let w = seq![
        ("path"@, argument_schema("string"@, "Path of the file to write."@)),
        ("content"@, argument_schema("string"@, "Full new content of the file."@)),
    ];
    lemma_schema(w, seq!["path"@, "content"@]);
    lemma_argument("string"@, "Path of the file to write."@);
    lemma_argument("string"@, "Full new content of the file."@);
    json::law_object_holds_its_entries(w, 0);
    json::law_object_holds_its_entries(w, 1);
    let e = seq![
        ("path"@, argument_schema("string"@, "Path of the file to edit."@)),
        ("old_string"@, argument_schema("string"@, "Text to find."@)),
        ("new_string"@, argument_schema("string"@, "Replacement text."@)),
        ("replace_all"@, argument_schema("boolean"@, "Replace every occurrence (default false)."@)),
    ];
    lemma_schema(e, seq!["path"@, "old_string"@, "new_string"@]);
    lemma_argument("string"@, "Path of the file to edit."@);
    lemma_argument("string"@, "Text to find."@);
    lemma_argument("string"@, "Replacement text."@);
    lemma_argument("boolean"@, "Replace every occurrence (default false)."@);
    json::law_object_holds_its_entries(e, 0);
    json::law_object_holds_its_entries(e, 1);
    json::law_object_holds_its_entries(e, 2);
    json::law_object_holds_its_entries(e, 3);
}

/// The search tools take a pattern, which they must be given, and may be told
/// where to search and, for `grep`, in which files.
pub proof fn law_search_tools_take_a_pattern()
    ensures
        glob_definition().name == "glob"@,
        takes(glob_definition(), "pattern"@, "string"@),
        takes(glob_definition(), "path"@, "string"@),
        demands(glob_definition(), seq!["pattern"@]),
        grep_definition().name == "grep"@,
        takes(grep_definition(), "pattern"@, "string"@),
        takes(grep_definition(), "path"@, "string"@),
        takes(grep_definition(), "include"@, "string"@),
        demands(grep_definition(), seq!["pattern"@]),
{
    reveal_strlit("pattern");
    reveal_strlit("path");
    reveal_strlit("include");
    assert("pattern"@.len() == 7);
    assert("path"@.len() == 4);
    assert("pattern"@[0] != "include"@[0]);
    assert("include"@.len() == 7);
    let g = seq![
        ("pattern"@, argument_schema("string"@, "Glob pattern; ** crosses directories."@)),
        ("path"@, argument_schema("string"@, "Base directory (default: cwd)."@)),
    ];
    lemma_schema(g, seq!["pattern"@]);
    lemma_argument("string"@, "Glob pattern; ** crosses directories."@);
    lemma_argument("string"@, "Base directory (default: cwd)."@);
    json::law_object_holds_its_entries(g, 0);
    json::law_object_holds_its_entries(g, 1);
    let s = seq![
        ("pattern"@, argument_schema("string"@, "Regular expression to search for."@)),
        ("path"@, argument_schema("string"@, "File or directory to search (default: cwd)."@)),
        ("include"@, argument_schema("string"@, "Optional glob filter over file names."@)),
    ];
    lemma_schema(s, seq!["pattern"@]);
    lemma_argument("string"@, "Regular expression to search for."@);
    lemma_argument("string"@, "File or directory to search (default: cwd)."@);
    lemma_argument("string"@, "Optional glob filter over file names."@);
    json::law_object_holds_its_entries(s, 0);
    json::law_object_holds_its_entries(s, 1);
    json::law_object_holds_its_entries(s, 2);
}

/// The `todo_write` tool takes a list of items, each of which must say what is
/// to be done and may say how far it is, in one of three words.
pub proof fn law_todo_tool_takes_a_list()
    ensures
        todo_write_definition().name == "todo_write"@,
        takes(todo_write_definition(), "todos"@, "array"@),
        demands(todo_write_definition(), seq!["todos"@]),
        ({
            let item = ToolDefinitionView {
                parameters: todo_item_schema(),
                ..todo_write_definition()
            };
            &&& takes(item, "content"@, "string"@)
            &&& takes(item, "status"@, "string"@)
            &&& demands(item, seq!["content"@])
        }),
        ({
            let properties = todo_write_definition().parameters.get("properties"@)->0;
            properties.get("todos"@)->0.get("items"@) == Some(todo_item_schema())
        }),
        ({
            let properties = todo_item_schema().get("properties"@)->0;
            properties.get("status"@)->0.get("enum"@) == Some(
                JsonView::Array(
                    seq![
                        JsonView::Text("pending"@),
                        JsonView::Text("in_progress"@),
                        JsonView::Text("completed"@),
                    ],
                ),
            )
        }),
{
    lemma_schema_keys_differ();
    reveal_strlit("content");
    reveal_strlit("status");
    assert("content"@.len() == 7);
    assert("status"@.len() == 6);
    let words = seq!["pending"@, "in_progress"@, "completed"@];
    assert(json::text_values(words) =~= seq![
        JsonView::Text("pending"@),
        JsonView::Text("in_progress"@),
        JsonView::Text("completed"@),
    ]);
    let c = seq![("type"@, JsonView::Text("string"@))];
    json::law_object_holds_its_entries(c, 0);
    let s = seq![
        ("type"@, JsonView::Text("string"@)),
        ("enum"@, JsonView::Array(json::text_values(words))),
    ];
    json::law_object_holds_its_entries(s, 0);
    json::law_object_holds_its_entries(s, 1);
    let i = seq![("content"@, json::object_of(c)), ("status"@, json::object_of(s))];
    lemma_schema(i, seq!["content"@]);
    json::law_object_holds_its_entries(i, 0);
    json::law_object_holds_its_entries(i, 1);
    let l = seq![("type"@, JsonView::Text("array"@)), ("items"@, todo_item_schema())];
    json::law_object_holds_its_entries(l, 0);
    json::law_object_holds_its_entries(l, 1);
    let t = seq![("todos"@, json::object_of(l))];
    lemma_schema(t, seq!["todos"@]);
    json::law_object_holds_its_entries(t, 0);
}

/// Registering the built-in tools makes each of them known under its name, with
/// a body that no other of them has, and leaves every other tool as it was.
pub proof fn law_builtin_tools_are_registered(r: ToolRegistryView, name: Seq<char>)
    ensures
        ({
            let now = with_builtin_tools(r);
            &&& now.guards == r.guards
            &&& ordered_map::lookup(now.tools, "bash"@) matches Some(t) && t.body == BASH_BODY
                && t.name == "bash"@
            &&& ordered_map::lookup(now.tools, "read_file"@) matches Some(t) && t.body
                == READ_FILE_BODY && t.name == "read_file"@
            &&& ordered_map::lookup(now.tools, "write_file"@) matches Some(t) && t.body
                == WRITE_FILE_BODY && t.name == "write_file"@
            &&& ordered_map::lookup(now.tools, "edit_file"@) matches Some(t) && t.body
                == EDIT_FILE_BODY && t.name == "edit_file"@
            &&& ordered_map::lookup(now.tools, "glob"@) matches Some(t) && t.body == GLOB_BODY
                && t.name == "glob"@
            &&& ordered_map::lookup(now.tools, "grep"@) matches Some(t) && t.body == GREP_BODY
                && t.name == "grep"@
            &&& ordered_map::lookup(now.tools, "todo_write"@) matches Some(t) && t.body
                == TODO_WRITE_BODY && t.name == "todo_write"@
            &&& name != "bash"@ && name != "read_file"@ && name != "write_file"@ && name
                != "edit_file"@ && name != "glob"@ && name != "grep"@ && name != "todo_write"@
                ==> ordered_map::lookup(now.tools, name) == ordered_map::lookup(r.tools, name)
        }),
        BASH_BODY < READ_FILE_BODY < WRITE_FILE_BODY < EDIT_FILE_BODY,
        EDIT_FILE_BODY < GLOB_BODY < GREP_BODY < TODO_WRITE_BODY,
{
    reveal_strlit("bash");
    reveal_strlit("read_file");
    reveal_strlit("write_file");
    reveal_strlit("edit_file");
    reveal_strlit("glob");
    reveal_strlit("grep");
    reveal_strlit("todo_write");
    assert("bash"@.len() == 4 && "glob"@.len() == 4 && "grep"@.len() == 4);
    assert("read_file"@.len() == 9 && "edit_file"@.len() == 9);
    assert("write_file"@.len() == 10 && "todo_write"@.len() == 10);
    assert("bash"@[0] == 'b' && "glob"@[1] == 'l' && "grep"@[1] == 'r' && "glob"@[0] == 'g'
        && "grep"@[0] == 'g');
    assert("read_file"@[0] != "edit_file"@[0]);
    assert("write_file"@[0] != "todo_write"@[0]);
    lemma_tools_stay(r, "bash"@);
    lemma_tools_stay(r, "read_file"@);
    lemma_tools_stay(r, "write_file"@);
    lemma_tools_stay(r, "edit_file"@);
    lemma_tools_stay(r, "glob"@);
    lemma_tools_stay(r, "grep"@);
    lemma_tools_stay(r, "todo_write"@);
    lemma_tools_stay(r, name);
}

proof fn lemma_tools_stay(r: ToolRegistryView, name: Seq<char>)
    ensures
        ordered_map::lookup(with_builtin_tools(r).tools, name) == (if name == "todo_write"@ {
            Some(todo_write_definition())
        } else if name == "grep"@ {
            Some(grep_definition())
        } else if name == "glob"@ {
            Some(glob_definition())
        } else if name == "edit_file"@ {
            Some(edit_file_definition())
        } else if name == "write_file"@ {
            Some(write_file_definition())
        } else if name == "read_file"@ {
            Some(read_file_definition())
        } else if name == "bash"@ {
            Some(bash_definition())
        } else {
            ordered_map::lookup(r.tools, name)
        }),
        with_builtin_tools(r).guards == r.guards,
{
    let a = with_tool(r, bash_definition());
    let b = with_tool(a, read_file_definition());
    let c = with_tool(b, write_file_definition());
    let d = with_tool(c, edit_file_definition());
    let e = with_tool(d, glob_definition());
    let f = with_tool(e, grep_definition());
    ordered_map::law_insert_then_lookup(r.tools, "bash"@, bash_definition(), name);
    ordered_map::law_insert_then_lookup(a.tools, "read_file"@, read_file_definition(), name);
    ordered_map::law_insert_then_lookup(b.tools, "write_file"@, write_file_definition(), name);
    ordered_map::law_insert_then_lookup(c.tools, "edit_file"@, edit_file_definition(), name);
    ordered_map::law_insert_then_lookup(d.tools, "glob"@, glob_definition(), name);
    ordered_map::law_insert_then_lookup(e.tools, "grep"@, grep_definition(), name);
    ordered_map::law_insert_then_lookup(f.tools, "todo_write"@, todo_write_definition(), name);
}

} // verus!
