//! Dynamically loaded plugins, as the host sees them.
//!
//! A plugin is a library that declares tools and answers calls in JSON. Loading
//! the library and calling into it are left to the host's caller; what is made
//! of each outcome is decided here.

use crate::json;
use crate::json::Json;
use crate::llm::sse::lossy_text;
use crate::plugin::contract::ABI_VERSION;
use crate::text;
use crate::text::{clone_vec, concat2, concat3, concat4, decimal_text, str_eq};
use crate::tools::registry::{ToolDefinition, ToolRegistry};
use crate::types::tools::ToolExecutionResult;
use vstd::prelude::*;

#[allow(unused_imports)]
use crate::json::JsonView;
#[allow(unused_imports)]
use crate::llm::sse;
#[allow(unused_imports)]
use crate::ordered_map;
#[allow(unused_imports)]
use crate::tools::registry::{ToolDefinitionView, ToolRegistryView};
#[allow(unused_imports)]
use crate::types::tools;
#[allow(unused_imports)]
use crate::types::tools::ToolExecutionResultView;

verus! {

/// Why a dynamic plugin could not be loaded or driven.
#[derive(Debug, PartialEq)]
pub enum DynamicPluginError {
    /// The library could not be opened.
    Open { path: String, source: String },
    /// The library exports no table.
    Symbol { path: String, source: String },
    /// The table is null.
    NullTable { path: String },
    /// The table is of another version.
    AbiMismatch { path: String, actual: u32, expected: u32 },
    /// The declaration cannot be read.
    BadDeclaration { message: String },
    /// A call into the library failed.
    Call { message: String },
}

/// What a [`DynamicPluginError`] says.
#[verifier::ext_equal]
pub enum DynamicPluginErrorView {
    Open { path: Seq<char>, source: Seq<char> },
    Symbol { path: Seq<char>, source: Seq<char> },
    NullTable { path: Seq<char> },
    AbiMismatch { path: Seq<char>, actual: u32, expected: u32 },
    BadDeclaration { message: Seq<char> },
    Call { message: Seq<char> },
}

impl View for DynamicPluginError {
    type V = DynamicPluginErrorView;

    open spec fn view(&self) -> DynamicPluginErrorView {
        match *self {
            DynamicPluginError::Open { path, source } => DynamicPluginErrorView::Open { path: path@, source: source@ },
            DynamicPluginError::Symbol { path, source } => DynamicPluginErrorView::Symbol { path: path@, source: source@ },
            DynamicPluginError::NullTable { path } => DynamicPluginErrorView::NullTable { path: path@ },
            DynamicPluginError::AbiMismatch { path, actual, expected } => DynamicPluginErrorView::AbiMismatch { path: path@, actual, expected },
            DynamicPluginError::BadDeclaration { message } => DynamicPluginErrorView::BadDeclaration { message: message@ },
            DynamicPluginError::Call { message } => DynamicPluginErrorView::Call { message: message@ },
        }
    }
}

impl Clone for DynamicPluginError {
    fn clone(&self) -> (r: Self)
        ensures
            r@ == self@,
    {
        match self {
            DynamicPluginError::Open { path, source } => DynamicPluginError::Open { path: path.clone(), source: source.clone() },
            DynamicPluginError::Symbol { path, source } => DynamicPluginError::Symbol { path: path.clone(), source: source.clone() },
            DynamicPluginError::NullTable { path } => DynamicPluginError::NullTable { path: path.clone() },
            DynamicPluginError::AbiMismatch { path, actual, expected } => DynamicPluginError::AbiMismatch { path: path.clone(), actual: *actual, expected: *expected },
            DynamicPluginError::BadDeclaration { message } => DynamicPluginError::BadDeclaration { message: message.clone() },
            DynamicPluginError::Call { message } => DynamicPluginError::Call { message: message.clone() },
        }
    }
}

/// How an error is reported.
pub open spec fn plugin_error_text(e: DynamicPluginErrorView) -> Seq<char> {
    match e {
        DynamicPluginErrorView::Open { path, source } => "cannot open "@ + path + ": "@ + source,
        DynamicPluginErrorView::Symbol { path, source } => "symbol `dsh_plugin_exports` missing in "@
            + path + ": "@ + source,
        DynamicPluginErrorView::NullTable { path } => "plugin "@ + path
            + " exported a null export table"@,
        DynamicPluginErrorView::AbiMismatch { path, actual, expected } => "plugin "@ + path
            + " speaks ABI v"@ + text::decimal(actual as nat) + ", host expects v"@
            + text::decimal(expected as nat) + " (recompile the plugin)"@,
        DynamicPluginErrorView::BadDeclaration { message } => "bad plugin declaration: "@ + message,
        DynamicPluginErrorView::Call { message } => "plugin call failed: "@ + message,
    }
}

impl DynamicPluginError {
    /// Reports the error.
    pub fn display(&self) -> (r: String)
        ensures
            r@ == plugin_error_text(self@),
    {
        match self {
            DynamicPluginError::Open { path, source } => concat4(
                "cannot open ",
                path.as_str(),
                ": ",
                source.as_str(),
            ),
            DynamicPluginError::Symbol { path, source } => concat4(
                "symbol `dsh_plugin_exports` missing in ",
                path.as_str(),
                ": ",
                source.as_str(),
            ),
            DynamicPluginError::NullTable { path } => concat3(
                "plugin ",
                path.as_str(),
                " exported a null export table",
            ),
            DynamicPluginError::AbiMismatch { path, actual, expected } => {
                let a = decimal_text(*actual as u64);
                let e = decimal_text(*expected as u64);
                let lead = concat4("plugin ", path.as_str(), " speaks ABI v", a.as_str());
                concat4(
                    lead.as_str(),
                    ", host expects v",
                    e.as_str(),
                    " (recompile the plugin)",
                )
            },
            DynamicPluginError::BadDeclaration { message } => concat2(
                "bad plugin declaration: ",
                message.as_str(),
            ),
            DynamicPluginError::Call { message } => concat2(
                "plugin call failed: ",
                message.as_str(),
            ),
        }
    }
}

/// One tool that a dynamic plugin declares.
#[derive(Debug, PartialEq)]
pub struct DynamicToolDecl {
    pub name: String,
    pub description: String,
    pub parameters: Json,
    /// The operation that the tool calls.
    pub exec_id: String,
}

/// What a [`DynamicToolDecl`] says.
#[verifier::ext_equal]
pub struct DynamicToolDeclView {
    pub name: Seq<char>,
    pub description: Seq<char>,
    pub parameters: JsonView,
    pub exec_id: Seq<char>,
}

impl View for DynamicToolDecl {
    type V = DynamicToolDeclView;

    open spec fn view(&self) -> DynamicToolDeclView {
        DynamicToolDeclView {
            name: self.name@,
            description: self.description@,
            parameters: self.parameters@,
            exec_id: self.exec_id@,
        }
    }
}

impl Clone for DynamicToolDecl {
    fn clone(&self) -> (r: Self)
        ensures
            r@ == self@,
    {
        DynamicToolDecl {
            name: self.name.clone(),
            description: self.description.clone(),
            parameters: self.parameters.clone(),
            exec_id: self.exec_id.clone(),
        }
    }
}

/// What a dynamic plugin declares.
#[derive(Debug, PartialEq)]
pub struct DynamicDeclaration {
    /// Names of the services that it requires.
    pub inject: Vec<String>,
    pub tools: Vec<DynamicToolDecl>,
}

/// What a [`DynamicDeclaration`] says.
#[verifier::ext_equal]
pub struct DynamicDeclarationView {
    pub inject: Seq<Seq<char>>,
    pub tools: Seq<DynamicToolDeclView>,
}

impl View for DynamicDeclaration {
    type V = DynamicDeclarationView;

    open spec fn view(&self) -> DynamicDeclarationView {
        DynamicDeclarationView {
            inject: text::views(self.inject@),
            tools: text::views(self.tools@),
        }
    }
}

impl Clone for DynamicDeclaration {
    fn clone(&self) -> (r: Self)
        ensures
            r@ == self@,
    {
        DynamicDeclaration {
            inject: clone_vec(&self.inject),
            tools: clone_vec(&self.tools),
        }
    }
}

impl Default for DynamicDeclaration {
    fn default() -> (r: Self)
        ensures
            r@ == (DynamicDeclarationView { inject: seq![], tools: seq![] }),
    {
        let r = DynamicDeclaration { inject: Vec::new(), tools: Vec::new() };
        assert(r@ =~= (DynamicDeclarationView { inject: seq![], tools: seq![] }));
        r
    }
}

/// A loaded dynamic plugin.
#[derive(Debug, PartialEq)]
pub struct DynamicPlugin {
    pub name: String,
    pub declaration: DynamicDeclaration,
}

/// What a [`DynamicPlugin`] says.
#[verifier::ext_equal]
pub struct DynamicPluginView {
    pub name: Seq<char>,
    pub declaration: DynamicDeclarationView,
}

impl View for DynamicPlugin {
    type V = DynamicPluginView;

    open spec fn view(&self) -> DynamicPluginView {
        DynamicPluginView {
            name: self.name@,
            declaration: self.declaration@,
        }
    }
}

impl Clone for DynamicPlugin {
    fn clone(&self) -> (r: Self)
        ensures
            r@ == self@,
    {
        DynamicPlugin {
            name: self.name.clone(),
            declaration: self.declaration.clone(),
        }
    }
}

// ---------------------------------------------------------------------------
// loading
// ---------------------------------------------------------------------------

/// What checking a library's table comes to: its version, where there is a
/// table.
pub open spec fn table_checked(path: Seq<char>, abi: Option<u32>) -> Result<
    (),
    DynamicPluginErrorView,
> {
    match abi {
        None => Err(DynamicPluginErrorView::NullTable { path }),
        Some(actual) => if actual == ABI_VERSION {
            Ok(())
        } else {
            Err(DynamicPluginErrorView::AbiMismatch { path, actual, expected: ABI_VERSION })
        },
    }
}

/// Whether a table may be called into: it is there, and of the host's version.
pub fn check_table(path: &str, abi: Option<u32>) -> (r: Result<(), DynamicPluginError>)
    ensures
        match r {
            Ok(_) => table_checked(path@, abi) is Ok,
            Err(e) => table_checked(path@, abi) == Err::<(), DynamicPluginErrorView>(e@),
        },
{
    match abi {
        None => Err(DynamicPluginError::NullTable { path: path.to_owned() }),
        Some(actual) => if actual == ABI_VERSION {
            Ok(())
        } else {
            Err(
                DynamicPluginError::AbiMismatch {
                    path: path.to_owned(),
                    actual,
                    expected: ABI_VERSION,
                },
            )
        },
    }
}

/// How far loading a library came.
#[derive(Debug)]
pub enum LoadOutcome {
    /// It could not be opened.
    NotOpened { source: String },
    /// It exports no table.
    NoSymbol { source: String },
    /// Its table was not called into: it is null, or of another version.
    Rejected { abi: Option<u32> },
    /// Setting it up gave nothing.
    NotSetUp,
    /// Its declaration did not fit the buffer.
    NotDescribed,
    /// It wrote its name, and its declaration was read, or why it was not.
    Described { name: Vec<u8>, declaration: Result<DynamicDeclaration, String> },
}

/// The plugin that a library turns out to be, or why it is none.
pub open spec fn loaded(path: Seq<char>, outcome: LoadOutcome) -> Result<
    DynamicPluginView,
    DynamicPluginErrorView,
> {
    match outcome {
        LoadOutcome::NotOpened { source } => Err(
            DynamicPluginErrorView::Open { path, source: source@ },
        ),
        LoadOutcome::NoSymbol { source } => Err(
            DynamicPluginErrorView::Symbol { path, source: source@ },
        ),
        LoadOutcome::Rejected { abi: None } => Err(DynamicPluginErrorView::NullTable { path }),
        LoadOutcome::Rejected { abi: Some(actual) } => Err(
            DynamicPluginErrorView::AbiMismatch { path, actual, expected: ABI_VERSION },
        ),
        LoadOutcome::NotSetUp => Err(
            DynamicPluginErrorView::Call { message: "plugin setup returned null"@ },
        ),
        LoadOutcome::NotDescribed => Err(
            DynamicPluginErrorView::Call {
                message: "describe reported a buffer-too-small error"@,
            },
        ),
        LoadOutcome::Described { name, declaration } => match declaration {
            Ok(d) => Ok(DynamicPluginView { name: sse::utf8_lossy(name@), declaration: d@ }),
            Err(m) => Err(DynamicPluginErrorView::BadDeclaration { message: m@ }),
        },
    }
}

/// Makes a plugin of what loading a library came to.
pub fn load_dynamic_plugin(path: &str, outcome: LoadOutcome) -> (r: Result<
    DynamicPlugin,
    DynamicPluginError,
>)
    ensures
        match r {
            Ok(p) => loaded(path@, outcome) == Ok::<DynamicPluginView, DynamicPluginErrorView>(p@),
            Err(e) => loaded(path@, outcome) == Err::<DynamicPluginView, DynamicPluginErrorView>(
                e@,
            ),
        },
{
    match outcome {
        LoadOutcome::NotOpened { source } => Err(
            DynamicPluginError::Open { path: path.to_owned(), source },
        ),
        LoadOutcome::NoSymbol { source } => Err(
            DynamicPluginError::Symbol { path: path.to_owned(), source },
        ),
        LoadOutcome::Rejected { abi } => match abi {
            None => Err(DynamicPluginError::NullTable { path: path.to_owned() }),
            Some(actual) => Err(
                DynamicPluginError::AbiMismatch {
                    path: path.to_owned(),
                    actual,
                    expected: ABI_VERSION,
                },
            ),
        },
        LoadOutcome::NotSetUp => Err(
            DynamicPluginError::Call { message: "plugin setup returned null".to_owned() },
        ),
        LoadOutcome::NotDescribed => Err(
            DynamicPluginError::Call {
                message: "describe reported a buffer-too-small error".to_owned(),
            },
        ),
        LoadOutcome::Described { name, declaration } => match declaration {
            Ok(d) => Ok(DynamicPlugin { name: lossy_text(&name), declaration: d }),
            Err(m) => Err(DynamicPluginError::BadDeclaration { message: m }),
        },
    }
}

// ---------------------------------------------------------------------------
// calls
// ---------------------------------------------------------------------------

/// The text of a reply's field, or what stands for it.
pub open spec fn field_or(value: JsonView, key: Seq<char>, otherwise: Seq<char>) -> Seq<char> {
    match value.str_at(key) {
        Some(s) => s,
        None => otherwise,
    }
}

/// The result that a plugin's reply stands for.
pub open spec fn reply_result(value: JsonView) -> ToolExecutionResultView {
    if value.str_at("kind"@) == Some("success"@) {
        tools::success(
            field_or(value, "content"@, "ok"@),
            match value.get("value"@) {
                Some(v) => v,
                None => JsonView::Null,
            },
        )
    } else {
        tools::failure(
            field_or(value, "code"@, "PLUGIN_ERROR"@),
            field_or(value, "message"@, "dynamic plugin error"@),
        )
    }
}

fn field_text<'a>(value: &'a Json, key: &str, otherwise: &'a str) -> (r: &'a str)
    ensures
        r@ == field_or(value@, key@, otherwise@),
{
    match value.str_at(key) {
        Some(s) => s,
        None => otherwise,
    }
}

/// Converts one plugin reply into a result.
pub fn to_tool_result(value: &Json) -> (r: ToolExecutionResult)
    ensures
        r@ == reply_result(value@),
{
    let success = match value.str_at("kind") {
        Some(kind) => str_eq(kind, "success"),
        None => false,
    };
    if success {
        let content = field_text(value, "content", "ok");
        let inner = match value.get("value") {
            Some(v) => v.clone(),
            None => Json::Null,
        };
        ToolExecutionResult::success_text(content, inner)
    } else {
        let message = field_text(value, "message", "dynamic plugin error");
        let code = field_text(value, "code", "PLUGIN_ERROR");
        ToolExecutionResult::error(code, message)
    }
}

/// What a call into a plugin came to.
#[derive(Debug, PartialEq)]
pub enum CallOutcome {
    /// The task that made the call did not end.
    NotJoined { message: String },
    /// The plugin reported that the call failed.
    Failed { op: String },
    /// The plugin wrote a reply.
    Replied { reply: Vec<u8> },
}

/// The result of a reply, given what reading it as JSON gave.
pub open spec fn read_reply(parsed: Result<JsonView, Seq<char>>) -> ToolExecutionResultView {
    match parsed {
        Ok(v) => reply_result(v),
        Err(m) => tools::failure("PLUGIN_RESULT"@, m),
    }
}

/// The result of a call.
pub open spec fn call_result_of(outcome: CallOutcome) -> ToolExecutionResultView {
    match outcome {
        CallOutcome::NotJoined { message } => tools::failure("PLUGIN_JOIN"@, message@),
        CallOutcome::Failed { op } => tools::failure(
            "PLUGIN_CALL"@,
            "plugin call failed: "@ + ("invoke("@ + op@ + ") returned an error"@),
        ),
        CallOutcome::Replied { reply } => read_reply(
            json::json_of_text(sse::utf8_lossy(reply@)),
        ),
    }
}

/// Makes a result of a reply, given what reading it as JSON gave.
pub fn reply_to_result(parsed: &Result<Json, String>) -> (r: ToolExecutionResult)
    ensures
        r@ == read_reply(
            match *parsed {
                Ok(v) => Ok::<JsonView, Seq<char>>(v@),
                Err(m) => Err::<JsonView, Seq<char>>(m@),
            },
        ),
{
    match parsed {
        Ok(v) => to_tool_result(v),
        Err(m) => ToolExecutionResult::error("PLUGIN_RESULT", m.as_str()),
    }
}

/// Makes a result of what a call into a plugin came to.
pub fn call_result(outcome: &CallOutcome) -> (r: ToolExecutionResult)
    ensures
        r@ == call_result_of(*outcome),
{
    match outcome {
        CallOutcome::NotJoined { message } => ToolExecutionResult::error(
            "PLUGIN_JOIN",
            message.as_str(),
        ),
        CallOutcome::Failed { op } => {
            let e = DynamicPluginError::Call {
                message: concat3("invoke(", op.as_str(), ") returned an error"),
            };
            ToolExecutionResult::error("PLUGIN_CALL", e.display().as_str())
        },
        CallOutcome::Replied { reply } => {
            let reply = lossy_text(reply);
            reply_to_result(&json::read(reply.as_str()))
        },
    }
}

// ---------------------------------------------------------------------------
// mounting
// ---------------------------------------------------------------------------

/// The definition of a declared tool whose body has that number.
pub open spec fn definition_of(tool: DynamicToolDeclView, body: u64) -> ToolDefinitionView {
    ToolDefinitionView {
        name: tool.name,
        description: tool.description,
        parameters: tool.parameters,
        body,
        is_concurrency_safe: false,
    }
}

/// A registry with the first `n` tools registered, their bodies numbered from
/// `first` on.
pub open spec fn mounted(
    r: ToolRegistryView,
    tools: Seq<DynamicToolDeclView>,
    first: u64,
    n: int,
) -> ToolRegistryView
    decreases n,
{
    if n <= 0 {
        r
    } else {
        let before = mounted(r, tools, first, n - 1);
        ToolRegistryView {
            tools: ordered_map::inserted(
                before.tools,
                tools[n - 1].name,
                definition_of(tools[n - 1], (first + (n - 1)) as u64),
            ),
            ..before
        }
    }
}

/// A registry without the first `n` tools.
pub open spec fn unmounted(
    r: ToolRegistryView,
    tools: Seq<DynamicToolDeclView>,
    n: int,
) -> ToolRegistryView
    decreases n,
{
    if n <= 0 {
        r
    } else {
        let before = unmounted(r, tools, n - 1);
        ToolRegistryView {
            tools: ordered_map::removed(before.tools, tools[n - 1].name),
            ..before
        }
    }
}

impl DynamicPlugin {
    /// The name of the plugin.
    pub fn name(&self) -> (r: &str)
        ensures
            r@ == self@.name,
    {
        self.name.as_str()
    }

    /// The tools that the plugin declares.
    pub fn tools(&self) -> (r: &Vec<DynamicToolDecl>)
        ensures
            text::views(r@) == self@.declaration.tools,
    {
        &self.declaration.tools
    }

    /// The services that the plugin requires.
    pub fn inject(&self) -> (r: &Vec<String>)
        ensures
            text::views(r@) == self@.declaration.inject,
    {
        &self.declaration.inject
    }

    /// Registers every declared tool; their bodies are numbered from `first`
    /// on.
    pub fn mount(&self, registry: &mut ToolRegistry, first: u64)
        requires
            old(registry).well_formed(),
            first + self@.declaration.tools.len() <= u64::MAX,
        ensures
            final(registry).well_formed(),
            final(registry)@ == mounted(
                old(registry)@,
                self@.declaration.tools,
                first,
                self@.declaration.tools.len() as int,
            ),
    {
        let ghost start = registry@;
        let ghost all = self@.declaration.tools;
        let tools = &self.declaration.tools;
        for i in 0..tools.len()
            invariant
                all == text::views(tools@),
                first + all.len() <= u64::MAX,
                registry.well_formed(),
                registry@ == mounted(start, all, first, i as int),
        {
            let tool = &tools[i];
            assert(all[i as int] == tool@);
            let body: u64 = first + i as u64;
            registry.register(
                ToolDefinition::new(
                    tool.name.as_str(),
                    tool.description.as_str(),
                    tool.parameters.clone(),
                    body,
                ),
            );
        }
    }

    /// Removes every declared tool.
    pub fn unmount(&self, registry: &mut ToolRegistry)
        requires
            old(registry).well_formed(),
        ensures
            final(registry).well_formed(),
            final(registry)@ == unmounted(
                old(registry)@,
                self@.declaration.tools,
                self@.declaration.tools.len() as int,
            ),
    {
        let ghost start = registry@;
        let ghost all = self@.declaration.tools;
        let tools = &self.declaration.tools;
        for i in 0..tools.len()
            invariant
                all == text::views(tools@),
                registry.well_formed(),
                registry@ == unmounted(start, all, i as int),
        {
            assert(all[i as int] == tools@[i as int]@);
            registry.unregister(tools[i].name.as_str());
        }
    }

    /// The note that the plugin is at work.
    pub fn active_note(&self) -> (r: String)
        ensures
            r@ == self@.name + " active ("@ + text::decimal(self@.declaration.tools.len())
                + " tool(s))"@,
    {
        let n = decimal_text(self.declaration.tools.len() as u64);
        concat4(self.name.as_str(), " active (", n.as_str(), " tool(s))")
    }
}

// ---------------------------------------------------------------------------
// laws
// ---------------------------------------------------------------------------

proof fn lemma_unmounted(
    r: ToolRegistryView,
    tools: Seq<DynamicToolDeclView>,
    n: int,
    name: Seq<char>,
)
    requires
        0 <= n <= tools.len(),
    ensures
        (exists|i: int| 0 <= i < n && (#[trigger] tools[i]).name == name)
            ==> ordered_map::lookup(unmounted(r, tools, n).tools, name) is None,
        (forall|i: int| 0 <= i < n ==> (#[trigger] tools[i]).name != name)
            ==> ordered_map::lookup(unmounted(r, tools, n).tools, name) == ordered_map::lookup(
            r.tools,
            name,
        ),
    decreases n,
{
    if n > 0 {
        lemma_unmounted(r, tools, n - 1, name);
        let before = unmounted(r, tools, n - 1).tools;
        ordered_map::law_remove_then_lookup(before, tools[n - 1].name, name);
        if exists|i: int| 0 <= i < n && (#[trigger] tools[i]).name == name {
            let i = choose|i: int| 0 <= i < n && (#[trigger] tools[i]).name == name;
            if i < n - 1 && tools[n - 1].name != name {
                assert(tools[i].name == name);
            }
        }
    }
}

/// After a plugin is unloaded none of its tools is registered, and every other
/// tool is as it was.
pub proof fn law_unload_removes_every_tool(
    r: ToolRegistryView,
    tools: Seq<DynamicToolDeclView>,
    name: Seq<char>,
)
    ensures
        ({
            let after = unmounted(r, tools, tools.len() as int).tools;
            if exists|i: int| 0 <= i < tools.len() && (#[trigger] tools[i]).name == name {
                ordered_map::lookup(after, name) is None
            } else {
                ordered_map::lookup(after, name) == ordered_map::lookup(r.tools, name)
            }
        }),
{
    lemma_unmounted(r, tools, tools.len() as int, name);
}

/// The check of a library's table fails exactly where there is no table or it
/// is of another version. What is rejected for that does not become a plugin,
/// and is reported with the error of the check.
pub proof fn law_other_versions_are_rejected(path: Seq<char>, abi: Option<u32>)
    ensures
        table_checked(path, abi) is Err <==> abi != Some(ABI_VERSION),
        table_checked(path, abi) matches Err(e) ==> loaded(path, LoadOutcome::Rejected { abi })
            == Err::<DynamicPluginView, DynamicPluginErrorView>(e),
{
}

/// A plugin that is loaded puts every tool that it declares into the registry,
/// under its name and with its schema, each with a body of its own; of two with
/// one name the later counts.
pub proof fn law_load_registers_every_tool(
    r: ToolRegistryView,
    tools: Seq<DynamicToolDeclView>,
    first: u64,
    n: int,
    i: int,
)
    requires
        0 <= i < n <= tools.len(),
        first + tools.len() <= u64::MAX,
        forall|j: int| i < j < n ==> (#[trigger] tools[j]).name != tools[i].name,
    ensures
        mounted(r, tools, first, n).guards == r.guards,
        ordered_map::lookup(mounted(r, tools, first, n).tools, tools[i].name) == Some(
            ToolDefinitionView {
                name: tools[i].name,
                description: tools[i].description,
                parameters: tools[i].parameters,
                body: (first + i) as u64,
                is_concurrency_safe: false,
            },
        ),
    decreases n,
{
    let before = mounted(r, tools, first, n - 1);
    let last = definition_of(tools[n - 1], (first + (n - 1)) as u64);
    ordered_map::law_insert_then_lookup(before.tools, tools[n - 1].name, last, tools[i].name);
    if i < n - 1 {
        law_load_registers_every_tool(r, tools, first, n - 1, i);
    } else {
        law_load_keeps_other_tools(r, tools, first, n - 1, tools[i].name);
    }
}

/// Loading a plugin leaves every tool as it was whose name the plugin does not
/// declare, and every guard.
pub proof fn law_load_keeps_other_tools(
    r: ToolRegistryView,
    tools: Seq<DynamicToolDeclView>,
    first: u64,
    n: int,
    name: Seq<char>,
)
    requires
        0 <= n <= tools.len(),
    ensures
        mounted(r, tools, first, n).guards == r.guards,
        (forall|j: int| 0 <= j < n ==> (#[trigger] tools[j]).name != name) ==> ordered_map::lookup(
            mounted(r, tools, first, n).tools,
            name,
        ) == ordered_map::lookup(r.tools, name),
    decreases n,
{
    if n > 0 {
        law_load_keeps_other_tools(r, tools, first, n - 1, name);
        let before = mounted(r, tools, first, n - 1);
        let last = definition_of(tools[n - 1], (first + (n - 1)) as u64);
        ordered_map::law_insert_then_lookup(before.tools, tools[n - 1].name, last, name);
    }
}

/// A reply that says it is a success is one, with its text and its value; any
/// other is a failure, with its code and its message. What it leaves out has a
/// fixed stand-in.
pub proof fn law_reply_is_taken_at_its_word(
    reply: JsonView,
    said: Seq<char>,
    code: Seq<char>,
    message: Seq<char>,
)
    ensures
        reply.get("kind"@) == Some(JsonView::Text("success"@)) ==> (reply_result(
            reply,
        ) matches ToolExecutionResultView::Success { value, .. } && value == (if reply.get(
            "value"@,
        ) is Some {
            reply.get("value"@)->0
        } else {
            JsonView::Null
        })),
        reply.get("kind"@) == Some(JsonView::Text("success"@)) && reply.get("content"@) == Some(
            JsonView::Text(said),
        ) ==> reply_result(reply).content() == tools::text_block(said),
        reply.get("kind"@) == Some(JsonView::Text("success"@)) && reply.get("content"@) is None
            ==> reply_result(reply).content() == tools::text_block("ok"@),
        reply.get("kind"@) != Some(JsonView::Text("success"@)) ==> reply_result(reply) is Error,
        reply.get("kind"@) != Some(JsonView::Text("success"@)) && reply.get("code"@) == Some(
            JsonView::Text(code),
        ) && reply.get("message"@) == Some(JsonView::Text(message)) ==> reply_result(reply)->code
            == code && reply_result(reply)->message == message,
        reply.get("kind"@) != Some(JsonView::Text("success"@)) && reply.get("code"@) is None
            && reply.get("message"@) is None ==> reply_result(reply)->code == "PLUGIN_ERROR"@
            && reply_result(reply)->message == "dynamic plugin error"@,
{
}

/// A call into a plugin has the result that its reply stands for. One that did
/// not end, failed, or replied with what is no JSON is a failure that says so.
pub proof fn law_call_has_the_result_of_its_reply(outcome: CallOutcome)
    ensures
        match outcome {
            CallOutcome::NotJoined { message } => call_result_of(
                outcome,
            ) matches ToolExecutionResultView::Error { message: why, code, .. } && code
                == "PLUGIN_JOIN"@ && why == message@,
            CallOutcome::Failed { op } => call_result_of(
                outcome,
            ) matches ToolExecutionResultView::Error { message: why, code, .. } && code
                == "PLUGIN_CALL"@ && why == "plugin call failed: "@ + ("invoke("@ + op@
                + ") returned an error"@),
            CallOutcome::Replied { reply } => match json::json_of_text(sse::utf8_lossy(reply@)) {
                Ok(v) => call_result_of(outcome) == reply_result(v),
                Err(m) => call_result_of(outcome) matches ToolExecutionResultView::Error {
                    message: why,
                    code,
                    ..
                } && code == "PLUGIN_RESULT"@ && why == m,
            },
        },
{
}

/// A library becomes a plugin exactly where it described itself: under the name
/// that it wrote, with what it declares. Any other outcome is an error that says
/// what went wrong, and where.
pub proof fn law_described_library_is_the_plugin(path: Seq<char>, outcome: LoadOutcome)
    ensures
        match outcome {
            LoadOutcome::Described { name, declaration } => match declaration {
                Ok(d) => loaded(path, outcome) matches Ok(p) && p.name == sse::utf8_lossy(name@)
                    && p.declaration == d@,
                Err(m) => loaded(path, outcome) matches Err(e) && plugin_error_text(e)
                    == "bad plugin declaration: "@ + m@,
            },
            LoadOutcome::NotOpened { source } => loaded(path, outcome) matches Err(e)
                && plugin_error_text(e) == "cannot open "@ + path + ": "@ + source@,
            LoadOutcome::NoSymbol { source } => loaded(path, outcome) matches Err(e)
                && plugin_error_text(e) == "symbol `dsh_plugin_exports` missing in "@ + path + ": "@
                + source@,
            LoadOutcome::NotSetUp => loaded(path, outcome) matches Err(e) && plugin_error_text(e)
                == "plugin call failed: "@ + "plugin setup returned null"@,
            LoadOutcome::NotDescribed => loaded(path, outcome) matches Err(e) && plugin_error_text(
                e,
            ) == "plugin call failed: "@ + "describe reported a buffer-too-small error"@,
            LoadOutcome::Rejected { abi } => loaded(path, outcome) matches Err(e) && match abi {
                None => plugin_error_text(e) == "plugin "@ + path
                    + " exported a null export table"@,
                Some(actual) => plugin_error_text(e) == "plugin "@ + path + " speaks ABI v"@
                    + text::decimal(actual as nat) + ", host expects v"@ + text::decimal(
                    ABI_VERSION as nat,
                ) + " (recompile the plugin)"@,
            },
        },
{
}

} // verus!
