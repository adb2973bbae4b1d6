//! The tool registry and guarded execution pipeline.
//!
//! A [`ToolDefinition`] pairs a model-facing schema with a body, which is
//! known here by number. One accepted call runs through the pipeline as a
//! [`ToolExecution`]: `tools/pre-execute` (allow or deny), the monotonic
//! guards, `tools/execute` (the tool body), `tools/post-execute` (the result).
//! Whoever drives it performs what [`ToolExecution::request`] asks for and
//! hands the answer to [`ToolExecution::step`].

use crate::json;
use crate::json::Json;
use crate::ordered_map;
use crate::ordered_map::OrderedMap;
use crate::text;
use crate::text::{concat3, str_eq};
use crate::types::llm::ToolSchema;
use crate::types::tools;
use crate::types::tools::{ToolCallArgs, ToolExecutionResult};
use vstd::prelude::*;

#[allow(unused_imports)]
use crate::json::JsonView;
#[allow(unused_imports)]
use crate::types::llm::ToolSchemaView;
#[allow(unused_imports)]
use crate::types::tools::{ToolCallArgsView, ToolExecutionResultView};

verus! {

/// One registered tool: its schema and the number of its body.
#[derive(Debug, PartialEq)]
pub struct ToolDefinition {
    pub name: String,
    pub description: String,
    /// JSON Schema object for the arguments.
    pub parameters: Json,
    pub body: u64,
    pub is_concurrency_safe: bool,
}

/// What a [`ToolDefinition`] says.
#[verifier::ext_equal]
pub struct ToolDefinitionView {
    pub name: Seq<char>,
    pub description: Seq<char>,
    pub parameters: JsonView,
    pub body: u64,
    pub is_concurrency_safe: bool,
}

impl View for ToolDefinition {
    type V = ToolDefinitionView;

    open spec fn view(&self) -> ToolDefinitionView {
        ToolDefinitionView {
            name: self.name@,
            description: self.description@,
            parameters: self.parameters@,
            body: self.body,
            is_concurrency_safe: self.is_concurrency_safe,
        }
    }
}

impl Clone for ToolDefinition {
    fn clone(&self) -> (r: Self)
        ensures
            r@ == self@,
    {
        ToolDefinition {
            name: self.name.clone(),
            description: self.description.clone(),
            parameters: self.parameters.clone(),
            body: self.body,
            is_concurrency_safe: self.is_concurrency_safe,
        }
    }
}

impl ToolDefinitionView {
    /// The model-facing schema.
    pub open spec fn schema(self) -> ToolSchemaView {
        ToolSchemaView {
            name: self.name,
            description: self.description,
            parameters: self.parameters,
        }
    }
}

impl ToolDefinition {
    /// A tool that is not safe to run concurrently.
    pub fn new(name: &str, description: &str, parameters: Json, body: u64) -> (r: Self)
        ensures
            r@ == (ToolDefinitionView {
                name: name@,
                description: description@,
                parameters: parameters@,
                body,
                is_concurrency_safe: false,
            }),
    {
        ToolDefinition {
            name: name.to_owned(),
            description: description.to_owned(),
            parameters,
            body,
            is_concurrency_safe: false,
        }
    }

    /// The model-facing schema.
    pub fn schema(&self) -> (r: ToolSchema)
        ensures
            r@ == self@.schema(),
    {
        ToolSchema {
            name: self.name.clone(),
            description: self.description.clone(),
            parameters: self.parameters.clone(),
        }
    }
}

// ---------------------------------------------------------------------------
// the registry
// ---------------------------------------------------------------------------

/// The registered tools, and how many guards stand before every dispatch.
#[derive(Debug)]
pub struct ToolRegistry {
    tools: OrderedMap<ToolDefinition>,
    guards: usize,
}

/// What a [`ToolRegistry`] holds.
#[verifier::ext_equal]
pub struct ToolRegistryView {
    pub tools: Seq<(Seq<char>, ToolDefinitionView)>,
    pub guards: usize,
}

/// What the registered tools say.
pub open spec fn tools_view(e: Seq<(Seq<char>, ToolDefinition)>) -> Seq<
    (Seq<char>, ToolDefinitionView),
> {
    Seq::new(e.len(), |i: int| (e[i].0, e[i].1@))
}

impl View for ToolRegistry {
    type V = ToolRegistryView;

    closed spec fn view(&self) -> ToolRegistryView {
        ToolRegistryView { tools: tools_view(self.tools@), guards: self.guards }
    }
}

proof fn lemma_tools_lookup(e: Seq<(Seq<char>, ToolDefinition)>, key: Seq<char>)
    ensures
        ordered_map::lookup(tools_view(e), key) == text::opt_view(ordered_map::lookup(e, key)),
    decreases e.len(),
{
    if e.len() > 0 {
        assert(tools_view(e).skip(1) =~= tools_view(e.skip(1)));
        lemma_tools_lookup(e.skip(1), key);
    }
}

proof fn lemma_tools_inserted(e: Seq<(Seq<char>, ToolDefinition)>, key: Seq<char>, t: ToolDefinition)
    ensures
        tools_view(ordered_map::inserted(e, key, t)) == ordered_map::inserted(
            tools_view(e),
            key,
            t@,
        ),
{
    lemma_tools_lookup(e, key);
    assert(tools_view(ordered_map::inserted(e, key, t)) =~= ordered_map::inserted(
        tools_view(e),
        key,
        t@,
    ));
}

proof fn lemma_tools_removed(e: Seq<(Seq<char>, ToolDefinition)>, key: Seq<char>)
    ensures
        tools_view(ordered_map::removed(e, key)) == ordered_map::removed(tools_view(e), key),
    decreases e.len(),
{
    if e.len() > 0 {
        assert(tools_view(e).skip(1) =~= tools_view(e.skip(1)));
        lemma_tools_removed(e.skip(1), key);
    }
    assert(tools_view(ordered_map::removed(e, key)) =~= ordered_map::removed(tools_view(e), key));
}

impl ToolRegistry {
    /// No name is registered twice.
    pub closed spec fn well_formed(&self) -> bool {
        ordered_map::distinct(self.tools@)
    }

    /// A registry without tools and guards.
    pub fn new() -> (r: Self)
        ensures
            r@ == (ToolRegistryView { tools: seq![], guards: 0 }),
            r.well_formed(),
    {
        let r = ToolRegistry { tools: OrderedMap::new(), guards: 0 };
        assert(r@.tools =~= seq![]);
        r
    }

    /// Registers one tool; a duplicate name is replaced (last wins).
    pub fn register(&mut self, tool: ToolDefinition)
        requires
            old(self).well_formed(),
        ensures
            final(self).well_formed(),
            final(self)@ == (ToolRegistryView {
                tools: ordered_map::inserted(old(self)@.tools, tool@.name, tool@),
                ..old(self)@
            }),
    {
        proof {
            lemma_tools_inserted(self.tools@, tool.name@, tool);
        }
        let name = tool.name.clone();
        self.tools.insert(name.as_str(), tool);
    }

    /// Removes a tool.
    pub fn unregister(&mut self, name: &str)
        requires
            old(self).well_formed(),
        ensures
            final(self).well_formed(),
            final(self)@ == (ToolRegistryView {
                tools: ordered_map::removed(old(self)@.tools, name@),
                ..old(self)@
            }),
    {
        proof {
            lemma_tools_removed(self.tools@, name@);
        }
        let _ = self.tools.remove(name);
    }

    /// Adds a guard, evaluated after the earlier ones before every dispatch.
    pub fn add_guard(&mut self)
        requires
            old(self).well_formed(),
            old(self)@.guards < usize::MAX,
        ensures
            final(self).well_formed(),
            final(self)@ == (ToolRegistryView {
                guards: (old(self)@.guards + 1) as usize,
                ..old(self)@
            }),
    {
        self.guards = self.guards + 1;
    }

    /// The model-facing schemas of every registered tool.
    pub fn schemas(&self) -> (r: Vec<ToolSchema>)
        ensures
            text::views(r@) == Seq::new(
                self@.tools.len(),
                |i: int| self@.tools[i].1.schema(),
            ),
    {
        let mut out: Vec<ToolSchema> = Vec::new();
        let n = self.tools.len();
        for i in 0..n
            invariant
                n == self.tools@.len(),
                out@.len() == i,
                forall|k: int| 0 <= k < i ==> (#[trigger] out@[k])@ == self@.tools[k].1.schema(),
        {
            let (_, tool) = self.tools.at(i);
            out.push(tool.schema());
        }
        assert(text::views(out@) =~= Seq::new(
            self@.tools.len(),
            |i: int| self@.tools[i].1.schema(),
        ));
        out
    }

    /// The names of the registered tools, in order.
    pub fn list(&self) -> (r: Vec<String>)
        ensures
            text::sorted(None, text::views(r@)),
            text::views(r@).to_multiset() == ordered_map::keys(self@.tools).to_multiset(),
    {
        let mut names: Vec<String> = Vec::new();
        let n = self.tools.len();
        for i in 0..n
            invariant
                n == self.tools@.len(),
                names@.len() == i,
                forall|k: int| 0 <= k < i ==> (#[trigger] names@[k])@ == self@.tools[k].0,
        {
            let (name, _) = self.tools.at(i);
            names.push(name.clone());
        }
        assert(text::views(names@) =~= ordered_map::keys(self@.tools));
        text::sort(None, names)
    }

    /// The tool of that name.
    pub fn get(&self, name: &str) -> (r: Option<&ToolDefinition>)
        requires
            self.well_formed(),
        ensures
            match r {
                Some(t) => ordered_map::lookup(self@.tools, name@) == Some(t@),
                None => ordered_map::lookup(self@.tools, name@) is None,
            },
    {
        proof {
            lemma_tools_lookup(self.tools@, name@);
        }
        self.tools.get(name)
    }
}

// ---------------------------------------------------------------------------
// one execution
// ---------------------------------------------------------------------------

/// What came back from a dispatch.
#[derive(Debug, PartialEq)]
pub enum ToolAnswer {
    /// The dispatch failed.
    Failed { message: String },
    /// What came back is no tool result.
    Unreadable { message: String },
    /// A tool result.
    Answered { result: ToolExecutionResult },
}

/// What a [`ToolAnswer`] says.
#[verifier::ext_equal]
pub enum ToolAnswerView {
    Failed { message: Seq<char> },
    Unreadable { message: Seq<char> },
    Answered { result: ToolExecutionResultView },
}

impl View for ToolAnswer {
    type V = ToolAnswerView;

    open spec fn view(&self) -> ToolAnswerView {
        match *self {
            ToolAnswer::Failed { message } => ToolAnswerView::Failed { message: message@ },
            ToolAnswer::Unreadable { message } => ToolAnswerView::Unreadable { message: message@ },
            ToolAnswer::Answered { result } => ToolAnswerView::Answered { result: result@ },
        }
    }
}

impl Clone for ToolAnswer {
    fn clone(&self) -> (r: Self)
        ensures
            r@ == self@,
    {
        match self {
            ToolAnswer::Failed { message } => ToolAnswer::Failed { message: message.clone() },
            ToolAnswer::Unreadable { message } => ToolAnswer::Unreadable { message: message.clone() },
            ToolAnswer::Answered { result } => ToolAnswer::Answered { result: result.clone() },
        }
    }
}

/// How far an execution has come.
#[derive(Debug, PartialEq)]
pub enum ToolStage {
    /// The allow/deny decision is asked for.
    PreExecute,
    /// The guard at `index` is asked.
    Guard { index: usize },
    /// The tool body runs.
    Execute,
    /// The result is up for inspection.
    PostExecute { result: ToolExecutionResult },
    /// The call has ended.
    Finished { result: ToolExecutionResult },
}

/// What a [`ToolStage`] says.
#[verifier::ext_equal]
pub enum ToolStageView {
    PreExecute,
    Guard { index: usize },
    Execute,
    PostExecute { result: ToolExecutionResultView },
    Finished { result: ToolExecutionResultView },
}

impl View for ToolStage {
    type V = ToolStageView;

    open spec fn view(&self) -> ToolStageView {
        match *self {
            ToolStage::PreExecute => ToolStageView::PreExecute,
            ToolStage::Guard { index } => ToolStageView::Guard { index },
            ToolStage::Execute => ToolStageView::Execute,
            ToolStage::PostExecute { result } => ToolStageView::PostExecute { result: result@ },
            ToolStage::Finished { result } => ToolStageView::Finished { result: result@ },
        }
    }
}

impl Clone for ToolStage {
    fn clone(&self) -> (r: Self)
        ensures
            r@ == self@,
    {
        match self {
            ToolStage::PreExecute => ToolStage::PreExecute,
            ToolStage::Guard { index } => ToolStage::Guard { index: *index },
            ToolStage::Execute => ToolStage::Execute,
            ToolStage::PostExecute { result } => ToolStage::PostExecute { result: result.clone() },
            ToolStage::Finished { result } => ToolStage::Finished { result: result.clone() },
        }
    }
}

/// One accepted call on its way through the pipeline.
#[derive(Debug, PartialEq)]
pub struct ToolExecution {
    pub args: ToolCallArgs,
    /// How many guards stand before the dispatch.
    pub guards: usize,
    /// The number of the tool's body.
    pub body: u64,
    pub stage: ToolStage,
}

/// What a [`ToolExecution`] says.
#[verifier::ext_equal]
pub struct ToolExecutionView {
    pub args: ToolCallArgsView,
    pub guards: usize,
    pub body: u64,
    pub stage: ToolStageView,
}

impl View for ToolExecution {
    type V = ToolExecutionView;

    open spec fn view(&self) -> ToolExecutionView {
        ToolExecutionView {
            args: self.args@,
            guards: self.guards,
            body: self.body,
            stage: self.stage@,
        }
    }
}

impl Clone for ToolExecution {
    fn clone(&self) -> (r: Self)
        ensures
            r@ == self@,
    {
        ToolExecution {
            args: self.args.clone(),
            guards: self.guards,
            body: self.body,
            stage: self.stage.clone(),
        }
    }
}

/// An answer to what an execution asked for.
#[derive(Debug, PartialEq)]
pub enum ToolEvent {
    /// The `tools/pre-execute` waterfall's decision, or its failure.
    PreDecision { decision: Result<Json, String> },
    /// A guard's reason to deny the call, if it has one.
    GuardVerdict { reason: Option<String> },
    /// What the `tools/execute` waterfall came back with.
    Executed { answer: ToolAnswer },
    /// What the `tools/post-execute` waterfall came back with.
    PostExecuted { answer: ToolAnswer },
}

/// What a [`ToolEvent`] says.
#[verifier::ext_equal]
pub enum ToolEventView {
    PreDecision { decision: Result<JsonView, Seq<char>> },
    GuardVerdict { reason: Option<Seq<char>> },
    Executed { answer: ToolAnswerView },
    PostExecuted { answer: ToolAnswerView },
}

impl View for ToolEvent {
    type V = ToolEventView;

    open spec fn view(&self) -> ToolEventView {
        match *self {
            ToolEvent::PreDecision { decision } => ToolEventView::PreDecision {
                decision: match decision {
                    Ok(d) => Ok(d@),
                    Err(m) => Err(m@),
                },
            },
            ToolEvent::GuardVerdict { reason } => ToolEventView::GuardVerdict {
                reason: text::opt_view(reason),
            },
            ToolEvent::Executed { answer } => ToolEventView::Executed { answer: answer@ },
            ToolEvent::PostExecuted { answer } => ToolEventView::PostExecuted { answer: answer@ },
        }
    }
}

/// What an execution asks for next.
#[derive(Debug, PartialEq)]
pub enum ToolRequest {
    /// Run the `tools/pre-execute` waterfall.
    PreExecute { payload: Json },
    /// Ask the guard at `index` about the call.
    AskGuard { index: usize },
    /// Run the `tools/execute` waterfall around the tool's body.
    Execute { payload: Json, body: u64 },
    /// Run the `tools/post-execute` waterfall on the result.
    PostExecute { name: String, result: ToolExecutionResult },
    /// Hand out the result.
    Finish { result: ToolExecutionResult },
}

/// What a [`ToolRequest`] says.
#[verifier::ext_equal]
pub enum ToolRequestView {
    PreExecute { payload: JsonView },
    AskGuard { index: usize },
    Execute { payload: JsonView, body: u64 },
    PostExecute { name: Seq<char>, result: ToolExecutionResultView },
    Finish { result: ToolExecutionResultView },
}

impl View for ToolRequest {
    type V = ToolRequestView;

    open spec fn view(&self) -> ToolRequestView {
        match *self {
            ToolRequest::PreExecute { payload } => ToolRequestView::PreExecute {
                payload: payload@,
            },
            ToolRequest::AskGuard { index } => ToolRequestView::AskGuard { index },
            ToolRequest::Execute { payload, body } => ToolRequestView::Execute {
                payload: payload@,
                body,
            },
            ToolRequest::PostExecute { name, result } => ToolRequestView::PostExecute {
                name: name@,
                result: result@,
            },
            ToolRequest::Finish { result } => ToolRequestView::Finish { result: result@ },
        }
    }
}

/// The payload that describes a call.
pub open spec fn call_payload(args: ToolCallArgsView) -> JsonView {
    json::object_of(seq![("name"@, JsonView::Text(args.name)), ("arguments"@, args.arguments)])
}

/// The result that a `tools/pre-execute` decision ends the call with, if it
/// does. Only `deny` and `ask` do.
pub open spec fn decision_refusal(decision: JsonView) -> Option<ToolExecutionResultView> {
    match decision.str_at("kind"@) {
        Some(kind) => if kind == "deny"@ {
            Some(
                tools::failure(
                    "DENIED"@,
                    match decision.str_at("reason"@) {
                        Some(reason) => reason,
                        None => "denied by policy"@,
                    },
                ),
            )
        } else if kind == "ask"@ {
            Some(tools::failure("APPROVAL"@, "tool call requires approval"@))
        } else {
            None
        },
        None => None,
    }
}

impl ToolStageView {
    /// The stage after the first `index` guards of `guards` had no objection.
    pub open spec fn past_guards(index: int, guards: int) -> ToolStageView {
        if index < guards {
            ToolStageView::Guard { index: index as usize }
        } else {
            ToolStageView::Execute
        }
    }

    /// The stage of a call that ended in a failure.
    pub open spec fn failed(code: Seq<char>, message: Seq<char>) -> ToolStageView {
        ToolStageView::Finished { result: tools::failure(code, message) }
    }
}

impl ToolExecutionView {
    /// The stage after an answer. An answer to something else than what was
    /// asked for changes nothing.
    pub open spec fn next_stage(self, event: ToolEventView) -> ToolStageView {
        match (self.stage, event) {
            (ToolStageView::PreExecute, ToolEventView::PreDecision { decision }) => match decision {
                Err(message) => ToolStageView::failed("PRE_EXECUTE"@, message),
                Ok(d) => match decision_refusal(d) {
                    Some(result) => ToolStageView::Finished { result },
                    None => ToolStageView::past_guards(0, self.guards as int),
                },
            },
            (
                ToolStageView::Guard { index },
                ToolEventView::GuardVerdict { reason },
            ) => match reason {
                Some(r) => ToolStageView::failed("DENIED"@, r),
                None => ToolStageView::past_guards(index + 1, self.guards as int),
            },
            (ToolStageView::Execute, ToolEventView::Executed { answer }) => match answer {
                ToolAnswerView::Failed { message } => ToolStageView::failed("EXECUTE"@, message),
                ToolAnswerView::Unreadable { message } => ToolStageView::failed(
                    "BAD_RESULT"@,
                    message,
                ),
                ToolAnswerView::Answered { result } => ToolStageView::PostExecute { result },
            },
            (
                ToolStageView::PostExecute { .. },
                ToolEventView::PostExecuted { answer },
            ) => match answer {
                ToolAnswerView::Failed { message } => ToolStageView::failed(
                    "POST_EXECUTE"@,
                    message,
                ),
                ToolAnswerView::Unreadable { message } => ToolStageView::failed(
                    "BAD_RESULT"@,
                    message,
                ),
                ToolAnswerView::Answered { result } => ToolStageView::Finished { result },
            },
            _ => self.stage,
        }
    }

    /// The execution with the guards that a registry holds, where the decision
    /// is still to come.
    pub open spec fn with_guards_of(self, registry: ToolRegistryView) -> ToolExecutionView {
        if self.stage is PreExecute {
            ToolExecutionView { guards: registry.guards, ..self }
        } else {
            self
        }
    }

    /// The execution after an answer.
    pub open spec fn step(self, event: ToolEventView) -> ToolExecutionView {
        ToolExecutionView { stage: self.next_stage(event), ..self }
    }

    /// The execution after all of `events`.
    pub open spec fn run(self, events: Seq<ToolEventView>) -> ToolExecutionView
        decreases events.len(),
    {
        if events.len() == 0 {
            self
        } else {
            self.run(events.drop_last()).step(events.last())
        }
    }

    /// The arguments that the tool's body gets: those of the payload that came
    /// through the `tools/execute` waterfall, or the call's own.
    pub open spec fn args_of_body(self, payload: JsonView) -> ToolCallArgsView {
        ToolCallArgsView {
            arguments: match payload.get("arguments"@) {
                Some(a) => a,
                None => self.args.arguments,
            },
            ..self.args
        }
    }

    /// What the execution asks for next.
    pub open spec fn request(self) -> ToolRequestView {
        match self.stage {
            ToolStageView::PreExecute => ToolRequestView::PreExecute {
                payload: call_payload(self.args),
            },
            ToolStageView::Guard { index } => ToolRequestView::AskGuard { index },
            ToolStageView::Execute => ToolRequestView::Execute {
                payload: call_payload(self.args),
                body: self.body,
            },
            ToolStageView::PostExecute { result } => ToolRequestView::PostExecute {
                name: self.args.name,
                result,
            },
            ToolStageView::Finished { result } => ToolRequestView::Finish { result },
        }
    }
}

/// The execution of a call before anything was asked: an unknown tool ends it
/// at once.
pub open spec fn accepted(registry: ToolRegistryView, args: ToolCallArgsView) -> ToolExecutionView {
    match ordered_map::lookup(registry.tools, args.name) {
        Some(tool) => ToolExecutionView {
            args,
            guards: registry.guards,
            body: tool.body,
            stage: ToolStageView::PreExecute,
        },
        None => ToolExecutionView {
            args,
            guards: registry.guards,
            body: 0,
            stage: ToolStageView::failed(
                "UNKNOWN_TOOL"@,
                "no tool registered with name \""@ + args.name + "\""@,
            ),
        },
    }
}

fn call_payload_json(args: &ToolCallArgs) -> (r: Json)
    ensures
        r@ == call_payload(args@),
{
    let mut payload = json::no_entries();
    json::put(&mut payload, "name", Json::text(args.name.as_str()));
    json::put(&mut payload, "arguments", args.arguments.clone());
    assert(json::json_entries(payload@) =~= seq![
        ("name"@, JsonView::Text(args@.name)),
        ("arguments"@, args@.arguments),
    ]);
    Json::object(payload)
}

/// The `tools/pre-execute` decision that lets a call run.
pub open spec fn allowed() -> JsonView {
    json::object_of(seq![("kind"@, JsonView::Text("allow"@))])
}

/// The answer of `tools/pre-execute` where no listener has another: the call is
/// allowed.
pub fn allow_decision() -> (r: Json)
    ensures
        r@ == allowed(),
{
    let mut entries = json::no_entries();
    json::put(&mut entries, "kind", Json::text("allow"));
    assert(json::json_entries(entries@) =~= seq![("kind"@, JsonView::Text("allow"@))]);
    Json::object(entries)
}

fn failed_stage(code: &str, message: &str) -> (r: ToolStage)
    ensures
        r@ == ToolStageView::failed(code@, message@),
{
    ToolStage::Finished { result: ToolExecutionResult::error(code, message) }
}

fn refusal(decision: &Json) -> (r: Option<ToolExecutionResult>)
    ensures
        text::opt_view(r) == decision_refusal(decision@),
{
    match decision.str_at("kind") {
        Some(kind) => if str_eq(kind, "deny") {
            let reason = match decision.str_at("reason") {
                Some(reason) => reason,
                None => "denied by policy",
            };
            Some(ToolExecutionResult::error("DENIED", reason))
        } else if str_eq(kind, "ask") {
            Some(ToolExecutionResult::error("APPROVAL", "tool call requires approval"))
        } else {
            None
        },
        None => None,
    }
}

impl ToolRegistry {
    /// Accepts one call.
    pub fn execute(&self, call_id: &str, name: &str, arguments: Json) -> (r: ToolExecution)
        requires
            self.well_formed(),
        ensures
            r@ == accepted(
                self@,
                ToolCallArgsView { call_id: call_id@, name: name@, arguments: arguments@ },
            ),
    {
        let args = ToolCallArgs { call_id: call_id.to_owned(), name: name.to_owned(), arguments };
        match self.get(name) {
            Some(tool) => ToolExecution {
                args,
                guards: self.guards,
                body: tool.body,
                stage: ToolStage::PreExecute,
            },
            None => {
                let message = concat3("no tool registered with name \"", name, "\"");
                ToolExecution {
                    args,
                    guards: self.guards,
                    body: 0,
                    stage: failed_stage("UNKNOWN_TOOL", message.as_str()),
                }
            },
        }
    }
}

impl ToolExecution {
    fn past_guards(&self, index: usize) -> (r: ToolStage)
        ensures
            r@ == ToolStageView::past_guards(index as int, self.guards as int),
    {
        if index < self.guards {
            ToolStage::Guard { index }
        } else {
            ToolStage::Execute
        }
    }

    /// What the execution asks for next.
    pub fn request(&self) -> (r: ToolRequest)
        ensures
            r@ == self@.request(),
    {
        match &self.stage {
            ToolStage::PreExecute => ToolRequest::PreExecute {
                payload: call_payload_json(&self.args),
            },
            ToolStage::Guard { index } => ToolRequest::AskGuard { index: *index },
            ToolStage::Execute => ToolRequest::Execute {
                payload: call_payload_json(&self.args),
                body: self.body,
            },
            ToolStage::PostExecute { result } => ToolRequest::PostExecute {
                name: self.args.name.clone(),
                result: result.clone(),
            },
            ToolStage::Finished { result } => ToolRequest::Finish { result: result.clone() },
        }
    }

    /// Takes over the guards that the registry holds now. Those that stand
    /// there when the `tools/pre-execute` decision comes are asked, the ones
    /// that its listeners added among them; later ones are not.
    pub fn refresh_guards(&mut self, registry: &ToolRegistry)
        requires
            old(self)@.well_formed(),
        ensures
            final(self)@ == old(self)@.with_guards_of(registry@),
            final(self)@.well_formed(),
    {
        match &self.stage {
            ToolStage::PreExecute => {
                self.guards = registry.guards;
            },
            _ => {},
        }
    }

    /// Takes in an answer.
    pub fn step(&mut self, event: ToolEvent)
        requires
            old(self)@.well_formed(),
        ensures
            final(self)@ == old(self)@.step(event@),
            final(self)@.well_formed(),
    {
        let ghost before = self@;
        let next: Option<ToolStage> = match (&self.stage, event) {
            (ToolStage::PreExecute, ToolEvent::PreDecision { decision }) => match decision {
                Err(message) => Some(failed_stage("PRE_EXECUTE", message.as_str())),
                Ok(d) => match refusal(&d) {
                    Some(result) => Some(ToolStage::Finished { result }),
                    None => Some(self.past_guards(0)),
                },
            },
            (ToolStage::Guard { index }, ToolEvent::GuardVerdict { reason }) => match reason {
                Some(r) => Some(failed_stage("DENIED", r.as_str())),
                None => Some(self.past_guards(*index + 1)),
            },
            (ToolStage::Execute, ToolEvent::Executed { answer }) => match answer {
                ToolAnswer::Failed { message } => Some(
                    failed_stage("EXECUTE", message.as_str()),
                ),
                ToolAnswer::Unreadable { message } => Some(
                    failed_stage("BAD_RESULT", message.as_str()),
                ),
                ToolAnswer::Answered { result } => Some(ToolStage::PostExecute { result }),
            },
            (
                ToolStage::PostExecute { .. },
                ToolEvent::PostExecuted { answer },
            ) => match answer {
                ToolAnswer::Failed { message } => Some(
                    failed_stage("POST_EXECUTE", message.as_str()),
                ),
                ToolAnswer::Unreadable { message } => Some(
                    failed_stage("BAD_RESULT", message.as_str()),
                ),
                ToolAnswer::Answered { result } => Some(ToolStage::Finished { result }),
            },
            _ => None,
        };
        match next {
            Some(stage) => {
                self.stage = stage;
            },
            None => {},
        }
    }

    /// The arguments that the tool's body gets: those of the payload that came
    /// through the `tools/execute` waterfall, or the call's own.
    pub fn body_args(&self, payload: &Json) -> (r: ToolCallArgs)
        ensures
            r@ == self@.args_of_body(payload@),
    {
        ToolCallArgs {
            call_id: self.args.call_id.clone(),
            name: self.args.name.clone(),
            arguments: match payload.get("arguments") {
                Some(a) => a.clone(),
                None => self.args.arguments.clone(),
            },
        }
    }
}

impl ToolExecutionView {
    /// A guard that is asked is one of the guards.
    pub open spec fn well_formed(self) -> bool {
        self.stage matches ToolStageView::Guard { index } ==> index < self.guards
    }
}

// ---------------------------------------------------------------------------
// laws
// ---------------------------------------------------------------------------

/// The last registration of a name wins, and other tools stay as they were.
pub proof fn law_last_registration_wins(
    tools: Seq<(Seq<char>, ToolDefinitionView)>,
    tool: ToolDefinitionView,
    other: Seq<char>,
)
    ensures
        ordered_map::lookup(ordered_map::inserted(tools, tool.name, tool), tool.name) == Some(tool),
        other != tool.name ==> ordered_map::lookup(
            ordered_map::inserted(tools, tool.name, tool),
            other,
        ) == ordered_map::lookup(tools, other),
{
    ordered_map::law_insert_then_lookup(tools, tool.name, tool, other);
}

/// A call that has ended stays ended, with the same result.
pub proof fn law_finished_is_final(e: ToolExecutionView, events: Seq<ToolEventView>)
    requires
        e.stage is Finished,
    ensures
        e.run(events) == e,
    decreases events.len(),
{
    if events.len() > 0 {
        law_finished_is_final(e, events.drop_last());
    }
}

/// A denial is final: once the decision or a guard denies the call, no answer
/// leads to the tool's body.
pub proof fn law_denied_call_never_runs(
    e: ToolExecutionView,
    denial: ToolEventView,
    later: Seq<ToolEventView>,
)
    requires
        match (e.stage, denial) {
            (ToolStageView::PreExecute, ToolEventView::PreDecision { decision }) => match decision {
                Ok(d) => decision_refusal(d) is Some,
                Err(_) => true,
            },
            (ToolStageView::Guard { .. }, ToolEventView::GuardVerdict { reason }) => reason is Some,
            _ => false,
        },
    ensures
        e.step(denial).run(later).request() matches ToolRequestView::Finish { result }
            && result is Error,
{
    law_finished_is_final(e.step(denial), later);
}

/// The tool's body runs only after the decision allowed the call and every
/// guard was asked and had no objection: an execution that is at its body was
/// allowed by the first answer and passed by one answer for each guard.
pub proof fn law_body_runs_only_after_every_guard(e: ToolExecutionView, events: Seq<ToolEventView>)
    requires
        e.stage is PreExecute,
        e.run(events).stage is Execute,
    ensures
        passes(events) >= e.guards,
        allowed_once(events),
{
    lemma_progress(e, events);
}

/// A call that the decision allows goes on to the guards, or to the tool's body
/// where there are none.
pub proof fn law_allowed_call_goes_on(e: ToolExecutionView)
    requires
        e.stage is PreExecute,
    ensures
        e.step(ToolEventView::PreDecision { decision: Ok(allowed()) }).stage
            == ToolStageView::past_guards(0, e.guards as int),
{
    reveal_strlit("allow");
    reveal_strlit("deny");
    reveal_strlit("ask");
    assert("allow"@.len() != "deny"@.len() && "allow"@.len() != "ask"@.len());
    reveal_with_fuel(json::entries_map, 2);
    let one = seq![("kind"@, JsonView::Text("allow"@))];
    assert(one.drop_last() =~= seq![]);
    assert(allowed().str_at("kind"@) == Some("allow"@));
}

/// Every guard that the registry holds when the decision comes is asked before
/// the tool's body runs, however many it held when the call was accepted.
pub proof fn law_guards_are_read_at_the_decision(
    accepting: ToolRegistryView,
    deciding: ToolRegistryView,
    args: ToolCallArgsView,
    events: Seq<ToolEventView>,
)
    requires
        accepted(accepting, args).with_guards_of(deciding).run(events).stage is Execute,
    ensures
        passes(events) >= deciding.guards,
        allowed_once(events),
{
    let e = accepted(accepting, args);
    if e.stage is PreExecute {
        law_body_runs_only_after_every_guard(e.with_guards_of(deciding), events);
    } else {
        law_finished_is_final(e, events);
    }
}

/// How many guards the answers passed.
pub open spec fn passes(events: Seq<ToolEventView>) -> nat
    decreases events.len(),
{
    if events.len() == 0 {
        0
    } else {
        let rest = passes(events.drop_last());
        match events.last() {
            ToolEventView::GuardVerdict { reason: None } => rest + 1,
            _ => rest,
        }
    }
}

/// Whether one of the answers is a decision that does not refuse the call.
pub open spec fn allowed_once(events: Seq<ToolEventView>) -> bool {
    exists|i: int|
        0 <= i < events.len() && match #[trigger] events[i] {
            ToolEventView::PreDecision { decision: Ok(d) } => decision_refusal(d) is None,
            _ => false,
        }
}

proof fn lemma_progress(e: ToolExecutionView, events: Seq<ToolEventView>)
    requires
        e.stage is PreExecute,
    ensures
        e.run(events).guards == e.guards,
        e.run(events).stage matches ToolStageView::Guard { index } ==> index < e.guards
            && passes(events) >= index && allowed_once(events),
        e.run(events).stage is Execute ==> passes(events) >= e.guards && allowed_once(events),
    decreases events.len(),
{
    if events.len() > 0 {
        let before = events.drop_last();
        lemma_progress(e, before);
        let stage = e.run(before).stage;
        if allowed_once(before) {
            let i = choose|i: int|
                0 <= i < before.len() && match #[trigger] before[i] {
                    ToolEventView::PreDecision { decision: Ok(d) } => decision_refusal(d) is None,
                    _ => false,
                };
            assert(events[i] == before[i]);
        }
        if stage is PreExecute {
            assert(events[events.len() - 1] == events.last());
        }
    }
}

/// Whether a request hands out a failure with that code and message.
pub open spec fn ends_in_failure(
    r: ToolRequestView,
    failed: Seq<char>,
    why: Seq<char>,
) -> bool {
    r matches ToolRequestView::Finish { result } && (result matches ToolExecutionResultView::Error {
        message,
        code,
        ..
    } && code == failed && message == why)
}

proof fn lemma_call_payload(args: ToolCallArgsView)
    ensures
        call_payload(args).get("name"@) == Some(JsonView::Text(args.name)),
        call_payload(args).get("arguments"@) == Some(args.arguments),
{
    reveal_strlit("name");
    reveal_strlit("arguments");
    assert("name"@.len() != "arguments"@.len());
    let e = seq![("name"@, JsonView::Text(args.name)), ("arguments"@, args.arguments)];
    json::law_object_holds_its_entries(e, 0);
    json::law_object_holds_its_entries(e, 1);
}

/// A call of a tool that is registered is put up for the decision, with its name
/// and arguments; one of a tool that is not ends at once, and says so.
pub proof fn law_call_is_put_up_for_the_decision(
    registry: ToolRegistryView,
    args: ToolCallArgsView,
)
    ensures
        ({
            let e = accepted(registry, args);
            &&& e.args == args
            &&& e.guards == registry.guards
            &&& match ordered_map::lookup(registry.tools, args.name) {
                Some(tool) => e.body == tool.body && (e.request()
                    matches ToolRequestView::PreExecute { payload } && payload.get("name"@) == Some(
                    JsonView::Text(args.name),
                ) && payload.get("arguments"@) == Some(args.arguments)),
                None => ends_in_failure(
                    e.request(),
                    "UNKNOWN_TOOL"@,
                    "no tool registered with name \""@ + args.name + "\""@,
                ),
            }
        }),
{
    lemma_call_payload(args);
}

/// A decision denies a call with its reason, or holds it back for approval; any
/// other decision lets it go on, to the first guard or, where there is none, to
/// the tool's body. A decision that fails ends the call.
pub proof fn law_decision_is_followed(
    e: ToolExecutionView,
    decision: JsonView,
    reason: Seq<char>,
    message: Seq<char>,
)
    requires
        e.stage is PreExecute,
    ensures
        ({
            let o = e.step(ToolEventView::PreDecision { decision: Ok(decision) }).request();
            let failed = e.step(ToolEventView::PreDecision { decision: Err(message) }).request();
            let kind = decision.get("kind"@);
            &&& kind == Some(JsonView::Text("deny"@)) && decision.get("reason"@) == Some(
                JsonView::Text(reason),
            ) ==> ends_in_failure(o, "DENIED"@, reason)
            &&& kind == Some(JsonView::Text("deny"@)) && decision.get("reason"@) is None
                ==> ends_in_failure(o, "DENIED"@, "denied by policy"@)
            &&& kind == Some(JsonView::Text("ask"@)) ==> ends_in_failure(
                o,
                "APPROVAL"@,
                "tool call requires approval"@,
            )
            &&& kind != Some(JsonView::Text("deny"@)) && kind != Some(JsonView::Text("ask"@))
                && e.guards > 0 ==> o == (ToolRequestView::AskGuard { index: 0 })
            &&& kind != Some(JsonView::Text("deny"@)) && kind != Some(JsonView::Text("ask"@))
                && e.guards == 0 ==> o is Execute
            &&& ends_in_failure(failed, "PRE_EXECUTE"@, message)
        }),
{
    reveal_strlit("deny");
    reveal_strlit("ask");
    assert("deny"@.len() != "ask"@.len());
}

/// A guard that objects ends the call with its reason; behind one that does not
/// the next is asked, and behind the last the tool's body runs.
pub proof fn law_guards_are_asked_in_order(e: ToolExecutionView, index: usize, reason: Seq<char>)
    requires
        e.stage == (ToolStageView::Guard { index }),
        index < e.guards,
    ensures
        ends_in_failure(
            e.step(ToolEventView::GuardVerdict { reason: Some(reason) }).request(),
            "DENIED"@,
            reason,
        ),
        index + 1 < e.guards ==> e.step(ToolEventView::GuardVerdict { reason: None }).request()
            == (ToolRequestView::AskGuard { index: (index + 1) as usize }),
        index + 1 == e.guards ==> e.step(ToolEventView::GuardVerdict { reason: None }).request()
            is Execute,
{
}

/// The body that runs is the tool's own, on the name and arguments of the call,
/// or on the arguments that came through the waterfall; the call keeps its id
/// and its name.
pub proof fn law_body_runs_on_the_call(e: ToolExecutionView, payload: JsonView)
    ensures
        e.stage is Execute ==> (e.request() matches ToolRequestView::Execute {
            payload: given,
            body,
        } && body == e.body && given.get("name"@) == Some(JsonView::Text(e.args.name))
            && given.get("arguments"@) == Some(e.args.arguments)),
        e.args_of_body(payload).call_id == e.args.call_id,
        e.args_of_body(payload).name == e.args.name,
        payload.get("arguments"@) matches Some(a) ==> e.args_of_body(payload).arguments == a,
        payload.get("arguments"@) is None ==> e.args_of_body(payload).arguments
            == e.args.arguments,
        e.args_of_body(call_payload(e.args)) == e.args,
{
    lemma_call_payload(e.args);
}

/// What the body answers is put up for inspection as it is, and what comes out of
/// that is the result of the call. An answer that is none, or a dispatch that
/// fails, ends the call.
pub proof fn law_result_is_what_came_back(
    e: ToolExecutionView,
    result: ToolExecutionResultView,
    message: Seq<char>,
)
    ensures
        e.stage is Execute ==> {
            let ok = e.step(
                ToolEventView::Executed { answer: ToolAnswerView::Answered { result } },
            ).request();
            let failed = e.step(
                ToolEventView::Executed { answer: ToolAnswerView::Failed { message } },
            ).request();
            let bad = e.step(
                ToolEventView::Executed { answer: ToolAnswerView::Unreadable { message } },
            ).request();
            &&& ok == (ToolRequestView::PostExecute { name: e.args.name, result })
            &&& ends_in_failure(failed, "EXECUTE"@, message)
            &&& ends_in_failure(bad, "BAD_RESULT"@, message)
        },
        e.stage is PostExecute ==> {
            let ok = e.step(
                ToolEventView::PostExecuted { answer: ToolAnswerView::Answered { result } },
            ).request();
            let failed = e.step(
                ToolEventView::PostExecuted { answer: ToolAnswerView::Failed { message } },
            ).request();
            let bad = e.step(
                ToolEventView::PostExecuted { answer: ToolAnswerView::Unreadable { message } },
            ).request();
            &&& ok == (ToolRequestView::Finish { result })
            &&& ends_in_failure(failed, "POST_EXECUTE"@, message)
            &&& ends_in_failure(bad, "BAD_RESULT"@, message)
        },
{
}

/// An answer changes how far a call has come, and neither the call, its guards
/// nor its body.
pub proof fn law_call_stays_the_same(e: ToolExecutionView, event: ToolEventView)
    ensures
        e.step(event).args == e.args,
        e.step(event).guards == e.guards,
        e.step(event).body == e.body,
{
}

/// The model is offered a tool by its name, its description and its parameters.
pub proof fn law_schema_describes_the_tool(tool: ToolDefinitionView)
    ensures
        tool.schema().name == tool.name,
        tool.schema().description == tool.description,
        tool.schema().parameters == tool.parameters,
{
}

/// A call of a tool that is registered waits for its decision, with the body of
/// that tool; a call of any other is a failure that names it.
pub proof fn law_known_tool_is_accepted(registry: ToolRegistryView, args: ToolCallArgsView)
    ensures
        accepted(registry, args).args == args,
        accepted(registry, args).guards == registry.guards,
        ordered_map::lookup(registry.tools, args.name) matches Some(tool) ==> accepted(
            registry,
            args,
        ).stage is PreExecute && accepted(registry, args).body == tool.body,
        ordered_map::lookup(registry.tools, args.name) is None ==> accepted(registry, args).stage
            == ToolStageView::failed(
            "UNKNOWN_TOOL"@,
            "no tool registered with name \""@ + args.name + "\""@,
        ),
{
}

} // verus!
