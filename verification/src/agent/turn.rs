//! The turn loop.
//!
//! Each turn runs this flow:
//!
//! ```text
//! turn/start
//!   claim next-step input plus one queued message
//!   -> agent/pre-step                    reject | enter(messages)
//!      step/start
//!      append entered messages as user/message
//!      derive model history from the log
//!      request/header -> llm/stream -> assistant/chunk* -> assistant/message
//!      tool/call -> tools/execute -> tool/result, for each call
//!      step/end
//!      tools owe another request, or next-step input arrived -> next step
//!   -> agent/turn-stopping
//! turn/end
//! ```
//!
//! A [`Turn`] decides what is logged and what is done next. Whoever drives it
//! performs what [`Turn::request`] asks for and hands the answer to
//! [`Turn::step`].

use crate::json;
use crate::json::Json;
use crate::llm::assembler::BlockAssembler;
use crate::session::log::Session;
use crate::text;
use crate::text::{clone_opt, concat2, concat4, decimal_text, joined, str_eq};
use crate::types::agent::AgentOptions;
use crate::types::llm::{
    clone_opt_vec, ContentBlock, FinishReason, GenerateOptions, LlmCallConfig, Message,
    MessageSource, Role, StreamChunk, TokenUsage, ToolSchema,
};
use crate::types::session::{EpochHeader, SessionEvent, SessionEventData, TurnEndReason};
use crate::types::tools::ToolExecutionResult;
use vstd::prelude::*;

#[allow(unused_imports)]
use crate::json::JsonView;
#[allow(unused_imports)]
use crate::llm::assembler::AssemblerView;
#[allow(unused_imports)]
use crate::session::log;
#[allow(unused_imports)]
use crate::session::log::SessionView;
#[allow(unused_imports)]
use crate::types::agent::AgentOptionsView;
#[allow(unused_imports)]
use crate::types::llm;
#[allow(unused_imports)]
use crate::types::llm::{
    ContentBlockView, FinishReasonView, GenerateOptionsView, LlmCallConfigView, MessageSourceView,
    MessageView, StreamChunkView, ToolSchemaView,
};
#[allow(unused_imports)]
use crate::types::session::{
    EpochHeaderView, SessionEventDataView, SessionEventView, TurnEndReasonView,
};
#[allow(unused_imports)]
use crate::types::tools::ToolExecutionResultView;

verus! {

// ---------------------------------------------------------------------------
// the log
// ---------------------------------------------------------------------------

/// Whether `new` is `old_session` with these entries appended, at whatever
/// times.
pub open spec fn extended(
    old_session: SessionView,
    new: SessionView,
    entries: Seq<SessionEventDataView>,
) -> bool {
    exists|times: Seq<u64>|
        times.len() == entries.len() && new == #[trigger] log::appended_all(old_session, times, entries)
}

proof fn lemma_extended_none(s: SessionView)
    ensures
        extended(s, s, seq![]),
{
    let times: Seq<u64> = seq![];
    let entries: Seq<SessionEventDataView> = seq![];
    assert(s == log::appended_all(s, times, entries));
}

proof fn lemma_extended_push(
    a: SessionView,
    b: SessionView,
    entries: Seq<SessionEventDataView>,
    time: u64,
    data: SessionEventDataView,
)
    requires
        extended(a, b, entries),
    ensures
        extended(a, b.appended(time, data), entries.push(data)),
{
    let times = choose|times: Seq<u64>|
        times.len() == entries.len() && b == #[trigger] log::appended_all(a, times, entries);
    let t = times.push(time);
    let e = entries.push(data);
    assert(t.drop_last() =~= times);
    assert(e.drop_last() =~= entries);
    assert(b.appended(time, data) == log::appended_all(a, t, e));
}

proof fn lemma_extended_joins(
    a: SessionView,
    b: SessionView,
    c: SessionView,
    x: Seq<SessionEventDataView>,
    y: Seq<SessionEventDataView>,
)
    requires
        extended(a, b, x),
        extended(b, c, y),
    ensures
        extended(a, c, x + y),
    decreases y.len(),
{
    let times = choose|times: Seq<u64>|
        times.len() == y.len() && c == #[trigger] log::appended_all(b, times, y);
    if y.len() == 0 {
        assert(x + y =~= x);
    } else {
        let before = log::appended_all(b, times.drop_last(), y.drop_last());
        assert(extended(b, before, y.drop_last()));
        lemma_extended_joins(a, b, before, x, y.drop_last());
        lemma_extended_push(a, before, x + y.drop_last(), times.last(), y.last());
        assert((x + y.drop_last()).push(y.last()) =~= x + y);
    }
}

// ---------------------------------------------------------------------------
// helpers
// ---------------------------------------------------------------------------

/// The highest turn that was started.
pub open spec fn last_turn(events: Seq<SessionEventView>) -> u64
    decreases events.len(),
{
    if events.len() == 0 {
        0
    } else {
        let before = last_turn(events.drop_last());
        match events.last().data {
            SessionEventDataView::TurnStart { turn } => if turn > before {
                turn
            } else {
                before
            },
            _ => before,
        }
    }
}

/// The next turn number: one past the highest logged `turn/start`.
pub fn next_turn_number(events: &Vec<SessionEvent>) -> (r: u64)
    requires
        last_turn(text::views(events@)) < u64::MAX,
    ensures
        r == last_turn(text::views(events@)) + 1,
{
    let ghost all = text::views(events@);
    let mut max: u64 = 0;
    assert(all.take(0) =~= seq![]);
    for i in 0..events.len()
        invariant
            all == text::views(events@),
            max == last_turn(all.take(i as int)),
    {
        assert(all.take(i + 1).drop_last() =~= all.take(i as int));
        assert(all.take(i + 1).last() == events@[i as int]@);
        if let SessionEventData::TurnStart { turn } = &events[i].data {
            if *turn > max {
                max = *turn;
            }
        }
    }
    assert(all.take(all.len() as int) =~= all);
    max + 1
}

/// The call configuration that an agent's options stand for.
pub open spec fn default_config(options: AgentOptionsView) -> LlmCallConfigView {
    LlmCallConfigView {
        provider: options.provider,
        model: options.model,
        temperature: None,
        max_tokens: options.max_tokens,
        stop: None,
    }
}

/// The call configuration that an agent's options stand for.
pub fn default_call_config(options: &AgentOptions) -> (r: LlmCallConfig)
    ensures
        r@ == default_config(options@),
{
    LlmCallConfig {
        provider: options.provider.clone(),
        model: options.model.clone(),
        temperature: None,
        max_tokens: options.max_tokens,
        stop: None,
    }
}

/// The texts of the text blocks, in order.
pub open spec fn block_texts(blocks: Seq<ContentBlockView>) -> Seq<Seq<char>>
    decreases blocks.len(),
{
    if blocks.len() == 0 {
        seq![]
    } else {
        match blocks.last().as_text() {
            Some(s) => block_texts(blocks.drop_last()).push(s),
            None => block_texts(blocks.drop_last()),
        }
    }
}

/// The text of a result that the model sees: the lines of a success, the
/// message of a failure.
pub open spec fn result_text(result: ToolExecutionResultView) -> Seq<char> {
    match result {
        ToolExecutionResultView::Success { content, .. } => text::join(
            block_texts(content),
            "\n"@,
        ),
        ToolExecutionResultView::Error { message, .. } => message,
    }
}

/// The user-role message carrying a tool's model-facing result.
pub open spec fn result_message(
    call_id: Seq<char>,
    name: Seq<char>,
    result: ToolExecutionResultView,
) -> MessageView {
    MessageView {
        id: "tr-"@ + call_id,
        role: Role::User,
        content: seq![
            ContentBlockView::ToolResult {
                tool_call_id: call_id,
                content: seq![ContentBlockView::Text { text: result_text(result) }],
                is_error: Some(result is Error),
            },
        ],
        source: MessageSourceView::Tool { tool: name },
    }
}

fn texts_of_blocks(blocks: &Vec<ContentBlock>) -> (r: Vec<String>)
    ensures
        text::views(r@) == block_texts(text::views(blocks@)),
{
    let ghost all = text::views(blocks@);
    let mut out: Vec<String> = Vec::new();
    assert(all.take(0) =~= seq![]);
    assert(text::views(out@) =~= seq![]);
    for i in 0..blocks.len()
        invariant
            all == text::views(blocks@),
            text::views(out@) == block_texts(all.take(i as int)),
    {
        let ghost before = text::views(out@);
        assert(all.take(i + 1).drop_last() =~= all.take(i as int));
        assert(all.take(i + 1).last() == blocks@[i as int]@);
        if let Some(s) = blocks[i].as_text() {
            out.push(s.to_owned());
            assert(text::views(out@) =~= before.push(s@));
        }
    }
    assert(all.take(all.len() as int) =~= all);
    out
}

/// Builds the user-role message carrying a tool's model-facing result.
pub fn tool_result_message(call_id: &str, name: &str, result: &ToolExecutionResult) -> (r: Message)
    ensures
        r@ == result_message(call_id@, name@, result@),
{
    let shown = match result {
        ToolExecutionResult::Success { content, .. } => joined(&texts_of_blocks(content), "\n"),
        ToolExecutionResult::Error { message, .. } => message.clone(),
    };
    let mut inner: Vec<ContentBlock> = Vec::new();
    inner.push(ContentBlock::text(shown.as_str()));
    proof {
        llm::lemma_block_views(inner@);
        assert(text::views(inner@) =~= seq![ContentBlockView::Text { text: result_text(result@) }]);
    }
    let mut content: Vec<ContentBlock> = Vec::new();
    let block = ContentBlock::ToolResult {
        tool_call_id: call_id.to_owned(),
        content: inner,
        is_error: Some(result.is_error()),
    };
    content.push(block);
    assert(text::views(content@) =~= result_message(call_id@, name@, result@).content);
    Message {
        id: concat2("tr-", call_id),
        role: Role::User,
        content,
        source: MessageSource::Tool { tool: name.to_owned() },
    }
}

/// A user-role message carrying an injected context snapshot.
pub fn injected_message(id: &str, text: &str) -> (r: Message)
    ensures
        r@ == (MessageView {
            id: id@,
            role: Role::User,
            content: seq![ContentBlockView::Text { text: text@ }],
            source: MessageSourceView::Plugin { plugin: "dsh-core/loop"@, form: None },
        }),
{
    let mut content: Vec<ContentBlock> = Vec::new();
    content.push(ContentBlock::text(text));
    assert(text::views(content@) =~= seq![ContentBlockView::Text { text: text@ }]);
    Message {
        id: id.to_owned(),
        role: Role::User,
        content,
        source: MessageSource::Plugin { plugin: "dsh-core/loop".to_owned(), form: None },
    }
}

/// The id of the assistant message of a step.
pub open spec fn step_message_id(turn: u64, step: u64) -> Seq<char> {
    "m-"@ + text::decimal(turn as nat) + "-"@ + text::decimal(step as nat)
}

/// The arguments of a call as a value: null where they are no JSON.
pub open spec fn arguments_value(parsed: Option<JsonView>) -> JsonView {
    match parsed {
        Some(v) => v,
        None => JsonView::Null,
    }
}

/// The `agent/pre-step` decision that lets a batch of messages in.
pub open spec fn entered(messages: JsonView) -> JsonView {
    json::object_of(seq![("kind"@, JsonView::Text("enter"@)), ("messages"@, messages)])
}

/// The answer of `agent/pre-step` where no listener has another: the batch that
/// was claimed enters.
pub fn enter_decision(messages: Json) -> (r: Json)
    ensures
        r@ == entered(messages@),
{
    let mut entries = json::no_entries();
    json::put(&mut entries, "kind", Json::text("enter"));
    json::put(&mut entries, "messages", messages);
    assert(json::json_entries(entries@) =~= seq![
        ("kind"@, JsonView::Text("enter"@)),
        ("messages"@, messages@),
    ]);
    Json::object(entries)
}

// ---------------------------------------------------------------------------
// states, answers and requests
// ---------------------------------------------------------------------------

/// How far a turn has come: what it waits for.
#[derive(Debug)]
pub enum TurnStage {
    /// The `agent/pre-step` decision.
    PreStep,
    /// The messages that the decision lets in, read from `value`.
    ReadMessages { value: Json },
    /// The call configuration.
    Configure { messages: Vec<Message> },
    /// The response stream of a request.
    OpenStream { options: GenerateOptions },
    /// The next chunk of the stream.
    Streaming { assembler: BlockAssembler, usage: Option<TokenUsage> },
    /// The result of the call at `index`.
    RunTool { calls: Vec<ContentBlock>, index: usize },
    /// The input of the next step, which the results of tools owe the model or
    /// not.
    Steering { owed: bool },
    /// The `agent/turn-stopping` listeners.
    Stopping,
    /// Nothing: the turn ended, or broke off with an error.
    Ended { error: Option<String> },
}

/// What a [`TurnStage`] says.
#[verifier::ext_equal]
pub enum TurnStageView {
    PreStep,
    ReadMessages { value: JsonView },
    Configure { messages: Seq<MessageView> },
    OpenStream { options: GenerateOptionsView },
    Streaming { assembler: AssemblerView, usage: Option<TokenUsage> },
    RunTool { calls: Seq<ContentBlockView>, index: nat },
    Steering { owed: bool },
    Stopping,
    Ended { error: Option<Seq<char>> },
}

impl View for TurnStage {
    type V = TurnStageView;

    open spec fn view(&self) -> TurnStageView {
        match *self {
            TurnStage::PreStep => TurnStageView::PreStep,
            TurnStage::ReadMessages { value } => TurnStageView::ReadMessages { value: value@ },
            TurnStage::Configure { messages } => TurnStageView::Configure {
                messages: text::views(messages@),
            },
            TurnStage::OpenStream { options } => TurnStageView::OpenStream { options: options@ },
            TurnStage::Streaming { assembler, usage } => TurnStageView::Streaming {
                assembler: assembler@,
                usage,
            },
            TurnStage::RunTool { calls, index } => TurnStageView::RunTool {
                calls: text::views(calls@),
                index: index as nat,
            },
            TurnStage::Steering { owed } => TurnStageView::Steering { owed },
            TurnStage::Stopping => TurnStageView::Stopping,
            TurnStage::Ended { error } => TurnStageView::Ended { error: text::opt_view(error) },
        }
    }
}

/// How opening the response stream went.
#[derive(Debug, PartialEq)]
pub enum Opening {
    /// The turn was cancelled first.
    Cancelled,
    /// It failed.
    Failed { message: String },
    /// The stream is open.
    Opened,
}

/// An answer to what a turn asked for.
#[allow(inconsistent_fields)]
#[derive(Debug)]
pub enum TurnEvent {
    /// The `agent/pre-step` waterfall's decision, or its failure.
    Decided { decision: Result<Json, String> },
    /// The messages that were read, or why they could not be.
    Entered { messages: Result<Vec<Message>, String> },
    /// The call configuration, or why there is none; the assembled system
    /// prompt and the tools that are registered.
    Configured { config: Result<LlmCallConfig, String>, system: String, tools: Vec<ToolSchema> },
    /// How opening the response stream went.
    StreamOpened { opening: Opening },
    /// A chunk of the stream.
    Chunk { chunk: StreamChunk },
    /// The stream ended without a finish chunk.
    StreamEnded,
    /// The turn was cancelled while streaming.
    Interrupted,
    /// The result of a tool call.
    ToolDone { result: ToolExecutionResult },
    /// The input of the next step, and the tools that are registered.
    Steered { messages: Vec<Message>, tools: Vec<ToolSchema> },
    /// The `agent/turn-stopping` listeners are through.
    Stopped,
}

/// What a [`TurnEvent`] says.
#[allow(inconsistent_fields)]
#[verifier::ext_equal]
pub enum TurnEventView {
    Decided { decision: Result<JsonView, Seq<char>> },
    Entered { messages: Result<Seq<MessageView>, Seq<char>> },
    Configured {
        config: Result<LlmCallConfigView, Seq<char>>,
        system: Seq<char>,
        tools: Seq<ToolSchemaView>,
    },
    Cancelled,
    OpenFailed { message: Seq<char> },
    Opened,
    Chunk { chunk: StreamChunkView },
    StreamEnded,
    Interrupted,
    ToolDone { result: ToolExecutionResultView },
    Steered { messages: Seq<MessageView>, tools: Seq<ToolSchemaView> },
    Stopped,
}

impl View for TurnEvent {
    type V = TurnEventView;

    open spec fn view(&self) -> TurnEventView {
        match *self {
            TurnEvent::Decided { decision } => TurnEventView::Decided {
                decision: match decision {
                    Ok(d) => Ok(d@),
                    Err(m) => Err(m@),
                },
            },
            TurnEvent::Entered { messages } => TurnEventView::Entered {
                messages: match messages {
                    Ok(ms) => Ok(text::views(ms@)),
                    Err(m) => Err(m@),
                },
            },
            TurnEvent::Configured { config, system, tools } => TurnEventView::Configured {
                config: match config {
                    Ok(c) => Ok(c@),
                    Err(m) => Err(m@),
                },
                system: system@,
                tools: text::views(tools@),
            },
            TurnEvent::StreamOpened { opening } => match opening {
                Opening::Cancelled => TurnEventView::Cancelled,
                Opening::Failed { message } => TurnEventView::OpenFailed { message: message@ },
                Opening::Opened => TurnEventView::Opened,
            },
            TurnEvent::Chunk { chunk } => TurnEventView::Chunk { chunk: chunk@ },
            TurnEvent::StreamEnded => TurnEventView::StreamEnded,
            TurnEvent::Interrupted => TurnEventView::Interrupted,
            TurnEvent::ToolDone { result } => TurnEventView::ToolDone { result: result@ },
            TurnEvent::Steered { messages, tools } => TurnEventView::Steered {
                messages: text::views(messages@),
                tools: text::views(tools@),
            },
            TurnEvent::Stopped => TurnEventView::Stopped,
        }
    }
}

/// What a turn asks for next.
#[derive(Debug, PartialEq)]
pub enum TurnRequest {
    /// Run the `agent/pre-step` waterfall on the claimed messages.
    RunPreStep { turn: u64 },
    /// Read messages from `value`.
    ReadMessages { value: Json },
    /// Resolve the call configuration through the `agent/request` waterfall,
    /// whose fallback is `fallback`; assemble the prompt; list the tools.
    ResolveConfig { turn: u64, fallback: LlmCallConfig },
    /// Open the response stream of a request, unless cancelled first.
    OpenStream { options: GenerateOptions },
    /// Wait for the next chunk, unless cancelled first.
    NextChunk,
    /// Run a tool call.
    RunTool { call_id: String, name: String, arguments: Json },
    /// Claim the input of the next step and list the tools; count the step
    /// where its tools owe another request.
    ClaimSteering { owed: bool },
    /// Run the `agent/turn-stopping` listeners.
    RunStopping { turn: u64 },
    /// Nothing more.
    Done { error: Option<String> },
}

/// What a [`TurnRequest`] says.
#[verifier::ext_equal]
pub enum TurnRequestView {
    RunPreStep { turn: u64 },
    ReadMessages { value: JsonView },
    ResolveConfig { turn: u64, fallback: LlmCallConfigView },
    OpenStream { options: GenerateOptionsView },
    NextChunk,
    RunTool { call_id: Seq<char>, name: Seq<char>, arguments: JsonView },
    ClaimSteering { owed: bool },
    RunStopping { turn: u64 },
    Done { error: Option<Seq<char>> },
}

impl View for TurnRequest {
    type V = TurnRequestView;

    open spec fn view(&self) -> TurnRequestView {
        match *self {
            TurnRequest::RunPreStep { turn } => TurnRequestView::RunPreStep { turn },
            TurnRequest::ReadMessages { value } => TurnRequestView::ReadMessages { value: value@ },
            TurnRequest::ResolveConfig { turn, fallback } => TurnRequestView::ResolveConfig {
                turn,
                fallback: fallback@,
            },
            TurnRequest::OpenStream { options } => TurnRequestView::OpenStream {
                options: options@,
            },
            TurnRequest::NextChunk => TurnRequestView::NextChunk,
            TurnRequest::RunTool { call_id, name, arguments } => TurnRequestView::RunTool {
                call_id: call_id@,
                name: name@,
                arguments: arguments@,
            },
            TurnRequest::ClaimSteering { owed } => TurnRequestView::ClaimSteering { owed },
            TurnRequest::RunStopping { turn } => TurnRequestView::RunStopping { turn },
            TurnRequest::Done { error } => TurnRequestView::Done { error: text::opt_view(error) },
        }
    }
}

// ---------------------------------------------------------------------------
// the turn
// ---------------------------------------------------------------------------

/// One turn of an agent.
#[derive(Debug)]
pub struct Turn {
    agent_id: String,
    options: AgentOptions,
    turn: u64,
    /// The step that was started last.
    step: u64,
    config: LlmCallConfig,
    system: String,
    stage: TurnStage,
}

/// What a [`Turn`] holds.
#[verifier::ext_equal]
pub struct TurnView {
    pub agent_id: Seq<char>,
    pub options: AgentOptionsView,
    pub turn: u64,
    pub step: u64,
    pub config: LlmCallConfigView,
    pub system: Seq<char>,
    pub stage: TurnStageView,
}

impl View for Turn {
    type V = TurnView;

    closed spec fn view(&self) -> TurnView {
        TurnView {
            agent_id: self.agent_id@,
            options: self.options@,
            turn: self.turn,
            step: self.step,
            config: self.config@,
            system: self.system@,
            stage: self.stage@,
        }
    }
}

/// What an answer leads to: what is logged, and the turn afterwards.
#[verifier::ext_equal]
pub struct Outcome {
    pub entries: Seq<SessionEventDataView>,
    pub next: TurnView,
}

/// The entry of a tool call.
pub open spec fn call_entry(turn: u64, step: u64, call: ContentBlockView) -> SessionEventDataView {
    SessionEventDataView::ToolCall {
        turn,
        step,
        call_id: call->id,
        name: call->name,
        arguments: call->arguments,
    }
}

impl TurnView {
    /// What a stage promises: the assembler holds no index twice, and the
    /// calls are tool calls, one of which is running.
    pub open spec fn well_formed(self) -> bool {
        match self.stage {
            TurnStageView::Streaming { assembler, .. } => assembler.well_formed(),
            TurnStageView::RunTool { calls, index } => index < calls.len() && forall|i: int|
                0 <= i < calls.len() ==> (#[trigger] calls[i]) is ToolCall,
            _ => true,
        }
    }

    /// The turn at another stage.
    pub open spec fn at(self, stage: TurnStageView) -> TurnView {
        TurnView { stage, ..self }
    }

    /// Nothing happens.
    pub open spec fn stays(self) -> Outcome {
        Outcome { entries: seq![], next: self }
    }

    /// The turn breaks off with an error; it stays open in the log.
    pub open spec fn broken(self, message: Seq<char>) -> Outcome {
        Outcome {
            entries: seq![],
            next: self.at(TurnStageView::Ended { error: Some(message) }),
        }
    }

    /// The entry that closes the turn.
    pub open spec fn end_entry(self, reason: TurnEndReasonView) -> SessionEventDataView {
        SessionEventDataView::TurnEnd { turn: self.turn, reason }
    }

    /// The entry that closes the step.
    pub open spec fn step_end_entry(self) -> SessionEventDataView {
        SessionEventDataView::StepEnd { turn: self.turn, step: self.step }
    }

    /// The turn ended.
    pub open spec fn over(self) -> TurnView {
        self.at(TurnStageView::Ended { error: None })
    }

    /// The turn is blocked before its first step.
    pub open spec fn blocked(self) -> Outcome {
        Outcome {
            entries: seq![self.end_entry(TurnEndReasonView::Blocked)],
            next: self.over(),
        }
    }

    /// The reason of a cancelled turn.
    pub open spec fn user_abort() -> TurnEndReasonView {
        TurnEndReasonView::Aborted { cause: "user"@ }
    }

    /// The request of a step over that history.
    pub open spec fn request_options(
        self,
        tools: Seq<ToolSchemaView>,
        history: Seq<MessageView>,
    ) -> GenerateOptionsView {
        GenerateOptionsView {
            provider: self.config.provider,
            model: self.config.model,
            messages: history,
            system: if self.system.len() == 0 {
                None
            } else {
                Some(self.system)
            },
            tools: if tools.len() == 0 {
                None
            } else {
                Some(tools)
            },
            temperature: self.config.temperature,
            max_tokens: self.config.max_tokens,
            stop: self.config.stop,
            session_id: Some(self.agent_id),
        }
    }

    /// The entries that open a step: its start, the messages that enter, the
    /// header of its request.
    pub open spec fn step_entries(
        self,
        messages: Seq<MessageView>,
        options: GenerateOptionsView,
    ) -> Seq<SessionEventDataView> {
        (seq![SessionEventDataView::StepStart { turn: self.turn, step: (self.step + 1) as u64 }]
            + messages.map_values(
            |m: MessageView| SessionEventDataView::UserMessage { message: m },
        )).push(
            SessionEventDataView::RequestHeader {
                header: EpochHeaderView {
                    config: self.config,
                    system: options.system,
                    tools: options.tools,
                },
            },
        )
    }

    /// The next step begins. `history` is the message history once the
    /// messages have entered.
    pub open spec fn next_step(
        self,
        messages: Seq<MessageView>,
        tools: Seq<ToolSchemaView>,
        history: Seq<MessageView>,
    ) -> Outcome {
        let options = self.request_options(tools, history);
        Outcome {
            entries: self.step_entries(messages, options),
            next: TurnView {
                step: (self.step + 1) as u64,
                stage: TurnStageView::OpenStream { options },
                ..self
            },
        }
    }

    /// The source of the step's assistant message.
    pub open spec fn model_source(self) -> MessageSourceView {
        MessageSourceView::Model { provider: self.config.provider, model: self.config.model }
    }

    /// The stream is through: its message is logged. A response that reached
    /// the token ceiling ends the turn; one without tool calls ends the step;
    /// else the first call runs.
    pub open spec fn answered(self, a: AssemblerView, usage: Option<TokenUsage>) -> Outcome {
        let message = a.message(step_message_id(self.turn, self.step), self.model_source());
        let logged = seq![
            SessionEventDataView::AssistantMessage {
                turn: self.turn,
                step: self.step,
                message,
                usage,
                interrupted: None,
            },
        ];
        let calls = llm::tool_calls_of(message.content);
        if a.finish_reason() == FinishReasonView::MaxTokens {
            Outcome {
                entries: logged.push(self.step_end_entry()).push(
                    self.end_entry(TurnEndReasonView::MaxTokens),
                ),
                next: self.over(),
            }
        } else if calls.len() == 0 {
            Outcome {
                entries: logged.push(self.step_end_entry()),
                next: self.at(TurnStageView::Steering { owed: false }),
            }
        } else {
            Outcome {
                entries: logged.push(call_entry(self.turn, self.step, calls[0])),
                next: self.at(TurnStageView::RunTool { calls, index: 0 }),
            }
        }
    }

    /// The stream was cut off: what can safely be kept of it is logged, and
    /// the turn is aborted.
    pub open spec fn interrupted(self, a: AssemblerView) -> Outcome {
        let blocks = a.interrupted_blocks();
        let kept = if blocks.len() == 0 {
            seq![]
        } else {
            seq![
                SessionEventDataView::AssistantMessage {
                    turn: self.turn,
                    step: self.step,
                    message: MessageView {
                        id: step_message_id(self.turn, self.step),
                        role: Role::Assistant,
                        content: blocks,
                        source: self.model_source(),
                    },
                    usage: None,
                    interrupted: Some(true),
                },
            ]
        };
        Outcome {
            entries: kept.push(self.step_end_entry()).push(self.end_entry(Self::user_abort())),
            next: self.over(),
        }
    }

    /// A chunk arrived: it is logged and assembled; a finish chunk ends the
    /// stream.
    pub open spec fn streamed(
        self,
        a: AssemblerView,
        usage: Option<TokenUsage>,
        chunk: StreamChunkView,
    ) -> Outcome {
        let logged = seq![
            SessionEventDataView::AssistantChunk { turn: self.turn, step: self.step, chunk },
        ];
        let after = a.push(chunk);
        let now = match chunk {
            StreamChunkView::Usage { usage } => Some(usage),
            _ => usage,
        };
        if chunk is Finish {
            let rest = self.answered(after, now);
            Outcome { entries: logged + rest.entries, next: rest.next }
        } else {
            Outcome {
                entries: logged,
                next: self.at(TurnStageView::Streaming { assembler: after, usage: now }),
            }
        }
    }

    /// A tool call is through: its result is logged, and the next call runs or
    /// the step ends.
    pub open spec fn called(
        self,
        calls: Seq<ContentBlockView>,
        index: nat,
        result: ToolExecutionResultView,
    ) -> Outcome {
        let logged = seq![
            SessionEventDataView::ToolResult {
                turn: self.turn,
                step: self.step,
                message: result_message(calls[index as int]->id, calls[index as int]->name, result),
            },
        ];
        if index + 1 < calls.len() {
            Outcome {
                entries: logged.push(call_entry(self.turn, self.step, calls[index as int + 1])),
                next: self.at(TurnStageView::RunTool { calls, index: index + 1 }),
            }
        } else {
            Outcome {
                entries: logged.push(self.step_end_entry()),
                next: self.at(TurnStageView::Steering { owed: true }),
            }
        }
    }

    /// What an answer leads to. `history` is the message history of the
    /// session afterwards. An answer to something else than what was asked for
    /// changes nothing.
    pub open spec fn step(self, event: TurnEventView, history: Seq<MessageView>) -> Outcome {
        match (self.stage, event) {
            (TurnStageView::PreStep, TurnEventView::Decided { decision }) => match decision {
                Err(message) => self.broken(message),
                Ok(d) => if d.str_at("kind"@) == Some("enter"@) {
                    Outcome {
                        entries: seq![],
                        next: self.at(
                            TurnStageView::ReadMessages {
                                value: match d.get("messages"@) {
                                    Some(v) => v,
                                    None => JsonView::Array(seq![]),
                                },
                            },
                        ),
                    }
                } else {
                    self.blocked()
                },
            },
            (
                TurnStageView::ReadMessages { .. },
                TurnEventView::Entered { messages },
            ) => match messages {
                Err(message) => self.broken(message),
                Ok(ms) => if ms.len() == 0 {
                    self.blocked()
                } else {
                    Outcome {
                        entries: seq![],
                        next: self.at(TurnStageView::Configure { messages: ms }),
                    }
                },
            },
            (
                TurnStageView::Configure { messages },
                TurnEventView::Configured { config, system, tools },
            ) => match config {
                Err(message) => self.broken(message),
                Ok(c) => TurnView { config: c, system, ..self }.next_step(messages, tools, history),
            },
            (TurnStageView::OpenStream { .. }, TurnEventView::Cancelled) => Outcome {
                entries: seq![self.step_end_entry(), self.end_entry(Self::user_abort())],
                next: self.over(),
            },
            (TurnStageView::OpenStream { .. }, TurnEventView::OpenFailed { message }) => self.broken(
                message,
            ),
            (TurnStageView::OpenStream { .. }, TurnEventView::Opened) => Outcome {
                entries: seq![],
                next: self.at(
                    TurnStageView::Streaming { assembler: AssemblerView::empty(), usage: None },
                ),
            },
            (
                TurnStageView::Streaming { assembler, usage },
                TurnEventView::Chunk { chunk },
            ) => self.streamed(assembler, usage, chunk),
            (
                TurnStageView::Streaming { assembler, usage },
                TurnEventView::StreamEnded,
            ) => self.answered(assembler, usage),
            (
                TurnStageView::Streaming { assembler, .. },
                TurnEventView::Interrupted,
            ) => self.interrupted(assembler),
            (
                TurnStageView::RunTool { calls, index },
                TurnEventView::ToolDone { result },
            ) => self.called(calls, index, result),
            (
                TurnStageView::Steering { owed },
                TurnEventView::Steered { messages, tools },
            ) => if !owed && messages.len() == 0 {
                Outcome { entries: seq![], next: self.at(TurnStageView::Stopping) }
            } else {
                self.next_step(messages, tools, history)
            },
            (TurnStageView::Stopping, TurnEventView::Stopped) => Outcome {
                entries: seq![self.end_entry(TurnEndReasonView::Completed)],
                next: self.over(),
            },
            _ => self.stays(),
        }
    }

    /// What the turn asks for next.
    pub open spec fn request(self) -> TurnRequestView {
        match self.stage {
            TurnStageView::PreStep => TurnRequestView::RunPreStep { turn: self.turn },
            TurnStageView::ReadMessages { value } => TurnRequestView::ReadMessages { value },
            TurnStageView::Configure { .. } => TurnRequestView::ResolveConfig {
                turn: self.turn,
                fallback: default_config(self.options),
            },
            TurnStageView::OpenStream { options } => TurnRequestView::OpenStream { options },
            TurnStageView::Streaming { .. } => TurnRequestView::NextChunk,
            TurnStageView::RunTool { calls, index } => TurnRequestView::RunTool {
                call_id: calls[index as int]->id,
                name: calls[index as int]->name,
                arguments: arguments_value(
                    json::parsed(calls[index as int]->arguments),
                ),
            },
            TurnStageView::Steering { owed } => TurnRequestView::ClaimSteering { owed },
            TurnStageView::Stopping => TurnRequestView::RunStopping { turn: self.turn },
            TurnStageView::Ended { error } => TurnRequestView::Done { error },
        }
    }
}

/// The turn right after its start.
pub open spec fn started(
    agent_id: Seq<char>,
    options: AgentOptionsView,
    turn: u64,
) -> TurnView {
    TurnView {
        agent_id,
        options,
        turn,
        step: 0,
        config: default_config(options),
        system: seq![],
        stage: TurnStageView::PreStep,
    }
}

/// Whether an answer led a turn over a session to another stage, and what it
/// led to was logged.
pub open spec fn went_on(
    t: TurnView,
    s: SessionView,
    event: TurnEventView,
    next: TurnView,
    after: SessionView,
) -> bool {
    let o = t.step(event, after.messages());
    next == o.next && extended(s, after, o.entries)
}

// ---------------------------------------------------------------------------
// the driver's side
// ---------------------------------------------------------------------------

/// Copies of the tool calls of a message, in order.
fn calls_of(message: &Message) -> (r: Vec<ContentBlock>)
    ensures
        text::views(r@) == llm::tool_calls_of(message@.content),
{
    let calls = message.tool_calls();
    let mut out: Vec<ContentBlock> = Vec::new();
    for i in 0..calls.len()
        invariant
            out@.len() == i,
            forall|k: int| 0 <= k < i ==> (#[trigger] out@[k])@ == calls@[k]@,
    {
        out.push(calls[i].clone());
    }
    assert(text::views(out@) =~= Seq::new(calls@.len(), |i: int| calls@[i]@));
    out
}

proof fn lemma_calls_are_calls(blocks: Seq<ContentBlockView>, i: int)
    requires
        0 <= i < llm::tool_calls_of(blocks).len(),
    ensures
        llm::tool_calls_of(blocks)[i] is ToolCall,
    decreases blocks.len(),
{
    reveal(Seq::filter);
    if blocks.len() > 0 {
        let before = llm::tool_calls_of(blocks.drop_last());
        if i < before.len() {
            lemma_calls_are_calls(blocks.drop_last(), i);
        }
    }
}

fn call_data(turn: u64, step: u64, call: &ContentBlock) -> (r: SessionEventData)
    requires
        call@ is ToolCall,
    ensures
        r@ == call_entry(turn, step, call@),
{
    match call {
        ContentBlock::ToolCall { id, name, arguments } => SessionEventData::ToolCall {
            turn,
            step,
            call_id: id.clone(),
            name: name.clone(),
            arguments: arguments.clone(),
        },
        _ => SessionEventData::SessionEndSeed,
    }
}

impl Turn {
    /// Starts the next turn of an agent.
    pub fn start(session: &mut Session, agent_id: &str, options: &AgentOptions) -> (r: Self)
        requires
            old(session).well_formed(),
            last_turn(old(session)@.events) < u64::MAX,
        ensures
            final(session).well_formed(),
            r@ == started(
                agent_id@,
                options@,
                (last_turn(old(session)@.events) + 1) as u64,
            ),
            r@.well_formed(),
            extended(
                old(session)@,
                final(session)@,
                seq![SessionEventDataView::TurnStart { turn: r@.turn }],
            ),
    {
        let ghost start = session@;
        let turn = next_turn_number(&session.events());
        let e = session.append(SessionEventData::TurnStart { turn });
        proof {
            lemma_extended_none(start);
            lemma_extended_push(
                start,
                start,
                seq![],
                e@.time,
                SessionEventDataView::TurnStart { turn },
            );
            assert(Seq::<SessionEventDataView>::empty().push(
                SessionEventDataView::TurnStart { turn },
            ) =~= seq![SessionEventDataView::TurnStart { turn }]);
        }
        let r = Turn {
            agent_id: agent_id.to_owned(),
            options: options.clone(),
            turn,
            step: 0,
            config: default_call_config(options),
            system: String::new(),
            stage: TurnStage::PreStep,
        };
        assert(r@ =~= started(agent_id@, options@, turn));
        r
    }

    /// The number of the turn.
    pub fn turn(&self) -> (r: u64)
        ensures
            r == self@.turn,
    {
        self.turn
    }

    /// How many steps were started.
    pub fn steps(&self) -> (r: u64)
        ensures
            r == self@.step,
    {
        self.step
    }

    /// What the turn asks for next.
    pub fn request(&self) -> (r: TurnRequest)
        requires
            self@.well_formed(),
        ensures
            r@ == self@.request(),
    {
        match &self.stage {
            TurnStage::PreStep => TurnRequest::RunPreStep { turn: self.turn },
            TurnStage::ReadMessages { value } => TurnRequest::ReadMessages {
                value: value.clone(),
            },
            TurnStage::Configure { .. } => TurnRequest::ResolveConfig {
                turn: self.turn,
                fallback: default_call_config(&self.options),
            },
            TurnStage::OpenStream { options } => TurnRequest::OpenStream {
                options: options.clone(),
            },
            TurnStage::Streaming { .. } => TurnRequest::NextChunk,
            TurnStage::RunTool { calls, index } => {
                assert(text::views(calls@)[*index as int] is ToolCall);
                match &calls[*index] {
                    ContentBlock::ToolCall { id, name, arguments } => TurnRequest::RunTool {
                        call_id: id.clone(),
                        name: name.clone(),
                        arguments: match json::parse(arguments.as_str()) {
                            Some(v) => v,
                            None => Json::Null,
                        },
                    },
                    _ => TurnRequest::NextChunk,
                }
            },
            TurnStage::Steering { owed } => TurnRequest::ClaimSteering { owed: *owed },
            TurnStage::Stopping => TurnRequest::RunStopping { turn: self.turn },
            TurnStage::Ended { error } => TurnRequest::Done { error: clone_opt(error) },
        }
    }

    /// Breaks the turn off.
    fn break_off(&mut self, message: String)
        ensures
            final(self)@ == old(self)@.broken(message@).next,
    {
        self.stage = TurnStage::Ended { error: Some(message) };
    }

    /// Logs the end of the turn.
    fn log_end(&mut self, session: &mut Session, reason: TurnEndReason)
        requires
            old(session).well_formed(),
        ensures
            final(session).well_formed(),
            exists|time: u64|
                final(session)@ == #[trigger] old(session)@.appended(
                    time,
                    old(self)@.end_entry(reason@),
                ),
            final(self)@ == old(self)@.over(),
    {
        let e = session.append(SessionEventData::TurnEnd { turn: self.turn, reason });
        self.stage = TurnStage::Ended { error: None };
        assert(session@ == old(session)@.appended(e@.time, old(self)@.end_entry(reason@)));
    }

    /// Logs the end of the step.
    fn log_step_end(&self, session: &mut Session)
        requires
            old(session).well_formed(),
        ensures
            final(session).well_formed(),
            exists|time: u64|
                final(session)@ == #[trigger] old(session)@.appended(time, self@.step_end_entry()),
    {
        let e = session.append(SessionEventData::StepEnd { turn: self.turn, step: self.step });
        assert(session@ == old(session)@.appended(e@.time, self@.step_end_entry()));
    }

    /// Blocks the turn before its first step.
    fn block(&mut self, session: &mut Session)
        requires
            old(session).well_formed(),
        ensures
            final(session).well_formed(),
            final(self)@ == old(self)@.blocked().next,
            extended(old(session)@, final(session)@, old(self)@.blocked().entries),
    {
        let ghost start = session@;
        let ghost entry = self@.end_entry(TurnEndReasonView::Blocked);
        self.log_end(session, TurnEndReason::Blocked);
        proof {
            let time = choose|time: u64| session@ == #[trigger] start.appended(time, entry);
            lemma_extended_none(start);
            lemma_extended_push(start, start, seq![], time, entry);
            assert(Seq::<SessionEventDataView>::empty().push(entry) =~= seq![entry]);
        }
    }

    /// Logs the end of the step and of the turn, after `logged`.
    fn close(&mut self, session: &mut Session, reason: TurnEndReason)
        requires
            old(session).well_formed(),
        ensures
            final(session).well_formed(),
            final(self)@ == old(self)@.over(),
            forall|start: SessionView, logged: Seq<SessionEventDataView>|
                extended(start, old(session)@, logged) ==> #[trigger] extended(
                    start,
                    final(session)@,
                    logged.push(old(self)@.step_end_entry()).push(
                        old(self)@.end_entry(reason@),
                    ),
                ),
    {
        let ghost s0 = session@;
        let ghost me = self@;
        self.log_step_end(session);
        let ghost s1 = session@;
        self.log_end(session, reason);
        let ghost s2 = session@;
        proof {
            let t1 = choose|t: u64| s1 == #[trigger] s0.appended(t, me.step_end_entry());
            let t2 = choose|t: u64| s2 == #[trigger] s1.appended(t, me.end_entry(reason@));
            assert forall|start: SessionView, logged: Seq<SessionEventDataView>|
                extended(start, s0, logged) implies #[trigger] extended(
                start,
                s2,
                logged.push(me.step_end_entry()).push(me.end_entry(reason@)),
            ) by {
                lemma_extended_push(start, s0, logged, t1, me.step_end_entry());
                lemma_extended_push(
                    start,
                    s1,
                    logged.push(me.step_end_entry()),
                    t2,
                    me.end_entry(reason@),
                );
            }
        }
    }

    /// Begins the next step.
    fn begin_step(&mut self, session: &mut Session, messages: Vec<Message>, tools: Vec<ToolSchema>)
        requires
            old(session).well_formed(),
            old(self)@.step < u64::MAX,
        ensures
            final(session).well_formed(),
            ({
                let o = old(self)@.next_step(
                    text::views(messages@),
                    text::views(tools@),
                    final(session)@.messages(),
                );
                final(self)@ == o.next && extended(old(session)@, final(session)@, o.entries)
            }),
    {
        let ghost start = session@;
        let ghost me = self@;
        let ghost ms = text::views(messages@);
        let ghost as_entry = |m: MessageView| SessionEventDataView::UserMessage { message: m };
        self.step = self.step + 1;
        let e = session.append(SessionEventData::StepStart { turn: self.turn, step: self.step });
        let ghost first = SessionEventDataView::StepStart {
            turn: me.turn,
            step: (me.step + 1) as u64,
        };
        let ghost mut logged = seq![first];
        proof {
            lemma_extended_none(start);
            lemma_extended_push(start, start, seq![], e@.time, first);
            assert(Seq::<SessionEventDataView>::empty().push(first) =~= logged);
        }
        assert(logged =~= seq![first] + ms.take(0).map_values(as_entry));
        for i in 0..messages.len()
            invariant
                session.well_formed(),
                ms == text::views(messages@),
                as_entry == (|m: MessageView| SessionEventDataView::UserMessage { message: m }),
                extended(start, session@, logged),
                logged == seq![first] + ms.take(i as int).map_values(as_entry),
        {
            let ghost before = session@;
            let ghost entry = SessionEventDataView::UserMessage { message: ms[i as int] };
            let e = session.append(
                SessionEventData::UserMessage { message: messages[i].clone() },
            );
            proof {
                lemma_extended_push(start, before, logged, e@.time, entry);
                logged = logged.push(entry);
                assert(ms.take(i + 1) =~= ms.take(i as int).push(ms[i as int]));
                assert(logged =~= seq![first] + ms.take(i + 1).map_values(as_entry));
            }
        }
        assert(ms.take(ms.len() as int) =~= ms);
        let history = session.derive_messages();
        let options = GenerateOptions {
            provider: self.config.provider.clone(),
            model: self.config.model.clone(),
            messages: history,
            system: if self.system.as_str().is_empty() {
                None
            } else {
                Some(self.system.clone())
            },
            tools: if tools.len() == 0 {
                None
            } else {
                Some(tools)
            },
            temperature: clone_opt(&self.config.temperature),
            max_tokens: self.config.max_tokens,
            stop: clone_opt_vec(&self.config.stop),
            session_id: Some(self.agent_id.clone()),
        };
        let header = EpochHeader {
            config: self.config.clone(),
            system: clone_opt(&options.system),
            tools: clone_opt_vec(&options.tools),
        };
        let ghost entry = SessionEventDataView::RequestHeader { header: header@ };
        let ghost before = session@;
        let e = session.append(SessionEventData::RequestHeader { header });
        proof {
            log::law_other_entries_add_no_message(before, e@.time, entry);
            lemma_extended_push(start, before, logged, e@.time, entry);
            let wanted = me.request_options(text::views(tools@), session@.messages());
            assert(options@ =~= wanted);
            assert(logged.push(entry) =~= me.step_entries(ms, wanted));
        }
        self.stage = TurnStage::OpenStream { options };
    }

    /// The id of the step's assistant message.
    fn message_id(&self) -> (r: String)
        ensures
            r@ == step_message_id(self@.turn, self@.step),
    {
        let t = decimal_text(self.turn);
        let s = decimal_text(self.step);
        concat4("m-", t.as_str(), "-", s.as_str())
    }

    fn source(&self) -> (r: MessageSource)
        ensures
            r@ == self@.model_source(),
    {
        MessageSource::Model {
            provider: self.config.provider.clone(),
            model: self.config.model.clone(),
        }
    }

    /// The stream is through.
    fn answer(&mut self, session: &mut Session, a: &BlockAssembler, usage: Option<TokenUsage>)
        requires
            old(session).well_formed(),
        ensures
            final(session).well_formed(),
            final(self)@ == old(self)@.answered(a@, usage).next,
            final(self)@.well_formed(),
            forall|start: SessionView, logged: Seq<SessionEventDataView>|
                extended(start, old(session)@, logged) ==> #[trigger] extended(
                    start,
                    final(session)@,
                    logged + old(self)@.answered(a@, usage).entries,
                ),
    {
        let ghost s0 = session@;
        let ghost me = self@;
        let id = self.message_id();
        let message = a.message(id.as_str(), self.source());
        let calls = calls_of(&message);
        let ghost content = message@.content;
        let ghost entry = SessionEventDataView::AssistantMessage {
            turn: me.turn,
            step: me.step,
            message: message@,
            usage,
            interrupted: None,
        };
        let e = session.append(
            SessionEventData::AssistantMessage {
                turn: self.turn,
                step: self.step,
                message,
                usage,
                interrupted: None,
            },
        );
        let ghost s1 = session@;
        let ghost goal = me.answered(a@, usage).entries;
        if matches!(a.finish(), FinishReason::MaxTokens) {
            self.close(session, TurnEndReason::MaxTokens);
            proof {
                assert forall|start: SessionView, logged: Seq<SessionEventDataView>|
                    extended(start, s0, logged) implies #[trigger] extended(
                    start,
                    session@,
                    logged + goal,
                ) by {
                    lemma_extended_push(start, s0, logged, e@.time, entry);
                    assert(extended(
                        start,
                        session@,
                        logged.push(entry).push(me.step_end_entry()).push(
                            me.end_entry(TurnEndReasonView::MaxTokens),
                        ),
                    ));
                    assert(logged + goal =~= logged.push(entry).push(me.step_end_entry()).push(
                        me.end_entry(TurnEndReasonView::MaxTokens),
                    ));
                }
            }
        } else if calls.len() == 0 {
            self.log_step_end(session);
            self.stage = TurnStage::Steering { owed: false };
            proof {
                let t = choose|t: u64| session@ == #[trigger] s1.appended(t, me.step_end_entry());
                assert forall|start: SessionView, logged: Seq<SessionEventDataView>|
                    extended(start, s0, logged) implies #[trigger] extended(
                    start,
                    session@,
                    logged + goal,
                ) by {
                    lemma_extended_push(start, s0, logged, e@.time, entry);
                    lemma_extended_push(start, s1, logged.push(entry), t, me.step_end_entry());
                    assert(logged + goal =~= logged.push(entry).push(me.step_end_entry()));
                }
            }
        } else {
            proof {
                assert forall|i: int| 0 <= i < text::views(calls@).len() implies (
                #[trigger] text::views(calls@)[i]) is ToolCall by {
                    lemma_calls_are_calls(content, i);
                }
                assert(text::views(calls@)[0] is ToolCall);
            }
            let ghost first = call_entry(me.turn, me.step, text::views(calls@)[0]);
            let e2 = session.append(call_data(self.turn, self.step, &calls[0]));
            self.stage = TurnStage::RunTool { calls, index: 0 };
            proof {
                assert forall|start: SessionView, logged: Seq<SessionEventDataView>|
                    extended(start, s0, logged) implies #[trigger] extended(
                    start,
                    session@,
                    logged + goal,
                ) by {
                    lemma_extended_push(start, s0, logged, e@.time, entry);
                    lemma_extended_push(start, s1, logged.push(entry), e2@.time, first);
                    assert(logged + goal =~= logged.push(entry).push(first));
                }
            }
        }
    }

    /// The stream was cut off.
    fn interrupt(&mut self, session: &mut Session, a: &BlockAssembler)
        requires
            old(session).well_formed(),
        ensures
            final(session).well_formed(),
            final(self)@ == old(self)@.interrupted(a@).next,
            extended(old(session)@, final(session)@, old(self)@.interrupted(a@).entries),
    {
        let ghost s0 = session@;
        let ghost me = self@;
        let ghost mut logged: Seq<SessionEventDataView> = seq![];
        proof {
            lemma_extended_none(s0);
        }
        let blocks = a.interrupted_blocks();
        if blocks.len() > 0 {
            let message = Message {
                id: self.message_id(),
                role: Role::Assistant,
                content: blocks,
                source: self.source(),
            };
            let ghost entry = SessionEventDataView::AssistantMessage {
                turn: me.turn,
                step: me.step,
                message: message@,
                usage: None,
                interrupted: Some(true),
            };
            let e = session.append(
                SessionEventData::AssistantMessage {
                    turn: self.turn,
                    step: self.step,
                    message,
                    usage: None,
                    interrupted: Some(true),
                },
            );
            proof {
                lemma_extended_push(s0, s0, logged, e@.time, entry);
                logged = logged.push(entry);
                assert(logged =~= seq![entry]);
            }
        }
        self.close(session, TurnEndReason::Aborted { cause: "user".to_owned() });
        proof {
            assert(extended(
                s0,
                session@,
                logged.push(me.step_end_entry()).push(me.end_entry(TurnView::user_abort())),
            ));
            assert(me.interrupted(a@).entries =~= logged.push(me.step_end_entry()).push(
                me.end_entry(TurnView::user_abort()),
            ));
        }
    }

    /// A tool call is through.
    fn finish_call(
        &mut self,
        session: &mut Session,
        calls: Vec<ContentBlock>,
        index: usize,
        result: &ToolExecutionResult,
    )
        requires
            old(session).well_formed(),
            index < calls.len(),
            forall|i: int|
                0 <= i < text::views(calls@).len() ==> (#[trigger] text::views(
                    calls@,
                )[i]) is ToolCall,
        ensures
            final(session).well_formed(),
            final(self)@ == old(self)@.called(text::views(calls@), index as nat, result@).next,
            final(self)@.well_formed(),
            extended(
                old(session)@,
                final(session)@,
                old(self)@.called(text::views(calls@), index as nat, result@).entries,
            ),
    {
        let ghost s0 = session@;
        let ghost me = self@;
        let ghost all = text::views(calls@);
        assert(all[index as int] is ToolCall);
        let message = match &calls[index] {
            ContentBlock::ToolCall { id, name, .. } => tool_result_message(
                id.as_str(),
                name.as_str(),
                result,
            ),
            _ => tool_result_message("", "", result),
        };
        let ghost entry = SessionEventDataView::ToolResult {
            turn: me.turn,
            step: me.step,
            message: message@,
        };
        let e = session.append(
            SessionEventData::ToolResult { turn: self.turn, step: self.step, message },
        );
        let ghost s1 = session@;
        proof {
            lemma_extended_none(s0);
            lemma_extended_push(s0, s0, seq![], e@.time, entry);
            assert(Seq::<SessionEventDataView>::empty().push(entry) =~= seq![entry]);
        }
        if index + 1 < calls.len() {
            assert(all[index + 1] is ToolCall);
            let ghost next = call_entry(me.turn, me.step, all[index + 1]);
            let e2 = session.append(call_data(self.turn, self.step, &calls[index + 1]));
            proof {
                lemma_extended_push(s0, s1, seq![entry], e2@.time, next);
            }
            self.stage = TurnStage::RunTool { calls, index: index + 1 };
        } else {
            self.log_step_end(session);
            proof {
                let t = choose|t: u64| session@ == #[trigger] s1.appended(t, me.step_end_entry());
                lemma_extended_push(s0, s1, seq![entry], t, me.step_end_entry());
            }
            self.stage = TurnStage::Steering { owed: true };
        }
    }

    /// Takes in an answer: logs what it leads to, and goes on.
    #[verifier::rlimit(60)]
    pub fn step(&mut self, session: &mut Session, event: TurnEvent)
        requires
            old(self)@.well_formed(),
            old(self)@.step < u64::MAX,
            old(session).well_formed(),
        ensures
            final(self)@.well_formed(),
            final(session).well_formed(),
            went_on(old(self)@, old(session)@, event@, final(self)@, final(session)@),
    {
        let ghost me = self@;
        let ghost s0 = session@;
        let ghost answer = event@;
        proof {
            lemma_extended_none(s0);
        }
        let mut stage = TurnStage::Stopping;
        std::mem::swap(&mut stage, &mut self.stage);
        match (stage, event) {
            (TurnStage::PreStep, TurnEvent::Decided { decision }) => match decision {
                Err(message) => {
                    self.break_off(message);
                },
                Ok(d) => {
                    let enter = match d.str_at("kind") {
                        Some(kind) => str_eq(kind, "enter"),
                        None => false,
                    };
                    if enter {
                        let value = match d.get("messages") {
                            Some(v) => v.clone(),
                            None => Json::Array(json::no_values()),
                        };
                        self.stage = TurnStage::ReadMessages { value };
                    } else {
                        self.block(session);
                    }
                },
            },
            (TurnStage::ReadMessages { value }, TurnEvent::Entered { messages }) => match messages {
                Err(message) => {
                    self.break_off(message);
                },
                Ok(ms) => {
                    if ms.len() == 0 {
                        self.block(session);
                    } else {
                        self.stage = TurnStage::Configure { messages: ms };
                    }
                },
            },
            (
                TurnStage::Configure { messages },
                TurnEvent::Configured { config, system, tools },
            ) => match config {
                Err(message) => {
                    self.break_off(message);
                },
                Ok(c) => {
                    self.config = c;
                    self.system = system;
                    self.begin_step(session, messages, tools);
                },
            },
            (TurnStage::OpenStream { options }, TurnEvent::StreamOpened { opening }) => match opening {
                Opening::Cancelled => {
                    self.close(session, TurnEndReason::Aborted { cause: "user".to_owned() });
                    proof {
                        let e: Seq<SessionEventDataView> = seq![];
                        let closed = e.push(me.step_end_entry()).push(
                            me.end_entry(TurnView::user_abort()),
                        );
                        assert(extended(s0, session@, closed));
                        assert(closed =~= seq![
                            me.step_end_entry(),
                            me.end_entry(TurnView::user_abort()),
                        ]);
                    }
                },
                Opening::Failed { message } => {
                    self.break_off(message);
                },
                Opening::Opened => {
                    self.stage = TurnStage::Streaming {
                        assembler: BlockAssembler::new(),
                        usage: None,
                    };
                },
            },
            (TurnStage::Streaming { assembler, usage }, TurnEvent::Chunk { chunk }) => {
                let mut a = assembler;
                let ghost entry = SessionEventDataView::AssistantChunk {
                    turn: me.turn,
                    step: me.step,
                    chunk: chunk@,
                };
                let e = session.append(
                    SessionEventData::AssistantChunk {
                        turn: self.turn,
                        step: self.step,
                        chunk: chunk.clone(),
                    },
                );
                proof {
                    let none: Seq<SessionEventDataView> = seq![];
                    lemma_extended_push(s0, s0, none, e@.time, entry);
                    assert(none.push(entry) =~= seq![entry]);
                }
                let now: Option<TokenUsage> = match &chunk {
                    StreamChunk::Usage { usage: u } => Some(*u),
                    _ => usage,
                };
                a.push(&chunk);
                let finished = matches!(chunk, StreamChunk::Finish { .. });
                if finished {
                    self.answer(session, &a, now);
                    assert(extended(
                        s0,
                        session@,
                        seq![entry] + me.answered(a@, now).entries,
                    ));
                } else {
                    self.stage = TurnStage::Streaming { assembler: a, usage: now };
                }
            },
            (TurnStage::Streaming { assembler, usage }, TurnEvent::StreamEnded) => {
                self.answer(session, &assembler, usage);
                proof {
                    let none: Seq<SessionEventDataView> = seq![];
                    let goal = me.answered(assembler@, usage).entries;
                    assert(extended(s0, session@, none + goal));
                    assert(none + goal =~= goal);
                }
            },
            (TurnStage::Streaming { assembler, usage }, TurnEvent::Interrupted) => {
                self.interrupt(session, &assembler);
            },
            (TurnStage::RunTool { calls, index }, TurnEvent::ToolDone { result }) => {
                self.finish_call(session, calls, index, &result);
            },
            (TurnStage::Steering { owed }, TurnEvent::Steered { messages, tools }) => {
                if !owed && messages.len() == 0 {
                    self.stage = TurnStage::Stopping;
                } else {
                    self.begin_step(session, messages, tools);
                }
            },
            (TurnStage::Stopping, TurnEvent::Stopped) => {
                let ghost entry = me.end_entry(TurnEndReasonView::Completed);
                self.log_end(session, TurnEndReason::Completed);
                proof {
                    let none: Seq<SessionEventDataView> = seq![];
                    let t = choose|t: u64| session@ == #[trigger] s0.appended(t, entry);
                    lemma_extended_push(s0, s0, none, t, entry);
                    assert(none.push(entry) =~= seq![entry]);
                }
            },
            (stage, _) => {
                self.stage = stage;
                assert(self@ =~= me);
            },
        }
    }
}

// ---------------------------------------------------------------------------
// laws
// ---------------------------------------------------------------------------

/// Where the entries of one turn stand.
pub enum Phase {
    /// Nothing is logged yet.
    Before,
    /// The turn is open, no step is; `steps` were closed.
    Idle { steps: u64 },
    /// A step is open: messages enter.
    Entering { step: u64 },
    /// The request of the step is out: chunks arrive.
    Requested { step: u64 },
    /// The assistant message of the step is logged; no call is open.
    Answered { step: u64 },
    /// A call is open.
    Calling { step: u64, call_id: Seq<char> },
    /// The turn is closed.
    Closed,
    /// The entries are out of order.
    Bad,
}

/// The phase after one more entry.
pub open spec fn phase_after(turn: u64, p: Phase, e: SessionEventDataView) -> Phase {
    match (p, e) {
        (Phase::Before, SessionEventDataView::TurnStart { turn: t }) if t == turn => Phase::Idle {
            steps: 0,
        },
        (
            Phase::Idle { steps },
            SessionEventDataView::StepStart { turn: t, step },
        ) if t == turn && step == steps + 1 => Phase::Entering { step },
        (Phase::Idle { .. }, SessionEventDataView::TurnEnd { turn: t, .. }) if t == turn => {
            Phase::Closed
        },
        (Phase::Entering { step }, SessionEventDataView::UserMessage { .. }) => Phase::Entering {
            step,
        },
        (Phase::Entering { step }, SessionEventDataView::RequestHeader { .. }) => Phase::Requested {
            step,
        },
        (
            Phase::Requested { step },
            SessionEventDataView::AssistantChunk { turn: t, step: s, .. },
        ) if t == turn && s == step => Phase::Requested { step },
        (
            Phase::Requested { step },
            SessionEventDataView::AssistantMessage { turn: t, step: s, .. },
        ) if t == turn && s == step => Phase::Answered { step },
        (
            Phase::Requested { step },
            SessionEventDataView::StepEnd { turn: t, step: s },
        ) if t == turn && s == step => Phase::Idle { steps: step },
        (
            Phase::Answered { step },
            SessionEventDataView::ToolCall { turn: t, step: s, call_id, .. },
        ) if t == turn && s == step => Phase::Calling { step, call_id },
        (
            Phase::Answered { step },
            SessionEventDataView::StepEnd { turn: t, step: s },
        ) if t == turn && s == step => Phase::Idle { steps: step },
        (
            Phase::Calling { step, call_id },
            SessionEventDataView::ToolResult { turn: t, step: s, message },
        ) if t == turn && s == step && message.content.len() == 1
            && message.content[0] is ToolResult && message.content[0]->tool_call_id == call_id => {
            Phase::Answered { step }
        },
        _ => Phase::Bad,
    }
}

/// The phase after some more entries.
pub open spec fn phase_from(turn: u64, p: Phase, entries: Seq<SessionEventDataView>) -> Phase
    decreases entries.len(),
{
    if entries.len() == 0 {
        p
    } else {
        phase_after(turn, phase_from(turn, p, entries.drop_last()), entries.last())
    }
}

/// Where the log stands while a turn is at a stage.
pub open spec fn phase_of(t: TurnView) -> Phase {
    match t.stage {
        TurnStageView::OpenStream { .. } => Phase::Requested { step: t.step },
        TurnStageView::Streaming { .. } => Phase::Requested { step: t.step },
        TurnStageView::RunTool { calls, index } => Phase::Calling {
            step: t.step,
            call_id: calls[index as int]->id,
        },
        TurnStageView::Ended { error: None } => Phase::Closed,
        _ => Phase::Idle { steps: t.step },
    }
}

proof fn lemma_phase_joins(
    turn: u64,
    p: Phase,
    a: Seq<SessionEventDataView>,
    b: Seq<SessionEventDataView>,
)
    ensures
        phase_from(turn, p, a + b) == phase_from(turn, phase_from(turn, p, a), b),
    decreases b.len(),
{
    if b.len() == 0 {
        assert(a + b =~= a);
    } else {
        lemma_phase_joins(turn, p, a, b.drop_last());
        assert((a + b).drop_last() =~= a + b.drop_last());
        assert((a + b).last() == b.last());
    }
}

proof fn lemma_phase_pushes(
    turn: u64,
    p: Phase,
    a: Seq<SessionEventDataView>,
    e: SessionEventDataView,
)
    ensures
        phase_from(turn, p, a.push(e)) == phase_after(turn, phase_from(turn, p, a), e),
{
    assert(a.push(e).drop_last() =~= a);
}

proof fn lemma_phase_one(turn: u64, p: Phase, e: SessionEventDataView)
    ensures
        phase_from(turn, p, seq![e]) == phase_after(turn, p, e),
{
    assert(seq![e].drop_last() =~= seq![]);
    assert(phase_from(turn, p, seq![e].drop_last()) == p);
}

proof fn lemma_phase_users(turn: u64, step: u64, messages: Seq<MessageView>)
    ensures
        phase_from(
            turn,
            Phase::Entering { step },
            messages.map_values(
                |m: MessageView| SessionEventDataView::UserMessage { message: m },
            ),
        ) == (Phase::Entering { step }),
    decreases messages.len(),
{
    let f = |m: MessageView| SessionEventDataView::UserMessage { message: m };
    if messages.len() > 0 {
        lemma_phase_users(turn, step, messages.drop_last());
        assert(messages.map_values(f).drop_last() =~= messages.drop_last().map_values(f));
        assert(messages.map_values(f).last() == f(messages.last()));
    }
}

proof fn lemma_next_step_phase(
    t: TurnView,
    messages: Seq<MessageView>,
    tools: Seq<ToolSchemaView>,
    history: Seq<MessageView>,
)
    requires
        t.step < u64::MAX,
    ensures
        phase_from(
            t.turn,
            Phase::Idle { steps: t.step },
            t.next_step(messages, tools, history).entries,
        ) == phase_of(t.next_step(messages, tools, history).next),
{
    let f = |m: MessageView| SessionEventDataView::UserMessage { message: m };
    let options = t.request_options(tools, history);
    let step = (t.step + 1) as u64;
    let first = SessionEventDataView::StepStart { turn: t.turn, step };
    let p = Phase::Idle { steps: t.step };
    let header = SessionEventDataView::RequestHeader {
        header: EpochHeaderView {
            config: t.config,
            system: options.system,
            tools: options.tools,
        },
    };
    lemma_phase_one(t.turn, p, first);
    lemma_phase_joins(t.turn, p, seq![first], messages.map_values(f));
    lemma_phase_users(t.turn, step, messages);
    lemma_phase_pushes(t.turn, p, seq![first] + messages.map_values(f), header);
}

proof fn lemma_answered_phase(t: TurnView, a: AssemblerView, usage: Option<TokenUsage>)
    ensures
        phase_from(t.turn, Phase::Requested { step: t.step }, t.answered(a, usage).entries)
            == phase_of(t.answered(a, usage).next),
        t.answered(a, usage).next.well_formed(),
{
    let p = Phase::Requested { step: t.step };
    let o = t.answered(a, usage);
    let message = a.message(step_message_id(t.turn, t.step), t.model_source());
    let calls = llm::tool_calls_of(message.content);
    let first = o.entries[0];
    lemma_phase_one(t.turn, p, first);
    if a.finish_reason() == FinishReasonView::MaxTokens {
        let end = t.end_entry(TurnEndReasonView::MaxTokens);
        lemma_phase_pushes(t.turn, p, seq![first], t.step_end_entry());
        lemma_phase_pushes(t.turn, p, seq![first].push(t.step_end_entry()), end);
    } else if calls.len() == 0 {
        lemma_phase_pushes(t.turn, p, seq![first], t.step_end_entry());
    } else {
        assert forall|i: int| 0 <= i < calls.len() implies (#[trigger] calls[i]) is ToolCall by {
            lemma_calls_are_calls(message.content, i);
        }
        lemma_phase_pushes(t.turn, p, seq![first], call_entry(t.turn, t.step, calls[0]));
    }
}

proof fn lemma_interrupted_phase(t: TurnView, a: AssemblerView)
    ensures
        phase_from(t.turn, Phase::Requested { step: t.step }, t.interrupted(a).entries)
            == Phase::Closed,
{
    let p = Phase::Requested { step: t.step };
    let o = t.interrupted(a);
    let end = t.end_entry(TurnView::user_abort());
    let kept = o.entries.take(o.entries.len() - 2);
    assert(o.entries =~= kept.push(t.step_end_entry()).push(end));
    lemma_phase_pushes(t.turn, p, kept, t.step_end_entry());
    lemma_phase_pushes(t.turn, p, kept.push(t.step_end_entry()), end);
    if a.interrupted_blocks().len() == 0 {
        assert(kept =~= seq![]);
    } else {
        let first = o.entries[0];
        assert(kept =~= seq![first]);
        lemma_phase_one(t.turn, p, first);
    }
}

/// Whatever answer a turn gets, what it logs continues the flow of its stage:
/// a step is opened before anything of it is logged, the request goes out
/// before chunks arrive, every call is answered by its own result before the
/// next one or the step's end, and the turn is closed last. A turn that breaks
/// off logs nothing more.
#[verifier::rlimit(40)]
pub proof fn law_every_answer_follows_the_flow(
    t: TurnView,
    event: TurnEventView,
    history: Seq<MessageView>,
)
    requires
        t.well_formed(),
        t.step < u64::MAX,
    ensures
        t.step(event, history).next.turn == t.turn,
        t.step(event, history).next.well_formed(),
        match t.step(event, history).next.stage {
            TurnStageView::Ended { error: Some(_) } => t.step(event, history).entries.len() == 0,
            _ => phase_from(t.turn, phase_of(t), t.step(event, history).entries) == phase_of(
                t.step(event, history).next,
            ),
        },
{
    let o = t.step(event, history);
    let p = phase_of(t);
    match (t.stage, event) {
        (TurnStageView::PreStep, TurnEventView::Decided { .. }) => {
            if o.entries.len() > 0 {
                lemma_phase_one(t.turn, p, t.end_entry(TurnEndReasonView::Blocked));
            }
        },
        (TurnStageView::ReadMessages { .. }, TurnEventView::Entered { .. }) => {
            if o.entries.len() > 0 {
                lemma_phase_one(t.turn, p, t.end_entry(TurnEndReasonView::Blocked));
            }
        },
        (
            TurnStageView::Configure { messages },
            TurnEventView::Configured { config, system, tools },
        ) => {
            if let Ok(c) = config {
                lemma_next_step_phase(
                    TurnView { config: c, system, ..t },
                    messages,
                    tools,
                    history,
                );
            }
        },
        (TurnStageView::OpenStream { .. }, TurnEventView::Cancelled) => {
            let end = t.end_entry(TurnView::user_abort());
            lemma_phase_one(t.turn, p, t.step_end_entry());
            lemma_phase_pushes(t.turn, p, seq![t.step_end_entry()], end);
            assert(o.entries =~= seq![t.step_end_entry()].push(end));
        },
        (
            TurnStageView::Streaming { assembler, usage },
            TurnEventView::Chunk { chunk },
        ) => {
            let first = SessionEventDataView::AssistantChunk { turn: t.turn, step: t.step, chunk };
            lemma_phase_one(t.turn, p, first);
            crate::llm::assembler::law_push_keeps_order(assembler, chunk);
            if chunk is Finish {
                let now = match chunk {
                    StreamChunkView::Usage { usage } => Some(usage),
                    _ => usage,
                };
                lemma_answered_phase(t, assembler.push(chunk), now);
                lemma_phase_joins(
                    t.turn,
                    p,
                    seq![first],
                    t.answered(assembler.push(chunk), now).entries,
                );
            }
        },
        (TurnStageView::Streaming { assembler, usage }, TurnEventView::StreamEnded) => {
            lemma_answered_phase(t, assembler, usage);
        },
        (TurnStageView::Streaming { assembler, .. }, TurnEventView::Interrupted) => {
            lemma_interrupted_phase(t, assembler);
        },
        (TurnStageView::RunTool { calls, index }, TurnEventView::ToolDone { result }) => {
            let message = result_message(
                calls[index as int]->id,
                calls[index as int]->name,
                result,
            );
            let first = SessionEventDataView::ToolResult { turn: t.turn, step: t.step, message };
            lemma_phase_one(t.turn, p, first);
            assert(message.content.len() == 1 && message.content[0] is ToolResult);
            assert(phase_after(t.turn, p, first) == (Phase::Answered { step: t.step }));
            if index + 1 < calls.len() {
                let next = call_entry(t.turn, t.step, calls[index as int + 1]);
                lemma_phase_pushes(t.turn, p, seq![first], next);
            } else {
                lemma_phase_pushes(t.turn, p, seq![first], t.step_end_entry());
            }
        },
        (TurnStageView::Steering { .. }, TurnEventView::Steered { messages, tools }) => {
            lemma_next_step_phase(t, messages, tools, history);
        },
        (TurnStageView::Stopping, TurnEventView::Stopped) => {
            lemma_phase_one(t.turn, p, t.end_entry(TurnEndReasonView::Completed));
        },
        _ => {},
    }
}

/// Where the decision lets the claimed batch in, the batch is what is read, and
/// the messages read from it, in order, are what enters the first step.
pub proof fn law_claimed_batch_enters_the_turn(
    t: TurnView,
    batch: JsonView,
    messages: Seq<MessageView>,
    config: LlmCallConfigView,
    system: Seq<char>,
    tools: Seq<ToolSchemaView>,
    history: Seq<MessageView>,
)
    requires
        t.stage is PreStep,
        t.step < u64::MAX,
        messages.len() > 0,
    ensures
        ({
            let decided = t.step(TurnEventView::Decided { decision: Ok(entered(batch)) }, history);
            let read = decided.next.step(TurnEventView::Entered { messages: Ok(messages) }, history);
            let opened = read.next.step(
                TurnEventView::Configured { config: Ok(config), system, tools },
                history,
            );
            &&& decided.entries.len() == 0
            &&& decided.next.request() == (TurnRequestView::ReadMessages { value: batch })
            &&& read.entries.len() == 0
            &&& opened.next.stage is OpenStream
            &&& opened.entries.len() == messages.len() + 2
            &&& opened.entries[0] == (SessionEventDataView::StepStart {
                turn: t.turn,
                step: (t.step + 1) as u64,
            })
            &&& forall|k: int|
                0 <= k < messages.len() ==> #[trigger] opened.entries[k + 1]
                    == (SessionEventDataView::UserMessage { message: messages[k] })
            &&& opened.entries.last() is RequestHeader
        }),
{
    reveal_strlit("kind");
    reveal_strlit("messages");
    assert("kind"@.len() != "messages"@.len());
    reveal_with_fuel(json::entries_map, 3);
    let first = seq![("kind"@, JsonView::Text("enter"@))];
    let both = seq![("kind"@, JsonView::Text("enter"@)), ("messages"@, batch)];
    assert(both.drop_last() =~= first);
    assert(first.drop_last() =~= seq![]);
    assert(entered(batch).get("messages"@) == Some(batch));
    assert(entered(batch).str_at("kind"@) == Some("enter"@));
}

/// A turn that ended stays as it is and logs nothing more.
pub proof fn law_ended_turn_is_final(
    t: TurnView,
    event: TurnEventView,
    history: Seq<MessageView>,
)
    requires
        t.stage is Ended,
    ensures
        t.step(event, history) == t.stays(),
{
}

/// Steering that arrives during a step opens the next step of the same turn,
/// whether tools owe another request or not.
pub proof fn law_steering_opens_the_next_step(
    t: TurnView,
    messages: Seq<MessageView>,
    tools: Seq<ToolSchemaView>,
    history: Seq<MessageView>,
)
    requires
        t.stage is Steering,
        messages.len() > 0,
        t.step < u64::MAX,
    ensures
        ({
            let o = t.step(TurnEventView::Steered { messages, tools }, history);
            &&& o.next.turn == t.turn
            &&& o.next.step == t.step + 1
            &&& o.next.stage is OpenStream
            &&& forall|k: int|
                0 <= k < messages.len() ==> #[trigger] o.entries[k + 1]
                    == (SessionEventDataView::UserMessage { message: messages[k] })
        }),
{
}

/// What a turn logs over a run of answers, each with the history it left.
pub open spec fn run(
    t: TurnView,
    answers: Seq<(TurnEventView, Seq<MessageView>)>,
) -> Outcome
    decreases answers.len(),
{
    if answers.len() == 0 {
        t.stays()
    } else {
        let before = run(t, answers.drop_last());
        let o = before.next.step(answers.last().0, answers.last().1);
        Outcome { entries: before.entries + o.entries, next: o.next }
    }
}

proof fn lemma_step_grows_by_one(
    t: TurnView,
    event: TurnEventView,
    history: Seq<MessageView>,
)
    requires
        t.step < u64::MAX,
    ensures
        t.step(event, history).next.step <= t.step + 1,
{
}

proof fn lemma_run_follows(
    t: TurnView,
    answers: Seq<(TurnEventView, Seq<MessageView>)>,
)
    requires
        t.well_formed(),
        t.step + answers.len() < u64::MAX,
    ensures
        run(t, answers).next.turn == t.turn,
        run(t, answers).next.well_formed(),
        run(t, answers).next.step <= t.step + answers.len(),
        run(t, answers).next.stage !is Ended || run(t, answers).next.stage->error is None
            ==> phase_from(t.turn, phase_of(t), run(t, answers).entries) == phase_of(
            run(t, answers).next,
        ),
    decreases answers.len(),
{
    if answers.len() > 0 {
        lemma_run_follows(t, answers.drop_last());
        let before = run(t, answers.drop_last());
        let event = answers.last().0;
        let history = answers.last().1;
        law_every_answer_follows_the_flow(before.next, event, history);
        lemma_step_grows_by_one(before.next, event, history);
        lemma_phase_joins(
            t.turn,
            phase_of(t),
            before.entries,
            before.next.step(event, history).entries,
        );
    }
}

/// Whether an entry opens or closes a turn or a step, or heads a request.
pub open spec fn is_mark(e: SessionEventDataView) -> bool {
    e is TurnStart || e is TurnEnd || e is StepStart || e is StepEnd || e is RequestHeader
}

/// Whether entries begin a step, with the header of its request at `head` and
/// no other mark.
pub open spec fn opens_step(
    turn: u64,
    step: int,
    entries: Seq<SessionEventDataView>,
    head: int,
) -> bool {
    &&& 0 < head < entries.len()
    &&& entries[0] matches SessionEventDataView::StepStart { turn: t, step: k } && t == turn && k
        == step
    &&& entries[head] is RequestHeader
    &&& forall|i: int| 0 < i < entries.len() && i != head ==> !is_mark(#[trigger] entries[i])
}

/// Whether entries are those of one step: its start, one request header, its
/// end, and no other mark between them.
pub open spec fn is_step(turn: u64, step: int, entries: Seq<SessionEventDataView>) -> bool {
    &&& entries.len() > 0
    &&& entries.last() matches SessionEventDataView::StepEnd { turn: t, step: k } && t == turn && k
        == step
    &&& exists|head: int| opens_step(turn, step, entries.drop_last(), head)
}

/// Whether these are the entries of steps, numbered from one.
pub open spec fn are_steps(turn: u64, steps: Seq<Seq<SessionEventDataView>>) -> bool {
    forall|k: int| 0 <= k < steps.len() ==> is_step(turn, k + 1, #[trigger] steps[k])
}

/// The entries of a turn up to the end of those steps.
pub open spec fn turn_upto(
    turn: u64,
    steps: Seq<Seq<SessionEventDataView>>,
) -> Seq<SessionEventDataView> {
    seq![SessionEventDataView::TurnStart { turn }] + steps.flatten_alt()
}

/// Whether entries are those of one whole turn: its start, its steps, numbered
/// from one, its end, and nothing else.
pub open spec fn is_whole_turn(turn: u64, entries: Seq<SessionEventDataView>) -> bool {
    exists|steps: Seq<Seq<SessionEventDataView>>, reason: TurnEndReasonView|
        are_steps(turn, steps) && entries == #[trigger] turn_upto(turn, steps).push(
            SessionEventDataView::TurnEnd { turn, reason },
        )
}

/// Whether entries are a turn's up to inside the step `step`, whose own are
/// `open`.
spec fn inside_step(
    turn: u64,
    step: u64,
    entries: Seq<SessionEventDataView>,
    steps: Seq<Seq<SessionEventDataView>>,
    open: Seq<SessionEventDataView>,
) -> bool {
    are_steps(turn, steps) && steps.len() + 1 == step && entries == turn_upto(turn, steps) + open
}

/// What entries look like that led to a phase.
spec fn shaped(turn: u64, p: Phase, entries: Seq<SessionEventDataView>) -> bool {
    match p {
        Phase::Before => entries.len() == 0,
        Phase::Idle { steps: n } => exists|steps: Seq<Seq<SessionEventDataView>>|
            are_steps(turn, steps) && steps.len() == n && entries == #[trigger] turn_upto(
                turn,
                steps,
            ),
        Phase::Entering { step } => exists|
            steps: Seq<Seq<SessionEventDataView>>,
            open: Seq<SessionEventDataView>,
        |
            #[trigger] inside_step(turn, step, entries, steps, open) && open.len() > 0 && open[0]
                == (SessionEventDataView::StepStart { turn, step }) && forall|i: int|
                0 < i < open.len() ==> !is_mark(#[trigger] open[i]),
        Phase::Requested { step } => half_step(turn, step, entries),
        Phase::Answered { step } => half_step(turn, step, entries),
        Phase::Calling { step, .. } => half_step(turn, step, entries),
        Phase::Closed => is_whole_turn(turn, entries),
        Phase::Bad => true,
    }
}

/// Whether entries are a turn's up to inside the step `step`, after the header
/// of its request.
spec fn half_step(turn: u64, step: u64, entries: Seq<SessionEventDataView>) -> bool {
    exists|steps: Seq<Seq<SessionEventDataView>>, open: Seq<SessionEventDataView>, head: int|
        #[trigger] inside_step(turn, step, entries, steps, open) && #[trigger] opens_step(
            turn,
            step as int,
            open,
            head,
        )
}

proof fn lemma_half_step_goes_on(
    turn: u64,
    step: u64,
    entries: Seq<SessionEventDataView>,
    e: SessionEventDataView,
)
    requires
        half_step(turn, step, entries),
    ensures
        !is_mark(e) ==> half_step(turn, step, entries.push(e)),
        e == (SessionEventDataView::StepEnd { turn, step }) ==> shaped(
            turn,
            Phase::Idle { steps: step },
            entries.push(e),
        ),
{
    let (steps, open, head) = choose|
        steps: Seq<Seq<SessionEventDataView>>,
        open: Seq<SessionEventDataView>,
        head: int,
    |
        #[trigger] inside_step(turn, step, entries, steps, open) && #[trigger] opens_step(
            turn,
            step as int,
            open,
            head,
        );
    let more = open.push(e);
    assert(turn_upto(turn, steps) + more =~= entries.push(e));
    if !is_mark(e) {
        assert(inside_step(turn, step, entries.push(e), steps, more));
        assert(opens_step(turn, step as int, more, head));
    }
    if e == (SessionEventDataView::StepEnd { turn, step }) {
        let all = steps.push(more);
        assert(more.drop_last() =~= open);
        assert(is_step(turn, step as int, more));
        assert(are_steps(turn, all));
        assert(all.drop_last() =~= steps);
        assert(turn_upto(turn, all) =~= turn_upto(turn, steps) + more);
    }
}

proof fn lemma_shape_goes_on(
    turn: u64,
    p: Phase,
    entries: Seq<SessionEventDataView>,
    e: SessionEventDataView,
)
    requires
        shaped(turn, p, entries),
    ensures
        shaped(turn, phase_after(turn, p, e), entries.push(e)),
{
    let more = entries.push(e);
    let none: Seq<Seq<SessionEventDataView>> = seq![];
    match p {
        Phase::Before => {
            assert(none.flatten_alt() =~= seq![]);
            assert(are_steps(turn, none));
            if e == (SessionEventDataView::TurnStart { turn }) {
                assert(more =~= turn_upto(turn, none));
            }
        },
        Phase::Idle { steps: n } => {
            let steps = choose|steps: Seq<Seq<SessionEventDataView>>|
                are_steps(turn, steps) && steps.len() == n && entries == #[trigger] turn_upto(
                    turn,
                    steps,
                );
            match phase_after(turn, p, e) {
                Phase::Entering { step } => {
                    assert(more =~= turn_upto(turn, steps) + seq![e]);
                    assert(inside_step(turn, step, more, steps, seq![e]));
                },
                Phase::Closed => {
                    let reason = e->TurnEnd_reason;
                    assert(more == turn_upto(turn, steps).push(
                        SessionEventDataView::TurnEnd { turn, reason },
                    ));
                },
                _ => {},
            }
        },
        Phase::Entering { step } => {
            let (steps, open) = choose|
                steps: Seq<Seq<SessionEventDataView>>,
                open: Seq<SessionEventDataView>,
            |
                #[trigger] inside_step(turn, step, entries, steps, open) && open.len() > 0
                    && open[0] == (SessionEventDataView::StepStart { turn, step }) && forall|i: int|
                    0 < i < open.len() ==> !is_mark(#[trigger] open[i]);
            assert(turn_upto(turn, steps) + open.push(e) =~= more);
            assert(inside_step(turn, step, more, steps, open.push(e)));
            if e is RequestHeader {
                assert(opens_step(turn, step as int, open.push(e), open.len() as int));
            }
        },
        Phase::Requested { step } => {
            lemma_half_step_goes_on(turn, step, entries, e);
        },
        Phase::Answered { step } => {
            lemma_half_step_goes_on(turn, step, entries, e);
        },
        Phase::Calling { step, .. } => {
            lemma_half_step_goes_on(turn, step, entries, e);
        },
        _ => {},
    }
}

proof fn lemma_shape_of_entries(turn: u64, entries: Seq<SessionEventDataView>)
    ensures
        shaped(turn, phase_from(turn, Phase::Before, entries), entries),
    decreases entries.len(),
{
    if entries.len() > 0 {
        let before = entries.drop_last();
        lemma_shape_of_entries(turn, before);
        lemma_shape_goes_on(
            turn,
            phase_from(turn, Phase::Before, before),
            before,
            entries.last(),
        );
        assert(before.push(entries.last()) =~= entries);
    }
}

/// The log of a turn that ran to its end without an error is a whole turn: its
/// start, its steps, numbered from one, each with one request header and its
/// end, and its own end. Each entry stands in its place.
pub proof fn law_finished_turn_is_whole(
    agent_id: Seq<char>,
    options: AgentOptionsView,
    turn: u64,
    answers: Seq<(TurnEventView, Seq<MessageView>)>,
)
    requires
        answers.len() < u64::MAX,
        run(started(agent_id, options, turn), answers).next.stage == (TurnStageView::Ended {
            error: None,
        }),
    ensures
        ({
            let entries = seq![SessionEventDataView::TurnStart { turn }] + run(
                started(agent_id, options, turn),
                answers,
            ).entries;
            &&& phase_from(turn, Phase::Before, entries) == Phase::Closed
            &&& is_whole_turn(turn, entries)
        }),
{
    let t = started(agent_id, options, turn);
    let first = SessionEventDataView::TurnStart { turn };
    lemma_run_follows(t, answers);
    lemma_phase_one(turn, Phase::Before, first);
    lemma_phase_joins(turn, Phase::Before, seq![first], run(t, answers).entries);
    lemma_shape_of_entries(turn, seq![first] + run(t, answers).entries);
}

/// Whether a turn was started on a session and taken from answer to answer:
/// `turns` and `sessions` are the turn and the session after the start and
/// after each answer.
pub open spec fn driven(
    before: SessionView,
    agent_id: Seq<char>,
    options: AgentOptionsView,
    events: Seq<TurnEventView>,
    turns: Seq<TurnView>,
    sessions: Seq<SessionView>,
) -> bool {
    &&& turns.len() == events.len() + 1
    &&& sessions.len() == events.len() + 1
    &&& turns[0] == started(agent_id, options, (last_turn(before.events) + 1) as u64)
    &&& extended(
        before,
        sessions[0],
        seq![SessionEventDataView::TurnStart { turn: turns[0].turn }],
    )
    &&& forall|i: int|
        0 <= i < events.len() ==> went_on(
            turns[i],
            sessions[i],
            #[trigger] events[i],
            turns[i + 1],
            sessions[i + 1],
        )
}

/// The answers that took a turn along, each with the history it left.
spec fn answers_of(
    events: Seq<TurnEventView>,
    sessions: Seq<SessionView>,
    n: int,
) -> Seq<(TurnEventView, Seq<MessageView>)> {
    Seq::new(n as nat, |i: int| (events[i], sessions[i + 1].messages()))
}

proof fn lemma_driven_is_a_run(
    before: SessionView,
    agent_id: Seq<char>,
    options: AgentOptionsView,
    events: Seq<TurnEventView>,
    turns: Seq<TurnView>,
    sessions: Seq<SessionView>,
    n: int,
)
    requires
        driven(before, agent_id, options, events, turns, sessions),
        0 <= n <= events.len(),
    ensures
        ({
            let o = run(turns[0], answers_of(events, sessions, n));
            &&& turns[n] == o.next
            &&& extended(
                before,
                sessions[n],
                seq![SessionEventDataView::TurnStart { turn: turns[0].turn }] + o.entries,
            )
        }),
    decreases n,
{
    let first = seq![SessionEventDataView::TurnStart { turn: turns[0].turn }];
    if n == 0 {
        assert(first + seq![] =~= first);
    } else {
        lemma_driven_is_a_run(before, agent_id, options, events, turns, sessions, n - 1);
        let o = run(turns[0], answers_of(events, sessions, n - 1));
        let here = answers_of(events, sessions, n);
        assert(here.drop_last() =~= answers_of(events, sessions, n - 1));
        assert(went_on(turns[n - 1], sessions[n - 1], events[n - 1], turns[n], sessions[n]));
        let last = o.next.step(events[n - 1], sessions[n].messages()).entries;
        lemma_extended_joins(before, sessions[n - 1], sessions[n], first + o.entries, last);
        assert(first + o.entries + last =~= first + (o.entries + last));
    }
}

/// A turn that is started on a session and taken from answer to answer until it
/// ended without an error appends one whole turn to the log, numbered one past
/// the highest that was started before, and nothing else.
pub proof fn law_driven_turn_logs_a_whole_turn(
    before: SessionView,
    agent_id: Seq<char>,
    options: AgentOptionsView,
    events: Seq<TurnEventView>,
    turns: Seq<TurnView>,
    sessions: Seq<SessionView>,
)
    requires
        last_turn(before.events) < u64::MAX,
        events.len() < u64::MAX,
        driven(before, agent_id, options, events, turns, sessions),
        turns.last().stage == (TurnStageView::Ended { error: None }),
    ensures
        exists|entries: Seq<SessionEventDataView>|
            extended(before, sessions.last(), entries) && #[trigger] is_whole_turn(
                (last_turn(before.events) + 1) as u64,
                entries,
            ),
{
    let n = events.len() as int;
    let answers = answers_of(events, sessions, n);
    lemma_driven_is_a_run(before, agent_id, options, events, turns, sessions, n);
    law_finished_turn_is_whole(agent_id, options, turns[0].turn, answers);
}

/// The tool that a turn runs is the one that the model called, under the id of
/// the call, and it gets the arguments that the model wrote: the value that
/// their text is. Only a text that is no JSON gives null.
pub proof fn law_tool_gets_the_arguments_of_its_call(
    t: TurnView,
    calls: Seq<ContentBlockView>,
    index: nat,
    id: Seq<char>,
    name: Seq<char>,
    arguments: Seq<char>,
)
    requires
        t.stage == (TurnStageView::RunTool { calls, index }),
        index < calls.len(),
        calls[index as int] == (ContentBlockView::ToolCall { id, name, arguments }),
    ensures
        match json::json_of_text(arguments) {
            Ok(v) => t.request() == (TurnRequestView::RunTool { call_id: id, name, arguments: v }),
            Err(_) => t.request() == (TurnRequestView::RunTool {
                call_id: id,
                name,
                arguments: JsonView::Null,
            }),
        },
{
}

/// A turn asks for what its stage waits for, and for nothing else.
pub proof fn law_turn_asks_for_what_it_waits_for(t: TurnView)
    ensures
        match t.stage {
            TurnStageView::PreStep => t.request() == (TurnRequestView::RunPreStep { turn: t.turn }),
            TurnStageView::ReadMessages { value } => t.request() == (TurnRequestView::ReadMessages {
                value,
            }),
            TurnStageView::Configure { .. } => t.request() matches TurnRequestView::ResolveConfig {
                turn,
                fallback,
            } && turn == t.turn && fallback.provider == t.options.provider && fallback.model
                == t.options.model && fallback.max_tokens == t.options.max_tokens
                && fallback.temperature is None && fallback.stop is None,
            TurnStageView::OpenStream { options } => t.request() == (TurnRequestView::OpenStream {
                options,
            }),
            TurnStageView::Streaming { .. } => t.request() == TurnRequestView::NextChunk,
            TurnStageView::RunTool { .. } => t.request() is RunTool,
            TurnStageView::Steering { owed } => t.request() == (TurnRequestView::ClaimSteering {
                owed,
            }),
            TurnStageView::Stopping => t.request() == (TurnRequestView::RunStopping {
                turn: t.turn,
            }),
            TurnStageView::Ended { error } => t.request() == (TurnRequestView::Done { error }),
        },
{
}

/// A turn begins with the decision on its input, before its first step, under
/// the agent's own options.
pub proof fn law_turn_begins_with_the_decision(
    agent_id: Seq<char>,
    options: AgentOptionsView,
    turn: u64,
)
    ensures
        ({
            let t = started(agent_id, options, turn);
            &&& t.request() == (TurnRequestView::RunPreStep { turn })
            &&& t.step == 0
            &&& t.agent_id == agent_id
            &&& t.options == options
            &&& t.turn == turn
        }),
{
}

/// The turn after the highest that a log has started is the next one.
pub proof fn law_turns_are_counted_on(events: Seq<SessionEventView>, e: SessionEventView)
    ensures
        last_turn(seq![]) == 0,
        match e.data {
            SessionEventDataView::TurnStart { turn } => last_turn(events.push(e)) == (if turn
                > last_turn(events) {
                turn
            } else {
                last_turn(events)
            }),
            _ => last_turn(events.push(e)) == last_turn(events),
        },
{
    assert(events.push(e).drop_last() =~= events);
}

/// A decision that fails breaks the turn off with its message; one that does not
/// let the input in, or lets in none, blocks the turn before its first step.
pub proof fn law_input_that_is_not_let_in_blocks_the_turn(
    t: TurnView,
    decision: JsonView,
    message: Seq<char>,
    history: Seq<MessageView>,
)
    requires
        t.stage is PreStep || t.stage is ReadMessages,
    ensures
        ({
            let blocked = seq![
                SessionEventDataView::TurnEnd { turn: t.turn, reason: TurnEndReasonView::Blocked },
            ];
            let failed = t.step(TurnEventView::Decided { decision: Err(message) }, history);
            let rejected = t.step(TurnEventView::Decided { decision: Ok(decision) }, history);
            let unread = t.step(TurnEventView::Entered { messages: Err(message) }, history);
            let none = t.step(TurnEventView::Entered { messages: Ok(seq![]) }, history);
            &&& t.stage is PreStep ==> failed.entries.len() == 0 && failed.next.request() == (
            TurnRequestView::Done { error: Some(message) })
            &&& t.stage is PreStep && decision.get("kind"@) != Some(JsonView::Text("enter"@))
                ==> rejected.entries == blocked && rejected.next.request() == (
            TurnRequestView::Done { error: None })
            &&& t.stage is PreStep && decision.get("kind"@) == Some(JsonView::Text("enter"@))
                && decision.get("messages"@) is None ==> rejected.next.request() == (
            TurnRequestView::ReadMessages { value: JsonView::Array(seq![]) })
            &&& t.stage is ReadMessages ==> unread.entries.len() == 0 && unread.next.request() == (
            TurnRequestView::Done { error: Some(message) })
            &&& t.stage is ReadMessages ==> none.entries == blocked && none.next.request() == (
            TurnRequestView::Done { error: None })
        }),
{
}

/// Whether a request asks the model as a turn is configured: its provider and
/// model, the system prompt and the tools where there are any, the settings of
/// the call, and the conversation.
pub open spec fn asks_the_model(
    o: GenerateOptionsView,
    config: LlmCallConfigView,
    system: Seq<char>,
    tools: Seq<ToolSchemaView>,
    history: Seq<MessageView>,
    agent_id: Seq<char>,
) -> bool {
    &&& o.provider == config.provider
    &&& o.model == config.model
    &&& o.temperature == config.temperature
    &&& o.max_tokens == config.max_tokens
    &&& o.stop == config.stop
    &&& o.messages == history
    &&& o.system == (if system.len() > 0 {
        Some(system)
    } else {
        None
    })
    &&& o.tools == (if tools.len() > 0 {
        Some(tools)
    } else {
        None
    })
    &&& o.session_id == Some(agent_id)
}

/// Whether what opens a step is logged: its start, the messages that enter it,
/// in order, and the header of its request.
pub open spec fn opens_with(
    entries: Seq<SessionEventDataView>,
    turn: u64,
    step: int,
    messages: Seq<MessageView>,
    o: GenerateOptionsView,
    config: LlmCallConfigView,
) -> bool {
    &&& entries.len() == messages.len() + 2
    &&& entries[0] matches SessionEventDataView::StepStart { turn: u, step: n } && u == turn && n
        == step
    &&& forall|k: int|
        0 <= k < messages.len() ==> #[trigger] entries[k + 1] == (
        SessionEventDataView::UserMessage { message: messages[k] })
    &&& entries.last() matches SessionEventDataView::RequestHeader { header } && header.config
        == config && header.system == o.system && header.tools == o.tools
}

/// The first request of a turn goes out as it was configured, over the whole
/// conversation, which what entered has joined; a later one goes out the same
/// way, with the tools that are registered then. A configuration that fails
/// breaks the turn off.
pub proof fn law_request_goes_out_as_configured(
    t: TurnView,
    config: LlmCallConfigView,
    system: Seq<char>,
    tools: Seq<ToolSchemaView>,
    steering: Seq<MessageView>,
    message: Seq<char>,
    history: Seq<MessageView>,
)
    requires
        t.step < u64::MAX,
    ensures
        t.stage matches TurnStageView::Configure { messages } ==> {
            let o = t.step(
                TurnEventView::Configured { config: Ok(config), system, tools },
                history,
            );
            let failed = t.step(
                TurnEventView::Configured { config: Err(message), system, tools },
                history,
            );
            &&& o.next.request() matches TurnRequestView::OpenStream { options } && asks_the_model(
                options,
                config,
                system,
                tools,
                history,
                t.agent_id,
            ) && opens_with(o.entries, t.turn, t.step + 1, messages, options, config)
            &&& o.next.config == config
            &&& o.next.system == system
            &&& failed.entries.len() == 0
            &&& failed.next.request() == (TurnRequestView::Done { error: Some(message) })
        },
        t.stage matches TurnStageView::Steering { owed } && (owed || steering.len() > 0) ==> {
            let o = t.step(TurnEventView::Steered { messages: steering, tools }, history);
            &&& o.next.request() matches TurnRequestView::OpenStream { options } && asks_the_model(
                options,
                t.config,
                t.system,
                tools,
                history,
                t.agent_id,
            ) && opens_with(o.entries, t.turn, t.step + 1, steering, options, t.config)
            &&& o.next.config == t.config
            &&& o.next.system == t.system
        },
{
    let steered = t.step(TurnEventView::Steered { messages: steering, tools }, history);
    if let TurnStageView::Configure { messages } = t.stage {
        let o = t.step(TurnEventView::Configured { config: Ok(config), system, tools }, history);
        assert forall|k: int| 0 <= k < messages.len() implies #[trigger] o.entries[k + 1] == (
        SessionEventDataView::UserMessage { message: messages[k] }) by {}
    }
}

/// A stream that opens begins with nothing; one that does not open ends the
/// turn: by its error, or as the user's abort where the turn was cancelled.
pub proof fn law_stream_opens_empty(t: TurnView, message: Seq<char>, history: Seq<MessageView>)
    requires
        t.stage is OpenStream,
    ensures
        ({
            let opened = t.step(TurnEventView::Opened, history);
            let failed = t.step(TurnEventView::OpenFailed { message }, history);
            let cancelled = t.step(TurnEventView::Cancelled, history);
            &&& opened.entries.len() == 0
            &&& opened.next.request() == TurnRequestView::NextChunk
            &&& opened.next.stage matches TurnStageView::Streaming { assembler, usage } && usage
                is None && assembler.blocks().len() == 0
            &&& failed.entries.len() == 0
            &&& failed.next.request() == (TurnRequestView::Done { error: Some(message) })
            &&& cancelled.entries == seq![
                SessionEventDataView::StepEnd { turn: t.turn, step: t.step },
                SessionEventDataView::TurnEnd {
                    turn: t.turn,
                    reason: TurnEndReasonView::Aborted { cause: "user"@ },
                },
            ]
            &&& cancelled.next.request() == (TurnRequestView::Done { error: None })
        }),
{
}

/// Every chunk is logged as it came and joins what was streamed. The usage that
/// is reported last counts. A chunk that finishes the stream is followed by what
/// the end of the stream is followed by.
pub proof fn law_every_chunk_is_logged(
    t: TurnView,
    a: AssemblerView,
    usage: Option<TokenUsage>,
    chunk: StreamChunkView,
    history: Seq<MessageView>,
)
    requires
        t.stage == (TurnStageView::Streaming { assembler: a, usage }),
    ensures
        ({
            let o = t.step(TurnEventView::Chunk { chunk }, history);
            let logged = SessionEventDataView::AssistantChunk {
                turn: t.turn,
                step: t.step,
                chunk,
            };
            let after = TurnView {
                stage: TurnStageView::Streaming {
                    assembler: a.push(chunk),
                    usage: match chunk {
                        StreamChunkView::Usage { usage: reported } => Some(reported),
                        _ => usage,
                    },
                },
                ..t
            };
            &&& !(chunk is Finish) ==> o.entries == seq![logged] && o.next == after
            &&& chunk is Finish ==> {
                let end = after.step(TurnEventView::StreamEnded, history);
                o.entries == seq![logged] + end.entries && o.next == end.next
            }
        }),
{
}

/// What the model answered is logged whole, as the assistant's message of the
/// step. Then its first tool call is logged and run; without calls the step ends
/// and asks for steering; an answer that ran out of tokens ends the turn.
pub proof fn law_answer_is_logged_and_acted_on(
    t: TurnView,
    a: AssemblerView,
    usage: Option<TokenUsage>,
    history: Seq<MessageView>,
)
    requires
        t.stage == (TurnStageView::Streaming { assembler: a, usage }),
    ensures
        ({
            let o = t.step(TurnEventView::StreamEnded, history);
            let calls = llm::tool_calls_of(a.blocks());
            let step_end = SessionEventDataView::StepEnd { turn: t.turn, step: t.step };
            let turn_end = SessionEventDataView::TurnEnd {
                turn: t.turn,
                reason: TurnEndReasonView::MaxTokens,
            };
            &&& o.entries.len() > 0
            &&& o.entries[0] == (SessionEventDataView::AssistantMessage {
                turn: t.turn,
                step: t.step,
                message: MessageView {
                    id: "m-"@ + text::decimal(t.turn as nat) + "-"@ + text::decimal(t.step as nat),
                    role: Role::Assistant,
                    content: a.blocks(),
                    source: MessageSourceView::Model {
                        provider: t.config.provider,
                        model: t.config.model,
                    },
                },
                usage,
                interrupted: None,
            })
            &&& a.finish == Some(FinishReasonView::MaxTokens) ==> o.entries.skip(1) == seq![
                step_end,
                turn_end,
            ] && o.next.request() == (TurnRequestView::Done { error: None })
            &&& a.finish != Some(FinishReasonView::MaxTokens) && calls.len() == 0
                ==> o.entries.skip(1) == seq![step_end] && o.next.request() == (
            TurnRequestView::ClaimSteering { owed: false })
            &&& a.finish != Some(FinishReasonView::MaxTokens) && calls.len() > 0
                ==> o.entries.skip(1) == seq![
                SessionEventDataView::ToolCall {
                    turn: t.turn,
                    step: t.step,
                    call_id: calls[0]->id,
                    name: calls[0]->name,
                    arguments: calls[0]->arguments,
                },
            ] && o.next.stage == (TurnStageView::RunTool { calls, index: 0 })
        }),
{
    let o = t.step(TurnEventView::StreamEnded, history);
    let rest = o.entries.skip(1);
    assert(rest =~= o.entries.subrange(1, o.entries.len() as int));
    if a.finish == Some(FinishReasonView::MaxTokens) {
        assert(rest =~= seq![
            SessionEventDataView::StepEnd { turn: t.turn, step: t.step },
            SessionEventDataView::TurnEnd { turn: t.turn, reason: TurnEndReasonView::MaxTokens },
        ]);
    } else {
        assert(rest =~= seq![o.entries[1]]);
    }
}

/// What is kept of an answer that was cut off is logged as interrupted, and the
/// turn ends as the user's abort.
pub proof fn law_interrupted_answer_is_kept(
    t: TurnView,
    a: AssemblerView,
    usage: Option<TokenUsage>,
    history: Seq<MessageView>,
)
    requires
        t.stage == (TurnStageView::Streaming { assembler: a, usage }),
    ensures
        ({
            let o = t.step(TurnEventView::Interrupted, history);
            let kept = a.interrupted_blocks();
            let n = o.entries.len();
            &&& n == (if kept.len() > 0 {
                3nat
            } else {
                2
            })
            &&& kept.len() > 0 ==> o.entries[0] == (SessionEventDataView::AssistantMessage {
                turn: t.turn,
                step: t.step,
                message: MessageView {
                    id: "m-"@ + text::decimal(t.turn as nat) + "-"@ + text::decimal(t.step as nat),
                    role: Role::Assistant,
                    content: kept,
                    source: MessageSourceView::Model {
                        provider: t.config.provider,
                        model: t.config.model,
                    },
                },
                usage: None,
                interrupted: Some(true),
            })
            &&& o.entries[n - 2] == (SessionEventDataView::StepEnd { turn: t.turn, step: t.step })
            &&& o.entries[n - 1] == (SessionEventDataView::TurnEnd {
                turn: t.turn,
                reason: TurnEndReasonView::Aborted { cause: "user"@ },
            })
            &&& o.next.request() == (TurnRequestView::Done { error: None })
        }),
{
}

/// The result of a tool call goes back to the model as the answer to that call:
/// what a success shows, or the message of a failure, marked as one. Then the
/// next call is logged and run; behind the last one the step ends, and the
/// results owe the model another request.
pub proof fn law_result_goes_back_to_its_call(
    t: TurnView,
    calls: Seq<ContentBlockView>,
    index: nat,
    result: ToolExecutionResultView,
    history: Seq<MessageView>,
)
    requires
        t.stage == (TurnStageView::RunTool { calls, index }),
        index < calls.len(),
    ensures
        ({
            let o = t.step(TurnEventView::ToolDone { result }, history);
            let call = calls[index as int];
            &&& o.entries.len() == 2
            &&& o.entries[0] matches SessionEventDataView::ToolResult { turn, step, message } && {
                &&& turn == t.turn
                &&& step == t.step
                &&& message.id == "tr-"@ + call->id
                &&& message.role == Role::User
                &&& message.source == (MessageSourceView::Tool { tool: call->name })
                &&& message.content.len() == 1
                &&& message.content[0] matches ContentBlockView::ToolResult {
                    tool_call_id,
                    content,
                    is_error,
                } && {
                    &&& tool_call_id == call->id
                    &&& is_error == Some(result is Error)
                    &&& content.len() == 1
                    &&& match result {
                        ToolExecutionResultView::Error { message: why, .. } => content[0] == (
                        ContentBlockView::Text { text: why }),
                        ToolExecutionResultView::Success { content: shown, .. } => content[0] == (
                        ContentBlockView::Text { text: text::join(block_texts(shown), seq!['\n']) }),
                    }
                }
            }
            &&& index + 1 < calls.len() ==> {
                let next = calls[index as int + 1];
                &&& o.entries[1] == (SessionEventDataView::ToolCall {
                    turn: t.turn,
                    step: t.step,
                    call_id: next->id,
                    name: next->name,
                    arguments: next->arguments,
                })
                &&& o.next.stage == (TurnStageView::RunTool { calls, index: index + 1 })
            }
            &&& index + 1 == calls.len() ==> {
                &&& o.entries[1] == (SessionEventDataView::StepEnd { turn: t.turn, step: t.step })
                &&& o.next.request() == (TurnRequestView::ClaimSteering { owed: true })
            }
        }),
{
    reveal_strlit("\n");
    assert("\n"@ =~= seq!['\n']);
}

/// What a result shows the model is its text blocks, each in its place; a result
/// of one text shows that text.
pub proof fn law_shown_text_is_the_text_blocks(
    blocks: Seq<ContentBlockView>,
    b: ContentBlockView,
    said: Seq<char>,
)
    ensures
        block_texts(seq![]) == Seq::<Seq<char>>::empty(),
        match b {
            ContentBlockView::Text { text } => block_texts(blocks.push(b)) == block_texts(
                blocks,
            ).push(text),
            _ => block_texts(blocks.push(b)) == block_texts(blocks),
        },
        text::join(block_texts(seq![ContentBlockView::Text { text: said }]), seq!['\n']) == said,
{
    assert(blocks.push(b).drop_last() =~= blocks);
    let one = seq![ContentBlockView::Text { text: said }];
    assert(one.drop_last() =~= seq![]);
    assert(block_texts(one.drop_last()) =~= seq![]);
    assert(block_texts(one) =~= seq![said]);
}

/// A turn goes on as long as results owe the model a request or input is there;
/// else it stops, and is complete once its listeners are through.
pub proof fn law_turn_stops_when_nothing_is_left(
    t: TurnView,
    tools: Seq<ToolSchemaView>,
    history: Seq<MessageView>,
)
    ensures
        t.stage == (TurnStageView::Steering { owed: false }) ==> {
            let o = t.step(TurnEventView::Steered { messages: seq![], tools }, history);
            o.entries.len() == 0 && o.next.request() == (TurnRequestView::RunStopping {
                turn: t.turn,
            })
        },
        t.stage is Stopping ==> {
            let o = t.step(TurnEventView::Stopped, history);
            o.entries == seq![
                SessionEventDataView::TurnEnd {
                    turn: t.turn,
                    reason: TurnEndReasonView::Completed,
                },
            ] && o.next.request() == (TurnRequestView::Done { error: None })
        },
{
}

/// What a turn was started for stays: the agent, its options and its number.
pub proof fn law_turn_keeps_its_agent(
    t: TurnView,
    event: TurnEventView,
    history: Seq<MessageView>,
)
    ensures
        t.step(event, history).next.agent_id == t.agent_id,
        t.step(event, history).next.options == t.options,
        t.step(event, history).next.turn == t.turn,
{
}

} // verus!
