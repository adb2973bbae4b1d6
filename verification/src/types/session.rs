//! The session event vocabulary.
//!
//! A session is an append-only log of [`SessionEvent`]s, the single source of
//! truth for an agent interaction. Message history is derived from the log,
//! never stored separately.

use crate::text;
use crate::text::{clone_opt, clone_vec};
use crate::types::llm;
use crate::types::llm::{clone_opt_vec, LlmCallConfig, Message, StreamChunk, TokenUsage, ToolSchema};
use vstd::prelude::*;

#[allow(unused_imports)]
use crate::types::llm::{LlmCallConfigView, MessageView, StreamChunkView, ToolSchemaView};

verus! {

/// Why a turn ended.
#[derive(Debug, PartialEq, Eq)]
pub enum TurnEndReason {
    Completed,
    /// A cancellation request interrupted the live turn.
    Aborted { cause: String },
    Blocked,
    /// The turn failed.
    Error { message: String, code: String },
    /// At least one step reached its output-token ceiling.
    MaxTokens,
    /// A persistence backend closed a crash-orphaned turn on reload.
    Interrupted,
}

/// What a [`TurnEndReason`] says.
#[verifier::ext_equal]
pub enum TurnEndReasonView {
    Completed,
    Aborted { cause: Seq<char> },
    Blocked,
    Error { message: Seq<char>, code: Seq<char> },
    MaxTokens,
    Interrupted,
}

impl View for TurnEndReason {
    type V = TurnEndReasonView;

    open spec fn view(&self) -> TurnEndReasonView {
        match *self {
            TurnEndReason::Completed => TurnEndReasonView::Completed,
            TurnEndReason::Aborted { cause } => TurnEndReasonView::Aborted { cause: cause@ },
            TurnEndReason::Blocked => TurnEndReasonView::Blocked,
            TurnEndReason::Error { message, code } => TurnEndReasonView::Error { message: message@, code: code@ },
            TurnEndReason::MaxTokens => TurnEndReasonView::MaxTokens,
            TurnEndReason::Interrupted => TurnEndReasonView::Interrupted,
        }
    }
}

impl Clone for TurnEndReason {
    fn clone(&self) -> (r: Self)
        ensures
            r@ == self@,
    {
        match self {
            TurnEndReason::Completed => TurnEndReason::Completed,
            TurnEndReason::Aborted { cause } => TurnEndReason::Aborted { cause: cause.clone() },
            TurnEndReason::Blocked => TurnEndReason::Blocked,
            TurnEndReason::Error { message, code } => TurnEndReason::Error { message: message.clone(), code: code.clone() },
            TurnEndReason::MaxTokens => TurnEndReason::MaxTokens,
            TurnEndReason::Interrupted => TurnEndReason::Interrupted,
        }
    }
}

/// How far a todo item has come.
#[derive(Debug, Clone, Copy, PartialEq, Eq, Structural)]
pub enum TodoStatus {
    Pending,
    InProgress,
    Completed,
}

/// One entry in an agent's todo list.
#[derive(Debug, PartialEq, Eq)]
pub struct TodoItem {
    pub content: String,
    pub status: TodoStatus,
}

/// What a [`TodoItem`] says.
#[verifier::ext_equal]
pub struct TodoItemView {
    pub content: Seq<char>,
    pub status: TodoStatus,
}

impl View for TodoItem {
    type V = TodoItemView;

    open spec fn view(&self) -> TodoItemView {
        TodoItemView {
            content: self.content@,
            status: self.status,
        }
    }
}

impl Clone for TodoItem {
    fn clone(&self) -> (r: Self)
        ensures
            r@ == self@,
    {
        TodoItem {
            content: self.content.clone(),
            status: self.status,
        }
    }
}

/// The logged request envelope: call config, rendered system prompt and tool
/// schemas. The latest snapshot reconstructs the next request.
#[derive(Debug, PartialEq)]
pub struct EpochHeader {
    pub config: LlmCallConfig,
    pub system: Option<String>,
    pub tools: Option<Vec<ToolSchema>>,
}

/// What a [`EpochHeader`] says.
#[verifier::ext_equal]
pub struct EpochHeaderView {
    pub config: LlmCallConfigView,
    pub system: Option<Seq<char>>,
    pub tools: Option<Seq<ToolSchemaView>>,
}

impl View for EpochHeader {
    type V = EpochHeaderView;

    open spec fn view(&self) -> EpochHeaderView {
        EpochHeaderView {
            config: self.config@,
            system: text::opt_view(self.system),
            tools: llm::opt_seq(self.tools),
        }
    }
}

impl Clone for EpochHeader {
    fn clone(&self) -> (r: Self)
        ensures
            r@ == self@,
    {
        EpochHeader {
            config: self.config.clone(),
            system: clone_opt(&self.system),
            tools: clone_opt_vec(&self.tools),
        }
    }
}

/// How a message-producing event entered the ordered surface.
#[derive(Debug, Clone, Copy, PartialEq, Eq, Structural)]
pub enum SurfaceOp {
    Append,
    /// Replaces surface nodes from `start` through `end` (inclusive).
    Replace { start: u64, end: u64 },
}

/// What one entry of the log records.
#[derive(Debug, PartialEq)]
pub enum SessionEventData {
    /// Opens turn `turn`.
    TurnStart { turn: u64 },
    /// Closes turn `turn` with the reason that ended it.
    TurnEnd { turn: u64, reason: TurnEndReason },
    /// Opens step `step` of turn `turn`.
    StepStart { turn: u64, step: u64 },
    /// Closes step `step` of turn `turn`.
    StepEnd { turn: u64, step: u64 },
    /// A user-role message on the model-visible surface.
    UserMessage { message: Message },
    /// Raw stream chunk, for token-level replay.
    AssistantChunk { turn: u64, step: u64, chunk: StreamChunk },
    /// Assembled assistant message for one step (derived history uses this).
    AssistantMessage { turn: u64, step: u64, message: Message, usage: Option<TokenUsage>, interrupted: Option<bool> },
    /// The model requested one tool invocation; `arguments` is the raw JSON text.
    ToolCall { turn: u64, step: u64, call_id: String, name: String, arguments: String },
    /// A completed tool call's model-facing result.
    ToolResult { turn: u64, step: u64, message: Message },
    /// Whole-list snapshot; the latest write wins on replay.
    TodoWrite { todos: Vec<TodoItem> },
    /// Full header for the next request, appended inside its step.
    RequestHeader { header: EpochHeader },
    /// Marks the end of a seed (resume, fork, replay).
    SessionEndSeed,
}

/// What a [`SessionEventData`] says.
#[verifier::ext_equal]
pub enum SessionEventDataView {
    TurnStart { turn: u64 },
    TurnEnd { turn: u64, reason: TurnEndReasonView },
    StepStart { turn: u64, step: u64 },
    StepEnd { turn: u64, step: u64 },
    UserMessage { message: MessageView },
    AssistantChunk { turn: u64, step: u64, chunk: StreamChunkView },
    AssistantMessage { turn: u64, step: u64, message: MessageView, usage: Option<TokenUsage>, interrupted: Option<bool> },
    ToolCall { turn: u64, step: u64, call_id: Seq<char>, name: Seq<char>, arguments: Seq<char> },
    ToolResult { turn: u64, step: u64, message: MessageView },
    TodoWrite { todos: Seq<TodoItemView> },
    RequestHeader { header: EpochHeaderView },
    SessionEndSeed,
}

impl View for SessionEventData {
    type V = SessionEventDataView;

    open spec fn view(&self) -> SessionEventDataView {
        match *self {
            SessionEventData::TurnStart { turn } => SessionEventDataView::TurnStart { turn },
            SessionEventData::TurnEnd { turn, reason } => SessionEventDataView::TurnEnd { turn, reason: reason@ },
            SessionEventData::StepStart { turn, step } => SessionEventDataView::StepStart { turn, step },
            SessionEventData::StepEnd { turn, step } => SessionEventDataView::StepEnd { turn, step },
            SessionEventData::UserMessage { message } => SessionEventDataView::UserMessage { message: message@ },
            SessionEventData::AssistantChunk { turn, step, chunk } => SessionEventDataView::AssistantChunk { turn, step, chunk: chunk@ },
            SessionEventData::AssistantMessage { turn, step, message, usage, interrupted } => SessionEventDataView::AssistantMessage { turn, step, message: message@, usage, interrupted },
            SessionEventData::ToolCall { turn, step, call_id, name, arguments } => SessionEventDataView::ToolCall { turn, step, call_id: call_id@, name: name@, arguments: arguments@ },
            SessionEventData::ToolResult { turn, step, message } => SessionEventDataView::ToolResult { turn, step, message: message@ },
            SessionEventData::TodoWrite { todos } => SessionEventDataView::TodoWrite { todos: text::views(todos@) },
            SessionEventData::RequestHeader { header } => SessionEventDataView::RequestHeader { header: header@ },
            SessionEventData::SessionEndSeed => SessionEventDataView::SessionEndSeed,
        }
    }
}

impl Clone for SessionEventData {
    fn clone(&self) -> (r: Self)
        ensures
            r@ == self@,
    {
        match self {
            SessionEventData::TurnStart { turn } => SessionEventData::TurnStart { turn: *turn },
            SessionEventData::TurnEnd { turn, reason } => SessionEventData::TurnEnd { turn: *turn, reason: reason.clone() },
            SessionEventData::StepStart { turn, step } => SessionEventData::StepStart { turn: *turn, step: *step },
            SessionEventData::StepEnd { turn, step } => SessionEventData::StepEnd { turn: *turn, step: *step },
            SessionEventData::UserMessage { message } => SessionEventData::UserMessage { message: message.clone() },
            SessionEventData::AssistantChunk { turn, step, chunk } => SessionEventData::AssistantChunk { turn: *turn, step: *step, chunk: chunk.clone() },
            SessionEventData::AssistantMessage { turn, step, message, usage, interrupted } => SessionEventData::AssistantMessage { turn: *turn, step: *step, message: message.clone(), usage: *usage, interrupted: *interrupted },
            SessionEventData::ToolCall { turn, step, call_id, name, arguments } => SessionEventData::ToolCall { turn: *turn, step: *step, call_id: call_id.clone(), name: name.clone(), arguments: arguments.clone() },
            SessionEventData::ToolResult { turn, step, message } => SessionEventData::ToolResult { turn: *turn, step: *step, message: message.clone() },
            SessionEventData::TodoWrite { todos } => SessionEventData::TodoWrite { todos: clone_vec(todos) },
            SessionEventData::RequestHeader { header } => SessionEventData::RequestHeader { header: header.clone() },
            SessionEventData::SessionEndSeed => SessionEventData::SessionEndSeed,
        }
    }
}

impl SessionEventDataView {
    /// Whether this entry stands on the message surface.
    pub open spec fn is_surface(self) -> bool {
        self is UserMessage || self is AssistantMessage || self is ToolResult
    }

    /// The name of this kind of entry.
    pub open spec fn event_type(self) -> Seq<char> {
        match self {
            SessionEventDataView::TurnStart { .. } => "turn/start"@,
            SessionEventDataView::TurnEnd { .. } => "turn/end"@,
            SessionEventDataView::StepStart { .. } => "step/start"@,
            SessionEventDataView::StepEnd { .. } => "step/end"@,
            SessionEventDataView::UserMessage { .. } => "user/message"@,
            SessionEventDataView::AssistantChunk { .. } => "assistant/chunk"@,
            SessionEventDataView::AssistantMessage { .. } => "assistant/message"@,
            SessionEventDataView::ToolCall { .. } => "tool/call"@,
            SessionEventDataView::ToolResult { .. } => "tool/result"@,
            SessionEventDataView::TodoWrite { .. } => "todo/write"@,
            SessionEventDataView::RequestHeader { .. } => "request/header"@,
            SessionEventDataView::SessionEndSeed => "session/end-seed"@,
        }
    }
}

impl SessionEventData {
    /// Whether this event type is message-producing (a surface node).
    pub fn is_surface(&self) -> (r: bool)
        ensures
            r == self@.is_surface(),
    {
        match self {
            SessionEventData::UserMessage { .. } => true,
            SessionEventData::AssistantMessage { .. } => true,
            SessionEventData::ToolResult { .. } => true,
            _ => false,
        }
    }

    /// The name of this kind of entry.
    pub fn event_type(&self) -> (r: &'static str)
        ensures
            r@ == self@.event_type(),
    {
        match self {
            SessionEventData::TurnStart { .. } => "turn/start",
            SessionEventData::TurnEnd { .. } => "turn/end",
            SessionEventData::StepStart { .. } => "step/start",
            SessionEventData::StepEnd { .. } => "step/end",
            SessionEventData::UserMessage { .. } => "user/message",
            SessionEventData::AssistantChunk { .. } => "assistant/chunk",
            SessionEventData::AssistantMessage { .. } => "assistant/message",
            SessionEventData::ToolCall { .. } => "tool/call",
            SessionEventData::ToolResult { .. } => "tool/result",
            SessionEventData::TodoWrite { .. } => "todo/write",
            SessionEventData::RequestHeader { .. } => "request/header",
            SessionEventData::SessionEndSeed => "session/end-seed",
        }
    }
}

/// One immutable entry in the session log.
#[derive(Debug, PartialEq)]
pub struct SessionEvent {
    /// Monotonic position in the log.
    pub seq: u64,
    /// Unix epoch milliseconds.
    pub time: u64,
    pub data: SessionEventData,
}

/// What a [`SessionEvent`] says.
#[verifier::ext_equal]
pub struct SessionEventView {
    pub seq: u64,
    pub time: u64,
    pub data: SessionEventDataView,
}

impl View for SessionEvent {
    type V = SessionEventView;

    open spec fn view(&self) -> SessionEventView {
        SessionEventView {
            seq: self.seq,
            time: self.time,
            data: self.data@,
        }
    }
}

impl Clone for SessionEvent {
    fn clone(&self) -> (r: Self)
        ensures
            r@ == self@,
    {
        SessionEvent {
            seq: self.seq,
            time: self.time,
            data: self.data.clone(),
        }
    }
}

impl SessionEvent {
    /// The entry at position `seq`.
    pub fn new(seq: u64, time: u64, data: SessionEventData) -> (r: Self)
        ensures
            r@ == (SessionEventView { seq, time, data: data@ }),
    {
        SessionEvent { seq, time, data }
    }

    /// The name of this kind of entry.
    pub fn event_type(&self) -> (r: &'static str)
        ensures
            r@ == self@.data.event_type(),
    {
        self.data.event_type()
    }
}

/// Storage metadata attached to a session, kept out of the event log.
#[derive(Debug, PartialEq)]
pub struct SessionHeader {
    /// Validated absolute working directory.
    pub cwd: Option<String>,
    pub created_at: u64,
    /// Durable fork lineage: the parent session id, when forked.
    pub parent_session: Option<String>,
    /// Length of the seed (replay or fork boundary).
    pub seed_length: u64,
}

/// What a [`SessionHeader`] says.
#[verifier::ext_equal]
pub struct SessionHeaderView {
    pub cwd: Option<Seq<char>>,
    pub created_at: u64,
    pub parent_session: Option<Seq<char>>,
    pub seed_length: u64,
}

impl View for SessionHeader {
    type V = SessionHeaderView;

    open spec fn view(&self) -> SessionHeaderView {
        SessionHeaderView {
            cwd: text::opt_view(self.cwd),
            created_at: self.created_at,
            parent_session: text::opt_view(self.parent_session),
            seed_length: self.seed_length,
        }
    }
}

impl Clone for SessionHeader {
    fn clone(&self) -> (r: Self)
        ensures
            r@ == self@,
    {
        SessionHeader {
            cwd: clone_opt(&self.cwd),
            created_at: self.created_at,
            parent_session: clone_opt(&self.parent_session),
            seed_length: self.seed_length,
        }
    }
}

/// `std::time::SystemTime::elapsed` of the Unix epoch, in whole milliseconds;
/// `None` where the clock stands before the epoch. Nothing is stated of the
/// result: it is what the clock says.
#[verifier::external_body]
fn clock_millis() -> (r: Option<u128>) {
    std::time::UNIX_EPOCH.elapsed().ok().map(|d| d.as_millis())
}

/// The time that a reading of the clock stands for: its low 64 bits, or zero
/// where the clock stands before the epoch.
pub open spec fn time_of_reading(reading: Option<u128>) -> u64 {
    match reading {
        Some(ms) => ms as u64,
        None => 0,
    }
}

/// The time that a reading of the clock stands for.
pub fn reading_ms(reading: Option<u128>) -> (r: u64)
    ensures
        r == time_of_reading(reading),
{
    match reading {
        Some(ms) => #[verifier::truncate] (ms as u64),
        None => 0,
    }
}

/// Unix epoch milliseconds.
pub fn now_ms() -> (r: u64)
    ensures
        exists|reading: Option<u128>| r == #[trigger] time_of_reading(reading),
{
    let reading = clock_millis();
    reading_ms(reading)
}

impl SessionHeader {
    /// The header of a fresh session that was created at `created_at`.
    pub fn created(created_at: u64) -> (r: Self)
        ensures
            r@ == fresh_header(created_at),
    {
        SessionHeader { cwd: None, created_at, parent_session: None, seed_length: 0 }
    }
}

/// The header of a fresh session that was created at `created_at`.
pub open spec fn fresh_header(created_at: u64) -> SessionHeaderView {
    SessionHeaderView { cwd: None, created_at, parent_session: None, seed_length: 0 }
}

impl Default for SessionHeader {
    fn default() -> (r: Self)
        ensures
            r@ == fresh_header(r@.created_at),
    {
        SessionHeader::created(now_ms())
    }
}

/// Options for creating a session.
#[derive(Debug, PartialEq)]
pub struct CreateSessionOptions {
    pub id: Option<String>,
    pub cwd: Option<String>,
    /// Seed events (replay or fork).
    pub seed: Vec<SessionEvent>,
    /// Parent session lineage for forks.
    pub parent_session: Option<String>,
}

/// What a [`CreateSessionOptions`] says.
#[verifier::ext_equal]
pub struct CreateSessionOptionsView {
    pub id: Option<Seq<char>>,
    pub cwd: Option<Seq<char>>,
    pub seed: Seq<SessionEventView>,
    pub parent_session: Option<Seq<char>>,
}

impl View for CreateSessionOptions {
    type V = CreateSessionOptionsView;

    open spec fn view(&self) -> CreateSessionOptionsView {
        CreateSessionOptionsView {
            id: text::opt_view(self.id),
            cwd: text::opt_view(self.cwd),
            seed: text::views(self.seed@),
            parent_session: text::opt_view(self.parent_session),
        }
    }
}

impl Clone for CreateSessionOptions {
    fn clone(&self) -> (r: Self)
        ensures
            r@ == self@,
    {
        CreateSessionOptions {
            id: clone_opt(&self.id),
            cwd: clone_opt(&self.cwd),
            seed: clone_vec(&self.seed),
            parent_session: clone_opt(&self.parent_session),
        }
    }
}

impl Default for CreateSessionOptions {
    fn default() -> (r: Self)
        ensures
            r@ == (CreateSessionOptionsView {
                id: None,
                cwd: None,
                seed: seq![],
                parent_session: None,
            }),
    {
        let seed: Vec<SessionEvent> = Vec::new();
        assert(text::views(seed@) =~= seq![]);
        CreateSessionOptions { id: None, cwd: None, seed, parent_session: None }
    }
}

impl CreateSessionOptions {
    /// The options that name only the session.
    pub fn with_id(id: &str) -> (r: Self)
        ensures
            r@ == (CreateSessionOptionsView {
                id: Some(id@),
                cwd: None,
                seed: seq![],
                parent_session: None,
            }),
    {
        let seed: Vec<SessionEvent> = Vec::new();
        assert(text::views(seed@) =~= seq![]);
        CreateSessionOptions { id: Some(id.to_owned()), cwd: None, seed, parent_session: None }
    }
}

// ---------------------------------------------------------------------------
// laws
// ---------------------------------------------------------------------------

/// The entries that carry a message are those on the surface, and every kind of
/// entry has a name of its own.
pub proof fn law_kinds_of_entries_differ(d: SessionEventDataView)
    ensures
        d.is_surface() <==> (d matches SessionEventDataView::UserMessage { .. } || d matches
            SessionEventDataView::AssistantMessage { .. } || d matches
            SessionEventDataView::ToolResult { .. }),
        d is TurnStart <==> d.event_type() == "turn/start"@,
        d is TurnEnd <==> d.event_type() == "turn/end"@,
        d is StepStart <==> d.event_type() == "step/start"@,
        d is StepEnd <==> d.event_type() == "step/end"@,
        d is UserMessage <==> d.event_type() == "user/message"@,
        d is AssistantChunk <==> d.event_type() == "assistant/chunk"@,
        d is AssistantMessage <==> d.event_type() == "assistant/message"@,
        d is ToolCall <==> d.event_type() == "tool/call"@,
        d is ToolResult <==> d.event_type() == "tool/result"@,
        d is TodoWrite <==> d.event_type() == "todo/write"@,
        d is RequestHeader <==> d.event_type() == "request/header"@,
        d is SessionEndSeed <==> d.event_type() == "session/end-seed"@,
{
    reveal_strlit("turn/start");
    reveal_strlit("turn/end");
    reveal_strlit("step/start");
    reveal_strlit("step/end");
    reveal_strlit("user/message");
    reveal_strlit("assistant/chunk");
    reveal_strlit("assistant/message");
    reveal_strlit("tool/call");
    reveal_strlit("tool/result");
    reveal_strlit("todo/write");
    reveal_strlit("request/header");
    reveal_strlit("session/end-seed");
    assert("turn/end"@.len() == 8);
    assert("step/end"@.len() == 8);
    assert("tool/call"@.len() == 9);
    assert("turn/start"@.len() == 10);
    assert("step/start"@.len() == 10);
    assert("todo/write"@.len() == 10);
    assert("tool/result"@.len() == 11);
    assert("user/message"@.len() == 12);
    assert("request/header"@.len() == 14);
    assert("assistant/chunk"@.len() == 15);
    assert("session/end-seed"@.len() == 16);
    assert("assistant/message"@.len() == 17);
    assert("turn/start"@[1] != "step/start"@[1]);
    assert("turn/start"@[1] != "todo/write"@[1]);
    assert("step/start"@[0] != "todo/write"@[0]);
    assert("turn/end"@[0] != "step/end"@[0]);
}

/// A fresh session has no parent, no seed and no directory, and was created when
/// it says.
pub proof fn law_fresh_header_is_bare(created_at: u64, reading: Option<u128>)
    ensures
        fresh_header(created_at).created_at == created_at,
        fresh_header(created_at).cwd is None,
        fresh_header(created_at).parent_session is None,
        fresh_header(created_at).seed_length == 0,
        reading matches Some(ms) && ms <= u64::MAX ==> time_of_reading(reading) == reading->0,
        reading is None ==> time_of_reading(reading) == 0,
{
}

} // verus!
