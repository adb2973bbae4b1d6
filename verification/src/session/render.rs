//! Text renderings of log entries.

use crate::json;
use crate::json::Json;
use crate::session::log::Session;
use crate::text;
use crate::text::{concat2, concat4, decimal_text, joined};
use crate::types::llm::{ContentBlock, FinishReason, LlmFailure, StreamChunk, TokenUsage};
use crate::types::session::{
    SessionEvent, SessionEventData, TodoItem, TodoStatus, TurnEndReason,
};
use vstd::prelude::*;

#[allow(unused_imports)]
use crate::json::JsonView;
#[allow(unused_imports)]
use crate::types::llm;
#[allow(unused_imports)]
use crate::types::llm::{
    ContentBlockView, FinishReasonView, LlmFailureView, StreamChunkView,
};
#[allow(unused_imports)]
use crate::types::session::{
    SessionEventDataView, SessionEventView, TodoItemView, TurnEndReasonView,
};

verus! {

/// The quoted and escaped form that `Debug` gives a string.
pub uninterp spec fn quoted(s: Seq<char>) -> Seq<char>;

/// `Debug` of a string slice: the text in quotes, escaped.
#[verifier::external_body]
fn quote(s: &str) -> (r: String)
    ensures
        r@ == quoted(s@),
{
    format!("{:?}", s)
}

// ---------------------------------------------------------------------------
// values
// ---------------------------------------------------------------------------

/// A named record: `Name { field: value, .. }`.
pub open spec fn record(name: Seq<char>, fields: Seq<(Seq<char>, Seq<char>)>) -> Seq<char> {
    name + " { "@ + text::join(
        Seq::new(fields.len(), |i: int| fields[i].0 + ": "@ + fields[i].1),
        ", "@,
    ) + " }"@
}

/// A list: `[a, b]`.
pub open spec fn list(items: Seq<Seq<char>>) -> Seq<char> {
    "["@ + text::join(items, ", "@) + "]"@
}

/// An optional value: `Some(x)` or `None`.
pub open spec fn optional(v: Option<Seq<char>>) -> Seq<char> {
    match v {
        Some(s) => "Some("@ + s + ")"@,
        None => "None"@,
    }
}

/// A record that is being put together.
struct Record {
    name: String,
    fields: Vec<String>,
    shown: Ghost<Seq<(Seq<char>, Seq<char>)>>,
}

impl Record {
    spec fn wf(&self) -> bool {
        text::views(self.fields@) == Seq::new(
            self.shown@.len(),
            |i: int| self.shown@[i].0 + ": "@ + self.shown@[i].1,
        )
    }

    fn new(name: &str) -> (r: Self)
        ensures
            r.wf(),
            r.name@ == name@,
            r.shown@ == Seq::<(Seq<char>, Seq<char>)>::empty(),
    {
        let r = Record { name: name.to_owned(), fields: Vec::new(), shown: Ghost(Seq::empty()) };
        assert(text::views(r.fields@) =~= Seq::new(
            r.shown@.len(),
            |i: int| r.shown@[i].0 + ": "@ + r.shown@[i].1,
        ));
        r
    }

    fn field(self, key: &str, value: &str) -> (r: Self)
        requires
            self.wf(),
        ensures
            r.wf(),
            r.name@ == self.name@,
            r.shown@ == self.shown@.push((key@, value@)),
    {
        let ghost before = text::views(self.fields@);
        let ghost shown = self.shown@.push((key@, value@));
        let mut fields = self.fields;
        let line = text::concat3(key, ": ", value);
        let ghost item = line@;
        fields.push(line);
        assert(text::views(fields@) =~= before.push(item));
        assert(text::views(fields@) =~= Seq::new(
            shown.len(),
            |i: int| shown[i].0 + ": "@ + shown[i].1,
        ));
        Record { name: self.name, fields, shown: Ghost(shown) }
    }

    fn show(self) -> (r: String)
        requires
            self.wf(),
        ensures
            r@ == record(self.name@, self.shown@),
    {
        let inner = joined(&self.fields, ", ");
        concat4(self.name.as_str(), " { ", inner.as_str(), " }")
    }
}

fn show_list(items: &Vec<String>) -> (r: String)
    ensures
        r@ == list(text::views(items@)),
{
    let inner = joined(items, ", ");
    text::concat3("[", inner.as_str(), "]")
}

fn show_optional(v: Option<String>) -> (r: String)
    ensures
        r@ == optional(text::opt_view(v)),
{
    match v {
        Some(s) => text::concat3("Some(", s.as_str(), ")"),
        None => "None".to_owned(),
    }
}

/// An optional count.
pub open spec fn optional_count(v: Option<u64>) -> Seq<char> {
    optional(
        match v {
            Some(n) => Some(text::decimal(n as nat)),
            None => None,
        },
    )
}

fn show_optional_count(v: Option<u64>) -> (r: String)
    ensures
        r@ == optional_count(v),
{
    show_optional(
        match v {
            Some(n) => Some(decimal_text(n)),
            None => None,
        },
    )
}

/// An optional flag.
pub open spec fn optional_flag(v: Option<bool>) -> Seq<char> {
    optional(
        match v {
            Some(true) => Some("true"@),
            Some(false) => Some("false"@),
            None => None,
        },
    )
}

/// An optional text.
pub open spec fn optional_quoted(v: Option<Seq<char>>) -> Seq<char> {
    optional(
        match v {
            Some(s) => Some(quoted(s)),
            None => None,
        },
    )
}

/// An optional status code.
pub open spec fn optional_status(v: Option<u16>) -> Seq<char> {
    optional(
        match v {
            Some(s) => Some(text::decimal(s as nat)),
            None => None,
        },
    )
}

/// How a turn's end is shown.
pub open spec fn reason_text(r: TurnEndReasonView) -> Seq<char> {
    match r {
        TurnEndReasonView::Completed => "Completed"@,
        TurnEndReasonView::Aborted { cause } => record("Aborted"@, seq![("cause"@, quoted(cause))]),
        TurnEndReasonView::Blocked => "Blocked"@,
        TurnEndReasonView::Error { message, code } => record(
            "Error"@,
            seq![("message"@, quoted(message)), ("code"@, quoted(code))],
        ),
        TurnEndReasonView::MaxTokens => "MaxTokens"@,
        TurnEndReasonView::Interrupted => "Interrupted"@,
    }
}

/// Shows a turn's end.
pub fn show_reason(r: &TurnEndReason) -> (s: String)
    ensures
        s@ == reason_text(r@),
{
    match r {
        TurnEndReason::Completed => "Completed".to_owned(),
        TurnEndReason::Aborted { cause } => {
            let rec = Record::new("Aborted").field("cause", quote(cause.as_str()).as_str());
            assert(rec.shown@ =~= seq![("cause"@, quoted(cause@))]);
            rec.show()
        },
        TurnEndReason::Blocked => "Blocked".to_owned(),
        TurnEndReason::Error { message, code } => {
            let rec = Record::new("Error").field("message", quote(message.as_str()).as_str()).field(
                "code",
                quote(code.as_str()).as_str(),
            );
            assert(rec.shown@ =~= seq![("message"@, quoted(message@)), ("code"@, quoted(code@))]);
            rec.show()
        },
        TurnEndReason::MaxTokens => "MaxTokens".to_owned(),
        TurnEndReason::Interrupted => "Interrupted".to_owned(),
    }
}

/// The name of a todo item's status.
pub open spec fn todo_status_text(s: TodoStatus) -> Seq<char> {
    match s {
        TodoStatus::Pending => "Pending"@,
        TodoStatus::InProgress => "InProgress"@,
        TodoStatus::Completed => "Completed"@,
    }
}

/// How a todo item is shown.
pub open spec fn todo_text(t: TodoItemView) -> Seq<char> {
    record(
        "TodoItem"@,
        seq![("content"@, quoted(t.content)), ("status"@, todo_status_text(t.status))],
    )
}

/// How a todo list is shown.
pub open spec fn todos_text(todos: Seq<TodoItemView>) -> Seq<char> {
    list(todos.map_values(|t: TodoItemView| todo_text(t)))
}

fn show_todo(t: &TodoItem) -> (r: String)
    ensures
        r@ == todo_text(t@),
{
    let status = match t.status {
        TodoStatus::Pending => "Pending",
        TodoStatus::InProgress => "InProgress",
        TodoStatus::Completed => "Completed",
    };
    let rec = Record::new("TodoItem").field("content", quote(t.content.as_str()).as_str()).field(
        "status",
        status,
    );
    assert(rec.shown@ =~= seq![
        ("content"@, quoted(t@.content)),
        ("status"@, todo_status_text(t@.status)),
    ]);
    rec.show()
}

/// Shows a todo list.
pub fn show_todos(todos: &Vec<TodoItem>) -> (r: String)
    ensures
        r@ == todos_text(text::views(todos@)),
{
    let ghost all = text::views(todos@);
    let mut items: Vec<String> = Vec::new();
    for i in 0..todos.len()
        invariant
            all == text::views(todos@),
            items@.len() == i,
            forall|k: int| 0 <= k < i ==> (#[trigger] items@[k])@ == todo_text(all[k]),
    {
        items.push(show_todo(&todos[i]));
    }
    assert(text::views(items@) =~= all.map_values(|t: TodoItemView| todo_text(t)));
    show_list(&items)
}

/// How a content block is shown.
pub open spec fn block_text(b: ContentBlockView) -> Seq<char>
    decreases b,
{
    match b {
        ContentBlockView::Text { text } => record("Text"@, seq![("text"@, quoted(text))]),
        ContentBlockView::Reasoning { text } => record("Reasoning"@, seq![("text"@, quoted(text))]),
        ContentBlockView::ToolCall { id, name, arguments } => record(
            "ToolCall"@,
            seq![
                ("id"@, quoted(id)),
                ("name"@, quoted(name)),
                ("arguments"@, quoted(arguments)),
            ],
        ),
        ContentBlockView::ToolResult { tool_call_id, content, is_error } => record(
            "ToolResult"@,
            seq![
                ("tool_call_id"@, quoted(tool_call_id)),
                ("content"@, list(block_texts(content))),
                ("is_error"@, optional_flag(is_error)),
            ],
        ),
    }
}

/// How content blocks are shown.
pub open spec fn block_texts(s: Seq<ContentBlockView>) -> Seq<Seq<char>>
    decreases s,
{
    Seq::new(
        s.len(),
        |i: int|
            if 0 <= i < s.len() {
                block_text(s[i])
            } else {
                arbitrary()
            },
    )
}

/// Shows a content block.
pub fn show_block(b: &ContentBlock) -> (r: String)
    ensures
        r@ == block_text(b@),
    decreases b,
{
    match b {
        ContentBlock::Text { text } => {
            let rec = Record::new("Text").field("text", quote(text.as_str()).as_str());
            assert(rec.shown@ =~= seq![("text"@, quoted(text@))]);
            rec.show()
        },
        ContentBlock::Reasoning { text } => {
            let rec = Record::new("Reasoning").field("text", quote(text.as_str()).as_str());
            assert(rec.shown@ =~= seq![("text"@, quoted(text@))]);
            rec.show()
        },
        ContentBlock::ToolCall { id, name, arguments } => {
            let rec = Record::new("ToolCall").field("id", quote(id.as_str()).as_str()).field(
                "name",
                quote(name.as_str()).as_str(),
            ).field("arguments", quote(arguments.as_str()).as_str());
            assert(rec.shown@ =~= seq![
                ("id"@, quoted(id@)),
                ("name"@, quoted(name@)),
                ("arguments"@, quoted(arguments@)),
            ]);
            rec.show()
        },
        ContentBlock::ToolResult { tool_call_id, content, is_error } => {
            let ghost all = llm::block_views(content@);
            let mut items: Vec<String> = Vec::new();
            for i in 0..content.len()
                invariant
                    b matches ContentBlock::ToolResult { content: c, .. } && *content == c,
                    all == llm::block_views(content@),
                    items@.len() == i,
                    forall|k: int| 0 <= k < i ==> (#[trigger] items@[k])@ == block_text(all[k]),
            {
                items.push(show_block(&content[i]));
            }
            assert(text::views(items@) =~= block_texts(all));
            let shown_items = show_list(&items);
            let flag = show_optional(
                match is_error {
                    Some(true) => Some("true".to_owned()),
                    Some(false) => Some("false".to_owned()),
                    None => None,
                },
            );
            let rec = Record::new("ToolResult").field(
                "tool_call_id",
                quote(tool_call_id.as_str()).as_str(),
            ).field("content", shown_items.as_str()).field("is_error", flag.as_str());
            assert(rec.shown@ =~= seq![
                ("tool_call_id"@, quoted(tool_call_id@)),
                ("content"@, list(block_texts(all))),
                ("is_error"@, optional_flag(*is_error)),
            ]);
            rec.show()
        },
    }
}

/// How token usage is shown.
pub open spec fn usage_text(u: TokenUsage) -> Seq<char> {
    record(
        "TokenUsage"@,
        seq![
            ("input_tokens"@, text::decimal(u.input_tokens as nat)),
            ("output_tokens"@, text::decimal(u.output_tokens as nat)),
            ("cache_read_tokens"@, optional_count(u.cache_read_tokens)),
            ("cache_write_tokens"@, optional_count(u.cache_write_tokens)),
            ("reasoning_tokens"@, optional_count(u.reasoning_tokens)),
        ],
    )
}

fn show_usage(u: &TokenUsage) -> (r: String)
    ensures
        r@ == usage_text(*u),
{
    let rec = Record::new("TokenUsage").field(
        "input_tokens",
        decimal_text(u.input_tokens).as_str(),
    ).field("output_tokens", decimal_text(u.output_tokens).as_str()).field(
        "cache_read_tokens",
        show_optional_count(u.cache_read_tokens).as_str(),
    ).field("cache_write_tokens", show_optional_count(u.cache_write_tokens).as_str()).field(
        "reasoning_tokens",
        show_optional_count(u.reasoning_tokens).as_str(),
    );
    assert(rec.shown@ =~= seq![
        ("input_tokens"@, text::decimal(u.input_tokens as nat)),
        ("output_tokens"@, text::decimal(u.output_tokens as nat)),
        ("cache_read_tokens"@, optional_count(u.cache_read_tokens)),
        ("cache_write_tokens"@, optional_count(u.cache_write_tokens)),
        ("reasoning_tokens"@, optional_count(u.reasoning_tokens)),
    ]);
    rec.show()
}

/// How a failure is shown.
pub open spec fn failure_record(f: LlmFailureView) -> Seq<char> {
    record(
        "LlmFailure"@,
        seq![
            ("message"@, quoted(f.message)),
            ("code"@, quoted(f.code)),
            ("status"@, optional_status(f.status)),
            ("provider_retry_after_ms"@, optional_count(f.provider_retry_after_ms)),
        ],
    )
}

fn show_failure(f: &LlmFailure) -> (r: String)
    ensures
        r@ == failure_record(f@),
{
    let status = show_optional(
        match f.status {
            Some(s) => Some(decimal_text(s as u64)),
            None => None,
        },
    );
    let rec = Record::new("LlmFailure").field(
        "message",
        quote(f.message.as_str()).as_str(),
    ).field("code", quote(f.code.as_str()).as_str()).field("status", status.as_str()).field(
        "provider_retry_after_ms",
        show_optional_count(f.provider_retry_after_ms).as_str(),
    );
    assert(rec.shown@ =~= seq![
        ("message"@, quoted(f@.message)),
        ("code"@, quoted(f@.code)),
        ("status"@, optional_status(f@.status)),
        ("provider_retry_after_ms"@, optional_count(f@.provider_retry_after_ms)),
    ]);
    rec.show()
}

/// How the end of a stream is shown.
pub open spec fn finish_text(r: FinishReasonView) -> Seq<char> {
    match r {
        FinishReasonView::Stop => "Stop"@,
        FinishReasonView::ToolCalls => "ToolCalls"@,
        FinishReasonView::MaxTokens => "MaxTokens"@,
        FinishReasonView::Aborted { failure } => record(
            "Aborted"@,
            seq![("failure"@, failure_record(failure))],
        ),
        FinishReasonView::Error { failure } => record(
            "Error"@,
            seq![("failure"@, failure_record(failure))],
        ),
    }
}

fn show_finish(r: &FinishReason) -> (s: String)
    ensures
        s@ == finish_text(r@),
{
    match r {
        FinishReason::Stop => "Stop".to_owned(),
        FinishReason::ToolCalls => "ToolCalls".to_owned(),
        FinishReason::MaxTokens => "MaxTokens".to_owned(),
        FinishReason::Aborted { failure } => {
            let rec = Record::new("Aborted").field("failure", show_failure(failure).as_str());
            assert(rec.shown@ =~= seq![("failure"@, failure_record(failure@))]);
            rec.show()
        },
        FinishReason::Error { failure } => {
            let rec = Record::new("Error").field("failure", show_failure(failure).as_str());
            assert(rec.shown@ =~= seq![("failure"@, failure_record(failure@))]);
            rec.show()
        },
    }
}

/// How a chunk is shown.
pub open spec fn chunk_text(c: StreamChunkView) -> Seq<char> {
    match c {
        StreamChunkView::BlockStart { index, block_type } => record(
            "BlockStart"@,
            seq![("index"@, text::decimal(index as nat)), ("block_type"@, quoted(block_type))],
        ),
        StreamChunkView::TextDelta { index, text } => record(
            "TextDelta"@,
            seq![("index"@, text::decimal(index as nat)), ("text"@, quoted(text))],
        ),
        StreamChunkView::ReasoningDelta { index, text } => record(
            "ReasoningDelta"@,
            seq![("index"@, text::decimal(index as nat)), ("text"@, quoted(text))],
        ),
        StreamChunkView::ToolCallDelta { index, id, name, arguments_delta } => record(
            "ToolCallDelta"@,
            seq![
                ("index"@, text::decimal(index as nat)),
                ("id"@, quoted(id)),
                ("name"@, optional_quoted(name)),
                ("arguments_delta"@, quoted(arguments_delta)),
            ],
        ),
        StreamChunkView::BlockEnd { index, block } => record(
            "BlockEnd"@,
            seq![("index"@, text::decimal(index as nat)), ("block"@, block_text(block))],
        ),
        StreamChunkView::Usage { usage } => record("Usage"@, seq![("usage"@, usage_text(usage))]),
        StreamChunkView::Finish { reason } => record(
            "Finish"@,
            seq![("reason"@, finish_text(reason))],
        ),
    }
}

fn show_indexed(name: &str, index: usize, key: &str, value: &str) -> (r: String)
    ensures
        r@ == record(name@, seq![("index"@, text::decimal(index as nat)), (key@, value@)]),
{
    let rec = Record::new(name).field("index", decimal_text(index as u64).as_str()).field(
        key,
        value,
    );
    assert(rec.shown@ =~= seq![("index"@, text::decimal(index as nat)), (key@, value@)]);
    rec.show()
}

/// Shows a chunk.
pub fn show_chunk(c: &StreamChunk) -> (r: String)
    ensures
        r@ == chunk_text(c@),
{
    match c {
        StreamChunk::BlockStart { index, block_type } => show_indexed(
            "BlockStart",
            *index,
            "block_type",
            quote(block_type.as_str()).as_str(),
        ),
        StreamChunk::TextDelta { index, text } => show_indexed(
            "TextDelta",
            *index,
            "text",
            quote(text.as_str()).as_str(),
        ),
        StreamChunk::ReasoningDelta { index, text } => show_indexed(
            "ReasoningDelta",
            *index,
            "text",
            quote(text.as_str()).as_str(),
        ),
        StreamChunk::ToolCallDelta { index, id, name, arguments_delta } => {
            let shown_name = show_optional(
                match name {
                    Some(n) => Some(quote(n.as_str())),
                    None => None,
                },
            );
            let rec = Record::new("ToolCallDelta").field(
                "index",
                decimal_text(*index as u64).as_str(),
            ).field("id", quote(id.as_str()).as_str()).field("name", shown_name.as_str()).field(
                "arguments_delta",
                quote(arguments_delta.as_str()).as_str(),
            );
            assert(rec.shown@ =~= seq![
                ("index"@, text::decimal(*index as nat)),
                ("id"@, quoted(id@)),
                ("name"@, optional_quoted(text::opt_view(*name))),
                ("arguments_delta"@, quoted(arguments_delta@)),
            ]);
            rec.show()
        },
        StreamChunk::BlockEnd { index, block } => show_indexed(
            "BlockEnd",
            *index,
            "block",
            show_block(block).as_str(),
        ),
        StreamChunk::Usage { usage } => {
            let rec = Record::new("Usage").field("usage", show_usage(usage).as_str());
            assert(rec.shown@ =~= seq![("usage"@, usage_text(*usage))]);
            rec.show()
        },
        StreamChunk::Finish { reason } => {
            let rec = Record::new("Finish").field("reason", show_finish(reason).as_str());
            assert(rec.shown@ =~= seq![("reason"@, finish_text(reason@))]);
            rec.show()
        },
    }
}

// ---------------------------------------------------------------------------
// entries
// ---------------------------------------------------------------------------

/// Arguments as they are shown: printed again, or `null` where they are no
/// JSON.
pub open spec fn shown_arguments(parsed: Option<JsonView>) -> Seq<char> {
    json::text_of_json(
        match parsed {
            Some(v) => v,
            None => JsonView::Null,
        },
    )
}

/// How an entry is shown.
pub open spec fn entry_text(data: SessionEventDataView) -> Seq<char> {
    match data {
        SessionEventDataView::UserMessage { message } => "[user] "@ + llm::blocks_text(
            message.content,
        ),
        SessionEventDataView::AssistantMessage { message, .. } => "[assistant] "@
            + llm::blocks_text(message.content),
        SessionEventDataView::ToolCall { name, arguments, .. } => "[tool-call] "@ + name + " "@
            + shown_arguments(json::parsed(arguments)),
        SessionEventDataView::ToolResult { message, .. } => "[tool-result] "@ + llm::blocks_text(
            message.content,
        ),
        SessionEventDataView::TurnStart { .. } => "[turn/start]"@,
        SessionEventDataView::TurnEnd { reason, .. } => "[turn/end] "@ + reason_text(reason),
        SessionEventDataView::StepStart { .. } => "[step/start]"@,
        SessionEventDataView::StepEnd { .. } => "[step/end]"@,
        SessionEventDataView::AssistantChunk { chunk, .. } => "[assistant/chunk] "@ + chunk_text(
            chunk,
        ),
        SessionEventDataView::TodoWrite { todos } => "[todo/write] "@ + todos_text(todos),
        SessionEventDataView::RequestHeader { .. } => "[request/header]"@,
        SessionEventDataView::SessionEndSeed => "[session/end-seed]"@,
    }
}

/// How a log is shown, one entry after the other.
pub open spec fn transcript_text(events: Seq<SessionEventView>) -> Seq<char> {
    text::join(events.map_values(|e: SessionEventView| entry_text(e.data)), "\n"@)
}

fn show_arguments(arguments: &str) -> (r: String)
    ensures
        r@ == shown_arguments(json::parsed(arguments@)),
{
    match json::parse(arguments) {
        Some(v) => json::print(&v),
        None => json::print(&Json::Null),
    }
}

impl Session {
    /// Shows one entry.
    pub fn render_event(event: &SessionEvent) -> (r: String)
        ensures
            r@ == entry_text(event@.data),
    {
        match &event.data {
            SessionEventData::UserMessage { message } => concat2(
                "[user] ",
                message.text().as_str(),
            ),
            SessionEventData::AssistantMessage { message, .. } => concat2(
                "[assistant] ",
                message.text().as_str(),
            ),
            SessionEventData::ToolCall { name, arguments, .. } => {
                let shown = show_arguments(arguments.as_str());
                concat4("[tool-call] ", name.as_str(), " ", shown.as_str())
            },
            SessionEventData::ToolResult { message, .. } => concat2(
                "[tool-result] ",
                message.text().as_str(),
            ),
            SessionEventData::TurnStart { .. } => "[turn/start]".to_owned(),
            SessionEventData::TurnEnd { reason, .. } => concat2(
                "[turn/end] ",
                show_reason(reason).as_str(),
            ),
            SessionEventData::StepStart { .. } => "[step/start]".to_owned(),
            SessionEventData::StepEnd { .. } => "[step/end]".to_owned(),
            SessionEventData::AssistantChunk { chunk, .. } => concat2(
                "[assistant/chunk] ",
                show_chunk(chunk).as_str(),
            ),
            SessionEventData::TodoWrite { todos } => concat2(
                "[todo/write] ",
                show_todos(todos).as_str(),
            ),
            SessionEventData::RequestHeader { .. } => "[request/header]".to_owned(),
            SessionEventData::SessionEndSeed => "[session/end-seed]".to_owned(),
        }
    }

    /// Shows the log, one entry after the other.
    pub fn render(&self) -> (r: String)
        ensures
            r@ == transcript_text(self@.events),
    {
        let events = self.events();
        let ghost all = self@.events;
        let mut lines: Vec<String> = Vec::new();
        for i in 0..events.len()
            invariant
                all == text::views(events@),
                lines@.len() == i,
                forall|k: int| 0 <= k < i ==> (#[trigger] lines@[k])@ == entry_text(all[k].data),
        {
            lines.push(Session::render_event(&events[i]));
        }
        assert(text::views(lines@) =~= all.map_values(
            |e: SessionEventView| entry_text(e.data),
        ));
        joined(&lines, "\n")
    }
}

// ---------------------------------------------------------------------------
// laws
// ---------------------------------------------------------------------------

/// Each entry of a log is shown by its kind and what it says: messages and
/// results by their texts, a call by its name and its arguments, the end of a
/// turn by its reason, and so on.
pub proof fn law_entries_are_shown_by_their_kind(data: SessionEventDataView)
    ensures
        match data {
            SessionEventDataView::UserMessage { message } => entry_text(data) == "[user] "@
                + llm::blocks_text(message.content),
            SessionEventDataView::AssistantMessage { message, .. } => entry_text(data)
                == "[assistant] "@ + llm::blocks_text(message.content),
            SessionEventDataView::ToolResult { message, .. } => entry_text(data)
                == "[tool-result] "@ + llm::blocks_text(message.content),
            SessionEventDataView::ToolCall { name, arguments, .. } => match json::json_of_text(
                arguments,
            ) {
                Ok(v) => entry_text(data) == "[tool-call] "@ + name + " "@ + json::text_of_json(v),
                Err(_) => entry_text(data) == "[tool-call] "@ + name + " "@ + json::text_of_json(
                    JsonView::Null,
                ),
            },
            SessionEventDataView::TurnStart { .. } => entry_text(data) == "[turn/start]"@,
            SessionEventDataView::TurnEnd { reason, .. } => entry_text(data) == "[turn/end] "@
                + reason_text(reason),
            SessionEventDataView::StepStart { .. } => entry_text(data) == "[step/start]"@,
            SessionEventDataView::StepEnd { .. } => entry_text(data) == "[step/end]"@,
            SessionEventDataView::AssistantChunk { chunk, .. } => entry_text(data)
                == "[assistant/chunk] "@ + chunk_text(chunk),
            SessionEventDataView::TodoWrite { todos } => entry_text(data) == "[todo/write] "@
                + todos_text(todos),
            SessionEventDataView::RequestHeader { .. } => entry_text(data) == "[request/header]"@,
            SessionEventDataView::SessionEndSeed => entry_text(data) == "[session/end-seed]"@,
        },
{
}

/// A transcript shows every entry of the log, in order, each on a line of its
/// own.
pub proof fn law_transcript_shows_every_entry(
    events: Seq<SessionEventView>,
    e: SessionEventView,
)
    ensures
        transcript_text(seq![]) == Seq::<char>::empty(),
        transcript_text(seq![e]) == entry_text(e.data),
        events.len() > 0 ==> transcript_text(events.push(e)) == transcript_text(events) + seq![
            '\n',
        ] + entry_text(e.data),
{
    reveal_strlit("\n");
    assert("\n"@ =~= seq!['\n']);
    let f = |e: SessionEventView| entry_text(e.data);
    let none: Seq<SessionEventView> = seq![];
    assert(none.map_values(f) =~= seq![]);
    assert(seq![e].map_values(f) =~= seq![entry_text(e.data)]);
    assert(events.push(e).map_values(f) =~= events.map_values(f).push(entry_text(e.data)));
    text::law_joining_keeps_every_part(events.map_values(f), entry_text(e.data), "\n"@);
}

/// A record shows its name and its fields, in order; a list shows its items; an
/// optional value shows whether it is there.
pub proof fn law_records_show_their_fields(
    name: Seq<char>,
    fields: Seq<(Seq<char>, Seq<char>)>,
    key: Seq<char>,
    value: Seq<char>,
    items: Seq<Seq<char>>,
)
    ensures
        record(name, seq![(key, value)]) == name + " { "@ + (key + ": "@ + value) + " }"@,
        fields.len() > 0 ==> record(name, fields.push((key, value))) == record(
            name,
            fields,
        ).take(record(name, fields).len() - 2) + ", "@ + (key + ": "@ + value) + " }"@,
        record(name, fields).len() >= 2,
        record(name, fields).skip(record(name, fields).len() - 2) == " }"@,
        list(seq![]) == "["@ + "]"@,
        list(seq![value]) == "["@ + value + "]"@,
        items.len() > 0 ==> list(items.push(value)) == list(items).take(list(items).len() - 1)
            + ", "@ + value + "]"@,
        optional(Some(value)) == "Some("@ + value + ")"@,
        optional(None) == "None"@,
{
    reveal_strlit(" }");
    reveal_strlit("]");
    let field = key + ": "@ + value;
    let one = seq![(key, value)];
    assert(Seq::new(one.len(), |i: int| one[i].0 + ": "@ + one[i].1) =~= seq![field]);
    let all = fields.push((key, value));
    let before = Seq::new(fields.len(), |i: int| fields[i].0 + ": "@ + fields[i].1);
    assert(Seq::new(all.len(), |i: int| all[i].0 + ": "@ + all[i].1) =~= before.push(field));
    text::law_joining_keeps_every_part(before, field, ", "@);
    text::law_joining_keeps_every_part(items, value, ", "@);
    let r = record(name, fields);
    assert(r.take(r.len() - 2) =~= name + " { "@ + text::join(before, ", "@));
    assert(r.skip(r.len() - 2) =~= " }"@);
    if fields.len() > 0 {
        assert(record(name, all) =~= r.take(r.len() - 2) + ", "@ + field + " }"@);
    }
    let l = list(items);
    assert(l.take(l.len() - 1) =~= "["@ + text::join(items, ", "@));
    if items.len() > 0 {
        assert(list(items.push(value)) =~= l.take(l.len() - 1) + ", "@ + value + "]"@);
    }
    assert(list(seq![]) =~= "["@ + "]"@);
}

/// The end of a turn is shown by its reason; an abort with its cause, an error
/// with its message and code.
pub proof fn law_reasons_are_shown(reason: TurnEndReasonView)
    ensures
        match reason {
            TurnEndReasonView::Completed => reason_text(reason) == "Completed"@,
            TurnEndReasonView::Blocked => reason_text(reason) == "Blocked"@,
            TurnEndReasonView::MaxTokens => reason_text(reason) == "MaxTokens"@,
            TurnEndReasonView::Interrupted => reason_text(reason) == "Interrupted"@,
            TurnEndReasonView::Aborted { cause } => reason_text(reason) == record(
                "Aborted"@,
                seq![("cause"@, quoted(cause))],
            ),
            TurnEndReasonView::Error { message, code } => reason_text(reason) == record(
                "Error"@,
                seq![("message"@, quoted(message)), ("code"@, quoted(code))],
            ),
        },
{
}

/// A todo list is shown item by item, each with its content and status.
pub proof fn law_todos_are_shown(todos: Seq<TodoItemView>, i: int)
    requires
        0 <= i < todos.len(),
    ensures
        exists|items: Seq<Seq<char>>|
            #[trigger] list(items) == todos_text(todos) && items.len() == todos.len() && items[i]
                == record(
                "TodoItem"@,
                seq![
                    ("content"@, quoted(todos[i].content)),
                    (
                        "status"@,
                        match todos[i].status {
                            TodoStatus::Pending => "Pending"@,
                            TodoStatus::InProgress => "InProgress"@,
                            TodoStatus::Completed => "Completed"@,
                        },
                    ),
                ],
            ),
{
    let items = todos.map_values(|t: TodoItemView| todo_text(t));
    let fields = seq![
        ("content"@, quoted(todos[i].content)),
        (
            "status"@,
            match todos[i].status {
                TodoStatus::Pending => "Pending"@,
                TodoStatus::InProgress => "InProgress"@,
                TodoStatus::Completed => "Completed"@,
            },
        ),
    ];
    assert(items[i] == todo_text(todos[i]));
    assert(fields =~= seq![
        ("content"@, quoted(todos[i].content)),
        ("status"@, todo_status_text(todos[i].status)),
    ]);
    assert(list(items) == todos_text(todos));
}

/// A chunk is shown by its kind, its index and what it carries.
pub proof fn law_chunks_are_shown(c: StreamChunkView)
    ensures
        match c {
            StreamChunkView::TextDelta { index, text } => chunk_text(c) == record(
                "TextDelta"@,
                seq![("index"@, text::decimal(index as nat)), ("text"@, quoted(text))],
            ),
            StreamChunkView::ReasoningDelta { index, text } => chunk_text(c) == record(
                "ReasoningDelta"@,
                seq![("index"@, text::decimal(index as nat)), ("text"@, quoted(text))],
            ),
            StreamChunkView::ToolCallDelta { index, id, name, arguments_delta } => chunk_text(c)
                == record(
                "ToolCallDelta"@,
                seq![
                    ("index"@, text::decimal(index as nat)),
                    ("id"@, quoted(id)),
                    (
                        "name"@,
                        match name {
                            Some(n) => "Some("@ + quoted(n) + ")"@,
                            None => "None"@,
                        },
                    ),
                    ("arguments_delta"@, quoted(arguments_delta)),
                ],
            ),
            StreamChunkView::BlockStart { index, block_type } => chunk_text(c) == record(
                "BlockStart"@,
                seq![("index"@, text::decimal(index as nat)), ("block_type"@, quoted(block_type))],
            ),
            StreamChunkView::BlockEnd { index, block } => chunk_text(c) == record(
                "BlockEnd"@,
                seq![("index"@, text::decimal(index as nat)), ("block"@, block_text(block))],
            ),
            StreamChunkView::Usage { usage } => chunk_text(c) == record(
                "Usage"@,
                seq![
                    (
                        "usage"@,
                        record(
                            "TokenUsage"@,
                            seq![
                                ("input_tokens"@, text::decimal(usage.input_tokens as nat)),
                                ("output_tokens"@, text::decimal(usage.output_tokens as nat)),
                                ("cache_read_tokens"@, optional_count(usage.cache_read_tokens)),
                                ("cache_write_tokens"@, optional_count(usage.cache_write_tokens)),
                                ("reasoning_tokens"@, optional_count(usage.reasoning_tokens)),
                            ],
                        ),
                    ),
                ],
            ),
            StreamChunkView::Finish { reason } => chunk_text(c) == record(
                "Finish"@,
                seq![
                    (
                        "reason"@,
                        match reason {
                            FinishReasonView::Stop => "Stop"@,
                            FinishReasonView::ToolCalls => "ToolCalls"@,
                            FinishReasonView::MaxTokens => "MaxTokens"@,
                            FinishReasonView::Aborted { failure } => record(
                                "Aborted"@,
                                seq![("failure"@, failure_record(failure))],
                            ),
                            FinishReasonView::Error { failure } => record(
                                "Error"@,
                                seq![("failure"@, failure_record(failure))],
                            ),
                        },
                    ),
                ],
            ),
        },
{
    match c {
        StreamChunkView::ToolCallDelta { index, id, name, arguments_delta } => {
            let shown_name = match name {
                Some(n) => "Some("@ + quoted(n) + ")"@,
                None => "None"@,
            };
            assert(optional_quoted(name) == shown_name);
            assert(seq![
                ("index"@, text::decimal(index as nat)),
                ("id"@, quoted(id)),
                ("name"@, optional_quoted(name)),
                ("arguments_delta"@, quoted(arguments_delta)),
            ] =~= seq![
                ("index"@, text::decimal(index as nat)),
                ("id"@, quoted(id)),
                (
                    "name"@,
                    match name {
                        Some(n) => "Some("@ + quoted(n) + ")"@,
                        None => "None"@,
                    },
                ),
                ("arguments_delta"@, quoted(arguments_delta)),
            ]);
        },
        StreamChunkView::Finish { reason } => {
            assert(seq![("reason"@, finish_text(reason))] =~= seq![
                (
                    "reason"@,
                    match reason {
                        FinishReasonView::Stop => "Stop"@,
                        FinishReasonView::ToolCalls => "ToolCalls"@,
                        FinishReasonView::MaxTokens => "MaxTokens"@,
                        FinishReasonView::Aborted { failure } => record(
                            "Aborted"@,
                            seq![("failure"@, failure_record(failure))],
                        ),
                        FinishReasonView::Error { failure } => record(
                            "Error"@,
                            seq![("failure"@, failure_record(failure))],
                        ),
                    },
                ),
            ]);
        },
        _ => {},
    }
}

/// A block is shown by its kind and what it holds; a result with the blocks in
/// it.
pub proof fn law_blocks_are_shown(b: ContentBlockView)
    ensures
        match b {
            ContentBlockView::Text { text } => block_text(b) == record(
                "Text"@,
                seq![("text"@, quoted(text))],
            ),
            ContentBlockView::Reasoning { text } => block_text(b) == record(
                "Reasoning"@,
                seq![("text"@, quoted(text))],
            ),
            ContentBlockView::ToolCall { id, name, arguments } => block_text(b) == record(
                "ToolCall"@,
                seq![
                    ("id"@, quoted(id)),
                    ("name"@, quoted(name)),
                    ("arguments"@, quoted(arguments)),
                ],
            ),
            ContentBlockView::ToolResult { tool_call_id, content, is_error } => block_text(b)
                == record(
                "ToolResult"@,
                seq![
                    ("tool_call_id"@, quoted(tool_call_id)),
                    ("content"@, list(Seq::new(content.len(), |i: int| block_text(content[i])))),
                    (
                        "is_error"@,
                        match is_error {
                            Some(true) => "Some("@ + "true"@ + ")"@,
                            Some(false) => "Some("@ + "false"@ + ")"@,
                            None => "None"@,
                        },
                    ),
                ],
            ),
        },
{
    if let ContentBlockView::ToolResult { content, .. } = b {
        assert(block_texts(content) =~= Seq::new(content.len(), |i: int| block_text(content[i])));
    }
}

/// What may be missing is shown as it is where it is there, and as missing where
/// it is not.
pub proof fn law_optional_values_are_shown(n: u64, status: u16, b: bool, s: Seq<char>)
    ensures
        optional_count(Some(n)) == "Some("@ + text::decimal(n as nat) + ")"@,
        optional_status(Some(status)) == "Some("@ + text::decimal(status as nat) + ")"@,
        optional_flag(Some(b)) == "Some("@ + (if b {
            "true"@
        } else {
            "false"@
        }) + ")"@,
        optional_quoted(Some(s)) == "Some("@ + quoted(s) + ")"@,
        optional_count(None) == "None"@,
        optional_status(None) == "None"@,
        optional_flag(None) == "None"@,
        optional_quoted(None) == "None"@,
{
}

} // verus!
