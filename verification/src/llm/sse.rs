//! The server-sent event stream of a chat-completions response.
//!
//! The stream arrives in pieces of bytes, cut anywhere. [`SseParser`] buffers
//! them, takes off whole lines and turns `data:` lines into
//! [`StreamChunk`]s.

use crate::json;
use crate::json::Json;
use crate::text;
use crate::text::{str_eq, strip_prefix, trimmed};
use crate::types::llm;
use crate::types::llm::{FinishReason, LlmFailure, StreamChunk, TokenUsage};
use vstd::prelude::*;

#[allow(unused_imports)]
use crate::json::JsonView;
#[allow(unused_imports)]
use crate::types::llm::{FinishReasonView, StreamChunkView};

verus! {

/// The text that `String::from_utf8_lossy` reads from bytes.
pub uninterp spec fn utf8_lossy(bytes: Seq<u8>) -> Seq<char>;

/// `String::from_utf8_lossy`: reads bytes as UTF-8. Bytes that are valid UTF-8
/// are decoded; of other bytes only the name is stated.
#[verifier::external_body]
pub(crate) fn lossy_text(bytes: &Vec<u8>) -> (r: String)
    ensures
        r@ == utf8_lossy(bytes@),
        vstd::utf8::valid_utf8(bytes@) ==> r@ == vstd::utf8::decode_utf8(bytes@),
{
    String::from_utf8_lossy(bytes).into_owned()
}

// ---------------------------------------------------------------------------
// one event
// ---------------------------------------------------------------------------

/// The token usage that an event reports.
pub open spec fn reported_usage(usage: JsonView) -> TokenUsage {
    TokenUsage {
        input_tokens: match usage.u64_at("prompt_tokens"@) {
            Some(n) => n,
            None => 0,
        },
        output_tokens: match usage.u64_at("completion_tokens"@) {
            Some(n) => n,
            None => 0,
        },
        ..llm::no_usage()
    }
}

/// The first choice of an event.
pub open spec fn first_choice(event: JsonView) -> JsonView {
    match event.array_at("choices"@) {
        Some(choices) => if choices.len() > 0 {
            choices[0]
        } else {
            JsonView::Null
        },
        None => JsonView::Null,
    }
}

/// What a choice adds to the stream.
pub open spec fn delta_of(choice: JsonView) -> JsonView {
    match choice.get("delta"@) {
        Some(d) => d,
        None => JsonView::Null,
    }
}

/// The tool call that a delta carries a piece of.
pub open spec fn first_call(delta: JsonView) -> Option<JsonView> {
    match delta.array_at("tool_calls"@) {
        Some(calls) => if calls.len() > 0 {
            Some(calls[0])
        } else {
            None
        },
        None => None,
    }
}

/// The position of a tool call among the calls of the response.
pub open spec fn call_index(call: JsonView) -> usize {
    match call.u64_at("index"@) {
        Some(n) => n as usize,
        None => 0,
    }
}

/// The text under `key` of a call's function.
pub open spec fn function_text(call: JsonView, key: Seq<char>) -> Option<Seq<char>> {
    match call.get("function"@) {
        Some(f) => f.str_at(key),
        None => None,
    }
}

/// The piece of a tool call that an event carries.
pub open spec fn call_chunk(call: JsonView) -> StreamChunkView {
    StreamChunkView::ToolCallDelta {
        index: (2 + call_index(call)) as usize,
        id: match call.str_at("id"@) {
            Some(id) => id,
            None => "call-unknown"@,
        },
        name: function_text(call, "name"@),
        arguments_delta: match function_text(call, "arguments"@) {
            Some(a) => a,
            None => seq![],
        },
    }
}

/// The text under `key`, where it is not empty.
pub open spec fn nonempty_text(v: JsonView, key: Seq<char>) -> Option<Seq<char>> {
    match v.str_at(key) {
        Some(s) => if s.len() > 0 {
            Some(s)
        } else {
            None
        },
        None => None,
    }
}

/// The reason for which a choice says the stream ended.
pub open spec fn finish_of(reason: Seq<char>) -> FinishReasonView {
    if reason == "tool_calls"@ {
        FinishReasonView::ToolCalls
    } else if reason == "length"@ {
        FinishReasonView::MaxTokens
    } else {
        FinishReasonView::Stop
    }
}

/// The chunk that one event stands for.
///
/// Each kind of block has its own index: text 0, reasoning 1, tool calls 2 and
/// on. An event with nothing to act on is an empty text delta.
pub open spec fn event_chunk(event: JsonView) -> StreamChunkView {
    let choice = first_choice(event);
    let delta = delta_of(choice);
    if let Some(usage) = event.get("usage"@) {
        StreamChunkView::Usage { usage: reported_usage(usage) }
    } else if let Some(call) = first_call(delta) {
        call_chunk(call)
    } else if let Some(text) = nonempty_text(delta, "content"@) {
        StreamChunkView::TextDelta { index: 0, text }
    } else if let Some(text) = nonempty_text(delta, "reasoning_content"@) {
        StreamChunkView::ReasoningDelta { index: 1, text }
    } else if let Some(reason) = choice.str_at("finish_reason"@) {
        StreamChunkView::Finish { reason: finish_of(reason) }
    } else {
        StreamChunkView::TextDelta { index: 0, text: seq![] }
    }
}

/// Whether the index of the event's tool call leaves room for the indexes of
/// text and reasoning.
pub open spec fn index_fits(event: JsonView) -> bool {
    match first_call(delta_of(first_choice(event))) {
        Some(call) => event.get("usage"@) is Some || call_index(call) + 2 <= usize::MAX,
        None => true,
    }
}

fn first_of(values: Option<&Vec<Json>>) -> (r: Option<&Json>)
    ensures
        match values {
            Some(v) => match r {
                Some(j) => v@.len() > 0 && json::json_views(v@)[0] == j@,
                None => v@.len() == 0,
            },
            None => r is None,
        },
{
    match values {
        Some(v) => if v.len() > 0 {
            Some(&v[0])
        } else {
            None
        },
        None => None,
    }
}

/// The tool call of the event, where it carries a piece of one.
fn event_call(event: &Json) -> (r: Option<&Json>)
    ensures
        match r {
            Some(call) => first_call(delta_of(first_choice(event@))) == Some(call@),
            None => first_call(delta_of(first_choice(event@))) is None,
        },
{
    match first_of(event.array_at("choices")) {
        Some(choice) => match choice.get("delta") {
            Some(delta) => first_of(delta.array_at("tool_calls")),
            None => None,
        },
        None => None,
    }
}

fn call_position(call: &Json) -> (r: usize)
    ensures
        r == call_index(call@),
{
    match call.u64_at("index") {
        Some(n) => #[verifier::truncate] (n as usize),
        None => 0,
    }
}

fn function_str<'a>(call: &'a Json, key: &str) -> (r: Option<&'a str>)
    ensures
        match r {
            Some(s) => function_text(call@, key@) == Some(s@),
            None => function_text(call@, key@) is None,
        },
{
    match call.get("function") {
        Some(f) => f.str_at(key),
        None => None,
    }
}

fn nonempty_str<'a>(v: &'a Json, key: &str) -> (r: Option<&'a str>)
    ensures
        match r {
            Some(s) => nonempty_text(v@, key@) == Some(s@),
            None => nonempty_text(v@, key@) is None,
        },
{
    match v.str_at(key) {
        Some(s) => if s.is_empty() {
            None
        } else {
            Some(s)
        },
        None => None,
    }
}

/// Whether the event's indexes fit.
pub fn event_fits(event: &Json) -> (r: bool)
    ensures
        r == index_fits(event@),
{
    match event_call(event) {
        Some(call) => event.get("usage").is_some() || call_position(call) <= usize::MAX - 2,
        None => true,
    }
}

/// Converts one event object into a stream chunk.
pub fn parse_event(event: &Json) -> (r: StreamChunk)
    requires
        index_fits(event@),
    ensures
        r@ == event_chunk(event@),
{
    if let Some(usage) = event.get("usage") {
        return StreamChunk::Usage {
            usage: TokenUsage {
                input_tokens: match usage.u64_at("prompt_tokens") {
                    Some(n) => n,
                    None => 0,
                },
                output_tokens: match usage.u64_at("completion_tokens") {
                    Some(n) => n,
                    None => 0,
                },
                cache_read_tokens: None,
                cache_write_tokens: None,
                reasoning_tokens: None,
            },
        };
    }
    if let Some(call) = event_call(event) {
        return StreamChunk::ToolCallDelta {
            index: 2 + call_position(call),
            id: match call.str_at("id") {
                Some(id) => id.to_owned(),
                None => "call-unknown".to_owned(),
            },
            name: match function_str(call, "name") {
                Some(n) => Some(n.to_owned()),
                None => None,
            },
            arguments_delta: match function_str(call, "arguments") {
                Some(a) => a.to_owned(),
                None => String::new(),
            },
        };
    }
    let null = Json::Null;
    let choice = match first_of(event.array_at("choices")) {
        Some(c) => c,
        None => &null,
    };
    let delta = match choice.get("delta") {
        Some(d) => d,
        None => &null,
    };
    if let Some(text) = nonempty_str(delta, "content") {
        return StreamChunk::TextDelta { index: 0, text: text.to_owned() };
    }
    if let Some(text) = nonempty_str(delta, "reasoning_content") {
        return StreamChunk::ReasoningDelta { index: 1, text: text.to_owned() };
    }
    if let Some(reason) = choice.str_at("finish_reason") {
        let reason = if str_eq(reason, "tool_calls") {
            FinishReason::ToolCalls
        } else if str_eq(reason, "length") {
            FinishReason::MaxTokens
        } else {
            FinishReason::Stop
        };
        return StreamChunk::Finish { reason };
    }
    StreamChunk::TextDelta { index: 0, text: String::new() }
}

// ---------------------------------------------------------------------------
// the stream
// ---------------------------------------------------------------------------

/// Parses a stream of server-sent events piece by piece.
#[derive(Debug)]
pub struct SseParser {
    buffer: Vec<u8>,
    done: bool,
}

/// What a [`SseParser`] holds.
#[verifier::ext_equal]
pub struct SseView {
    pub buffer: Seq<u8>,
    pub done: bool,
}

impl View for SseParser {
    type V = SseView;

    closed spec fn view(&self) -> SseView {
        SseView { buffer: self.buffer@, done: self.done }
    }
}

/// The first position of a line feed, or the length.
pub open spec fn line_end(bytes: Seq<u8>) -> int
    decreases bytes.len(),
{
    if bytes.len() == 0 || bytes[0] == 10u8 {
        0
    } else {
        1 + line_end(bytes.skip(1))
    }
}

/// What one line of the stream says.
#[verifier::ext_equal]
pub enum SseLine {
    /// Nothing: no `data:` line, or one that holds no event.
    Nothing,
    /// The end of the stream.
    Done,
    /// An event.
    Event(JsonView),
}

/// What one line of the stream says. A `data:` line whose text is not JSON, or
/// whose tool-call index is beyond counting, says nothing.
pub open spec fn line_content(line: Seq<char>) -> SseLine {
    let t = text::trim(line);
    if "data:"@.is_prefix_of(t) {
        let data = text::trim(t.skip("data:"@.len() as int));
        if data == "[DONE]"@ {
            SseLine::Done
        } else {
            match json::parsed(data) {
                Some(event) => if index_fits(event) {
                    SseLine::Event(event)
                } else {
                    SseLine::Nothing
                },
                None => SseLine::Nothing,
            }
        }
    } else {
        SseLine::Nothing
    }
}

impl SseView {
    /// The next chunk that the buffer holds whole, and the parser after it:
    /// whole lines are taken off up to and with the first that says something.
    pub open spec fn next(self) -> (Option<StreamChunkView>, SseView)
        decreases self.buffer.len(),
    {
        let end = line_end(self.buffer);
        if 0 <= end < self.buffer.len() {
            let rest = SseView { buffer: self.buffer.skip(end + 1), ..self };
            match line_content(utf8_lossy(self.buffer.take(end + 1))) {
                SseLine::Nothing => rest.next(),
                SseLine::Done => (
                    Some(StreamChunkView::Finish { reason: FinishReasonView::Stop }),
                    SseView { done: true, ..rest },
                ),
                SseLine::Event(event) => (Some(event_chunk(event)), rest),
            }
        } else {
            (None, self)
        }
    }

    /// The parser after more bytes have arrived.
    pub open spec fn fed(self, bytes: Seq<u8>) -> SseView {
        SseView { buffer: self.buffer + bytes, ..self }
    }
}

proof fn lemma_line_end(bytes: Seq<u8>, at: int)
    requires
        0 <= at <= bytes.len(),
        forall|k: int| 0 <= k < at ==> bytes[k] != 10u8,
        at < bytes.len() ==> bytes[at] == 10u8,
    ensures
        line_end(bytes) == at,
    decreases at,
{
    if at > 0 {
        lemma_line_end(bytes.skip(1), at - 1);
    }
}

proof fn lemma_line_end_bounds(bytes: Seq<u8>)
    ensures
        0 <= line_end(bytes) <= bytes.len(),
        forall|k: int| 0 <= k < line_end(bytes) ==> bytes[k] != 10u8,
        line_end(bytes) < bytes.len() ==> bytes[line_end(bytes)] == 10u8,
    decreases bytes.len(),
{
    if bytes.len() > 0 && bytes[0] != 10u8 {
        lemma_line_end_bounds(bytes.skip(1));
        assert forall|k: int| 0 <= k < line_end(bytes) implies bytes[k] != 10u8 by {
            if k > 0 {
                assert(bytes.skip(1)[k - 1] == bytes[k]);
            }
        }
    }
}

/// The outcome of reading one line.
enum LineRead {
    Nothing,
    Done,
    Event(Json),
}

fn read_line(line: &Vec<u8>) -> (r: LineRead)
    ensures
        match r {
            LineRead::Nothing => line_content(utf8_lossy(line@)) == SseLine::Nothing,
            LineRead::Done => line_content(utf8_lossy(line@)) == SseLine::Done,
            LineRead::Event(e) => line_content(utf8_lossy(line@)) == SseLine::Event(e@)
                && index_fits(e@),
        },
{
    let decoded = lossy_text(line);
    let t = trimmed(decoded.as_str());
    match strip_prefix(t.as_str(), "data:") {
        Some(after) => {
            let data = trimmed(after.as_str());
            if str_eq(data.as_str(), "[DONE]") {
                LineRead::Done
            } else {
                match json::parse(data.as_str()) {
                    Some(event) => if event_fits(&event) {
                        LineRead::Event(event)
                    } else {
                        LineRead::Nothing
                    },
                    None => LineRead::Nothing,
                }
            }
        },
        None => LineRead::Nothing,
    }
}

impl SseParser {
    /// A parser before the first byte.
    pub fn new() -> (r: Self)
        ensures
            r@ == (SseView { buffer: seq![], done: false }),
    {
        SseParser { buffer: Vec::new(), done: false }
    }

    /// Whether the stream has ended.
    pub fn is_done(&self) -> (r: bool)
        ensures
            r == self@.done,
    {
        self.done
    }

    /// Takes in bytes that have arrived.
    pub fn feed(&mut self, bytes: &[u8])
        ensures
            final(self)@ == old(self)@.fed(bytes@),
    {
        let ghost before = self.buffer@;
        self.buffer.extend_from_slice(bytes);
        assert(self.buffer@ =~= before + bytes@) by {
            assert forall|i: int| 0 <= i < bytes@.len() implies self.buffer@[before.len() + i]
                == bytes@[i] by {
                assert(cloned(bytes@[i], self.buffer@[before.len() + i]));
            }
        }
    }

    /// The transport failed: the stream ends with an error.
    pub fn fail(&mut self, message: &str) -> (r: StreamChunk)
        ensures
            final(self)@ == (SseView { done: true, ..old(self)@ }),
            r@ == (StreamChunkView::Finish {
                reason: FinishReasonView::Error {
                    failure: llm::plain_failure("STREAM"@, message@),
                },
            }),
    {
        self.done = true;
        StreamChunk::Finish {
            reason: FinishReason::Error { failure: LlmFailure::new("STREAM", message) },
        }
    }

    /// The transport ended: so does the stream.
    pub fn end(&mut self)
        ensures
            final(self)@ == (SseView { done: true, ..old(self)@ }),
    {
        self.done = true;
    }

    /// Takes the next whole event off the buffer and converts it to a chunk.
    pub fn parse_buffered(&mut self) -> (r: Option<StreamChunk>)
        ensures
            text::opt_view(r) == old(self)@.next().0,
            final(self)@ == old(self)@.next().1,
    {
        loop
            invariant
                self@.next() == old(self)@.next(),
            decreases self@.buffer.len(),
        {
            let mut at: usize = 0;
            while at < self.buffer.len() && self.buffer[at] != 10u8
                invariant
                    at <= self.buffer@.len(),
                    forall|k: int| 0 <= k < at ==> self.buffer@[k] != 10u8,
                decreases self.buffer@.len() - at,
            {
                at = at + 1;
            }
            proof {
                lemma_line_end(self@.buffer, at as int);
            }
            if at == self.buffer.len() {
                return None;
            }
            let ghost before = self.buffer@;
            let rest = self.buffer.split_off(at + 1);
            let mut line = rest;
            std::mem::swap(&mut line, &mut self.buffer);
            assert(line@ =~= before.take(at + 1));
            assert(self.buffer@ =~= before.skip(at + 1));
            match read_line(&line) {
                LineRead::Nothing => {},
                LineRead::Done => {
                    self.done = true;
                    return Some(StreamChunk::Finish { reason: FinishReason::Stop });
                },
                LineRead::Event(event) => {
                    return Some(parse_event(&event));
                },
            }
        }
    }
}

/// Where the pieces of the stream are cut does not matter: an event that the
/// buffer holds whole is read alike whether more bytes have arrived or not,
/// and the bytes after it are left in place.
pub proof fn law_pieces_do_not_matter(s: SseView, more: Seq<u8>)
    ensures
        s.next().0 is Some ==> s.fed(more).next() == (s.next().0, s.next().1.fed(more)),
        s.next().0 is None ==> s.fed(more).next() == s.next().1.fed(more).next(),
    decreases s.buffer.len(),
{
    lemma_line_end_bounds(s.buffer);
    let end = line_end(s.buffer);
    if end < s.buffer.len() {
        let f = s.fed(more);
        lemma_line_end(f.buffer, end);
        let rest = SseView { buffer: s.buffer.skip(end + 1), ..s };
        assert(f.buffer.take(end + 1) =~= s.buffer.take(end + 1));
        assert(f.buffer.skip(end + 1) =~= s.buffer.skip(end + 1) + more);
        law_pieces_do_not_matter(rest, more);
        assert(SseView { buffer: f.buffer.skip(end + 1), ..f } == rest.fed(more));
    }
}

/// Text, reasoning and each tool call of a response have blocks of their own: no
/// two kinds and no two calls share an index.
pub proof fn law_each_kind_has_its_own_index(event: JsonView)
    requires
        index_fits(event),
    ensures
        match event_chunk(event) {
            StreamChunkView::TextDelta { index, .. } => index == 0,
            StreamChunkView::ReasoningDelta { index, .. } => index == 1,
            StreamChunkView::ToolCallDelta { index, .. } => first_call(
                delta_of(first_choice(event)),
            ) matches Some(call) && index == 2 + call_index(call),
            _ => true,
        },
{
}

/// Whether an event reports no usage and its first choice has that delta.
pub open spec fn carries_delta(event: JsonView, choices: Seq<JsonView>, delta: JsonView) -> bool {
    &&& event.get("usage"@) is None
    &&& event.get("choices"@) == Some(JsonView::Array(choices))
    &&& choices.len() > 0
    &&& choices[0].get("delta"@) == Some(delta)
}

/// Whether a delta carries no piece of a tool call.
pub open spec fn without_call(delta: JsonView) -> bool {
    match delta.get("tool_calls"@) {
        Some(JsonView::Array(calls)) => calls.len() == 0,
        _ => true,
    }
}

/// Whether a value has no text under `key`, or an empty one.
pub open spec fn without_text(v: JsonView, key: Seq<char>) -> bool {
    match v.get(key) {
        Some(JsonView::Text(s)) => s.len() == 0,
        _ => true,
    }
}

/// What the model says is read as text, whole.
pub proof fn law_content_is_text(
    event: JsonView,
    choices: Seq<JsonView>,
    delta: JsonView,
    said: Seq<char>,
)
    requires
        carries_delta(event, choices, delta),
        without_call(delta),
        delta.get("content"@) == Some(JsonView::Text(said)),
        said.len() > 0,
    ensures
        event_chunk(event) == (StreamChunkView::TextDelta { index: 0, text: said }),
{
}

/// What the model thinks is read as reasoning, whole, and never as text.
pub proof fn law_reasoning_is_reasoning(
    event: JsonView,
    choices: Seq<JsonView>,
    delta: JsonView,
    thought: Seq<char>,
)
    requires
        carries_delta(event, choices, delta),
        without_call(delta),
        without_text(delta, "content"@),
        delta.get("reasoning_content"@) == Some(JsonView::Text(thought)),
        thought.len() > 0,
    ensures
        event_chunk(event) == (StreamChunkView::ReasoningDelta { index: 1, text: thought }),
{
}

/// Text comes only from a delta's content, reasoning only from its reasoning: no
/// event is read as saying what it does not carry.
pub proof fn law_chunks_say_only_what_events_carry(event: JsonView)
    ensures
        match event_chunk(event) {
            StreamChunkView::TextDelta { text: said, .. } => said.len() > 0 ==> exists|
                choices: Seq<JsonView>,
                delta: JsonView,
            | #[trigger] carries_delta(event, choices, delta) && delta.get("content"@) == Some(
                JsonView::Text(said),
            ),
            StreamChunkView::ReasoningDelta { text: thought, .. } => exists|
                choices: Seq<JsonView>,
                delta: JsonView,
            | #[trigger] carries_delta(event, choices, delta) && delta.get("reasoning_content"@)
                == Some(JsonView::Text(thought)) && without_text(delta, "content"@),
            StreamChunkView::ToolCallDelta { .. } => exists|
                choices: Seq<JsonView>,
                delta: JsonView,
            | #[trigger] carries_delta(event, choices, delta) && !without_call(delta),
            StreamChunkView::Usage { .. } => event.get("usage"@) is Some,
            StreamChunkView::Finish { .. } => event.get("usage"@) is None && event.get(
                "choices"@,
            ) is Some,
            _ => false,
        },
{
    let choice = first_choice(event);
    let delta = delta_of(choice);
    if event.get("usage"@) is None {
        if let Some(JsonView::Array(choices)) = event.get("choices"@) {
            if choices.len() > 0 && choice.get("delta"@) is Some {
                assert(carries_delta(event, choices, delta));
            }
        }
    }
}

/// A piece of a tool call is read with the call's id, the function's name and
/// the arguments as they were written. Its index is that of the call, behind
/// those of text and reasoning.
pub proof fn law_call_pieces_are_read(
    event: JsonView,
    choices: Seq<JsonView>,
    delta: JsonView,
    calls: Seq<JsonView>,
    n: u64,
    id: Seq<char>,
    function: JsonView,
    arguments: Seq<char>,
)
    requires
        carries_delta(event, choices, delta),
        delta.get("tool_calls"@) == Some(JsonView::Array(calls)),
        calls.len() > 0,
        calls[0].get("index"@) == Some(json::number_of(n)),
        n + 2 <= usize::MAX,
        calls[0].get("id"@) == Some(JsonView::Text(id)),
        calls[0].get("function"@) == Some(function),
        function.get("arguments"@) == Some(JsonView::Text(arguments)),
    ensures
        event_chunk(event) == (StreamChunkView::ToolCallDelta {
            index: (n + 2) as usize,
            id,
            name: match function.get("name"@) {
                Some(JsonView::Text(name)) => Some(name),
                _ => None,
            },
            arguments_delta: arguments,
        }),
{
}

/// What a piece of a tool call leaves out is read as not said: the first call,
/// an id of no call, no name and no arguments.
pub proof fn law_call_pieces_may_leave_parts_out(
    event: JsonView,
    choices: Seq<JsonView>,
    delta: JsonView,
    calls: Seq<JsonView>,
)
    requires
        carries_delta(event, choices, delta),
        delta.get("tool_calls"@) == Some(JsonView::Array(calls)),
        calls.len() > 0,
    ensures
        ({
            let c = event_chunk(event);
            &&& c is ToolCallDelta
            &&& calls[0].get("index"@) is None ==> c->ToolCallDelta_index == 2
            &&& calls[0].get("id"@) is None ==> c->id == "call-unknown"@
            &&& calls[0].get("function"@) is None ==> c->name is None && c->arguments_delta.len()
                == 0
        }),
{
}

/// The tokens that an event reports are read as they are counted: those of the
/// prompt went in, those of the completion came out.
pub proof fn law_usage_is_read(event: JsonView, usage: JsonView, n: u64, m: u64)
    requires
        event.get("usage"@) == Some(usage),
    ensures
        ({
            let c = event_chunk(event);
            &&& c is Usage
            &&& usage.get("prompt_tokens"@) == Some(json::number_of(n)) ==> c->usage.input_tokens
                == n
            &&& usage.get("prompt_tokens"@) is None ==> c->usage.input_tokens == 0
            &&& usage.get("completion_tokens"@) == Some(json::number_of(m))
                ==> c->usage.output_tokens == m
            &&& usage.get("completion_tokens"@) is None ==> c->usage.output_tokens == 0
            &&& c->usage.cache_read_tokens is None
            &&& c->usage.cache_write_tokens is None
            &&& c->usage.reasoning_tokens is None
        }),
{
}

/// A choice that says why it ended, and nothing else, ends the stream for that
/// reason. An event that says nothing is an empty text, which changes nothing.
pub proof fn law_finish_is_read(event: JsonView, choices: Seq<JsonView>)
    requires
        event.get("usage"@) is None,
        event.get("choices"@) == Some(JsonView::Array(choices)),
        choices.len() > 0,
        choices[0].get("delta"@) matches Some(delta) ==> without_call(delta) && without_text(
            delta,
            "content"@,
        ) && without_text(delta, "reasoning_content"@),
    ensures
        match choices[0].get("finish_reason"@) {
            Some(JsonView::Text(reason)) => event_chunk(event) == (StreamChunkView::Finish {
                reason: if reason == "tool_calls"@ {
                    FinishReasonView::ToolCalls
                } else if reason == "length"@ {
                    FinishReasonView::MaxTokens
                } else {
                    FinishReasonView::Stop
                },
            }),
            _ => event_chunk(event) == (StreamChunkView::TextDelta { index: 0, text: seq![] }),
        },
{
}

/// A line of the stream is read by what stands behind its mark, whatever white
/// space is around it: the event it writes, or the end of the stream. Lines
/// without the mark say nothing.
pub proof fn law_lines_are_read_behind_their_mark(line: Seq<char>, data: Seq<char>)
    requires
        data == text::trim(data),
    ensures
        text::trim(line) == "data:"@ + data && data == "[DONE]"@ ==> line_content(line)
            == SseLine::Done,
        text::trim(line) == "data:"@ + data && data != "[DONE]"@ ==> match json::json_of_text(data) {
            Ok(event) => line_content(line) == (if index_fits(event) {
                SseLine::Event(event)
            } else {
                SseLine::Nothing
            }),
            Err(_) => line_content(line) == SseLine::Nothing,
        },
        !"data:"@.is_prefix_of(text::trim(line)) ==> line_content(line) == SseLine::Nothing,
{
    let t = "data:"@ + data;
    assert(t.skip("data:"@.len() as int) =~= data);
    assert("data:"@.is_prefix_of(t));
}

/// The buffer is read line by line: a line that says nothing is passed over, an
/// event gives its chunk, the end of the stream ends it, and the bytes behind
/// the line stay. Without a line feed nothing is read and nothing is lost.
pub proof fn law_buffer_is_read_line_by_line(line: Seq<u8>, rest: Seq<u8>, done: bool)
    requires
        !line.contains(10u8),
    ensures
        ({
            let s = SseView { buffer: line + seq![10u8] + rest, done };
            let after = SseView { buffer: rest, done };
            match line_content(utf8_lossy(line + seq![10u8])) {
                SseLine::Nothing => s.next() == after.next(),
                SseLine::Done => s.next() == (
                    Some(StreamChunkView::Finish { reason: FinishReasonView::Stop }),
                    SseView { buffer: rest, done: true },
                ),
                SseLine::Event(event) => s.next() == (Some(event_chunk(event)), after),
            }
        }),
        (SseView { buffer: line, done }).next() == (
            None::<StreamChunkView>,
            SseView { buffer: line, done },
        ),
{
    let b = line + seq![10u8] + rest;
    assert forall|k: int| 0 <= k < line.len() implies line[k] != 10u8 by {
        assert(line.contains(line[k]));
    }
    lemma_line_end(b, line.len() as int);
    lemma_line_end(line, line.len() as int);
    assert(b.take(line.len() as int + 1) =~= line + seq![10u8]);
    assert(b.skip(line.len() as int + 1) =~= rest);
}

/// Bytes that arrive stand behind those that did before, none lost.
pub proof fn law_bytes_are_kept_in_order(s: SseView, bytes: Seq<u8>, more: Seq<u8>)
    ensures
        s.fed(bytes).buffer == s.buffer + bytes,
        s.fed(bytes).done == s.done,
        s.fed(bytes).fed(more) == s.fed(bytes + more),
{
    assert(s.buffer + bytes + more =~= s.buffer + (bytes + more));
}

} // verus!
