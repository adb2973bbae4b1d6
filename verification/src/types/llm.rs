//! Messages, streams and requests: the vocabulary of a conversation.
//!
//! A conversation is a list of [`Message`]s, each a list of typed
//! [`ContentBlock`]s. A provider answers a [`GenerateOptions`] request with a
//! stream of [`StreamChunk`]s.

use crate::json::Json;
use crate::text::{clone_opt, clone_vec, concat3};
use vstd::prelude::*;

#[allow(unused_imports)]
use crate::json::JsonView;

verus! {

/// The views of the elements of an optional vector.
pub open spec fn opt_seq<T: View>(o: Option<Vec<T>>) -> Option<Seq<T::V>> {
    match o {
        Some(v) => Some(crate::text::views(v@)),
        None => None,
    }
}

/// Clones an optional vector element by element.
pub fn clone_opt_vec<T: View + Clone>(o: &Option<Vec<T>>) -> (r: Option<Vec<T>>)
    requires
        crate::text::clone_keeps_view::<T>(),
    ensures
        opt_seq(r) == opt_seq(*o),
{
    match o {
        Some(v) => Some(clone_vec(v)),
        None => None,
    }
}

/// One typed content block.
#[derive(Debug, PartialEq)]
pub enum ContentBlock {
    /// Visible model output.
    Text { text: String },
    /// Chain-of-thought style reasoning, distinct from visible text.
    Reasoning { text: String },
    /// A model-requested tool invocation. `arguments` is the raw JSON text as
    /// the model produced it.
    ToolCall { id: String, name: String, arguments: String },
    /// A completed tool call's model-facing result.
    ToolResult { tool_call_id: String, content: Vec<ContentBlock>, is_error: Option<bool> },
}

/// What a [`ContentBlock`] says.
#[verifier::ext_equal]
pub enum ContentBlockView {
    Text { text: Seq<char> },
    Reasoning { text: Seq<char> },
    ToolCall { id: Seq<char>, name: Seq<char>, arguments: Seq<char> },
    ToolResult { tool_call_id: Seq<char>, content: Seq<ContentBlockView>, is_error: Option<bool> },
}

/// The view of a [`ContentBlock`].
pub open spec fn block_view(b: ContentBlock) -> ContentBlockView
    decreases b,
{
    match b {
        ContentBlock::Text { text } => ContentBlockView::Text { text: text@ },
        ContentBlock::Reasoning { text } => ContentBlockView::Reasoning { text: text@ },
        ContentBlock::ToolCall { id, name, arguments } => ContentBlockView::ToolCall {
            id: id@,
            name: name@,
            arguments: arguments@,
        },
        ContentBlock::ToolResult { tool_call_id, content, is_error } => ContentBlockView::ToolResult {
            tool_call_id: tool_call_id@,
            content: block_views(content@),
            is_error,
        },
    }
}

/// The views of a list of blocks.
pub open spec fn block_views(s: Seq<ContentBlock>) -> Seq<ContentBlockView>
    decreases s,
{
    Seq::new(
        s.len(),
        |i: int|
            if 0 <= i < s.len() {
                block_view(s[i])
            } else {
                arbitrary()
            },
    )
}

impl View for ContentBlock {
    type V = ContentBlockView;

    open spec fn view(&self) -> ContentBlockView {
        block_view(*self)
    }
}

/// `block_views` is the views of the blocks.
pub broadcast proof fn lemma_block_views(s: Seq<ContentBlock>)
    ensures
        #[trigger] block_views(s) == crate::text::views(s),
{
    assert(block_views(s) =~= crate::text::views(s));
}

impl Clone for ContentBlock {
    fn clone(&self) -> (r: Self)
        ensures
            r@ == self@,
        decreases self,
    {
        match self {
            ContentBlock::Text { text } => ContentBlock::Text { text: text.clone() },
            ContentBlock::Reasoning { text } => ContentBlock::Reasoning { text: text.clone() },
            ContentBlock::ToolCall { id, name, arguments } => ContentBlock::ToolCall {
                id: id.clone(),
                name: name.clone(),
                arguments: arguments.clone(),
            },
            ContentBlock::ToolResult { tool_call_id, content, is_error } => {
                let mut out: Vec<ContentBlock> = Vec::new();
                for i in 0..content.len()
                    invariant
                        out.len() == i,
                        self matches ContentBlock::ToolResult { content: c, .. } && *content == c,
                        forall|k: int| 0 <= k < i ==> (#[trigger] out@[k])@ == content@[k]@,
                {
                    out.push(content[i].clone());
                }
                assert(block_views(out@) =~= block_views(content@));
                ContentBlock::ToolResult {
                    tool_call_id: tool_call_id.clone(),
                    content: out,
                    is_error: *is_error,
                }
            },
        }
    }
}

impl ContentBlockView {
    /// The text, where this is visible text.
    pub open spec fn as_text(self) -> Option<Seq<char>> {
        match self {
            ContentBlockView::Text { text } => Some(text),
            _ => None,
        }
    }
}

impl ContentBlock {
    /// A block of visible text.
    pub fn text(text: &str) -> (r: Self)
        ensures
            r@ == (ContentBlockView::Text { text: text@ }),
    {
        ContentBlock::Text { text: text.to_owned() }
    }

    /// The text, where this is visible text.
    pub fn as_text(&self) -> (r: Option<&str>)
        ensures
            match r {
                Some(s) => self@.as_text() == Some(s@),
                None => self@.as_text() is None,
            },
    {
        match self {
            ContentBlock::Text { text } => Some(text.as_str()),
            _ => None,
        }
    }
}

/// Provider-neutral conversation role.
#[derive(Debug, Clone, Copy, PartialEq, Eq, Structural)]
pub enum Role {
    System,
    User,
    Assistant,
}

/// One named contribution to a snapshot of context.
#[derive(Debug, PartialEq)]
pub struct ContextSnapshotSection {
    pub name: String,
    pub text: String,
}

/// What a [`ContextSnapshotSection`] says.
#[verifier::ext_equal]
pub struct ContextSnapshotSectionView {
    pub name: Seq<char>,
    pub text: Seq<char>,
}

impl View for ContextSnapshotSection {
    type V = ContextSnapshotSectionView;

    open spec fn view(&self) -> ContextSnapshotSectionView {
        ContextSnapshotSectionView {
            name: self.name@,
            text: self.text@,
        }
    }
}

impl Clone for ContextSnapshotSection {
    fn clone(&self) -> (r: Self)
        ensures
            r@ == self@,
    {
        ContextSnapshotSection {
            name: self.name.clone(),
            text: self.text.clone(),
        }
    }
}

/// The kind of information in producer-supplied context.
#[derive(Debug, PartialEq)]
pub enum ContextForm {
    Instructions,
    Catalog,
    Snapshot { sections: Vec<ContextSnapshotSection> },
    Notice { summary: String },
    Relay,
    Recall,
}

/// What a [`ContextForm`] says.
#[verifier::ext_equal]
pub enum ContextFormView {
    Instructions,
    Catalog,
    Snapshot { sections: Seq<ContextSnapshotSectionView> },
    Notice { summary: Seq<char> },
    Relay,
    Recall,
}

impl View for ContextForm {
    type V = ContextFormView;

    open spec fn view(&self) -> ContextFormView {
        match *self {
            ContextForm::Instructions => ContextFormView::Instructions,
            ContextForm::Catalog => ContextFormView::Catalog,
            ContextForm::Snapshot { sections } => ContextFormView::Snapshot { sections: crate::text::views(sections@) },
            ContextForm::Notice { summary } => ContextFormView::Notice { summary: summary@ },
            ContextForm::Relay => ContextFormView::Relay,
            ContextForm::Recall => ContextFormView::Recall,
        }
    }
}

impl Clone for ContextForm {
    fn clone(&self) -> (r: Self)
        ensures
            r@ == self@,
    {
        match self {
            ContextForm::Instructions => ContextForm::Instructions,
            ContextForm::Catalog => ContextForm::Catalog,
            ContextForm::Snapshot { sections } => ContextForm::Snapshot { sections: clone_vec(sections) },
            ContextForm::Notice { summary } => ContextForm::Notice { summary: summary.clone() },
            ContextForm::Relay => ContextForm::Relay,
            ContextForm::Recall => ContextForm::Recall,
        }
    }
}

/// Where a message came from.
#[derive(Debug, PartialEq)]
pub enum MessageSource {
    User,
    /// Producer-supplied context (file-change notices, skill content, ...).
    Plugin { plugin: String, form: Option<ContextForm> },
    /// An assistant message produced by a provider's model.
    Model { provider: String, model: String },
    /// A message derived from a tool result.
    Tool { tool: String },
}

/// What a [`MessageSource`] says.
#[verifier::ext_equal]
pub enum MessageSourceView {
    User,
    Plugin { plugin: Seq<char>, form: Option<ContextFormView> },
    Model { provider: Seq<char>, model: Seq<char> },
    Tool { tool: Seq<char> },
}

impl View for MessageSource {
    type V = MessageSourceView;

    open spec fn view(&self) -> MessageSourceView {
        match *self {
            MessageSource::User => MessageSourceView::User,
            MessageSource::Plugin { plugin, form } => MessageSourceView::Plugin { plugin: plugin@, form: crate::text::opt_view(form) },
            MessageSource::Model { provider, model } => MessageSourceView::Model { provider: provider@, model: model@ },
            MessageSource::Tool { tool } => MessageSourceView::Tool { tool: tool@ },
        }
    }
}

impl Clone for MessageSource {
    fn clone(&self) -> (r: Self)
        ensures
            r@ == self@,
    {
        match self {
            MessageSource::User => MessageSource::User,
            MessageSource::Plugin { plugin, form } => MessageSource::Plugin { plugin: plugin.clone(), form: clone_opt(form) },
            MessageSource::Model { provider, model } => MessageSource::Model { provider: provider.clone(), model: model.clone() },
            MessageSource::Tool { tool } => MessageSource::Tool { tool: tool.clone() },
        }
    }
}

/// One immutable message shared by delivery, durable history and requests.
#[derive(Debug, PartialEq)]
pub struct Message {
    pub id: String,
    pub role: Role,
    pub content: Vec<ContentBlock>,
    pub source: MessageSource,
}

/// What a [`Message`] says.
#[verifier::ext_equal]
pub struct MessageView {
    pub id: Seq<char>,
    pub role: Role,
    pub content: Seq<ContentBlockView>,
    pub source: MessageSourceView,
}

impl View for Message {
    type V = MessageView;

    open spec fn view(&self) -> MessageView {
        MessageView {
            id: self.id@,
            role: self.role,
            content: crate::text::views(self.content@),
            source: self.source@,
        }
    }
}

impl Clone for Message {
    fn clone(&self) -> (r: Self)
        ensures
            r@ == self@,
    {
        Message {
            id: self.id.clone(),
            role: self.role,
            content: clone_vec(&self.content),
            source: self.source.clone(),
        }
    }
}

/// The text blocks among `blocks`, one after the other.
pub open spec fn blocks_text(blocks: Seq<ContentBlockView>) -> Seq<char>
    decreases blocks.len(),
{
    if blocks.len() == 0 {
        seq![]
    } else {
        match blocks.last().as_text() {
            Some(text) => blocks_text(blocks.drop_last()) + text,
            None => blocks_text(blocks.drop_last()),
        }
    }
}

/// Whether a block asks for a tool call.
pub open spec fn is_tool_call(b: ContentBlockView) -> bool {
    b is ToolCall
}

/// The tool calls among `blocks`, in order.
pub open spec fn tool_calls_of(blocks: Seq<ContentBlockView>) -> Seq<ContentBlockView> {
    blocks.filter(|b: ContentBlockView| is_tool_call(b))
}

/// The text blocks among `blocks`, one after the other.
pub fn text_of_blocks(blocks: &Vec<ContentBlock>) -> (r: String)
    ensures
        r@ == blocks_text(crate::text::views(blocks@)),
{
    let mut out = String::new();
    let ghost all = crate::text::views(blocks@);
    assert(all.take(0) =~= seq![]);
    for i in 0..blocks.len()
        invariant
            all == crate::text::views(blocks@),
            out@ == blocks_text(all.take(i as int)),
    {
        assert(all.take(i + 1).drop_last() =~= all.take(i as int));
        assert(all.take(i + 1).last() == blocks@[i as int]@);
        match blocks[i].as_text() {
            Some(text) => {
                out.push_str(text);
            },
            None => {},
        }
    }
    assert(all.take(all.len() as int) =~= all);
    out
}

impl Message {
    /// A user's message.
    pub fn user(id: &str, content: Vec<ContentBlock>) -> (r: Self)
        ensures
            r@ == (MessageView {
                id: id@,
                role: Role::User,
                content: crate::text::views(content@),
                source: MessageSourceView::User,
            }),
    {
        Message { id: id.to_owned(), role: Role::User, content, source: MessageSource::User }
    }

    /// The text of this message's visible text blocks, concatenated.
    pub fn text(&self) -> (r: String)
        ensures
            r@ == blocks_text(self@.content),
    {
        text_of_blocks(&self.content)
    }

    /// Tool calls requested by this (assistant) message, in order.
    pub fn tool_calls(&self) -> (r: Vec<&ContentBlock>)
        ensures
            Seq::new(r@.len(), |i: int| r@[i]@) == tool_calls_of(self@.content),
    {
        let mut out: Vec<&ContentBlock> = Vec::new();
        let ghost all = self@.content;
        let ghost keep = |b: ContentBlockView| is_tool_call(b);
        assert(all.take(0).filter(keep) =~= seq![]) by {
            reveal(Seq::filter);
        }
        assert(Seq::new(out@.len(), |k: int| out@[k]@) =~= seq![]);
        for i in 0..self.content.len()
            invariant
                all == self@.content,
                all == crate::text::views(self.content@),
                keep == (|b: ContentBlockView| is_tool_call(b)),
                Seq::new(out@.len(), |k: int| out@[k]@) == all.take(i as int).filter(keep),
        {
            let ghost before = out@;
            proof {
                assert(all.take(i + 1).drop_last() =~= all.take(i as int));
                assert(all.take(i + 1).last() == all[i as int]);
                reveal(Seq::filter);
            }
            if let ContentBlock::ToolCall { .. } = &self.content[i] {
                out.push(&self.content[i]);
                assert(Seq::new(out@.len(), |k: int| out@[k]@) =~= Seq::new(
                    before.len(),
                    |k: int| before[k]@,
                ).push(all[i as int]));
            }
        }
        assert(all.take(all.len() as int) =~= all);
        out
    }
}

/// Per-call token accounting; counts are disjoint.
#[derive(Debug, Clone, Copy, PartialEq, Eq, Structural)]
pub struct TokenUsage {
    pub input_tokens: u64,
    pub output_tokens: u64,
    pub cache_read_tokens: Option<u64>,
    pub cache_write_tokens: Option<u64>,
    pub reasoning_tokens: Option<u64>,
}

impl Default for TokenUsage {
    fn default() -> (r: Self)
        ensures
            r == no_usage(),
    {
        TokenUsage {
            input_tokens: 0,
            output_tokens: 0,
            cache_read_tokens: None,
            cache_write_tokens: None,
            reasoning_tokens: None,
        }
    }
}

/// No tokens at all.
pub open spec fn no_usage() -> TokenUsage {
    TokenUsage {
        input_tokens: 0,
        output_tokens: 0,
        cache_read_tokens: None,
        cache_write_tokens: None,
        reasoning_tokens: None,
    }
}

/// Provider or transport failure facts.
#[derive(Debug, PartialEq, Eq)]
pub struct LlmFailure {
    pub message: String,
    pub code: String,
    pub status: Option<u16>,
    pub provider_retry_after_ms: Option<u64>,
}

/// What a [`LlmFailure`] says.
#[verifier::ext_equal]
pub struct LlmFailureView {
    pub message: Seq<char>,
    pub code: Seq<char>,
    pub status: Option<u16>,
    pub provider_retry_after_ms: Option<u64>,
}

impl View for LlmFailure {
    type V = LlmFailureView;

    open spec fn view(&self) -> LlmFailureView {
        LlmFailureView {
            message: self.message@,
            code: self.code@,
            status: self.status,
            provider_retry_after_ms: self.provider_retry_after_ms,
        }
    }
}

impl Clone for LlmFailure {
    fn clone(&self) -> (r: Self)
        ensures
            r@ == self@,
    {
        LlmFailure {
            message: self.message.clone(),
            code: self.code.clone(),
            status: self.status,
            provider_retry_after_ms: self.provider_retry_after_ms,
        }
    }
}

/// A failure that has only a code and a message.
pub open spec fn plain_failure(code: Seq<char>, message: Seq<char>) -> LlmFailureView {
    LlmFailureView { message, code, status: None, provider_retry_after_ms: None }
}

/// How a failure is shown: its code, a colon and its message.
pub open spec fn failure_text(f: LlmFailureView) -> Seq<char> {
    f.code + ": "@ + f.message
}

impl LlmFailure {
    /// A failure that has only a code and a message.
    pub fn new(code: &str, message: &str) -> (r: Self)
        ensures
            r@ == plain_failure(code@, message@),
    {
        LlmFailure {
            message: message.to_owned(),
            code: code.to_owned(),
            status: None,
            provider_retry_after_ms: None,
        }
    }

    /// How the failure is shown.
    pub fn display(&self) -> (r: String)
        ensures
            r@ == failure_text(self@),
    {
        concat3(self.code.as_str(), ": ", self.message.as_str())
    }
}

/// Why a stream ended.
#[derive(Debug, PartialEq)]
pub enum FinishReason {
    Stop,
    ToolCalls,
    MaxTokens,
    Aborted { failure: LlmFailure },
    Error { failure: LlmFailure },
}

/// What a [`FinishReason`] says.
#[verifier::ext_equal]
pub enum FinishReasonView {
    Stop,
    ToolCalls,
    MaxTokens,
    Aborted { failure: LlmFailureView },
    Error { failure: LlmFailureView },
}

impl View for FinishReason {
    type V = FinishReasonView;

    open spec fn view(&self) -> FinishReasonView {
        match *self {
            FinishReason::Stop => FinishReasonView::Stop,
            FinishReason::ToolCalls => FinishReasonView::ToolCalls,
            FinishReason::MaxTokens => FinishReasonView::MaxTokens,
            FinishReason::Aborted { failure } => FinishReasonView::Aborted { failure: failure@ },
            FinishReason::Error { failure } => FinishReasonView::Error { failure: failure@ },
        }
    }
}

impl Clone for FinishReason {
    fn clone(&self) -> (r: Self)
        ensures
            r@ == self@,
    {
        match self {
            FinishReason::Stop => FinishReason::Stop,
            FinishReason::ToolCalls => FinishReason::ToolCalls,
            FinishReason::MaxTokens => FinishReason::MaxTokens,
            FinishReason::Aborted { failure } => FinishReason::Aborted { failure: failure.clone() },
            FinishReason::Error { failure } => FinishReason::Error { failure: failure.clone() },
        }
    }
}

impl FinishReason {
    /// Whether the stream ended in a failure.
    pub fn is_terminal_error(&self) -> (r: bool)
        ensures
            r == (self@ is Error || self@ is Aborted),
    {
        match self {
            FinishReason::Error { .. } => true,
            FinishReason::Aborted { .. } => true,
            _ => false,
        }
    }
}

/// The raw streaming protocol that providers emit.
#[derive(Debug, PartialEq)]
pub enum StreamChunk {
    BlockStart { index: usize, block_type: String },
    TextDelta { index: usize, text: String },
    ReasoningDelta { index: usize, text: String },
    ToolCallDelta { index: usize, id: String, name: Option<String>, arguments_delta: String },
    /// Carries the fully assembled block; consumers do not re-assemble deltas.
    BlockEnd { index: usize, block: ContentBlock },
    Usage { usage: TokenUsage },
    Finish { reason: FinishReason },
}

/// What a [`StreamChunk`] says.
#[verifier::ext_equal]
pub enum StreamChunkView {
    BlockStart { index: usize, block_type: Seq<char> },
    TextDelta { index: usize, text: Seq<char> },
    ReasoningDelta { index: usize, text: Seq<char> },
    ToolCallDelta { index: usize, id: Seq<char>, name: Option<Seq<char>>, arguments_delta: Seq<char> },
    BlockEnd { index: usize, block: ContentBlockView },
    Usage { usage: TokenUsage },
    Finish { reason: FinishReasonView },
}

impl View for StreamChunk {
    type V = StreamChunkView;

    open spec fn view(&self) -> StreamChunkView {
        match *self {
            StreamChunk::BlockStart { index, block_type } => StreamChunkView::BlockStart { index, block_type: block_type@ },
            StreamChunk::TextDelta { index, text } => StreamChunkView::TextDelta { index, text: text@ },
            StreamChunk::ReasoningDelta { index, text } => StreamChunkView::ReasoningDelta { index, text: text@ },
            StreamChunk::ToolCallDelta { index, id, name, arguments_delta } => StreamChunkView::ToolCallDelta { index, id: id@, name: crate::text::opt_view(name), arguments_delta: arguments_delta@ },
            StreamChunk::BlockEnd { index, block } => StreamChunkView::BlockEnd { index, block: block@ },
            StreamChunk::Usage { usage } => StreamChunkView::Usage { usage },
            StreamChunk::Finish { reason } => StreamChunkView::Finish { reason: reason@ },
        }
    }
}

impl Clone for StreamChunk {
    fn clone(&self) -> (r: Self)
        ensures
            r@ == self@,
    {
        match self {
            StreamChunk::BlockStart { index, block_type } => StreamChunk::BlockStart { index: *index, block_type: block_type.clone() },
            StreamChunk::TextDelta { index, text } => StreamChunk::TextDelta { index: *index, text: text.clone() },
            StreamChunk::ReasoningDelta { index, text } => StreamChunk::ReasoningDelta { index: *index, text: text.clone() },
            StreamChunk::ToolCallDelta { index, id, name, arguments_delta } => StreamChunk::ToolCallDelta { index: *index, id: id.clone(), name: clone_opt(name), arguments_delta: arguments_delta.clone() },
            StreamChunk::BlockEnd { index, block } => StreamChunk::BlockEnd { index: *index, block: block.clone() },
            StreamChunk::Usage { usage } => StreamChunk::Usage { usage: *usage },
            StreamChunk::Finish { reason } => StreamChunk::Finish { reason: reason.clone() },
        }
    }
}

/// JSON-schema description of a tool as sent to the model.
#[derive(Debug, PartialEq)]
pub struct ToolSchema {
    pub name: String,
    pub description: String,
    /// JSON Schema object for the arguments.
    pub parameters: Json,
}

/// What a [`ToolSchema`] says.
#[verifier::ext_equal]
pub struct ToolSchemaView {
    pub name: Seq<char>,
    pub description: Seq<char>,
    pub parameters: JsonView,
}

impl View for ToolSchema {
    type V = ToolSchemaView;

    open spec fn view(&self) -> ToolSchemaView {
        ToolSchemaView {
            name: self.name@,
            description: self.description@,
            parameters: self.parameters@,
        }
    }
}

impl Clone for ToolSchema {
    fn clone(&self) -> (r: Self)
        ensures
            r@ == self@,
    {
        ToolSchema {
            name: self.name.clone(),
            description: self.description.clone(),
            parameters: self.parameters.clone(),
        }
    }
}

/// One fully assembled model request.
#[derive(Debug, PartialEq)]
pub struct GenerateOptions {
    pub provider: String,
    pub model: String,
    /// Ordered conversation messages, exactly as the provider sees them.
    pub messages: Vec<Message>,
    pub system: Option<String>,
    pub tools: Option<Vec<ToolSchema>>,
    /// The sampling temperature, as the JSON value that is sent.
    pub temperature: Option<Json>,
    pub max_tokens: Option<u32>,
    pub stop: Option<Vec<String>>,
    pub session_id: Option<String>,
}

/// What a [`GenerateOptions`] says.
#[verifier::ext_equal]
pub struct GenerateOptionsView {
    pub provider: Seq<char>,
    pub model: Seq<char>,
    pub messages: Seq<MessageView>,
    pub system: Option<Seq<char>>,
    pub tools: Option<Seq<ToolSchemaView>>,
    pub temperature: Option<JsonView>,
    pub max_tokens: Option<u32>,
    pub stop: Option<Seq<Seq<char>>>,
    pub session_id: Option<Seq<char>>,
}

impl View for GenerateOptions {
    type V = GenerateOptionsView;

    open spec fn view(&self) -> GenerateOptionsView {
        GenerateOptionsView {
            provider: self.provider@,
            model: self.model@,
            messages: crate::text::views(self.messages@),
            system: crate::text::opt_view(self.system),
            tools: opt_seq(self.tools),
            temperature: crate::text::opt_view(self.temperature),
            max_tokens: self.max_tokens,
            stop: opt_seq(self.stop),
            session_id: crate::text::opt_view(self.session_id),
        }
    }
}

impl Clone for GenerateOptions {
    fn clone(&self) -> (r: Self)
        ensures
            r@ == self@,
    {
        GenerateOptions {
            provider: self.provider.clone(),
            model: self.model.clone(),
            messages: clone_vec(&self.messages),
            system: clone_opt(&self.system),
            tools: clone_opt_vec(&self.tools),
            temperature: clone_opt(&self.temperature),
            max_tokens: self.max_tokens,
            stop: clone_opt_vec(&self.stop),
            session_id: clone_opt(&self.session_id),
        }
    }
}

/// Provider, model and sampling scalars of one conversation's requests.
#[derive(Debug, PartialEq)]
pub struct LlmCallConfig {
    pub provider: String,
    pub model: String,
    /// The sampling temperature, as the JSON value that is sent.
    pub temperature: Option<Json>,
    pub max_tokens: Option<u32>,
    pub stop: Option<Vec<String>>,
}

/// What a [`LlmCallConfig`] says.
#[verifier::ext_equal]
pub struct LlmCallConfigView {
    pub provider: Seq<char>,
    pub model: Seq<char>,
    pub temperature: Option<JsonView>,
    pub max_tokens: Option<u32>,
    pub stop: Option<Seq<Seq<char>>>,
}

impl View for LlmCallConfig {
    type V = LlmCallConfigView;

    open spec fn view(&self) -> LlmCallConfigView {
        LlmCallConfigView {
            provider: self.provider@,
            model: self.model@,
            temperature: crate::text::opt_view(self.temperature),
            max_tokens: self.max_tokens,
            stop: opt_seq(self.stop),
        }
    }
}

impl Clone for LlmCallConfig {
    fn clone(&self) -> (r: Self)
        ensures
            r@ == self@,
    {
        LlmCallConfig {
            provider: self.provider.clone(),
            model: self.model.clone(),
            temperature: clone_opt(&self.temperature),
            max_tokens: self.max_tokens,
            stop: clone_opt_vec(&self.stop),
        }
    }
}

impl Default for LlmCallConfig {
    fn default() -> (r: Self)
        ensures
            r@ == (LlmCallConfigView {
                provider: "mock"@,
                model: "mock-1"@,
                temperature: None,
                max_tokens: None,
                stop: None,
            }),
    {
        LlmCallConfig {
            provider: "mock".to_owned(),
            model: "mock-1".to_owned(),
            temperature: None,
            max_tokens: None,
            stop: None,
        }
    }
}

/// Display metadata for one registered provider route.
#[derive(Debug, PartialEq, Eq)]
pub struct LlmProviderInfo {
    pub id: String,
    pub name: String,
}

/// What a [`LlmProviderInfo`] says.
#[verifier::ext_equal]
pub struct LlmProviderInfoView {
    pub id: Seq<char>,
    pub name: Seq<char>,
}

impl View for LlmProviderInfo {
    type V = LlmProviderInfoView;

    open spec fn view(&self) -> LlmProviderInfoView {
        LlmProviderInfoView {
            id: self.id@,
            name: self.name@,
        }
    }
}

impl Clone for LlmProviderInfo {
    fn clone(&self) -> (r: Self)
        ensures
            r@ == self@,
    {
        LlmProviderInfo {
            id: self.id.clone(),
            name: self.name.clone(),
        }
    }
}

/// An error of the model seam; carries provider-neutral failure facts.
#[derive(Debug, PartialEq)]
pub struct LlmError {
    pub failure: LlmFailure,
}

/// What a [`LlmError`] says.
#[verifier::ext_equal]
pub struct LlmErrorView {
    pub failure: LlmFailureView,
}

impl View for LlmError {
    type V = LlmErrorView;

    open spec fn view(&self) -> LlmErrorView {
        LlmErrorView {
            failure: self.failure@,
        }
    }
}

impl Clone for LlmError {
    fn clone(&self) -> (r: Self)
        ensures
            r@ == self@,
    {
        LlmError {
            failure: self.failure.clone(),
        }
    }
}

impl LlmError {
    /// The error that carries `failure`.
    pub fn new(failure: LlmFailure) -> (r: Self)
        ensures
            r@ == (LlmErrorView { failure: failure@ }),
    {
        LlmError { failure }
    }

    /// The error with a code and a message.
    pub fn code(code: &str, message: &str) -> (r: Self)
        ensures
            r@ == (LlmErrorView { failure: plain_failure(code@, message@) }),
    {
        LlmError::new(LlmFailure::new(code, message))
    }

    /// How the error is shown.
    pub fn display(&self) -> (r: String)
        ensures
            r@ == error_text(self@),
    {
        concat3("llm failure (", self.failure.display().as_str(), ")")
    }
}

/// How an error is shown.
pub open spec fn error_text(e: LlmErrorView) -> Seq<char> {
    "llm failure ("@ + failure_text(e.failure) + ")"@
}

/// The text of blocks is their text blocks one after the other; reasoning, calls
/// and results are no part of it.
pub proof fn law_text_is_the_text_blocks(blocks: Seq<ContentBlockView>, b: ContentBlockView)
    ensures
        blocks_text(seq![]) == Seq::<char>::empty(),
        match b {
            ContentBlockView::Text { text } => blocks_text(blocks.push(b)) == blocks_text(blocks)
                + text,
            _ => blocks_text(blocks.push(b)) == blocks_text(blocks),
        },
{
    assert(blocks.push(b).drop_last() =~= blocks);
}

/// The tool calls of blocks are all that ask for one, in order, and no others.
pub proof fn law_every_tool_call_counts(blocks: Seq<ContentBlockView>, b: ContentBlockView)
    ensures
        tool_calls_of(seq![]) == Seq::<ContentBlockView>::empty(),
        b is ToolCall ==> tool_calls_of(blocks.push(b)) == tool_calls_of(blocks).push(b),
        b !is ToolCall ==> tool_calls_of(blocks.push(b)) == tool_calls_of(blocks),
{
    reveal(Seq::filter);
    assert(blocks.push(b).drop_last() =~= blocks);
}

/// A failure is shown by its code and its message, and an error by its failure.
pub proof fn law_failures_are_shown(code: Seq<char>, message: Seq<char>)
    ensures
        plain_failure(code, message).code == code,
        plain_failure(code, message).message == message,
        plain_failure(code, message).status is None,
        plain_failure(code, message).provider_retry_after_ms is None,
        failure_text(plain_failure(code, message)) == code + seq![':', ' '] + message,
        error_text(LlmErrorView { failure: plain_failure(code, message) }) == "llm failure ("@ + (
        code + seq![':', ' '] + message) + seq![')'],
{
    reveal_strlit(": ");
    reveal_strlit(")");
    assert(": "@ =~= seq![':', ' ']);
    assert(")"@ =~= seq![')']);
}

} // verus!
