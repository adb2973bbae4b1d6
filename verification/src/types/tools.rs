//! Tool-call vocabulary shared by the tools registry and the agent loop.

use crate::json;
use crate::json::Json;
use crate::text;
use crate::text::{clone_opt, clone_vec, concat2};
use crate::types::llm::ContentBlock;
use vstd::prelude::*;

#[allow(unused_imports)]
use crate::json::JsonView;
#[allow(unused_imports)]
use crate::types::llm::ContentBlockView;

verus! {

/// Parsed arguments for one tool call (tools validate their own schema).
#[derive(Debug, PartialEq)]
pub struct ToolCallArgs {
    pub call_id: String,
    pub name: String,
    pub arguments: Json,
}

/// What a [`ToolCallArgs`] says.
#[verifier::ext_equal]
pub struct ToolCallArgsView {
    pub call_id: Seq<char>,
    pub name: Seq<char>,
    pub arguments: JsonView,
}

impl View for ToolCallArgs {
    type V = ToolCallArgsView;

    open spec fn view(&self) -> ToolCallArgsView {
        ToolCallArgsView {
            call_id: self.call_id@,
            name: self.name@,
            arguments: self.arguments@,
        }
    }
}

impl Clone for ToolCallArgs {
    fn clone(&self) -> (r: Self)
        ensures
            r@ == self@,
    {
        ToolCallArgs {
            call_id: self.call_id.clone(),
            name: self.name.clone(),
            arguments: self.arguments.clone(),
        }
    }
}

/// The model-facing outcome of one tool call.
#[derive(Debug, PartialEq)]
pub enum ToolExecutionResult {
    Success { content: Vec<ContentBlock>, value: Json, meta: Option<Json> },
    Error { message: String, code: String, content: Vec<ContentBlock> },
}

/// What a [`ToolExecutionResult`] says.
#[verifier::ext_equal]
pub enum ToolExecutionResultView {
    Success { content: Seq<ContentBlockView>, value: JsonView, meta: Option<JsonView> },
    Error { message: Seq<char>, code: Seq<char>, content: Seq<ContentBlockView> },
}

impl View for ToolExecutionResult {
    type V = ToolExecutionResultView;

    open spec fn view(&self) -> ToolExecutionResultView {
        match *self {
            ToolExecutionResult::Success { content, value, meta } => ToolExecutionResultView::Success { content: text::views(content@), value: value@, meta: text::opt_view(meta) },
            ToolExecutionResult::Error { message, code, content } => ToolExecutionResultView::Error { message: message@, code: code@, content: text::views(content@) },
        }
    }
}

impl Clone for ToolExecutionResult {
    fn clone(&self) -> (r: Self)
        ensures
            r@ == self@,
    {
        match self {
            ToolExecutionResult::Success { content, value, meta } => ToolExecutionResult::Success { content: clone_vec(content), value: value.clone(), meta: clone_opt(meta) },
            ToolExecutionResult::Error { message, code, content } => ToolExecutionResult::Error { message: message.clone(), code: code.clone(), content: clone_vec(content) },
        }
    }
}

/// One block of visible text.
pub open spec fn text_block(s: Seq<char>) -> Seq<ContentBlockView> {
    seq![ContentBlockView::Text { text: s }]
}

/// A success that shows `shown` and carries `value`.
pub open spec fn success(shown: Seq<char>, value: JsonView) -> ToolExecutionResultView {
    ToolExecutionResultView::Success { content: text_block(shown), value, meta: None }
}

/// A failure with a code and a message, shown as `Error: ` and the message.
pub open spec fn failure(code: Seq<char>, message: Seq<char>) -> ToolExecutionResultView {
    ToolExecutionResultView::Error { message, code, content: text_block("Error: "@ + message) }
}

/// The text that a value is shown as: indented, or compact where that fails.
pub open spec fn shown_value(value: JsonView) -> Seq<char> {
    match json::pretty_text_of_json(value) {
        Some(s) => s,
        None => json::text_of_json(value),
    }
}

impl ToolExecutionResultView {
    /// The model-facing content.
    pub open spec fn content(self) -> Seq<ContentBlockView> {
        match self {
            ToolExecutionResultView::Success { content, .. } => content,
            ToolExecutionResultView::Error { content, .. } => content,
        }
    }
}

/// One block of visible text.
pub fn one_text_block(s: &str) -> (r: Vec<ContentBlock>)
    ensures
        text::views(r@) == text_block(s@),
{
    let mut out: Vec<ContentBlock> = Vec::new();
    out.push(ContentBlock::text(s));
    assert(text::views(out@) =~= text_block(s@));
    out
}

impl ToolExecutionResult {
    /// A success that shows `shown` and carries `value`.
    pub fn success_text(shown: &str, value: Json) -> (r: Self)
        ensures
            r@ == success(shown@, value@),
    {
        ToolExecutionResult::Success { content: one_text_block(shown), value, meta: None }
    }

    /// A success that shows the value that it carries.
    pub fn success_value(value: Json) -> (r: Self)
        ensures
            r@ == success(shown_value(value@), value@),
    {
        let shown = match json::print_pretty(&value) {
            Some(s) => s,
            None => json::print(&value),
        };
        ToolExecutionResult::success_text(shown.as_str(), value)
    }

    /// A failure with a code and a message.
    pub fn error(code: &str, message: &str) -> (r: Self)
        ensures
            r@ == failure(code@, message@),
    {
        let shown = concat2("Error: ", message);
        ToolExecutionResult::Error {
            message: message.to_owned(),
            code: code.to_owned(),
            content: one_text_block(shown.as_str()),
        }
    }

    /// Whether this is a failure.
    pub fn is_error(&self) -> (r: bool)
        ensures
            r == (self@ is Error),
    {
        match self {
            ToolExecutionResult::Error { .. } => true,
            _ => false,
        }
    }

    /// The model-facing content of this outcome.
    pub fn content(&self) -> (r: Vec<ContentBlock>)
        ensures
            text::views(r@) == self@.content(),
    {
        match self {
            ToolExecutionResult::Success { content, .. } => clone_vec(content),
            ToolExecutionResult::Error { content, .. } => clone_vec(content),
        }
    }
}

/// A success shows its text alone and carries its value; a failure shows its
/// message behind a word that says so, and carries its code.
pub proof fn law_results_show_what_they_say(
    shown: Seq<char>,
    value: JsonView,
    code: Seq<char>,
    message: Seq<char>,
)
    ensures
        success(shown, value) == (ToolExecutionResultView::Success {
            content: seq![ContentBlockView::Text { text: shown }],
            value,
            meta: None,
        }),
        failure(code, message) == (ToolExecutionResultView::Error {
            message,
            code,
            content: seq![ContentBlockView::Text { text: "Error: "@ + message }],
        }),
        success(shown, value).content() == seq![ContentBlockView::Text { text: shown }],
        failure(code, message).content() == seq![
            ContentBlockView::Text { text: "Error: "@ + message },
        ],
        json::pretty_text_of_json(value) matches Some(s) ==> shown_value(value) == s,
        json::pretty_text_of_json(value) is None ==> shown_value(value) == json::text_of_json(
            value,
        ),
{
}

} // verus!
