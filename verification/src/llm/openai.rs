//! The OpenAI-compatible chat-completions protocol: request bodies and the
//! server-sent event stream of a response.
//!
//! Config section (the `openai` object of the `llm` plugin config):
//! ```json
//! {
//!   "base_url": "https://api.openai.com/v1",
//!   "api_key": "sk-...",
//!   "model": "gpt-4o-mini"
//! }
//! ```

use crate::json;
use crate::json::Json;
use crate::text;
use crate::text::{chars_of, concat2, concat3, contains, decimal_text, string_of, take_chars};
use crate::types::llm;
use crate::types::llm::{
    ContentBlock, GenerateOptions, LlmError, LlmFailure, Message, Role, ToolSchema,
};
use vstd::prelude::*;

#[allow(unused_imports)]
use crate::json::JsonView;
#[allow(unused_imports)]
use crate::types::llm::{
    ContentBlockView, GenerateOptionsView, LlmErrorView, LlmFailureView, MessageView, ToolSchemaView,
};

verus! {

/// A provider that speaks the chat-completions protocol.
#[derive(Debug)]
pub struct OpenAiAdapter {
    pub base_url: String,
    pub api_key: Option<String>,
    pub default_model: Option<String>,
}

/// What an [`OpenAiAdapter`] is set up with.
#[verifier::ext_equal]
pub struct OpenAiView {
    pub base_url: Seq<char>,
    pub api_key: Option<Seq<char>>,
    pub default_model: Option<Seq<char>>,
}

impl View for OpenAiAdapter {
    type V = OpenAiView;

    open spec fn view(&self) -> OpenAiView {
        OpenAiView {
            base_url: self.base_url@,
            api_key: text::opt_view(self.api_key),
            default_model: text::opt_view(self.default_model),
        }
    }
}

// ---------------------------------------------------------------------------
// failures
// ---------------------------------------------------------------------------

/// The failure that an HTTP error stands for: the first 500 characters of its
/// body, or a fixed sentence where the body is empty.
pub open spec fn http_failure(code: Seq<char>, status: u16, body: Seq<char>) -> LlmFailureView {
    LlmFailureView {
        message: if body.len() == 0 {
            "openai error (http "@ + text::decimal(status as nat) + ")"@
        } else {
            text::first_chars(body, 500)
        },
        code,
        status: Some(status),
        provider_retry_after_ms: None,
    }
}

/// The failure that an HTTP error stands for.
pub fn into_failure(code: &str, status: u16, body: &str) -> (r: LlmFailure)
    ensures
        r@ == http_failure(code@, status, body@),
{
    let message = if body.is_empty() {
        let shown = decimal_text(status as u64);
        concat3("openai error (http ", shown.as_str(), ")")
    } else {
        take_chars(body, 500)
    };
    LlmFailure {
        message,
        code: code.to_owned(),
        status: Some(status),
        provider_retry_after_ms: None,
    }
}

/// The error of a response whose status is not a success.
pub fn http_error(status: u16, body: &str) -> (r: LlmError)
    ensures
        r@ == (LlmErrorView {
            failure: http_failure("HTTP_"@ + text::decimal(status as nat), status, body@),
        }),
{
    let shown = decimal_text(status as u64);
    let code = concat2("HTTP_", shown.as_str());
    LlmError::new(into_failure(code.as_str(), status, body))
}

// ---------------------------------------------------------------------------
// setup
// ---------------------------------------------------------------------------

/// `s` without the slashes at its end.
pub open spec fn without_trailing_slashes(s: Seq<char>) -> Seq<char>
    decreases s.len(),
{
    if s.len() > 0 && s.last() == '/' {
        without_trailing_slashes(s.drop_last())
    } else {
        s
    }
}

fn trim_trailing_slashes(s: &str) -> (r: String)
    ensures
        r@ == without_trailing_slashes(s@),
{
    let v = chars_of(s);
    let mut to: usize = v.len();
    assert(v@.take(to as int) =~= v@);
    while to > 0 && v[to - 1] == '/'
        invariant
            to <= v@.len(),
            v@ == s@,
            without_trailing_slashes(v@.take(to as int)) == without_trailing_slashes(v@),
        decreases to,
    {
        assert(v@.take(to as int).drop_last() =~= v@.take(to - 1));
        assert(v@.take(to as int).last() == v@[to - 1]);
        to = to - 1;
    }
    assert(without_trailing_slashes(v@.take(to as int)) == v@.take(to as int)) by {
        if to > 0 {
            assert(v@.take(to as int).last() == v@[to - 1]);
        }
    }
    let r = string_of(&v, 0, to);
    assert(r@ =~= v@.take(to as int));
    r
}

/// What a config section sets up.
pub open spec fn adapter_of(config: JsonView) -> OpenAiView {
    OpenAiView {
        base_url: without_trailing_slashes(
            match config.str_at("base_url"@) {
                Some(url) => url,
                None => "https://api.openai.com/v1"@,
            },
        ),
        api_key: config.str_at("api_key"@),
        default_model: config.str_at("model"@),
    }
}

fn owned(s: Option<&str>) -> (r: Option<String>)
    ensures
        match (s, r) {
            (Some(a), Some(b)) => a@ == b@,
            (None, None) => true,
            _ => false,
        },
{
    match s {
        Some(s) => Some(s.to_owned()),
        None => None,
    }
}

impl OpenAiAdapter {
    /// The provider that a config section sets up.
    pub fn new(config: &Json) -> (r: Self)
        ensures
            r@ == adapter_of(config@),
    {
        let base_url = match config.str_at("base_url") {
            Some(url) => url,
            None => "https://api.openai.com/v1",
        };
        OpenAiAdapter {
            base_url: trim_trailing_slashes(base_url),
            api_key: owned(config.str_at("api_key")),
            default_model: owned(config.str_at("model")),
        }
    }

    /// The name of this provider.
    pub fn name(&self) -> (r: &'static str)
        ensures
            r@ == "openai-compatible"@,
    {
        "openai-compatible"
    }

    /// Where requests are posted.
    pub fn url(&self) -> (r: String)
        ensures
            r@ == self@.base_url + "/chat/completions"@,
    {
        concat2(self.base_url.as_str(), "/chat/completions")
    }
}

// ---------------------------------------------------------------------------
// request bodies
// ---------------------------------------------------------------------------

/// The wire name of a role.
pub open spec fn role_name(role: Role) -> Seq<char> {
    match role {
        Role::System => "system"@,
        Role::User => "user"@,
        Role::Assistant => "assistant"@,
    }
}

/// The wire name of a role.
pub fn role_str(role: Role) -> (r: &'static str)
    ensures
        r@ == role_name(role),
{
    match role {
        Role::System => "system",
        Role::User => "user",
        Role::Assistant => "assistant",
    }
}

/// The wire form of a tool call.
pub open spec fn wire_call(id: Seq<char>, name: Seq<char>, arguments: Seq<char>) -> JsonView {
    json::object_of(
        seq![
            ("id"@, JsonView::Text(id)),
            ("type"@, JsonView::Text("function"@)),
            (
                "function"@,
                json::object_of(
                    seq![
                        ("name"@, JsonView::Text(name)),
                        ("arguments"@, JsonView::Text(arguments)),
                    ],
                ),
            ),
        ],
    )
}

fn wire_call_json(id: &str, name: &str, arguments: &str) -> (r: Json)
    ensures
        r@ == wire_call(id@, name@, arguments@),
{
    let mut function = json::no_entries();
    json::put(&mut function, "name", Json::text(name));
    json::put(&mut function, "arguments", Json::text(arguments));
    let ghost inner = seq![
        ("name"@, JsonView::Text(name@)),
        ("arguments"@, JsonView::Text(arguments@)),
    ];
    assert(json::json_entries(function@) =~= inner);
    let mut call = json::no_entries();
    json::put(&mut call, "id", Json::text(id));
    json::put(&mut call, "type", Json::text("function"));
    json::put(&mut call, "function", Json::object(function));
    assert(json::json_entries(call@) =~= seq![
        ("id"@, JsonView::Text(id@)),
        ("type"@, JsonView::Text("function"@)),
        ("function"@, json::object_of(inner)),
    ]);
    Json::object(call)
}

/// One wire message carrying the role of the conversation's message. Empty
/// calls and empty reasoning are left out: some providers reject them.
pub open spec fn wire_message(
    role: Role,
    content: Seq<char>,
    tool_calls: Seq<JsonView>,
    reasoning: Seq<char>,
) -> JsonView {
    let base = seq![
        ("role"@, JsonView::Text(role_name(role))),
        ("content"@, JsonView::Text(content)),
    ];
    let with_calls = if tool_calls.len() > 0 {
        base.push(("tool_calls"@, JsonView::Array(tool_calls)))
    } else {
        base
    };
    json::object_of(
        if reasoning.len() > 0 {
            with_calls.push(("reasoning_content"@, JsonView::Text(reasoning)))
        } else {
            with_calls
        },
    )
}

/// One wire message carrying the harness message's role.
pub fn role_message(
    role: Role,
    content: &str,
    tool_calls: Vec<Json>,
    reasoning_content: &str,
) -> (r: Json)
    ensures
        r@ == wire_message(role, content@, json::json_views(tool_calls@), reasoning_content@),
{
    let mut message = json::no_entries();
    json::put(&mut message, "role", Json::text(role_str(role)));
    json::put(&mut message, "content", Json::text(content));
    assert(json::json_entries(message@) =~= seq![
        ("role"@, JsonView::Text(role_name(role))),
        ("content"@, JsonView::Text(content@)),
    ]);
    if tool_calls.len() > 0 {
        json::put(&mut message, "tool_calls", Json::Array(tool_calls));
    }
    if !reasoning_content.is_empty() {
        json::put(&mut message, "reasoning_content", Json::text(reasoning_content));
    }
    Json::object(message)
}

/// The wire form of a tool result.
pub open spec fn wire_result(tool_call_id: Seq<char>, content: Seq<char>) -> JsonView {
    json::object_of(
        seq![
            ("role"@, JsonView::Text("tool"@)),
            ("tool_call_id"@, JsonView::Text(tool_call_id)),
            ("content"@, JsonView::Text(content)),
        ],
    )
}

/// What has been gathered of a message's blocks: the finished wire messages,
/// and the texts, reasoning and calls that the next one will carry.
#[verifier::ext_equal]
pub struct Gathered {
    pub out: Seq<JsonView>,
    pub text: Seq<Seq<char>>,
    pub reasoning: Seq<Seq<char>>,
    pub calls: Seq<JsonView>,
}

impl Gathered {
    /// Nothing gathered yet.
    pub open spec fn nothing() -> Gathered {
        Gathered { out: seq![], text: seq![], reasoning: seq![], calls: seq![] }
    }

    /// Whether the next wire message has something to carry.
    pub open spec fn pending(self) -> bool {
        self.text.len() > 0 || self.calls.len() > 0 || self.reasoning.len() > 0
    }

    /// The next wire message.
    pub open spec fn next_message(self, role: Role, include_reasoning: bool) -> JsonView {
        wire_message(
            role,
            text::join(self.text, seq![]),
            self.calls,
            if include_reasoning {
                text::join(self.reasoning, seq![])
            } else {
                seq![]
            },
        )
    }

    /// With the pending texts, reasoning and calls sent as one wire message.
    /// Reasoning that is not sent stays pending.
    pub open spec fn flushed(self, role: Role, include_reasoning: bool) -> Gathered {
        if self.pending() {
            Gathered {
                out: self.out.push(self.next_message(role, include_reasoning)),
                text: seq![],
                calls: seq![],
                reasoning: if include_reasoning {
                    seq![]
                } else {
                    self.reasoning
                },
            }
        } else {
            self
        }
    }

    /// With one more block.
    pub open spec fn with_block(
        self,
        role: Role,
        include_reasoning: bool,
        block: ContentBlockView,
    ) -> Gathered {
        match block {
            ContentBlockView::Text { text } => Gathered { text: self.text.push(text), ..self },
            ContentBlockView::Reasoning { text } => Gathered {
                reasoning: self.reasoning.push(text),
                ..self
            },
            ContentBlockView::ToolCall { id, name, arguments } => Gathered {
                calls: self.calls.push(wire_call(id, name, arguments)),
                ..self
            },
            ContentBlockView::ToolResult { tool_call_id, content, .. } => {
                let f = self.flushed(role, include_reasoning);
                Gathered {
                    out: f.out.push(wire_result(tool_call_id, llm::blocks_text(content))),
                    ..f
                }
            },
        }
    }

    /// With all of `blocks`.
    pub open spec fn with_blocks(
        self,
        role: Role,
        include_reasoning: bool,
        blocks: Seq<ContentBlockView>,
    ) -> Gathered
        decreases blocks.len(),
    {
        if blocks.len() == 0 {
            self
        } else {
            self.with_blocks(role, include_reasoning, blocks.drop_last()).with_block(
                role,
                include_reasoning,
                blocks.last(),
            )
        }
    }
}

/// The wire messages of one message: at least one.
pub open spec fn wire_messages(m: MessageView, include_reasoning: bool) -> Seq<JsonView> {
    let out = Gathered::nothing().with_blocks(m.role, include_reasoning, m.content).flushed(
        m.role,
        include_reasoning,
    ).out;
    if out.len() == 0 {
        seq![
            json::object_of(
                seq![
                    ("role"@, JsonView::Text(role_name(m.role))),
                    ("content"@, JsonView::Text(seq![])),
                ],
            ),
        ]
    } else {
        out
    }
}

/// The working state of [`openai_message`].
struct Gathering {
    out: Vec<Json>,
    text: Vec<String>,
    reasoning: Vec<String>,
    calls: Vec<Json>,
}

impl View for Gathering {
    type V = Gathered;

    closed spec fn view(&self) -> Gathered {
        Gathered {
            out: json::json_views(self.out@),
            text: text::views(self.text@),
            reasoning: text::views(self.reasoning@),
            calls: json::json_views(self.calls@),
        }
    }
}

impl Gathering {
    fn new() -> (r: Self)
        ensures
            r@ == Gathered::nothing(),
    {
        let r = Gathering {
            out: json::no_values(),
            text: Vec::new(),
            reasoning: Vec::new(),
            calls: json::no_values(),
        };
        assert(r@ =~= Gathered::nothing());
        r
    }

    fn flush(&mut self, role: Role, include_reasoning: bool)
        ensures
            final(self)@ == old(self)@.flushed(role, include_reasoning),
    {
        let ghost before = self@;
        if self.text.len() > 0 || self.calls.len() > 0 || self.reasoning.len() > 0 {
            let content = text::joined(&self.text, "");
            let mut calls = json::no_values();
            std::mem::swap(&mut calls, &mut self.calls);
            let reasoning = if include_reasoning {
                text::joined(&self.reasoning, "")
            } else {
                String::new()
            };
            proof {
                reveal_strlit("");
                assert(""@ =~= seq![]);
            }
            let message = role_message(role, content.as_str(), calls, reasoning.as_str());
            json::push_value(&mut self.out, message);
            self.text = Vec::new();
            if include_reasoning {
                self.reasoning = Vec::new();
            }
            assert(self@ =~= before.flushed(role, include_reasoning));
        }
    }

    fn gather(&mut self, role: Role, include_reasoning: bool, block: &ContentBlock)
        ensures
            final(self)@ == old(self)@.with_block(role, include_reasoning, block@),
    {
        let ghost before = self@;
        match block {
            ContentBlock::Text { text } => {
                self.text.push(text.clone());
                assert(self@ =~= before.with_block(role, include_reasoning, block@));
            },
            ContentBlock::Reasoning { text } => {
                self.reasoning.push(text.clone());
                assert(self@ =~= before.with_block(role, include_reasoning, block@));
            },
            ContentBlock::ToolCall { id, name, arguments } => {
                let call = wire_call_json(id.as_str(), name.as_str(), arguments.as_str());
                json::push_value(&mut self.calls, call);
            },
            ContentBlock::ToolResult { tool_call_id, content, .. } => {
                self.flush(role, include_reasoning);
                let rendered = llm::text_of_blocks(content);
                proof {
                    llm::lemma_block_views(content@);
                }
                let mut result = json::no_entries();
                json::put(&mut result, "role", Json::text("tool"));
                json::put(&mut result, "tool_call_id", Json::text(tool_call_id.as_str()));
                json::put(&mut result, "content", Json::text(rendered.as_str()));
                assert(json::json_entries(result@) =~= seq![
                    ("role"@, JsonView::Text("tool"@)),
                    ("tool_call_id"@, JsonView::Text(tool_call_id@)),
                    ("content"@, JsonView::Text(rendered@)),
                ]);
                json::push_value(&mut self.out, Json::object(result));
            },
        }
    }
}

/// Maps one harness message to one or more chat messages.
///
/// DeepSeek's thinking mode additionally requires the assistant's
/// `reasoning_content` to be echoed back on later requests; it is sent only
/// for DeepSeek-style providers, since other endpoints reject the field.
pub fn openai_message(message: &Message, include_reasoning: bool) -> (r: Vec<Json>)
    ensures
        json::json_views(r@) == wire_messages(message@, include_reasoning),
{
    let mut g = Gathering::new();
    let ghost blocks = message@.content;
    assert(blocks.take(0) =~= seq![]);
    for i in 0..message.content.len()
        invariant
            blocks == text::views(message.content@),
            g@ == Gathered::nothing().with_blocks(
                message.role,
                include_reasoning,
                blocks.take(i as int),
            ),
    {
        assert(blocks.take(i + 1).drop_last() =~= blocks.take(i as int));
        assert(blocks.take(i + 1).last() == message.content@[i as int]@);
        g.gather(message.role, include_reasoning, &message.content[i]);
    }
    assert(blocks.take(blocks.len() as int) =~= blocks);
    g.flush(message.role, include_reasoning);
    if g.out.len() == 0 {
        let mut empty = json::no_entries();
        json::put(&mut empty, "role", Json::text(role_str(message.role)));
        json::put(&mut empty, "content", Json::text(""));
        proof {
            reveal_strlit("");
            assert(""@ =~= seq![]);
        }
        assert(json::json_entries(empty@) =~= seq![
            ("role"@, JsonView::Text(role_name(message.role))),
            ("content"@, JsonView::Text(seq![])),
        ]);
        let ghost value = json::object_of(json::json_entries(empty@));
        json::push_value(&mut g.out, Json::object(empty));
        assert(json::json_views(g.out@) =~= seq![value]);
    }
    g.out
}

/// The wire messages of all `messages`, in order.
pub open spec fn all_wire_messages(
    messages: Seq<MessageView>,
    include_reasoning: bool,
) -> Seq<JsonView>
    decreases messages.len(),
{
    if messages.len() == 0 {
        seq![]
    } else {
        all_wire_messages(messages.drop_last(), include_reasoning) + wire_messages(
            messages.last(),
            include_reasoning,
        )
    }
}

/// The wire form of a tool's schema.
pub open spec fn wire_tool(tool: ToolSchemaView) -> JsonView {
    json::object_of(
        seq![
            ("type"@, JsonView::Text("function"@)),
            (
                "function"@,
                json::object_of(
                    seq![
                        ("name"@, JsonView::Text(tool.name)),
                        ("description"@, JsonView::Text(tool.description)),
                        ("parameters"@, tool.parameters),
                    ],
                ),
            ),
        ],
    )
}

fn wire_tool_json(tool: &ToolSchema) -> (r: Json)
    ensures
        r@ == wire_tool(tool@),
{
    let mut function = json::no_entries();
    json::put(&mut function, "name", Json::text(tool.name.as_str()));
    json::put(&mut function, "description", Json::text(tool.description.as_str()));
    json::put(&mut function, "parameters", tool.parameters.clone());
    let ghost inner = seq![
        ("name"@, JsonView::Text(tool@.name)),
        ("description"@, JsonView::Text(tool@.description)),
        ("parameters"@, tool@.parameters),
    ];
    assert(json::json_entries(function@) =~= inner);
    let mut wire = json::no_entries();
    json::put(&mut wire, "type", Json::text("function"));
    json::put(&mut wire, "function", Json::object(function));
    assert(json::json_entries(wire@) =~= seq![
        ("type"@, JsonView::Text("function"@)),
        ("function"@, json::object_of(inner)),
    ]);
    Json::object(wire)
}

/// Whether reasoning is echoed back to the provider.
pub open spec fn deepseek_style(base_url: Seq<char>, provider: Seq<char>) -> bool {
    text::occurs_in(provider, "deepseek"@) || text::occurs_in(base_url, "deepseek"@)
}

/// The messages of a request body: the system prompt, then the conversation.
pub open spec fn body_messages(base_url: Seq<char>, o: GenerateOptionsView) -> Seq<JsonView> {
    let conversation = all_wire_messages(o.messages, deepseek_style(base_url, o.provider));
    match o.system {
        Some(system) => seq![
            json::object_of(
                seq![
                    ("role"@, JsonView::Text("system"@)),
                    ("content"@, JsonView::Text(system)),
                ],
            ),
        ] + conversation,
        None => conversation,
    }
}

/// The entries that an optional part of the request adds.
pub open spec fn optional_entry(key: Seq<char>, value: Option<JsonView>) -> Seq<
    (Seq<char>, JsonView),
> {
    match value {
        Some(v) => seq![(key, v)],
        None => seq![],
    }
}

/// The body of a request.
pub open spec fn request_body(base_url: Seq<char>, o: GenerateOptionsView) -> JsonView {
    json::object_of(
        seq![
            ("model"@, JsonView::Text(o.model)),
            ("messages"@, JsonView::Array(body_messages(base_url, o))),
            ("stream"@, JsonView::Bool(true)),
        ] + (match o.tools {
            Some(tools) => seq![
                ("tools"@, JsonView::Array(tools.map_values(|t: ToolSchemaView| wire_tool(t)))),
                ("parallel_tool_calls"@, JsonView::Bool(true)),
            ],
            None => seq![],
        }) + optional_entry("temperature"@, o.temperature) + optional_entry(
            "max_tokens"@,
            match o.max_tokens {
                Some(n) => Some(json::number_of(n as u64)),
                None => None,
            },
        ) + optional_entry(
            "stop"@,
            match o.stop {
                Some(s) => Some(JsonView::Array(json::text_values(s))),
                None => None,
            },
        ),
    )
}

impl OpenAiAdapter {
    fn build_messages(&self, options: &GenerateOptions) -> (r: Vec<Json>)
        ensures
            json::json_views(r@) == body_messages(self@.base_url, options@),
    {
        let deepseek = contains(options.provider.as_str(), "deepseek") || contains(
            self.base_url.as_str(),
            "deepseek",
        );
        let mut messages = json::no_values();
        if let Some(system) = &options.system {
            let mut entry = json::no_entries();
            json::put(&mut entry, "role", Json::text("system"));
            json::put(&mut entry, "content", Json::text(system.as_str()));
            assert(json::json_entries(entry@) =~= seq![
                ("role"@, JsonView::Text("system"@)),
                ("content"@, JsonView::Text(system@)),
            ]);
            json::push_value(&mut messages, Json::object(entry));
        }
        let ghost head = json::json_views(messages@);
        let ghost all = options@.messages;
        assert(all.take(0) =~= seq![]);
        assert(head + all_wire_messages(all.take(0), deepseek) =~= head);
        for i in 0..options.messages.len()
            invariant
                all == text::views(options.messages@),
                json::json_views(messages@) == head + all_wire_messages(
                    all.take(i as int),
                    deepseek,
                ),
        {
            let mut mapped = openai_message(&options.messages[i], deepseek);
            let ghost before = messages@;
            let ghost added = mapped@;
            messages.append(&mut mapped);
            assert(json::json_views(messages@) =~= json::json_views(before) + json::json_views(
                added,
            ));
            assert(all.take(i + 1).drop_last() =~= all.take(i as int));
            assert(all.take(i + 1).last() == options.messages@[i as int]@);
            assert(json::json_views(messages@) =~= head + all_wire_messages(
                all.take(i + 1),
                deepseek,
            ));
        }
        assert(all.take(all.len() as int) =~= all);
        assert(json::json_views(messages@) =~= body_messages(self@.base_url, options@));
        messages
    }

    /// The body of a request.
    pub fn build_body(&self, options: &GenerateOptions) -> (r: Json)
        ensures
            r@ == request_body(self@.base_url, options@),
    {
        let mut body = json::no_entries();
        json::put(&mut body, "model", Json::text(options.model.as_str()));
        json::put(&mut body, "messages", Json::Array(self.build_messages(options)));
        json::put(&mut body, "stream", Json::Bool(true));
        let ghost base = seq![
            ("model"@, JsonView::Text(options@.model)),
            ("messages"@, JsonView::Array(body_messages(self@.base_url, options@))),
            ("stream"@, JsonView::Bool(true)),
        ];
        assert(json::json_entries(body@) =~= base);
        let ghost mut tail: Seq<(Seq<char>, JsonView)> = seq![];
        if let Some(tools) = &options.tools {
            let ghost schemas = text::views(tools@);
            let mut mapped = json::no_values();
            for i in 0..tools.len()
                invariant
                    schemas == text::views(tools@),
                    json::json_views(mapped@) == schemas.take(i as int).map_values(
                        |t: ToolSchemaView| wire_tool(t),
                    ),
            {
                json::push_value(&mut mapped, wire_tool_json(&tools[i]));
                assert(schemas.take(i + 1).map_values(|t: ToolSchemaView| wire_tool(t))
                    =~= schemas.take(i as int).map_values(|t: ToolSchemaView| wire_tool(t)).push(
                    wire_tool(schemas[i as int]),
                ));
            }
            assert(schemas.take(schemas.len() as int) =~= schemas);
            json::put(&mut body, "tools", Json::Array(mapped));
            json::put(&mut body, "parallel_tool_calls", Json::Bool(true));
            proof {
                tail = seq![
                    (
                        "tools"@,
                        JsonView::Array(schemas.map_values(|t: ToolSchemaView| wire_tool(t))),
                    ),
                    ("parallel_tool_calls"@, JsonView::Bool(true)),
                ];
            }
        }
        assert(json::json_entries(body@) =~= base + tail);
        let ghost with_tools = json::json_entries(body@);
        if let Some(temperature) = &options.temperature {
            json::put(&mut body, "temperature", temperature.clone());
        }
        let ghost t = optional_entry("temperature"@, options@.temperature);
        assert(json::json_entries(body@) =~= with_tools + t);
        if let Some(max_tokens) = options.max_tokens {
            json::put(&mut body, "max_tokens", Json::unsigned(max_tokens as u64));
        }
        let ghost m = optional_entry(
            "max_tokens"@,
            match options@.max_tokens {
                Some(n) => Some(json::number_of(n as u64)),
                None => None,
            },
        );
        assert(json::json_entries(body@) =~= with_tools + t + m);
        if let Some(stop) = &options.stop {
            json::put(&mut body, "stop", Json::texts(stop));
        }
        let ghost s = optional_entry(
            "stop"@,
            match options@.stop {
                Some(s) => Some(JsonView::Array(json::text_values(s))),
                None => None,
            },
        );
        assert(json::json_entries(body@) =~= with_tools + t + m + s);
        Json::object(body)
    }
}

// ---------------------------------------------------------------------------
// laws
// ---------------------------------------------------------------------------

/// The reasoning among `blocks`.
pub open spec fn reasoning_texts(blocks: Seq<ContentBlockView>) -> Seq<Seq<char>>
    decreases blocks.len(),
{
    if blocks.len() == 0 {
        seq![]
    } else {
        let rest = reasoning_texts(blocks.drop_last());
        match blocks.last() {
            ContentBlockView::Reasoning { text } => rest.push(text),
            _ => rest,
        }
    }
}

/// The reasoning that wire messages carry, one after the other.
pub open spec fn carried_reasoning(messages: Seq<JsonView>) -> Seq<char>
    decreases messages.len(),
{
    if messages.len() == 0 {
        seq![]
    } else {
        carried_reasoning(messages.drop_last()) + match messages.last().str_at(
            "reasoning_content"@,
        ) {
            Some(text) => text,
            None => seq![],
        }
    }
}

/// Whether the calls that a wire message carries, if it does, are not empty.
pub open spec fn calls_ok(message: JsonView) -> bool {
    message.get("tool_calls"@) matches Some(v) ==> v.as_array() matches Some(calls) && calls.len()
        > 0
}

proof fn lemma_wire_message_fields(
    role: Role,
    content: Seq<char>,
    tool_calls: Seq<JsonView>,
    reasoning: Seq<char>,
)
    ensures
        wire_message(role, content, tool_calls, reasoning).get("tool_calls"@) == (
        if tool_calls.len() > 0 {
            Some(JsonView::Array(tool_calls))
        } else {
            None
        }),
        wire_message(role, content, tool_calls, reasoning).get("reasoning_content"@) == (
        if reasoning.len() > 0 {
            Some(JsonView::Text(reasoning))
        } else {
            None
        }),
        wire_message(role, content, tool_calls, reasoning).get("role"@) == Some(
            JsonView::Text(role_name(role)),
        ),
        wire_message(role, content, tool_calls, reasoning).get("content"@) == Some(
            JsonView::Text(content),
        ),
{
    reveal_strlit("role");
    reveal_strlit("content");
    reveal_strlit("tool_calls");
    reveal_strlit("reasoning_content");
    let base = seq![
        ("role"@, JsonView::Text(role_name(role))),
        ("content"@, JsonView::Text(content)),
    ];
    let with_calls = if tool_calls.len() > 0 {
        base.push(("tool_calls"@, JsonView::Array(tool_calls)))
    } else {
        base
    };
    let all = if reasoning.len() > 0 {
        with_calls.push(("reasoning_content"@, JsonView::Text(reasoning)))
    } else {
        with_calls
    };
    assert("role"@.len() == 4 && "content"@.len() == 7);
    assert("tool_calls"@.len() == 10 && "reasoning_content"@.len() == 17);
    json::lemma_entries_lookup(
        all,
        "tool_calls"@,
        if tool_calls.len() > 0 {
            2
        } else {
            -1
        },
    );
    json::lemma_entries_lookup(
        all,
        "reasoning_content"@,
        if reasoning.len() > 0 {
            all.len() - 1
        } else {
            -1
        },
    );
    json::lemma_entries_lookup(all, "role"@, 0);
    json::lemma_entries_lookup(all, "content"@, 1);
}

proof fn lemma_wire_result_fields(tool_call_id: Seq<char>, content: Seq<char>)
    ensures
        wire_result(tool_call_id, content).get("tool_calls"@) is None,
        wire_result(tool_call_id, content).get("reasoning_content"@) is None,
        wire_result(tool_call_id, content).get("role"@) == Some(JsonView::Text("tool"@)),
        wire_result(tool_call_id, content).get("tool_call_id"@) == Some(
            JsonView::Text(tool_call_id),
        ),
        wire_result(tool_call_id, content).get("content"@) == Some(JsonView::Text(content)),
{
    reveal_strlit("role");
    reveal_strlit("content");
    reveal_strlit("tool_call_id");
    reveal_strlit("tool_calls");
    reveal_strlit("reasoning_content");
    let all = seq![
        ("role"@, JsonView::Text("tool"@)),
        ("tool_call_id"@, JsonView::Text(tool_call_id)),
        ("content"@, JsonView::Text(content)),
    ];
    assert("role"@.len() == 4 && "content"@.len() == 7 && "tool_call_id"@.len() == 12);
    assert("tool_calls"@.len() == 10 && "reasoning_content"@.len() == 17);
    json::lemma_entries_lookup(all, "tool_calls"@, -1);
    json::lemma_entries_lookup(all, "reasoning_content"@, -1);
    json::lemma_entries_lookup(all, "role"@, 0);
    json::lemma_entries_lookup(all, "tool_call_id"@, 1);
    json::lemma_entries_lookup(all, "content"@, 2);
}

/// What holds of every wire message: calls that it carries are not empty, and
/// it carries reasoning only where reasoning is included.
pub open spec fn wire_ok(message: JsonView, include_reasoning: bool) -> bool {
    calls_ok(message) && (!include_reasoning ==> message.get("reasoning_content"@) is None)
}

proof fn lemma_flushed(g: Gathered, role: Role, include_reasoning: bool)
    requires
        forall|i: int| 0 <= i < g.out.len() ==> wire_ok(#[trigger] g.out[i], include_reasoning),
    ensures
        ({
            let f = g.flushed(role, include_reasoning);
            &&& forall|i: int|
                0 <= i < f.out.len() ==> wire_ok(#[trigger] f.out[i], include_reasoning)
            &&& include_reasoning ==> f.reasoning.len() == 0 && carried_reasoning(f.out)
                == carried_reasoning(g.out) + text::join(g.reasoning, seq![])
        }),
{
    let next = g.next_message(role, include_reasoning);
    let sent: Seq<char> = if include_reasoning {
        text::join(g.reasoning, seq![])
    } else {
        seq![]
    };
    lemma_wire_message_fields(role, text::join(g.text, seq![]), g.calls, sent);
    if g.pending() {
        assert(g.out.push(next).drop_last() =~= g.out);
        if sent.len() == 0 {
            assert(carried_reasoning(g.out) + seq![] =~= carried_reasoning(g.out) + sent);
        }
    } else {
        assert(carried_reasoning(g.out) + sent =~= carried_reasoning(g.out));
    }
}

proof fn lemma_gathered(role: Role, include_reasoning: bool, blocks: Seq<ContentBlockView>)
    ensures
        ({
            let g = Gathered::nothing().with_blocks(role, include_reasoning, blocks);
            &&& forall|i: int|
                0 <= i < g.out.len() ==> wire_ok(#[trigger] g.out[i], include_reasoning)
            &&& include_reasoning ==> carried_reasoning(g.out) + text::join(g.reasoning, seq![])
                == text::join(reasoning_texts(blocks), seq![])
        }),
    decreases blocks.len(),
{
    let none = Gathered::nothing();
    if blocks.len() == 0 {
        assert(carried_reasoning(none.out) + text::join(none.reasoning, seq![]) =~= seq![]);
    } else {
        let front = blocks.drop_last();
        lemma_gathered(role, include_reasoning, front);
        let g = none.with_blocks(role, include_reasoning, front);
        let after = none.with_blocks(role, include_reasoning, blocks);
        match blocks.last() {
            ContentBlockView::Reasoning { text: t } => {
                lemma_join_pushed(g.reasoning, t);
                lemma_join_pushed(reasoning_texts(front), t);
                assert(carried_reasoning(g.out) + (text::join(g.reasoning, seq![]) + t) =~= (
                carried_reasoning(g.out) + text::join(g.reasoning, seq![])) + t);
            },
            ContentBlockView::ToolResult { tool_call_id, content, .. } => {
                lemma_flushed(g, role, include_reasoning);
                let f = g.flushed(role, include_reasoning);
                let result = wire_result(tool_call_id, llm::blocks_text(content));
                lemma_wire_result_fields(tool_call_id, llm::blocks_text(content));
                assert(f.out.push(result).drop_last() =~= f.out);
                assert(carried_reasoning(f.out.push(result)) =~= carried_reasoning(f.out));
                assert(carried_reasoning(f.out) + text::join(seq![], seq![])
                    =~= carried_reasoning(f.out));
                if include_reasoning {
                    assert(f.reasoning =~= seq![]);
                }
            },
            _ => {},
        }
    }
}

proof fn lemma_join_pushed(parts: Seq<Seq<char>>, more: Seq<char>)
    ensures
        text::join(parts.push(more), seq![]) == text::join(parts, seq![]) + more,
{
    assert(parts.push(more).drop_last() =~= parts);
    assert(text::join(parts, seq![]) + seq![] + more =~= text::join(parts, seq![]) + more);
    if parts.len() == 0 {
        assert(text::join(parts, seq![]) + more =~= more);
    }
}

proof fn lemma_bare_message_fields(role: Role)
    ensures
        wire_ok(wire_message(role, seq![], seq![], seq![]), true),
        wire_ok(wire_message(role, seq![], seq![], seq![]), false),
{
    lemma_wire_message_fields(role, seq![], seq![], seq![]);
}

/// No wire message carries an empty list of tool calls, and only providers that
/// want it get reasoning.
pub proof fn law_wire_messages_are_accepted(m: MessageView, include_reasoning: bool)
    ensures
        forall|i: int|
            0 <= i < wire_messages(m, include_reasoning).len() ==> wire_ok(
                #[trigger] wire_messages(m, include_reasoning)[i],
                include_reasoning,
            ),
{
    lemma_gathered(m.role, include_reasoning, m.content);
    lemma_flushed(
        Gathered::nothing().with_blocks(m.role, include_reasoning, m.content),
        m.role,
        include_reasoning,
    );
    lemma_bare_message_fields(m.role);
}

/// The reasoning of a message is echoed back whole to the providers that want
/// it.
pub proof fn law_reasoning_is_echoed_back(m: MessageView)
    ensures
        carried_reasoning(wire_messages(m, true)) == text::join(
            reasoning_texts(m.content),
            seq![],
        ),
{
    let g = Gathered::nothing().with_blocks(m.role, true, m.content);
    lemma_gathered(m.role, true, m.content);
    lemma_flushed(g, m.role, true);
    if g.flushed(m.role, true).out.len() == 0 {
        let bare = wire_message(m.role, seq![], seq![], seq![]);
        lemma_wire_message_fields(m.role, seq![], seq![], seq![]);
        assert(seq![bare].drop_last() =~= seq![]);
        assert(carried_reasoning(seq![bare]) =~= seq![]);
    }
}

/// The text blocks among `blocks`, one after the other.
pub open spec fn said(blocks: Seq<ContentBlockView>) -> Seq<char>
    decreases blocks.len(),
{
    if blocks.len() == 0 {
        seq![]
    } else {
        match blocks.last() {
            ContentBlockView::Text { text } => said(blocks.drop_last()) + text,
            _ => said(blocks.drop_last()),
        }
    }
}

/// Whether a wire message answers a tool call.
pub open spec fn is_answer(message: JsonView) -> bool {
    message.get("role"@) == Some(JsonView::Text("tool"@))
}

/// What wire messages say under their own role, one after the other.
pub open spec fn carried_content(messages: Seq<JsonView>) -> Seq<char>
    decreases messages.len(),
{
    if messages.len() == 0 {
        seq![]
    } else {
        let before = carried_content(messages.drop_last());
        match messages.last().get("content"@) {
            Some(JsonView::Text(text)) => if is_answer(messages.last()) {
                before
            } else {
                before + text
            },
            _ => before,
        }
    }
}

/// The tool calls that wire messages carry, one after the other.
pub open spec fn carried_calls(messages: Seq<JsonView>) -> Seq<JsonView>
    decreases messages.len(),
{
    if messages.len() == 0 {
        seq![]
    } else {
        carried_calls(messages.drop_last()) + match messages.last().get("tool_calls"@) {
            Some(JsonView::Array(calls)) => calls,
            _ => seq![],
        }
    }
}

/// The wire messages that answer tool calls, in order.
pub open spec fn carried_answers(messages: Seq<JsonView>) -> Seq<JsonView>
    decreases messages.len(),
{
    if messages.len() == 0 {
        seq![]
    } else if is_answer(messages.last()) {
        carried_answers(messages.drop_last()).push(messages.last())
    } else {
        carried_answers(messages.drop_last())
    }
}

/// The tool calls among `blocks`, in order.
pub open spec fn asked(blocks: Seq<ContentBlockView>) -> Seq<ContentBlockView>
    decreases blocks.len(),
{
    if blocks.len() == 0 {
        seq![]
    } else if blocks.last() is ToolCall {
        asked(blocks.drop_last()).push(blocks.last())
    } else {
        asked(blocks.drop_last())
    }
}

/// The tool results among `blocks`, in order.
pub open spec fn answered(blocks: Seq<ContentBlockView>) -> Seq<ContentBlockView>
    decreases blocks.len(),
{
    if blocks.len() == 0 {
        seq![]
    } else if blocks.last() is ToolResult {
        answered(blocks.drop_last()).push(blocks.last())
    } else {
        answered(blocks.drop_last())
    }
}

/// Whether a value on the wire asks for the tool call of a block: its id, the
/// name of its function and its arguments, as the model wrote them.
pub open spec fn asks_for(v: JsonView, block: ContentBlockView) -> bool {
    block matches ContentBlockView::ToolCall { id, name, arguments } && {
        &&& v.get("id"@) == Some(JsonView::Text(id))
        &&& v.get("type"@) == Some(JsonView::Text("function"@))
        &&& v.get("function"@) matches Some(f) && f.get("name"@) == Some(JsonView::Text(name))
            && f.get("arguments"@) == Some(JsonView::Text(arguments))
    }
}

/// Whether a wire message answers the call that a block is the result of, with
/// the texts of the result.
pub open spec fn answers(v: JsonView, block: ContentBlockView) -> bool {
    block matches ContentBlockView::ToolResult { tool_call_id, content, .. } && {
        &&& is_answer(v)
        &&& v.get("tool_call_id"@) == Some(JsonView::Text(tool_call_id))
        &&& v.get("content"@) == Some(JsonView::Text(said(content)))
    }
}

proof fn lemma_wire_call_fields(id: Seq<char>, name: Seq<char>, arguments: Seq<char>)
    ensures
        asks_for(
            wire_call(id, name, arguments),
            ContentBlockView::ToolCall { id, name, arguments },
        ),
{
    reveal_strlit("id");
    reveal_strlit("type");
    reveal_strlit("function");
    reveal_strlit("name");
    reveal_strlit("arguments");
    assert("id"@.len() == 2 && "type"@.len() == 4 && "function"@.len() == 8);
    assert("name"@.len() == 4 && "arguments"@.len() == 9);
    let inner = seq![
        ("name"@, JsonView::Text(name)),
        ("arguments"@, JsonView::Text(arguments)),
    ];
    let outer = seq![
        ("id"@, JsonView::Text(id)),
        ("type"@, JsonView::Text("function"@)),
        ("function"@, json::object_of(inner)),
    ];
    json::law_object_holds_its_entries(inner, 0);
    json::law_object_holds_its_entries(inner, 1);
    json::law_object_holds_its_entries(outer, 0);
    json::law_object_holds_its_entries(outer, 1);
    json::law_object_holds_its_entries(outer, 2);
}

proof fn lemma_said(blocks: Seq<ContentBlockView>)
    ensures
        llm::blocks_text(blocks) == said(blocks),
    decreases blocks.len(),
{
    if blocks.len() > 0 {
        lemma_said(blocks.drop_last());
    }
}

proof fn lemma_role_is_no_answer(role: Role)
    ensures
        role_name(role) != "tool"@,
{
    reveal_strlit("system");
    reveal_strlit("user");
    reveal_strlit("assistant");
    reveal_strlit("tool");
    assert("system"@.len() == 6 && "user"@[0] != "tool"@[0] && "assistant"@.len() == 9);
    assert("tool"@.len() == 4);
}

/// What has been gathered, as wire messages and as what is pending, is what the
/// blocks say, ask and answer.
spec fn holds(g: Gathered, blocks: Seq<ContentBlockView>) -> bool {
    &&& carried_content(g.out) + text::join(g.text, seq![]) == said(blocks)
    &&& (carried_calls(g.out) + g.calls).len() == asked(blocks).len()
    &&& forall|i: int|
        0 <= i < asked(blocks).len() ==> asks_for(
            #[trigger] (carried_calls(g.out) + g.calls)[i],
            asked(blocks)[i],
        )
    &&& carried_answers(g.out).len() == answered(blocks).len()
    &&& forall|i: int|
        0 <= i < answered(blocks).len() ==> answers(
            #[trigger] carried_answers(g.out)[i],
            answered(blocks)[i],
        )
}

proof fn lemma_flushed_holds(
    g: Gathered,
    role: Role,
    include_reasoning: bool,
    blocks: Seq<ContentBlockView>,
)
    requires
        holds(g, blocks),
    ensures
        holds(g.flushed(role, include_reasoning), blocks),
        g.flushed(role, include_reasoning).text.len() == 0,
        g.flushed(role, include_reasoning).calls.len() == 0,
{
    let f = g.flushed(role, include_reasoning);
    if g.pending() {
        let next = g.next_message(role, include_reasoning);
        let sent: Seq<char> = if include_reasoning {
            text::join(g.reasoning, seq![])
        } else {
            seq![]
        };
        lemma_wire_message_fields(role, text::join(g.text, seq![]), g.calls, sent);
        lemma_role_is_no_answer(role);
        assert(!is_answer(next));
        assert(g.out.push(next).drop_last() =~= g.out);
        assert(carried_content(f.out) + text::join(f.text, seq![]) =~= carried_content(g.out)
            + text::join(g.text, seq![]));
        assert(carried_calls(f.out) + f.calls =~= carried_calls(g.out) + g.calls);
        assert(carried_answers(f.out) == carried_answers(g.out));
    }
}

proof fn lemma_gathered_holds(role: Role, include_reasoning: bool, blocks: Seq<ContentBlockView>)
    ensures
        holds(Gathered::nothing().with_blocks(role, include_reasoning, blocks), blocks),
    decreases blocks.len(),
{
    let none = Gathered::nothing();
    if blocks.len() == 0 {
        assert(carried_content(none.out) + text::join(none.text, seq![]) =~= seq![]);
    } else {
        let front = blocks.drop_last();
        lemma_gathered_holds(role, include_reasoning, front);
        let g = none.with_blocks(role, include_reasoning, front);
        let after = none.with_blocks(role, include_reasoning, blocks);
        match blocks.last() {
            ContentBlockView::Text { text: t } => {
                lemma_join_pushed(g.text, t);
                assert(carried_content(g.out) + (text::join(g.text, seq![]) + t) =~= (
                carried_content(g.out) + text::join(g.text, seq![])) + t);
            },
            ContentBlockView::Reasoning { .. } => {},
            ContentBlockView::ToolCall { id, name, arguments } => {
                let call = wire_call(id, name, arguments);
                lemma_wire_call_fields(id, name, arguments);
                assert(carried_calls(after.out) + after.calls =~= (carried_calls(g.out)
                    + g.calls).push(call));
            },
            ContentBlockView::ToolResult { tool_call_id, content, .. } => {
                lemma_flushed_holds(g, role, include_reasoning, front);
                let f = g.flushed(role, include_reasoning);
                let result = wire_result(tool_call_id, llm::blocks_text(content));
                lemma_wire_result_fields(tool_call_id, llm::blocks_text(content));
                lemma_said(content);
                assert(f.out.push(result).drop_last() =~= f.out);
                assert(is_answer(result));
                assert(carried_content(after.out) == carried_content(f.out));
                assert(carried_calls(after.out) =~= carried_calls(f.out));
                assert(carried_answers(after.out) =~= carried_answers(f.out).push(result));
            },
        }
    }
}

proof fn lemma_wire_messages_hold(m: MessageView, include_reasoning: bool)
    ensures
        carried_content(wire_messages(m, include_reasoning)) == said(m.content),
        carried_calls(wire_messages(m, include_reasoning)).len() == asked(m.content).len(),
        forall|i: int|
            0 <= i < asked(m.content).len() ==> asks_for(
                #[trigger] carried_calls(wire_messages(m, include_reasoning))[i],
                asked(m.content)[i],
            ),
        carried_answers(wire_messages(m, include_reasoning)).len() == answered(m.content).len(),
        forall|i: int|
            0 <= i < answered(m.content).len() ==> answers(
                #[trigger] carried_answers(wire_messages(m, include_reasoning))[i],
                answered(m.content)[i],
            ),
{
    let g = Gathered::nothing().with_blocks(m.role, include_reasoning, m.content);
    let f = g.flushed(m.role, include_reasoning);
    lemma_gathered_holds(m.role, include_reasoning, m.content);
    lemma_flushed_holds(g, m.role, include_reasoning, m.content);
    assert(carried_content(f.out) + text::join(f.text, seq![]) =~= carried_content(f.out));
    assert(carried_calls(f.out) + f.calls =~= carried_calls(f.out));
    assert forall|i: int| 0 <= i < asked(m.content).len() implies asks_for(
        #[trigger] carried_calls(f.out)[i],
        asked(m.content)[i],
    ) by {
        assert(carried_calls(f.out)[i] == (carried_calls(f.out) + f.calls)[i]);
    }
    if f.out.len() == 0 {
        let bare = wire_message(m.role, seq![], seq![], seq![]);
        lemma_wire_message_fields(m.role, seq![], seq![], seq![]);
        lemma_role_is_no_answer(m.role);
        assert(seq![bare].drop_last() =~= seq![]);
        assert(wire_messages(m, include_reasoning) == seq![bare]);
        assert(carried_content(seq![bare]) =~= carried_content(f.out));
        assert(carried_calls(seq![bare]) =~= carried_calls(f.out));
        assert(carried_answers(seq![bare]) =~= carried_answers(f.out));
    }
}

/// The texts of a message are sent whole and in order, under its role.
pub proof fn law_text_is_sent(m: MessageView, include_reasoning: bool)
    ensures
        carried_content(wire_messages(m, include_reasoning)) == said(m.content),
{
    lemma_wire_messages_hold(m, include_reasoning);
}

/// Every tool call of a message is sent, in order, as the model made it.
pub proof fn law_calls_are_sent(m: MessageView, include_reasoning: bool)
    ensures
        carried_calls(wire_messages(m, include_reasoning)).len() == asked(m.content).len(),
        forall|i: int|
            0 <= i < asked(m.content).len() ==> asks_for(
                #[trigger] carried_calls(wire_messages(m, include_reasoning))[i],
                asked(m.content)[i],
            ),
{
    lemma_wire_messages_hold(m, include_reasoning);
}

/// Every tool result of a message is sent, in order, as the answer to its call.
pub proof fn law_results_are_sent(m: MessageView, include_reasoning: bool)
    ensures
        carried_answers(wire_messages(m, include_reasoning)).len() == answered(m.content).len(),
        forall|i: int|
            0 <= i < answered(m.content).len() ==> answers(
                #[trigger] carried_answers(wire_messages(m, include_reasoning))[i],
                answered(m.content)[i],
            ),
{
    lemma_wire_messages_hold(m, include_reasoning);
}

/// Whether a wire message goes out under a role.
pub open spec fn speaks_as(message: JsonView, role: Role) -> bool {
    message.get("role"@) == Some(
        JsonView::Text(
            match role {
                Role::System => "system"@,
                Role::User => "user"@,
                Role::Assistant => "assistant"@,
            },
        ),
    )
}

proof fn lemma_roles(g: Gathered, role: Role, include_reasoning: bool)
    requires
        forall|i: int|
            0 <= i < g.out.len() ==> speaks_as(#[trigger] g.out[i], role) || is_answer(g.out[i]),
    ensures
        ({
            let f = g.flushed(role, include_reasoning);
            forall|i: int|
                0 <= i < f.out.len() ==> speaks_as(#[trigger] f.out[i], role) || is_answer(
                    f.out[i],
                )
        }),
{
    let sent: Seq<char> = if include_reasoning {
        text::join(g.reasoning, seq![])
    } else {
        seq![]
    };
    lemma_wire_message_fields(role, text::join(g.text, seq![]), g.calls, sent);
}

proof fn lemma_gathered_roles(role: Role, include_reasoning: bool, blocks: Seq<ContentBlockView>)
    ensures
        ({
            let g = Gathered::nothing().with_blocks(role, include_reasoning, blocks);
            &&& forall|i: int|
                0 <= i < g.out.len() ==> speaks_as(#[trigger] g.out[i], role) || is_answer(g.out[i])
            &&& answered(blocks).len() == 0 ==> g.out.len() == 0
        }),
    decreases blocks.len(),
{
    if blocks.len() > 0 {
        let front = blocks.drop_last();
        lemma_gathered_roles(role, include_reasoning, front);
        let g = Gathered::nothing().with_blocks(role, include_reasoning, front);
        if let ContentBlockView::ToolResult { tool_call_id, content, .. } = blocks.last() {
            lemma_roles(g, role, include_reasoning);
            lemma_wire_result_fields(tool_call_id, llm::blocks_text(content));
        }
    }
}

/// Whatever does not answer a tool call is sent under the role of its message. A
/// message without tool results is sent as one, which carries all of it.
pub proof fn law_message_is_sent_under_its_role(m: MessageView, include_reasoning: bool)
    ensures
        wire_messages(m, include_reasoning).len() > 0,
        forall|i: int|
            0 <= i < wire_messages(m, include_reasoning).len() ==> speaks_as(
                #[trigger] wire_messages(m, include_reasoning)[i],
                m.role,
            ) || is_answer(wire_messages(m, include_reasoning)[i]),
        answered(m.content).len() == 0 ==> {
            let w = wire_messages(m, include_reasoning);
            &&& w.len() == 1
            &&& speaks_as(w[0], m.role)
            &&& w[0].get("content"@) == Some(JsonView::Text(said(m.content)))
            &&& asked(m.content).len() > 0 ==> w[0].get("tool_calls"@) == Some(
                JsonView::Array(carried_calls(w)),
            )
            &&& asked(m.content).len() == 0 ==> w[0].get("tool_calls"@) is None
        },
{
    let w = wire_messages(m, include_reasoning);
    let g = Gathered::nothing().with_blocks(m.role, include_reasoning, m.content);
    let f = g.flushed(m.role, include_reasoning);
    lemma_gathered_roles(m.role, include_reasoning, m.content);
    lemma_roles(g, m.role, include_reasoning);
    lemma_wire_message_fields(m.role, seq![], seq![], seq![]);
    lemma_wire_messages_hold(m, include_reasoning);
    lemma_gathered_holds(m.role, include_reasoning, m.content);
    let sent: Seq<char> = if include_reasoning {
        text::join(g.reasoning, seq![])
    } else {
        seq![]
    };
    lemma_wire_message_fields(m.role, text::join(g.text, seq![]), g.calls, sent);
    lemma_role_is_no_answer(m.role);
    if f.out.len() == 0 {
        assert(w == seq![wire_message(m.role, seq![], seq![], seq![])]);
    }
    if answered(m.content).len() == 0 {
        assert(w.len() == 1);
        assert(w =~= seq![w[0]]);
        assert(w.drop_last() =~= seq![]);
        assert(carried_content(w) =~= w[0].get("content"@)->0->Text_0);
        assert(carried_calls(w.drop_last()) =~= seq![]);
        if asked(m.content).len() > 0 {
            assert(w[0].get("tool_calls"@) is Some);
            assert(carried_calls(w) =~= w[0].get("tool_calls"@)->0->Array_0);
        } else if w[0].get("tool_calls"@) is Some {
            assert(carried_calls(w) =~= w[0].get("tool_calls"@)->0->Array_0);
        }
    }
}

/// A message of one text is sent as one message with that text and nothing else.
pub proof fn law_one_text_is_sent_alone(
    m: MessageView,
    include_reasoning: bool,
    said_text: Seq<char>,
)
    requires
        m.content == seq![ContentBlockView::Text { text: said_text }],
    ensures
        ({
            let w = wire_messages(m, include_reasoning);
            &&& w.len() == 1
            &&& speaks_as(w[0], m.role)
            &&& w[0].get("content"@) == Some(JsonView::Text(said_text))
            &&& w[0].get("tool_calls"@) is None
        }),
{
    law_message_is_sent_under_its_role(m, include_reasoning);
    assert(m.content.drop_last() =~= seq![]);
    reveal_with_fuel(said, 2);
    assert(said(m.content) =~= said_text);
    reveal_with_fuel(asked, 2);
    reveal_with_fuel(answered, 2);
}

/// What is gathered behind wire messages that are finished.
spec fn behind(out: Seq<JsonView>, g: Gathered) -> Gathered {
    Gathered { out: out + g.out, ..g }
}

proof fn lemma_behind(
    out: Seq<JsonView>,
    role: Role,
    include_reasoning: bool,
    blocks: Seq<ContentBlockView>,
)
    ensures
        behind(out, Gathered::nothing()).with_blocks(role, include_reasoning, blocks) == behind(
            out,
            Gathered::nothing().with_blocks(role, include_reasoning, blocks),
        ),
    decreases blocks.len(),
{
    if blocks.len() > 0 {
        let front = blocks.drop_last();
        lemma_behind(out, role, include_reasoning, front);
        let g = Gathered::nothing().with_blocks(role, include_reasoning, front);
        lemma_behind_flushed(out, g, role, include_reasoning);
        let b = behind(out, g).with_block(role, include_reasoning, blocks.last());
        let c = behind(out, g.with_block(role, include_reasoning, blocks.last()));
        assert(b.out =~= c.out);
        assert(b =~= c);
    }
}

proof fn lemma_behind_flushed(
    out: Seq<JsonView>,
    g: Gathered,
    role: Role,
    include_reasoning: bool,
)
    ensures
        behind(out, g).flushed(role, include_reasoning) == behind(
            out,
            g.flushed(role, include_reasoning),
        ),
{
    let b = behind(out, g).flushed(role, include_reasoning);
    let c = behind(out, g.flushed(role, include_reasoning));
    assert(b.out =~= c.out);
    assert(b =~= c);
}

proof fn lemma_with_more_blocks(
    g: Gathered,
    role: Role,
    include_reasoning: bool,
    a: Seq<ContentBlockView>,
    b: Seq<ContentBlockView>,
)
    ensures
        g.with_blocks(role, include_reasoning, a + b) == g.with_blocks(
            role,
            include_reasoning,
            a,
        ).with_blocks(role, include_reasoning, b),
    decreases b.len(),
{
    if b.len() == 0 {
        assert(a + b =~= a);
    } else {
        lemma_with_more_blocks(g, role, include_reasoning, a, b.drop_last());
        assert((a + b).drop_last() =~= a + b.drop_last());
        assert((a + b).last() == b.last());
    }
}

proof fn lemma_something_is_sent(
    role: Role,
    include_reasoning: bool,
    blocks: Seq<ContentBlockView>,
)
    requires
        blocks.len() > 0,
    ensures
        ({
            let g = Gathered::nothing().with_blocks(role, include_reasoning, blocks);
            g.pending() || g.out.len() > 0
        }),
    decreases blocks.len(),
{
    let front = blocks.drop_last();
    if front.len() > 0 {
        lemma_something_is_sent(role, include_reasoning, front);
    }
}

/// A tool result divides its message: what stands before it is sent before it,
/// what stands behind it is sent behind it. That holds where reasoning is sent;
/// where it is not, reasoning before the result sends one more, empty message.
pub proof fn law_result_divides_its_message(
    m: MessageView,
    before: Seq<ContentBlockView>,
    result: ContentBlockView,
    after: Seq<ContentBlockView>,
)
    requires
        result is ToolResult,
        m.content == before + seq![result] + after,
    ensures
        ({
            let w = wire_messages(m, true);
            let first: Seq<JsonView> = if before.len() == 0 {
                seq![]
            } else {
                wire_messages(MessageView { content: before, ..m }, true)
            };
            let last: Seq<JsonView> = if after.len() == 0 {
                seq![]
            } else {
                wire_messages(MessageView { content: after, ..m }, true)
            };
            &&& w.len() == first.len() + 1 + last.len()
            &&& w.take(first.len() as int) == first
            &&& answers(w[first.len() as int], result)
            &&& w.skip(first.len() as int + 1) == last
        }),
{
    let none = Gathered::nothing();
    let role = m.role;
    let ga = none.with_blocks(role, true, before);
    let fa = ga.flushed(role, true);
    let tool_call_id = result->tool_call_id;
    let content = result->ToolResult_content;
    let wire = wire_result(tool_call_id, llm::blocks_text(content));
    lemma_wire_result_fields(tool_call_id, llm::blocks_text(content));
    lemma_said(content);
    assert((before + seq![result]).drop_last() =~= before);
    let gr = none.with_blocks(role, true, before + seq![result]);
    assert(gr == Gathered { out: fa.out.push(wire), ..fa });
    assert(fa.text.len() == 0 && fa.calls.len() == 0 && fa.reasoning.len() == 0);
    assert(gr =~= behind(fa.out.push(wire), none));
    lemma_with_more_blocks(none, role, true, before + seq![result], after);
    lemma_behind(fa.out.push(wire), role, true, after);
    let gb = none.with_blocks(role, true, after);
    lemma_behind_flushed(fa.out.push(wire), gb, role, true);
    let fb = gb.flushed(role, true);
    let w = wire_messages(m, true);
    assert(w == fa.out.push(wire) + fb.out);
    if before.len() > 0 {
        lemma_something_is_sent(role, true, before);
        assert(fa.out.len() > 0);
    } else {
        assert(before =~= seq![]);
        assert(fa.out =~= seq![]);
    }
    if after.len() > 0 {
        lemma_something_is_sent(role, true, after);
        assert(fb.out.len() > 0);
    } else {
        assert(after =~= seq![]);
        assert(fb.out =~= seq![]);
    }
    assert(w.take(fa.out.len() as int) =~= fa.out);
    assert(w.skip(fa.out.len() as int + 1) =~= fb.out);
}

/// The conversation is sent message by message, in order, behind the system
/// prompt where there is one.
pub proof fn law_conversation_is_sent_in_order(
    base_url: Seq<char>,
    o: GenerateOptionsView,
    m: MessageView,
)
    requires
        o.messages.len() > 0,
        m == o.messages.last(),
    ensures
        ({
            let less = GenerateOptionsView { messages: o.messages.drop_last(), ..o };
            let deepseek = text::occurs_in(o.provider, "deepseek"@) || text::occurs_in(
                base_url,
                "deepseek"@,
            );
            body_messages(base_url, o) == body_messages(base_url, less) + wire_messages(m, deepseek)
        }),
{
    let less = GenerateOptionsView { messages: o.messages.drop_last(), ..o };
    assert(body_messages(base_url, o) =~= body_messages(base_url, less) + wire_messages(
        m,
        deepseek_style(base_url, o.provider),
    ));
}

/// A request without messages carries the system prompt alone, if there is one.
pub proof fn law_system_prompt_is_sent_first(base_url: Seq<char>, o: GenerateOptionsView)
    ensures
        o.messages.len() == 0 && o.system is None ==> body_messages(base_url, o).len() == 0,
        o.messages.len() == 0 && o.system is Some ==> body_messages(base_url, o).len() == 1,
        o.system matches Some(system) ==> {
            let first = body_messages(base_url, o)[0];
            &&& body_messages(base_url, o).len() > 0
            &&& first.get("role"@) == Some(JsonView::Text("system"@))
            &&& first.get("content"@) == Some(JsonView::Text(system))
        },
{
    if let Some(system) = o.system {
        reveal_strlit("role");
        reveal_strlit("content");
        assert("role"@.len() != "content"@.len());
        let e = seq![("role"@, JsonView::Text("system"@)), ("content"@, JsonView::Text(system))];
        json::law_object_holds_its_entries(e, 0);
        json::law_object_holds_its_entries(e, 1);
    }
}

proof fn lemma_wire_tool_fields(tool: ToolSchemaView)
    ensures
        offers(wire_tool(tool), tool),
{
    reveal_strlit("type");
    reveal_strlit("function");
    reveal_strlit("name");
    reveal_strlit("description");
    reveal_strlit("parameters");
    assert("type"@.len() == 4 && "function"@.len() == 8);
    assert("name"@.len() == 4 && "description"@.len() == 11 && "parameters"@.len() == 10);
    let inner = seq![
        ("name"@, JsonView::Text(tool.name)),
        ("description"@, JsonView::Text(tool.description)),
        ("parameters"@, tool.parameters),
    ];
    let outer = seq![
        ("type"@, JsonView::Text("function"@)),
        ("function"@, json::object_of(inner)),
    ];
    json::law_object_holds_its_entries(inner, 0);
    json::law_object_holds_its_entries(inner, 1);
    json::law_object_holds_its_entries(inner, 2);
    json::law_object_holds_its_entries(outer, 0);
    json::law_object_holds_its_entries(outer, 1);
}

/// Whether a value on the wire offers a tool: its name, its description and the
/// schema of its arguments.
pub open spec fn offers(v: JsonView, tool: ToolSchemaView) -> bool {
    &&& v.get("type"@) == Some(JsonView::Text("function"@))
    &&& v.get("function"@) matches Some(f) && f.get("name"@) == Some(JsonView::Text(tool.name))
        && f.get("description"@) == Some(JsonView::Text(tool.description)) && f.get("parameters"@)
        == Some(tool.parameters)
}

/// A request names the model, asks for a stream, and carries the messages, every
/// tool, in order, and the settings of the call that are set; those that are not
/// set are left out.
#[verifier::rlimit(40)]
pub proof fn law_request_carries_the_call(base_url: Seq<char>, o: GenerateOptionsView)
    ensures
        ({
            let body = request_body(base_url, o);
            &&& body.get("model"@) == Some(JsonView::Text(o.model))
            &&& body.get("stream"@) == Some(JsonView::Bool(true))
            &&& body.get("messages"@) == Some(JsonView::Array(body_messages(base_url, o)))
            &&& match o.tools {
                Some(tools) => body.get("parallel_tool_calls"@) == Some(JsonView::Bool(true)) && (
                body.get("tools"@) matches Some(JsonView::Array(a)) && a.len() == tools.len()
                    && forall|i: int|
                    0 <= i < tools.len() ==> offers(#[trigger] a[i], tools[i])),
                None => body.get("tools"@) is None && body.get("parallel_tool_calls"@) is None,
            }
            &&& body.get("temperature"@) == o.temperature
            &&& body.get("max_tokens"@) == (match o.max_tokens {
                Some(n) => Some(json::number_of(n as u64)),
                None => None,
            })
            &&& match o.stop {
                Some(stop) => body.get("stop"@) matches Some(JsonView::Array(a)) && a.len()
                    == stop.len() && forall|i: int|
                    0 <= i < stop.len() ==> #[trigger] a[i] == JsonView::Text(stop[i]),
                None => body.get("stop"@) is None,
            }
        }),
{
    reveal_strlit("model");
    reveal_strlit("messages");
    reveal_strlit("stream");
    reveal_strlit("tools");
    reveal_strlit("parallel_tool_calls");
    reveal_strlit("temperature");
    reveal_strlit("max_tokens");
    reveal_strlit("stop");
    assert("model"@.len() == 5 && "messages"@.len() == 8 && "stream"@.len() == 6);
    assert("tools"@.len() == 5 && "model"@[0] != "tools"@[0]);
    assert("parallel_tool_calls"@.len() == 19 && "temperature"@.len() == 11);
    assert("max_tokens"@.len() == 10 && "stop"@.len() == 4);
    let base = seq![
        ("model"@, JsonView::Text(o.model)),
        ("messages"@, JsonView::Array(body_messages(base_url, o))),
        ("stream"@, JsonView::Bool(true)),
    ];
    json::law_object_holds_its_entries(base, 0);
    json::law_object_holds_its_entries(base, 1);
    json::law_object_holds_its_entries(base, 2);
    let offered: Seq<(Seq<char>, JsonView)> = match o.tools {
        Some(tools) => seq![
            ("tools"@, JsonView::Array(tools.map_values(|t: ToolSchemaView| wire_tool(t)))),
            ("parallel_tool_calls"@, JsonView::Bool(true)),
        ],
        None => seq![],
    };
    if let Some(tools) = o.tools {
        json::law_object_holds_its_entries(offered, 0);
        json::law_object_holds_its_entries(offered, 1);
        let a = tools.map_values(|t: ToolSchemaView| wire_tool(t));
        assert forall|i: int| 0 <= i < tools.len() implies offers(#[trigger] a[i], tools[i]) by {
            lemma_wire_tool_fields(tools[i]);
        }
    }
    let temperature = optional_entry("temperature"@, o.temperature);
    let limit = optional_entry(
        "max_tokens"@,
        match o.max_tokens {
            Some(n) => Some(json::number_of(n as u64)),
            None => None,
        },
    );
    let stop = optional_entry(
        "stop"@,
        match o.stop {
            Some(s) => Some(JsonView::Array(json::text_values(s))),
            None => None,
        },
    );
    lemma_optional_entry(
        "temperature"@,
        o.temperature,
    );
    lemma_optional_entry(
        "max_tokens"@,
        match o.max_tokens {
            Some(n) => Some(json::number_of(n as u64)),
            None => None,
        },
    );
    lemma_optional_entry(
        "stop"@,
        match o.stop {
            Some(s) => Some(JsonView::Array(json::text_values(s))),
            None => None,
        },
    );
    assert forall|key: Seq<char>| #[trigger] request_body(base_url, o).get(key) == (
    if json::object_of(stop).get(key) is Some {
        json::object_of(stop).get(key)
    } else if json::object_of(limit).get(key) is Some {
        json::object_of(limit).get(key)
    } else if json::object_of(temperature).get(key) is Some {
        json::object_of(temperature).get(key)
    } else if json::object_of(offered).get(key) is Some {
        json::object_of(offered).get(key)
    } else {
        json::object_of(base).get(key)
    }) by {
        json::law_joined_entries(base, offered, key);
        json::law_joined_entries(base + offered, temperature, key);
        json::law_joined_entries(base + offered + temperature, limit, key);
        json::law_joined_entries(base + offered + temperature + limit, stop, key);
    }
}

proof fn lemma_optional_entry(key: Seq<char>, value: Option<JsonView>)
    ensures
        json::object_of(optional_entry(key, value)).get(key) == value,
        forall|other: Seq<char>|
            other != key ==> #[trigger] json::object_of(optional_entry(key, value)).get(other)
                is None,
{
    let e = optional_entry(key, value);
    if value is Some {
        json::law_object_holds_its_entries(e, 0);
        assert forall|other: Seq<char>| other != key implies #[trigger] json::object_of(e).get(
            other,
        ) is None by {
            assert forall|k: int| 0 <= k < e.len() implies (#[trigger] e[k]).0 != other by {}
        }
    }
}

/// Reasoning goes to the providers that want it: those that say so by their name
/// or their address.
pub proof fn law_reasoning_goes_where_it_is_wanted(base_url: Seq<char>, provider: Seq<char>)
    ensures
        deepseek_style(base_url, provider) <==> exists|a: Seq<char>, b: Seq<char>|
            provider == #[trigger] (a + "deepseek"@ + b) || base_url == a + "deepseek"@ + b,
{
    let p = "deepseek"@;
    if text::occurs_in(provider, p) {
        lemma_occurs_inside(provider, p);
    }
    if text::occurs_in(base_url, p) {
        lemma_occurs_inside(base_url, p);
    }
    if exists|a: Seq<char>, b: Seq<char>|
        provider == #[trigger] (a + p + b) || base_url == a + p + b {
        let (a, b) = choose|a: Seq<char>, b: Seq<char>|
            provider == #[trigger] (a + p + b) || base_url == a + p + b;
        let s = a + p + b;
        assert(s.subrange(a.len() as int, (a.len() + p.len()) as int) =~= p);
        assert(text::occurs_at(s, p, a.len() as int));
    }
}

proof fn lemma_occurs_inside(s: Seq<char>, p: Seq<char>)
    requires
        text::occurs_in(s, p),
    ensures
        exists|a: Seq<char>, b: Seq<char>| s == #[trigger] (a + p + b),
{
    let i = choose|i: int| text::occurs_at(s, p, i);
    let a = s.take(i);
    let b = s.skip(i + p.len());
    assert(s =~= a + s.subrange(i, i + p.len()) + b);
    assert(s == a + p + b);
}

/// An endpoint is set up as its section says: its address without slashes at the
/// end, its key and its model; without an address it is the usual one.
pub proof fn law_endpoint_is_set_up_as_configured(config: JsonView, url: Seq<char>)
    ensures
        config.get("base_url"@) == Some(JsonView::Text(url)) && (url.len() == 0 || url.last()
            != '/') ==> adapter_of(config).base_url == url,
        config.get("base_url"@) == Some(JsonView::Text(url.push('/'))) ==> adapter_of(
            config,
        ).base_url == without_trailing_slashes(url),
        config.get("base_url"@) is None ==> adapter_of(config).base_url
            == "https://api.openai.com/v1"@,
        config.get("api_key"@) matches Some(JsonView::Text(key)) ==> adapter_of(config).api_key
            == Some(key),
        config.get("api_key"@) is None ==> adapter_of(config).api_key is None,
        config.get("model"@) matches Some(JsonView::Text(model)) ==> adapter_of(
            config,
        ).default_model == Some(model),
        config.get("model"@) is None ==> adapter_of(config).default_model is None,
{
    assert(url.push('/').drop_last() =~= url);
    reveal_strlit("https://api.openai.com/v1");
    assert("https://api.openai.com/v1"@.last() == '1');
}

/// An HTTP error is a failure with its status and the beginning of what the
/// provider answered; an empty answer is reported by its status.
pub proof fn law_http_error_tells_what_was_answered(code: Seq<char>, status: u16, body: Seq<char>)
    ensures
        ({
            let f = http_failure(code, status, body);
            &&& f.code == code
            &&& f.status == Some(status)
            &&& f.provider_retry_after_ms is None
            &&& 0 < body.len() <= 500 ==> f.message == body
            &&& body.len() > 500 ==> f.message == body.take(500)
            &&& body.len() == 0 ==> f.message == "openai error (http "@ + text::decimal(
                status as nat,
            ) + ")"@
        }),
{
}

} // verus!
