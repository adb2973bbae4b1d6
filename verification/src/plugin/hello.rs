//! A small plugin that says hello and counts how often it did.

use crate::json;
use crate::json::Json;
use crate::llm::sse::lossy_text;
use crate::text::{concat2, concat3, decimal_text};
use vstd::prelude::*;

#[allow(unused_imports)]
use crate::bundle::dynamic;
#[allow(unused_imports)]
use crate::json::JsonView;
#[allow(unused_imports)]
use crate::llm::sse;
#[allow(unused_imports)]
use crate::text;
#[allow(unused_imports)]
use crate::types::tools;

verus! {

/// What the plugin remembers.
#[derive(Debug, PartialEq)]
pub struct HelloState {
    pub invocations: u64,
}

/// The operation that the plugin answers.
pub open spec fn hello_op() -> Seq<u8> {
    seq![104u8, 101u8, 108u8, 108u8, 111u8]
}

/// The plugin's name.
pub fn name() -> (r: &'static str)
    ensures
        r@ == "dsh-plugin-hello"@,
{
    "dsh-plugin-hello"
}

/// The parameters of the plugin's tool: none.
pub open spec fn parameters_of() -> JsonView {
    json::object_of(
        seq![
            ("type"@, JsonView::Text("object"@)),
            ("properties"@, json::object_of(seq![])),
            ("required"@, JsonView::Array(seq![])),
        ],
    )
}

/// The plugin's tool.
pub open spec fn tool_of() -> JsonView {
    json::object_of(
        seq![
            ("name"@, JsonView::Text("dsh_hello"@)),
            (
                "description"@,
                JsonView::Text(
                    "Say hello from a dynamically loaded plugin. Returns a greeting and the number of invocations."@,
                ),
            ),
            ("parameters"@, parameters_of()),
            ("exec_id"@, JsonView::Text("hello"@)),
        ],
    )
}

/// What the plugin declares: it requires the `tools` service and registers one
/// tool.
pub open spec fn declaration_of() -> JsonView {
    json::object_of(
        seq![
            ("inject"@, JsonView::Array(seq![JsonView::Text("tools"@)])),
            ("tools"@, JsonView::Array(seq![tool_of()])),
        ],
    )
}

fn parameters() -> (r: Json)
    ensures
        r@ == parameters_of(),
{
    let none = json::no_entries();
    assert(json::json_entries(none@) =~= seq![]);
    let required = json::no_values();
    assert(json::json_views(required@) =~= seq![]);
    let mut entries = json::no_entries();
    json::put(&mut entries, "type", Json::text("object"));
    json::put(&mut entries, "properties", Json::object(none));
    json::put(&mut entries, "required", Json::Array(required));
    assert(json::json_entries(entries@) =~= seq![
        ("type"@, JsonView::Text("object"@)),
        ("properties"@, json::object_of(seq![])),
        ("required"@, JsonView::Array(seq![])),
    ]);
    Json::object(entries)
}

fn tool() -> (r: Json)
    ensures
        r@ == tool_of(),
{
    let mut entries = json::no_entries();
    json::put(&mut entries, "name", Json::text("dsh_hello"));
    json::put(
        &mut entries,
        "description",
        Json::text(
            "Say hello from a dynamically loaded plugin. Returns a greeting and the number of invocations.",
        ),
    );
    json::put(&mut entries, "parameters", parameters());
    json::put(&mut entries, "exec_id", Json::text("hello"));
    assert(json::json_entries(entries@) =~= seq![
        ("name"@, JsonView::Text("dsh_hello"@)),
        (
            "description"@,
            JsonView::Text(
                "Say hello from a dynamically loaded plugin. Returns a greeting and the number of invocations."@,
            ),
        ),
        ("parameters"@, parameters_of()),
        ("exec_id"@, JsonView::Text("hello"@)),
    ]);
    Json::object(entries)
}

/// Writes what the plugin declares.
pub fn declaration() -> (r: String)
    ensures
        r@ == json::text_of_json(declaration_of()),
{
    let mut names = json::no_values();
    json::push_value(&mut names, Json::text("tools"));
    assert(json::json_views(names@) =~= seq![JsonView::Text("tools"@)]);
    let mut tools = json::no_values();
    json::push_value(&mut tools, tool());
    assert(json::json_views(tools@) =~= seq![tool_of()]);
    let mut entries = json::no_entries();
    json::put(&mut entries, "inject", Json::Array(names));
    json::put(&mut entries, "tools", Json::Array(tools));
    assert(json::json_entries(entries@) =~= seq![
        ("inject"@, JsonView::Array(seq![JsonView::Text("tools"@)])),
        ("tools"@, JsonView::Array(seq![tool_of()])),
    ]);
    json::print(&Json::object(entries))
}

/// The greeting of the call of that number.
pub open spec fn greeting(call: u64) -> JsonView {
    json::object_of(
        seq![
            ("kind"@, JsonView::Text("success"@)),
            (
                "content"@,
                JsonView::Text(
                    "hello from dynamic plugin (call #"@ + text::decimal(call as nat) + ")"@,
                ),
            ),
            ("value"@, greeting_value(call)),
        ],
    )
}

/// What a greeting carries.
pub open spec fn greeting_value(call: u64) -> JsonView {
    json::object_of(
        seq![
            ("message"@, JsonView::Text("hello from dynamic plugin"@)),
            ("invocations"@, json::number_of(call)),
        ],
    )
}

/// The reply to an operation that the plugin does not know.
pub open spec fn unknown_op(op: Seq<char>) -> JsonView {
    json::object_of(
        seq![
            ("kind"@, JsonView::Text("error"@)),
            ("code"@, JsonView::Text("UNKNOWN_OP"@)),
            ("message"@, JsonView::Text("unknown op: "@ + op)),
        ],
    )
}

/// The reply to an operation, after `invocations` greetings.
pub open spec fn reply_to(op: Seq<u8>, invocations: u64) -> JsonView {
    if op == hello_op() {
        greeting((invocations + 1) as u64)
    } else {
        unknown_op(sse::utf8_lossy(op))
    }
}

fn greet(call: u64) -> (r: Json)
    ensures
        r@ == greeting(call),
{
    let mut value = json::no_entries();
    json::put(&mut value, "message", Json::text("hello from dynamic plugin"));
    json::put(&mut value, "invocations", Json::unsigned(call));
    assert(json::json_entries(value@) =~= seq![
        ("message"@, JsonView::Text("hello from dynamic plugin"@)),
        ("invocations"@, json::number_of(call)),
    ]);
    let number = decimal_text(call);
    let content = concat3("hello from dynamic plugin (call #", number.as_str(), ")");
    let mut entries = json::no_entries();
    json::put(&mut entries, "kind", Json::text("success"));
    json::put(&mut entries, "content", Json::text(content.as_str()));
    json::put(&mut entries, "value", Json::object(value));
    assert(json::json_entries(entries@) =~= seq![
        ("kind"@, JsonView::Text("success"@)),
        ("content"@, JsonView::Text(content@)),
        ("value"@, greeting_value(call)),
    ]);
    Json::object(entries)
}

/// Makes the reply to an operation that the plugin does not know.
pub fn refuse(op: &str) -> (r: Json)
    ensures
        r@ == unknown_op(op@),
{
    let message = concat2("unknown op: ", op);
    let mut entries = json::no_entries();
    json::put(&mut entries, "kind", Json::text("error"));
    json::put(&mut entries, "code", Json::text("UNKNOWN_OP"));
    json::put(&mut entries, "message", Json::text(message.as_str()));
    assert(json::json_entries(entries@) =~= seq![
        ("kind"@, JsonView::Text("error"@)),
        ("code"@, JsonView::Text("UNKNOWN_OP"@)),
        ("message"@, JsonView::Text(message@)),
    ]);
    Json::object(entries)
}

fn is_hello(op: &Vec<u8>) -> (r: bool)
    ensures
        r == (op@ == hello_op()),
{
    let r = op.len() == 5 && op[0] == 104 && op[1] == 101 && op[2] == 108 && op[3] == 108 && op[4]
        == 111;
    assert(r == (op@ =~= hello_op()));
    r
}

impl HelloState {
    /// Nothing was answered yet.
    pub fn new() -> (r: Self)
        ensures
            r.invocations == 0,
    {
        HelloState { invocations: 0 }
    }

    /// Answers one operation call.
    pub fn answer(&mut self, op: &Vec<u8>) -> (r: Json)
        requires
            old(self).invocations < u64::MAX,
        ensures
            r@ == reply_to(op@, old(self).invocations),
            final(self).invocations == (if op@ == hello_op() {
                old(self).invocations + 1
            } else {
                old(self).invocations as int
            }),
    {
        if is_hello(op) {
            self.invocations = self.invocations + 1;
            greet(self.invocations)
        } else {
            let op = lossy_text(op);
            refuse(op.as_str())
        }
    }

    /// Answers one operation call in JSON.
    pub fn run_op(&mut self, op: &Vec<u8>) -> (r: String)
        requires
            old(self).invocations < u64::MAX,
        ensures
            r@ == json::text_of_json(reply_to(op@, old(self).invocations)),
            final(self).invocations == (if op@ == hello_op() {
                old(self).invocations + 1
            } else {
                old(self).invocations as int
            }),
    {
        let reply = self.answer(op);
        json::print(&reply)
    }
}

/// The host makes a success of a greeting, and it carries the number of the
/// call.
pub proof fn law_greeting_is_a_success(call: u64)
    ensures
        dynamic::reply_result(greeting(call)) == tools::success(
            "hello from dynamic plugin (call #"@ + text::decimal(call as nat) + ")"@,
            greeting_value(call),
        ),
{
    let content = JsonView::Text(
        "hello from dynamic plugin (call #"@ + text::decimal(call as nat) + ")"@,
    );
    let e = seq![
        ("kind"@, JsonView::Text("success"@)),
        ("content"@, content),
        ("value"@, greeting_value(call)),
    ];
    lemma_keys_differ();
    json::lemma_entries_lookup(e, "kind"@, 0);
    json::lemma_entries_lookup(e, "content"@, 1);
    json::lemma_entries_lookup(e, "value"@, 2);
}

proof fn lemma_keys_differ()
    ensures
        "kind"@ != "content"@,
        "kind"@ != "value"@,
        "content"@ != "value"@,
        "kind"@ != "code"@,
        "kind"@ != "message"@,
        "code"@ != "message"@,
{
    reveal_strlit("kind");
    reveal_strlit("content");
    reveal_strlit("value");
    reveal_strlit("code");
    reveal_strlit("message");
    assert("kind"@.len() == 4);
    assert("code"@[0] == 'c');
    assert("kind"@[0] == 'k');
    assert("message"@.len() == 7);
    assert("content"@.len() == 7);
}

/// The host makes a failure of the reply to an unknown operation.
pub proof fn law_unknown_operation_is_a_failure(op: Seq<char>)
    ensures
        dynamic::reply_result(unknown_op(op)) == tools::failure(
            "UNKNOWN_OP"@,
            "unknown op: "@ + op,
        ),
{
    let e = seq![
        ("kind"@, JsonView::Text("error"@)),
        ("code"@, JsonView::Text("UNKNOWN_OP"@)),
        ("message"@, JsonView::Text("unknown op: "@ + op)),
    ];
    lemma_keys_differ();
    reveal_strlit("error");
    reveal_strlit("success");
    assert("error"@.len() != "success"@.len());
    json::lemma_entries_lookup(e, "kind"@, 0);
    json::lemma_entries_lookup(e, "code"@, 1);
    json::lemma_entries_lookup(e, "message"@, 2);
}

/// The plugin greets on its one operation, counting the greetings, and answers
/// any other with an error that names it.
pub proof fn law_plugin_greets_and_counts(op: Seq<u8>, invocations: u64)
    requires
        invocations < u64::MAX,
    ensures
        op == seq![104u8, 101u8, 108u8, 108u8, 111u8] ==> {
            let reply = reply_to(op, invocations);
            &&& reply.get("kind"@) == Some(JsonView::Text("success"@))
            &&& reply.get("value"@) matches Some(v) && v.get("message"@) == Some(
                JsonView::Text("hello from dynamic plugin"@),
            ) && v.get("invocations"@) == Some(json::number_of((invocations + 1) as u64))
        },
        op != seq![104u8, 101u8, 108u8, 108u8, 111u8] ==> {
            let reply = reply_to(op, invocations);
            &&& reply.get("kind"@) == Some(JsonView::Text("error"@))
            &&& reply.get("code"@) == Some(JsonView::Text("UNKNOWN_OP"@))
            &&& reply.get("message"@) == Some(
                JsonView::Text("unknown op: "@ + sse::utf8_lossy(op)),
            )
        },
{
    lemma_keys_differ();
    let call = (invocations + 1) as u64;
    let said = JsonView::Text(
        "hello from dynamic plugin (call #"@ + text::decimal(call as nat) + ")"@,
    );
    let e = seq![
        ("kind"@, JsonView::Text("success"@)),
        ("content"@, said),
        ("value"@, greeting_value(call)),
    ];
    json::law_object_holds_its_entries(e, 0);
    json::law_object_holds_its_entries(e, 2);
    reveal_strlit("message");
    reveal_strlit("invocations");
    assert("message"@.len() != "invocations"@.len());
    let v = seq![
        ("message"@, JsonView::Text("hello from dynamic plugin"@)),
        ("invocations"@, json::number_of(call)),
    ];
    json::law_object_holds_its_entries(v, 0);
    json::law_object_holds_its_entries(v, 1);
    let u = seq![
        ("kind"@, JsonView::Text("error"@)),
        ("code"@, JsonView::Text("UNKNOWN_OP"@)),
        ("message"@, JsonView::Text("unknown op: "@ + sse::utf8_lossy(op))),
    ];
    json::law_object_holds_its_entries(u, 0);
    json::law_object_holds_its_entries(u, 1);
    json::law_object_holds_its_entries(u, 2);
}

/// The plugin declares one tool, under its name, that takes nothing and runs
/// the operation that the plugin greets on, and asks for the service that it is
/// registered with.
pub proof fn law_plugin_declares_its_tool()
    ensures
        declaration_of().get("tools"@) == Some(JsonView::Array(seq![tool_of()])),
        declaration_of().get("inject"@) == Some(JsonView::Array(seq![JsonView::Text("tools"@)])),
        tool_of().get("name"@) == Some(JsonView::Text("dsh_hello"@)),
        tool_of().get("exec_id"@) == Some(JsonView::Text("hello"@)),
        tool_of().get("description"@) is Some,
        tool_of().get("parameters"@) == Some(parameters_of()),
        parameters_of().get("type"@) == Some(JsonView::Text("object"@)),
        parameters_of().get("required"@) == Some(JsonView::Array(seq![])),
        parameters_of().get("properties"@) == Some(
            JsonView::Object(Map::<Seq<char>, JsonView>::empty()),
        ),
{
    reveal_strlit("inject");
    reveal_strlit("tools");
    reveal_strlit("name");
    reveal_strlit("description");
    reveal_strlit("parameters");
    reveal_strlit("exec_id");
    reveal_strlit("type");
    reveal_strlit("properties");
    reveal_strlit("required");
    assert("inject"@.len() == 6);
    assert("tools"@.len() == 5);
    assert("name"@.len() == 4);
    assert("description"@.len() == 11);
    assert("parameters"@.len() == 10);
    assert("exec_id"@.len() == 7);
    assert("type"@.len() == 4);
    assert("properties"@.len() == 10);
    assert("required"@.len() == 8);
    let d = seq![
        ("inject"@, JsonView::Array(seq![JsonView::Text("tools"@)])),
        ("tools"@, JsonView::Array(seq![tool_of()])),
    ];
    json::law_object_holds_its_entries(d, 0);
    json::law_object_holds_its_entries(d, 1);
    let t = seq![
        ("name"@, JsonView::Text("dsh_hello"@)),
        (
            "description"@,
            JsonView::Text(
                "Say hello from a dynamically loaded plugin. Returns a greeting and the number of invocations."@,
            ),
        ),
        ("parameters"@, parameters_of()),
        ("exec_id"@, JsonView::Text("hello"@)),
    ];
    json::law_object_holds_its_entries(t, 0);
    json::law_object_holds_its_entries(t, 1);
    json::law_object_holds_its_entries(t, 2);
    json::law_object_holds_its_entries(t, 3);
    let none: Seq<(Seq<char>, JsonView)> = seq![];
    assert(json::entries_map(none) =~= Map::<Seq<char>, JsonView>::empty());
    let p = seq![
        ("type"@, JsonView::Text("object"@)),
        ("properties"@, json::object_of(none)),
        ("required"@, JsonView::Array(seq![])),
    ];
    json::law_object_holds_its_entries(p, 0);
    json::law_object_holds_its_entries(p, 1);
    json::law_object_holds_its_entries(p, 2);
}

} // verus!
