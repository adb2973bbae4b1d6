//! The `mock` provider: deterministic and scriptable, for tests and offline
//! runs. With no script it echoes the last user message as assistant text; a
//! script queues whole chunk sequences, taken one per request.

use crate::json;
use crate::json::Json;
#[allow(unused_imports)]
use crate::llm::assembler;
use crate::text;
use crate::types::llm;
use crate::types::llm::{
    ContentBlock, FinishReason, GenerateOptions, Message, Role, StreamChunk, TokenUsage,
};
use vstd::prelude::*;

#[allow(unused_imports)]
use crate::types::llm::{ContentBlockView, FinishReasonView, MessageView, StreamChunkView};

#[allow(unused_imports)]
use crate::llm::assembler::{AssemblerView, SlotStateView};

verus! {

/// A scriptable provider.
#[derive(Debug)]
pub struct MockAdapter {
    /// One chunk sequence per request, consumed in order.
    script: Vec<Vec<StreamChunk>>,
    /// When true, simulate a fixed small token usage on every response.
    report_usage: bool,
}

/// What a [`MockAdapter`] will answer.
#[verifier::ext_equal]
pub struct MockView {
    pub script: Seq<Seq<StreamChunkView>>,
    pub report_usage: bool,
}

/// What a script holds.
pub open spec fn script_view(script: Seq<Vec<StreamChunk>>) -> Seq<Seq<StreamChunkView>> {
    Seq::new(script.len(), |i: int| text::views(script[i]@))
}

impl View for MockAdapter {
    type V = MockView;

    closed spec fn view(&self) -> MockView {
        MockView { script: script_view(self.script@), report_usage: self.report_usage }
    }
}

/// The chunks that stream `text` as one text block.
pub open spec fn text_chunks(text: Seq<char>) -> Seq<StreamChunkView> {
    seq![
        StreamChunkView::BlockStart { index: 0, block_type: "text"@ },
        StreamChunkView::TextDelta { index: 0, text },
        StreamChunkView::BlockEnd { index: 0, block: ContentBlockView::Text { text } },
        StreamChunkView::Finish { reason: FinishReasonView::Stop },
    ]
}

/// The chunks that stream one tool call.
pub open spec fn tool_call_chunks(
    id: Seq<char>,
    name: Seq<char>,
    arguments: Seq<char>,
) -> Seq<StreamChunkView> {
    seq![
        StreamChunkView::BlockStart { index: 0, block_type: "tool-call"@ },
        StreamChunkView::ToolCallDelta {
            index: 0,
            id,
            name: Some(name),
            arguments_delta: arguments,
        },
        StreamChunkView::BlockEnd {
            index: 0,
            block: ContentBlockView::ToolCall { id, name, arguments },
        },
        StreamChunkView::Finish { reason: FinishReasonView::ToolCalls },
    ]
}

/// The text of the last user message, or nothing.
pub open spec fn last_user_text(messages: Seq<MessageView>) -> Seq<char>
    decreases messages.len(),
{
    if messages.len() == 0 {
        seq![]
    } else if messages.last().role == Role::User {
        llm::blocks_text(messages.last().content)
    } else {
        last_user_text(messages.drop_last())
    }
}

/// The token usage that a reporting provider simulates.
pub open spec fn simulated_usage() -> TokenUsage {
    TokenUsage { input_tokens: 12, output_tokens: 7, ..llm::no_usage() }
}

impl MockView {
    /// The chunks of the next response: the next of the script, or the echo
    /// of the last user message; then the usage, where it is reported.
    pub open spec fn response(self, messages: Seq<MessageView>) -> Seq<StreamChunkView> {
        let chunks = if self.script.len() > 0 {
            self.script[0]
        } else {
            text_chunks(last_user_text(messages))
        };
        if self.report_usage {
            chunks.push(StreamChunkView::Usage { usage: simulated_usage() })
        } else {
            chunks
        }
    }

    /// The provider after that response.
    pub open spec fn after_response(self) -> MockView {
        if self.script.len() > 0 {
            MockView { script: self.script.skip(1), ..self }
        } else {
            self
        }
    }
}

impl Default for MockAdapter {
    fn default() -> (r: Self)
        ensures
            r@ == (MockView { script: seq![], report_usage: false }),
    {
        MockAdapter::new()
    }
}

impl MockAdapter {
    /// A provider that echoes.
    pub fn new() -> (r: Self)
        ensures
            r@ == (MockView { script: seq![], report_usage: false }),
    {
        let r = MockAdapter { script: Vec::new(), report_usage: false };
        assert(r@.script =~= seq![]);
        r
    }

    /// A provider that answers the next requests with `turns`.
    pub fn scripted(turns: Vec<Vec<StreamChunk>>) -> (r: Self)
        ensures
            r@ == (MockView { script: script_view(turns@), report_usage: false }),
    {
        MockAdapter { script: turns, report_usage: false }
    }

    /// The same provider, which also reports usage.
    pub fn with_usage(self) -> (r: Self)
        ensures
            r@ == (MockView { report_usage: true, ..self@ }),
    {
        MockAdapter { script: self.script, report_usage: true }
    }

    /// The chunks that stream the given text as an assistant text block.
    pub fn text_response(text: &str) -> (r: Vec<StreamChunk>)
        ensures
            text::views(r@) == text_chunks(text@),
    {
        let mut out: Vec<StreamChunk> = Vec::new();
        out.push(StreamChunk::BlockStart { index: 0, block_type: "text".to_owned() });
        out.push(StreamChunk::TextDelta { index: 0, text: text.to_owned() });
        out.push(
            StreamChunk::BlockEnd { index: 0, block: ContentBlock::Text { text: text.to_owned() } },
        );
        out.push(StreamChunk::Finish { reason: FinishReason::Stop });
        assert(text::views(out@) =~= text_chunks(text@));
        out
    }

    /// One tool-call chunk sequence for the given call.
    pub fn tool_call_response(id: &str, name: &str, arguments: &Json) -> (r: Vec<StreamChunk>)
        ensures
            text::views(r@) == tool_call_chunks(id@, name@, json::text_of_json(arguments@)),
    {
        let printed = json::print(arguments);
        MockAdapter::raw_tool_call_response(id, name, printed.as_str())
    }

    /// One tool-call chunk sequence for the given call, whose arguments are
    /// given as text.
    pub fn raw_tool_call_response(id: &str, name: &str, arguments: &str) -> (r: Vec<StreamChunk>)
        ensures
            text::views(r@) == tool_call_chunks(id@, name@, arguments@),
    {
        let mut out: Vec<StreamChunk> = Vec::new();
        out.push(StreamChunk::BlockStart { index: 0, block_type: "tool-call".to_owned() });
        out.push(
            StreamChunk::ToolCallDelta {
                index: 0,
                id: id.to_owned(),
                name: Some(name.to_owned()),
                arguments_delta: arguments.to_owned(),
            },
        );
        out.push(
            StreamChunk::BlockEnd {
                index: 0,
                block: ContentBlock::ToolCall {
                    id: id.to_owned(),
                    name: name.to_owned(),
                    arguments: arguments.to_owned(),
                },
            },
        );
        out.push(StreamChunk::Finish { reason: FinishReason::ToolCalls });
        assert(text::views(out@) =~= tool_call_chunks(id@, name@, arguments@));
        out
    }

    /// The name of this provider.
    pub fn name(&self) -> (r: &'static str)
        ensures
            r@ == "mock"@,
    {
        "mock"
    }

    /// Takes the chunks of the response to one request.
    pub fn next_response(&mut self, options: &GenerateOptions) -> (r: Vec<StreamChunk>)
        ensures
            text::views(r@) == old(self)@.response(options@.messages),
            final(self)@ == old(self)@.after_response(),
    {
        let mut chunks = if self.script.len() > 0 {
            let ghost before = self.script@;
            let first = self.script.remove(0);
            assert(script_view(self.script@) =~= script_view(before).skip(1));
            assert(script_view(before)[0] == text::views(first@));
            first
        } else {
            let echoed = last_user_message_text(&options.messages);
            MockAdapter::text_response(echoed.as_str())
        };
        if self.report_usage {
            let ghost before = text::views(chunks@);
            chunks.push(
                StreamChunk::Usage {
                    usage: TokenUsage {
                        input_tokens: 12,
                        output_tokens: 7,
                        cache_read_tokens: None,
                        cache_write_tokens: None,
                        reasoning_tokens: None,
                    },
                },
            );
            assert(text::views(chunks@) =~= before.push(
                StreamChunkView::Usage { usage: simulated_usage() },
            ));
        }
        chunks
    }
}

/// The text of the last user message, or nothing.
fn last_user_message_text(messages: &Vec<Message>) -> (r: String)
    ensures
        r@ == last_user_text(text::views(messages@)),
{
    let ghost all = text::views(messages@);
    let mut i: usize = messages.len();
    assert(all.take(i as int) =~= all);
    while i > 0
        invariant
            i <= messages@.len(),
            all == text::views(messages@),
            last_user_text(all) == last_user_text(all.take(i as int)),
        decreases i,
    {
        i = i - 1;
        assert(all.take(i + 1).drop_last() =~= all.take(i as int));
        assert(all.take(i + 1).last() == messages@[i as int]@);
        if messages[i].role == Role::User {
            return messages[i].text();
        }
    }
    String::new()
}

/// What the assembler makes of a text response: one text block, as it was
/// given, and a normal end.
pub proof fn law_text_response_assembles(text: Seq<char>)
    ensures
        AssemblerView::empty().push_all(text_chunks(text)).blocks()
            == seq![ContentBlockView::Text { text }],
        AssemblerView::empty().push_all(text_chunks(text)).finish == Some(FinishReasonView::Stop),
{
    lemma_one_block_response(
        text_chunks(text),
        ContentBlockView::Text { text },
    );
}

/// What the assembler makes of a tool-call response: the one call, with its
/// arguments as they were given, and a stop for tool calls.
pub proof fn law_tool_call_response_assembles(
    id: Seq<char>,
    name: Seq<char>,
    arguments: Seq<char>,
)
    ensures
        AssemblerView::empty().push_all(tool_call_chunks(id, name, arguments)).blocks()
            == seq![ContentBlockView::ToolCall { id, name, arguments }],
        AssemblerView::empty().push_all(tool_call_chunks(id, name, arguments)).finish == Some(
            FinishReasonView::ToolCalls,
        ),
{
    lemma_one_block_response(
        tool_call_chunks(id, name, arguments),
        ContentBlockView::ToolCall { id, name, arguments },
    );
}

proof fn lemma_one_block_response(
    chunks: Seq<StreamChunkView>,
    block: ContentBlockView,
)
    requires
        chunks.len() == 4,
        chunks[0] is BlockStart && chunks[0]->BlockStart_index == 0,
        match chunks[1] {
            StreamChunkView::TextDelta { index, .. } => index == 0,
            StreamChunkView::ToolCallDelta { index, .. } => index == 0,
            _ => false,
        },
        chunks[2] == (StreamChunkView::BlockEnd { index: 0, block }),
        chunks[3] is Finish,
        chunks[3]->reason != FinishReasonView::MaxTokens,
    ensures
        AssemblerView::empty().push_all(chunks).blocks() == seq![block],
        AssemblerView::empty().push_all(chunks).finish == Some(chunks[3]->reason),
{
    let e = AssemblerView::empty();
    reveal_with_fuel(AssemblerView::push_all, 5);
    let s0 = chunks.take(0);
    let s1 = chunks.take(1);
    let s2 = chunks.take(2);
    let s3 = chunks.take(3);
    assert(chunks.drop_last() =~= s3);
    assert(s3.drop_last() =~= s2);
    assert(s2.drop_last() =~= s1);
    assert(s1.drop_last() =~= s0);
    let a1 = e.push_all(s1);
    assert(a1 == e.push(chunks[0]));
    assert(a1.slots.len() == 1 && a1.slots[0].index == 0);
    let a2 = e.push_all(s2);
    assert(a2 == a1.push(chunks[1]));
    assert(assembler::has_slot(a1.slots, 0));
    assert(assembler::slot_at(a1.slots, 0) == 0);
    assert(a2.slots.len() == 1 && a2.slots[0].index == 0 && a2.slots[0].state is Open);
    let a3 = e.push_all(s3);
    assert(a3 == a2.push(chunks[2]));
    assert(assembler::has_slot(a2.slots, 0));
    assert(assembler::slot_at(a2.slots, 0) == 0);
    assert(a3.slots.len() == 1 && a3.slots[0].state == SlotStateView::Closed(block));
    let a4 = e.push_all(chunks);
    assert(a4 == a3.push(chunks[3]));
    assert(a4.blocks() =~= seq![block]);
}

/// A script is played in order, one response for each request; without one the
/// last message of the user is echoed, whatever was said after it. Usage comes
/// behind the response, where it is reported.
pub proof fn law_script_is_played_in_order(m: MockView, messages: Seq<MessageView>)
    ensures
        m.script.len() > 0 && !m.report_usage ==> m.response(messages) == m.script[0],
        m.script.len() > 0 ==> m.after_response().script == m.script.drop_first(),
        m.script.len() == 0 ==> m.after_response() == m,
        m.after_response().report_usage == m.report_usage,
        m.report_usage ==> m.response(messages).drop_last() == (MockView {
            report_usage: false,
            ..m
        }).response(messages) && m.response(messages).last() is Usage,
        m.script.len() == 0 && !m.report_usage && messages.len() > 0 && messages.last().role
            == Role::User ==> m.response(messages) == text_chunks(
            llm::blocks_text(messages.last().content),
        ),
        m.script.len() == 0 && messages.len() > 0 && messages.last().role != Role::User
            ==> m.response(messages) == m.response(messages.drop_last()),
        m.script.len() == 0 && !m.report_usage && messages.len() == 0 ==> m.response(messages)
            == text_chunks(seq![]),
{
    if m.script.len() > 0 {
        assert(m.script.skip(1) =~= m.script.drop_first());
    }
    let quiet = MockView { report_usage: false, ..m };
    assert(m.report_usage ==> m.response(messages).drop_last() =~= quiet.response(messages));
}

/// A response of one text says that text and stops; one of a tool call asks for
/// that call and waits for its result. Either is one block, which it opens, says
/// in one piece and closes.
pub proof fn law_response_says_what_was_scripted(
    said: Seq<char>,
    id: Seq<char>,
    name: Seq<char>,
    arguments: Seq<char>,
)
    ensures
        ({
            let c = text_chunks(said);
            &&& c.len() == 4
            &&& c[0] == (StreamChunkView::BlockStart { index: 0, block_type: "text"@ })
            &&& c[1] == (StreamChunkView::TextDelta { index: 0, text: said })
            &&& c[2] == (StreamChunkView::BlockEnd {
                index: 0,
                block: ContentBlockView::Text { text: said },
            })
            &&& c[3] == (StreamChunkView::Finish { reason: FinishReasonView::Stop })
        }),
        ({
            let c = tool_call_chunks(id, name, arguments);
            &&& c.len() == 4
            &&& c[0] == (StreamChunkView::BlockStart { index: 0, block_type: "tool-call"@ })
            &&& c[1] == (StreamChunkView::ToolCallDelta {
                index: 0,
                id,
                name: Some(name),
                arguments_delta: arguments,
            })
            &&& c[2] == (StreamChunkView::BlockEnd {
                index: 0,
                block: ContentBlockView::ToolCall { id, name, arguments },
            })
            &&& c[3] == (StreamChunkView::Finish { reason: FinishReasonView::ToolCalls })
        }),
        simulated_usage().input_tokens == 12 && simulated_usage().output_tokens == 7,
{
}

} // verus!
