//! The conversation as a terminal shows it.
//!
//! A [`ChatState`] is a projection of the session log. Streaming assistant text
//! is shown live: text deltas accumulate in `pending` until the assistant
//! message of the step finalizes it.

use crate::json;
use crate::json::Json;
use crate::session::render::show_reason;
use crate::text;
use crate::text::{clone_opt, clone_vec, concat2, str_eq};
use crate::types::llm::{ContentBlock, Message, StreamChunk};
use crate::types::session::{SessionEvent, SessionEventData, TurnEndReason};
use vstd::prelude::*;

#[allow(unused_imports)]
use crate::json::JsonView;
#[allow(unused_imports)]
use crate::session::render;
#[allow(unused_imports)]
use crate::types::llm;
#[allow(unused_imports)]
use crate::types::llm::{ContentBlockView, MessageView, StreamChunkView};
#[allow(unused_imports)]
use crate::types::session::{SessionEventDataView, TurnEndReasonView};

verus! {

/// One renderable line of the conversation.
#[derive(Debug, PartialEq)]
pub enum ChatItem {
    User { text: String },
    Assistant { text: String },
    ToolCall { name: String, arguments: String },
    ToolResult { text: String, is_error: bool },
    System { text: String },
}

/// What a [`ChatItem`] says.
#[verifier::ext_equal]
pub enum ChatItemView {
    User { text: Seq<char> },
    Assistant { text: Seq<char> },
    ToolCall { name: Seq<char>, arguments: Seq<char> },
    ToolResult { text: Seq<char>, is_error: bool },
    System { text: Seq<char> },
}

impl View for ChatItem {
    type V = ChatItemView;

    open spec fn view(&self) -> ChatItemView {
        match *self {
            ChatItem::User { text } => ChatItemView::User { text: text@ },
            ChatItem::Assistant { text } => ChatItemView::Assistant { text: text@ },
            ChatItem::ToolCall { name, arguments } => ChatItemView::ToolCall { name: name@, arguments: arguments@ },
            ChatItem::ToolResult { text, is_error } => ChatItemView::ToolResult { text: text@, is_error },
            ChatItem::System { text } => ChatItemView::System { text: text@ },
        }
    }
}

impl Clone for ChatItem {
    fn clone(&self) -> (r: Self)
        ensures
            r@ == self@,
    {
        match self {
            ChatItem::User { text } => ChatItem::User { text: text.clone() },
            ChatItem::Assistant { text } => ChatItem::Assistant { text: text.clone() },
            ChatItem::ToolCall { name, arguments } => ChatItem::ToolCall { name: name.clone(), arguments: arguments.clone() },
            ChatItem::ToolResult { text, is_error } => ChatItem::ToolResult { text: text.clone(), is_error: *is_error },
            ChatItem::System { text } => ChatItem::System { text: text.clone() },
        }
    }
}

/// The projection of a session log.
#[derive(Debug, PartialEq)]
pub struct ChatState {
    pub items: Vec<ChatItem>,
    /// Streaming assistant text of the current step, not yet finalized.
    pub pending: String,
    pub session_id: Option<String>,
}

/// What a [`ChatState`] says.
#[verifier::ext_equal]
pub struct ChatStateView {
    pub items: Seq<ChatItemView>,
    pub pending: Seq<char>,
    pub session_id: Option<Seq<char>>,
}

impl View for ChatState {
    type V = ChatStateView;

    open spec fn view(&self) -> ChatStateView {
        ChatStateView {
            items: text::views(self.items@),
            pending: self.pending@,
            session_id: text::opt_view(self.session_id),
        }
    }
}

impl Clone for ChatState {
    fn clone(&self) -> (r: Self)
        ensures
            r@ == self@,
    {
        ChatState {
            items: clone_vec(&self.items),
            pending: self.pending.clone(),
            session_id: clone_opt(&self.session_id),
        }
    }
}

/// The text nested inside the tool results of a message.
pub open spec fn nested_text(blocks: Seq<ContentBlockView>) -> Seq<char>
    decreases blocks.len(),
{
    if blocks.len() == 0 {
        seq![]
    } else {
        match blocks.last() {
            ContentBlockView::ToolResult { content, .. } => nested_text(blocks.drop_last())
                + llm::blocks_text(content),
            _ => nested_text(blocks.drop_last()),
        }
    }
}

/// Whether a block is a failed tool's result.
pub open spec fn is_failed_result(block: ContentBlockView) -> bool {
    block matches ContentBlockView::ToolResult { is_error: Some(true), .. }
}

/// The text nested inside the tool results of a message.
pub fn tool_result_text(message: &Message) -> (r: String)
    ensures
        r@ == nested_text(message@.content),
{
    let ghost all = text::views(message.content@);
    let mut out = String::new();
    assert(all.take(0) =~= seq![]);
    for i in 0..message.content.len()
        invariant
            all == text::views(message.content@),
            out@ == nested_text(all.take(i as int)),
    {
        assert(all.take(i + 1).drop_last() =~= all.take(i as int));
        assert(all.take(i + 1).last() == message.content@[i as int]@);
        if let ContentBlock::ToolResult { content, .. } = &message.content[i] {
            proof {
                llm::lemma_block_views(content@);
            }
            let inner = llm::text_of_blocks(content);
            out.push_str(inner.as_str());
        }
    }
    assert(all.take(all.len() as int) =~= all);
    out
}

/// Whether a message holds a failed tool's result.
pub fn message_is_error(message: &Message) -> (r: bool)
    ensures
        r == exists|i: int|
            0 <= i < message@.content.len() && is_failed_result(#[trigger] message@.content[i]),
{
    for i in 0..message.content.len()
        invariant
            forall|k: int|
                0 <= k < i ==> !is_failed_result(#[trigger] message@.content[k]),
    {
        let failed = matches!(
            &message.content[i],
            ContentBlock::ToolResult { is_error: Some(true), .. }
        );
        assert(message@.content[i as int] == message.content@[i as int]@);
        if failed {
            return true;
        }
    }
    false
}

/// The arguments of a call as they are shown: printed again where they are
/// JSON, as they are where not.
pub open spec fn call_arguments(arguments: Seq<char>, parsed: Option<JsonView>) -> Seq<char> {
    match parsed {
        Some(v) => json::text_of_json(v),
        None => arguments,
    }
}

impl ChatStateView {
    /// The projection of an empty log.
    pub open spec fn empty() -> ChatStateView {
        ChatStateView { items: seq![], pending: seq![], session_id: None }
    }

    /// With one more line.
    pub open spec fn shown(self, item: ChatItemView) -> ChatStateView {
        ChatStateView { items: self.items.push(item), ..self }
    }

    /// With the streaming text promoted to a line of its own.
    pub open spec fn flushed(self) -> ChatStateView {
        if self.pending.len() == 0 {
            self
        } else {
            ChatStateView {
                items: self.items.push(ChatItemView::Assistant { text: self.pending }),
                pending: seq![],
                ..self
            }
        }
    }

    /// With one more entry of the log folded in.
    pub open spec fn applied(self, data: SessionEventDataView) -> ChatStateView {
        match data {
            SessionEventDataView::UserMessage { message } => {
                let text = llm::blocks_text(message.content);
                if text.len() == 0 {
                    self
                } else {
                    self.flushed().shown(ChatItemView::User { text })
                }
            },
            SessionEventDataView::AssistantChunk {
                chunk: StreamChunkView::TextDelta { text, .. },
                ..
            } => ChatStateView { pending: self.pending + text, ..self },
            SessionEventDataView::AssistantMessage { message, .. } => {
                let text = llm::blocks_text(message.content);
                let settled = ChatStateView { pending: seq![], ..self };
                if text.len() == 0 {
                    settled
                } else {
                    settled.shown(ChatItemView::Assistant { text })
                }
            },
            SessionEventDataView::ToolCall { name, arguments, .. } => self.shown(
                ChatItemView::ToolCall {
                    name,
                    arguments: call_arguments(arguments, json::parsed(arguments)),
                },
            ),
            SessionEventDataView::ToolResult { message, .. } => self.shown(
                ChatItemView::ToolResult {
                    text: nested_text(message.content),
                    is_error: exists|i: int|
                        0 <= i < message.content.len() && is_failed_result(
                            #[trigger] message.content[i],
                        ),
                },
            ),
            SessionEventDataView::TurnEnd { reason, .. } => if reason
                == TurnEndReasonView::Completed {
                self
            } else {
                self.flushed().shown(
                    ChatItemView::System {
                        text: "\u{2014} turn ended: "@ + render::reason_text(reason),
                    },
                )
            },
            _ => self,
        }
    }

    /// Whether folding an entry in changes what is visible.
    pub open spec fn changed_by(self, data: SessionEventDataView) -> bool {
        match data {
            SessionEventDataView::UserMessage { message } => llm::blocks_text(
                message.content,
            ).len() > 0,
            SessionEventDataView::AssistantChunk {
                chunk: StreamChunkView::TextDelta { text, .. },
                ..
            } => text.len() > 0,
            SessionEventDataView::AssistantMessage { message, .. } => llm::blocks_text(
                message.content,
            ).len() > 0 || self.pending.len() > 0,
            SessionEventDataView::ToolCall { .. } => true,
            SessionEventDataView::ToolResult { .. } => true,
            SessionEventDataView::TurnEnd { reason, .. } => reason != TurnEndReasonView::Completed,
            _ => false,
        }
    }
}

impl Default for ChatState {
    fn default() -> (r: Self)
        ensures
            r@ == ChatStateView::empty(),
    {
        let r = ChatState { items: Vec::new(), pending: String::new(), session_id: None };
        assert(r@ =~= ChatStateView::empty());
        r
    }
}

impl ChatState {
    fn show(&mut self, item: ChatItem)
        ensures
            final(self)@ == old(self)@.shown(item@),
    {
        let ghost before = self@;
        self.items.push(item);
        assert(self@ =~= before.shown(item@));
    }

    /// Promotes any unfinalized streaming text into a finalized assistant line.
    pub fn flush_pending(&mut self)
        ensures
            final(self)@ == old(self)@.flushed(),
    {
        let ghost before = self@;
        if !self.pending.as_str().is_empty() {
            let mut text = String::new();
            std::mem::swap(&mut text, &mut self.pending);
            self.items.push(ChatItem::Assistant { text });
            assert(self@ =~= before.flushed());
        }
    }

    /// How many lines there are.
    pub fn item_count(&self) -> (r: usize)
        ensures
            r == self@.items.len(),
    {
        self.items.len()
    }

    /// Folds one committed entry into the projection. Returns whether the
    /// visible state changed.
    pub fn apply_event(&mut self, event: &SessionEvent) -> (r: bool)
        ensures
            final(self)@ == old(self)@.applied(event@.data),
            r == (final(self)@.items != old(self)@.items || final(self)@.pending
                != old(self)@.pending),
    {
        let ghost before = self@;
        let changed = self.fold(&event.data);
        proof {
            law_change_is_told(before, event@.data);
        }
        changed
    }

    fn fold(&mut self, data: &SessionEventData) -> (r: bool)
        ensures
            final(self)@ == old(self)@.applied(data@),
            r == old(self)@.changed_by(data@),
    {
        match data {
            SessionEventData::UserMessage { message } => {
                let text = message.text();
                if text.as_str().is_empty() {
                    return false;
                }
                self.flush_pending();
                self.show(ChatItem::User { text });
                true
            },
            SessionEventData::AssistantChunk { chunk, .. } => match chunk {
                StreamChunk::TextDelta { text, .. } => {
                    self.pending.push_str(text.as_str());
                    !text.as_str().is_empty()
                },
                _ => false,
            },
            SessionEventData::AssistantMessage { message, .. } => {
                let text = message.text();
                let streamed = !self.pending.as_str().is_empty();
                self.pending = String::new();
                if text.as_str().is_empty() {
                    return streamed;
                }
                self.show(ChatItem::Assistant { text });
                true
            },
            SessionEventData::ToolCall { name, arguments, .. } => {
                let shown = match json::parse(arguments.as_str()) {
                    Some(v) => json::print(&v),
                    None => arguments.clone(),
                };
                self.show(ChatItem::ToolCall { name: name.clone(), arguments: shown });
                true
            },
            SessionEventData::ToolResult { message, .. } => {
                let text = tool_result_text(message);
                let is_error = message_is_error(message);
                self.show(ChatItem::ToolResult { text, is_error });
                true
            },
            SessionEventData::TurnEnd { reason, .. } => {
                let completed = matches!(reason, TurnEndReason::Completed);
                if completed {
                    return false;
                }
                self.flush_pending();
                let reason = show_reason(reason);
                let text = concat2("\u{2014} turn ended: ", reason.as_str());
                self.show(ChatItem::System { text });
                true
            },
            _ => false,
        }
    }
}

/// The entry that a `session/event` payload announces for that session: null
/// where it announces none, nothing where it is about another session.
pub open spec fn announced(payload: JsonView, session_id: Seq<char>) -> Option<JsonView> {
    let seen = match payload.str_at("session"@) {
        Some(s) => s,
        None => seq![],
    };
    if seen == session_id {
        Some(
            match payload.get("event"@) {
                Some(e) => e,
                None => JsonView::Null,
            },
        )
    } else {
        None
    }
}

/// Reads the entry that a `session/event` payload announces for that session.
pub fn announced_event(payload: &Json, session_id: &str) -> (r: Option<Json>)
    ensures
        text::opt_view(r) == announced(payload@, session_id@),
{
    let ours = match payload.str_at("session") {
        Some(s) => str_eq(s, session_id),
        None => {
            let none = str_eq("", session_id);
            proof {
                reveal_strlit("");
                assert(""@ =~= seq![]);
            }
            none
        },
    };
    if ours {
        match payload.get("event") {
            Some(e) => Some(e.clone()),
            None => Some(Json::Null),
        }
    } else {
        None
    }
}

// ---------------------------------------------------------------------------
// laws
// ---------------------------------------------------------------------------

/// The projection of a log.
pub open spec fn projection(
    state: ChatStateView,
    events: Seq<SessionEventDataView>,
) -> ChatStateView
    decreases events.len(),
{
    if events.len() == 0 {
        state
    } else {
        projection(state, events.drop_last()).applied(events.last())
    }
}

/// A line that is shown stays where it is, as it is.
pub proof fn law_shown_lines_stay(state: ChatStateView, data: SessionEventDataView)
    ensures
        state.items.is_prefix_of(state.applied(data).items),
        state.applied(data).session_id == state.session_id,
{
}

/// An entry changes what is visible exactly where it adds a line or changes the
/// streaming text.
pub proof fn law_change_is_told(state: ChatStateView, data: SessionEventDataView)
    ensures
        state.changed_by(data) == (state.applied(data).items != state.items || state.applied(
            data,
        ).pending != state.pending),
{
    let after = state.applied(data);
    match data {
        SessionEventDataView::AssistantChunk {
            chunk: StreamChunkView::TextDelta { text: t, .. },
            ..
        } => {
            if t.len() == 0 {
                assert(state.pending + t =~= state.pending);
            } else {
                assert(after.pending.len() == state.pending.len() + t.len());
            }
        },
        SessionEventDataView::AssistantMessage { message, .. } => {
            if state.pending.len() == 0 {
                assert(state.pending =~= seq![]);
            } else {
                assert(after.pending.len() == 0);
            }
            if llm::blocks_text(message.content).len() > 0 {
                assert(after.items.len() == state.items.len() + 1);
            }
        },
        _ => {
            if state.changed_by(data) {
                assert(after.items.len() > state.items.len());
            }
        },
    }
}

/// Text deltas accumulate, and the assembled message takes their place.
pub proof fn law_message_replaces_deltas(
    state: ChatStateView,
    turn: u64,
    step: u64,
    index: usize,
    deltas: Seq<Seq<char>>,
    message: MessageView,
)
    requires
        llm::blocks_text(message.content).len() > 0,
    ensures
        ({
            let chunks = Seq::new(
                deltas.len(),
                |i: int|
                    SessionEventDataView::AssistantChunk {
                        turn,
                        step,
                        chunk: StreamChunkView::TextDelta { index, text: deltas[i] },
                    },
            );
            let streamed = projection(state, chunks);
            let done = streamed.applied(
                SessionEventDataView::AssistantMessage {
                    turn,
                    step,
                    message,
                    usage: None,
                    interrupted: None,
                },
            );
            &&& streamed.pending == state.pending + text::join(deltas, seq![])
            &&& streamed.items == state.items
            &&& done.pending == Seq::<char>::empty()
            &&& done.items == state.items.push(
                ChatItemView::Assistant { text: llm::blocks_text(message.content) },
            )
        }),
    decreases deltas.len(),
{
    let chunk_of = |i: int|
        SessionEventDataView::AssistantChunk {
            turn,
            step,
            chunk: StreamChunkView::TextDelta { index, text: deltas[i] },
        };
    let chunks = Seq::new(deltas.len(), chunk_of);
    if deltas.len() == 0 {
        assert(state.pending + text::join(deltas, seq![]) =~= state.pending);
    } else {
        let before = deltas.drop_last();
        law_message_replaces_deltas(state, turn, step, index, before, message);
        assert(chunks.drop_last() =~= Seq::new(
            before.len(),
            |i: int|
                SessionEventDataView::AssistantChunk {
                    turn,
                    step,
                    chunk: StreamChunkView::TextDelta { index, text: before[i] },
                },
        ));
        assert(chunks.last() == chunk_of(deltas.len() - 1));
        assert(text::join(deltas, seq![]) =~= text::join(before, seq![]) + deltas.last());
        assert(state.pending + text::join(deltas, seq![]) =~= (state.pending + text::join(
            before,
            seq![],
        )) + deltas.last());
    }
}

/// Whether `after` is `before` with one more line, behind the text that was
/// streaming, which stands as a line of its own where there was any.
pub open spec fn shows_behind_streamed(
    before: ChatStateView,
    after: ChatStateView,
    item: ChatItemView,
) -> bool {
    &&& after.pending.len() == 0
    &&& before.pending.len() == 0 ==> after.items == before.items.push(item)
    &&& before.pending.len() > 0 ==> after.items == before.items.push(
        ChatItemView::Assistant { text: before.pending },
    ).push(item)
}

/// Each entry of the log is shown as what it is: what the user said, what the
/// assistant said, a call with its name and arguments, what a tool returned and
/// whether it failed, and why a turn ended that did not complete. Everything else
/// shows nothing.
pub proof fn law_entries_become_lines(state: ChatStateView, data: SessionEventDataView)
    ensures
        match data {
            SessionEventDataView::UserMessage { message } => {
                let said = llm::blocks_text(message.content);
                if said.len() == 0 {
                    state.applied(data) == state
                } else {
                    shows_behind_streamed(
                        state,
                        state.applied(data),
                        ChatItemView::User { text: said },
                    )
                }
            },
            SessionEventDataView::AssistantMessage { message, .. } => {
                let said = llm::blocks_text(message.content);
                &&& state.applied(data).pending.len() == 0
                &&& said.len() == 0 ==> state.applied(data).items == state.items
                &&& said.len() > 0 ==> state.applied(data).items == state.items.push(
                    ChatItemView::Assistant { text: said },
                )
            },
            SessionEventDataView::AssistantChunk { chunk, .. } => state.applied(data).items
                == state.items && (chunk matches StreamChunkView::TextDelta { text, .. }
                ==> state.applied(data).pending == state.pending + text) && (!(chunk is TextDelta)
                ==> state.applied(data) == state),
            SessionEventDataView::ToolCall { name, arguments, .. } => state.applied(data)
                == (ChatStateView {
                items: state.items.push(
                    ChatItemView::ToolCall {
                        name,
                        arguments: match json::json_of_text(arguments) {
                            Ok(v) => json::text_of_json(v),
                            Err(_) => arguments,
                        },
                    },
                ),
                ..state
            }),
            SessionEventDataView::ToolResult { message, .. } => {
                let after = state.applied(data);
                &&& after.pending == state.pending
                &&& after.items.len() == state.items.len() + 1
                &&& after.items.drop_last() == state.items
                &&& after.items.last() matches ChatItemView::ToolResult { text, is_error } && text
                    == nested_text(message.content) && is_error == exists|i: int|
                    0 <= i < message.content.len() && ((
                    #[trigger] message.content[i]) matches ContentBlockView::ToolResult {
                        is_error: Some(true),
                        ..
                    })
            },
            SessionEventDataView::TurnEnd { reason, .. } => if reason
                == TurnEndReasonView::Completed {
                state.applied(data) == state
            } else {
                shows_behind_streamed(
                    state,
                    state.applied(data),
                    ChatItemView::System {
                        text: "\u{2014} turn ended: "@ + render::reason_text(reason),
                    },
                )
            },
            _ => state.applied(data) == state,
        },
{
    if let SessionEventDataView::ToolResult { message, .. } = data {
        assert(state.applied(data).items.drop_last() =~= state.items);
        assert(forall|i: int|
            0 <= i < message.content.len() ==> is_failed_result(#[trigger] message.content[i]) == (
            message.content[i] matches ContentBlockView::ToolResult {
                is_error: Some(true),
                ..
            }));
    }
}

/// What is shown of a tool's answer is the texts inside its results, one after
/// the other.
pub proof fn law_nested_texts_are_shown(blocks: Seq<ContentBlockView>, b: ContentBlockView)
    ensures
        nested_text(seq![]) == Seq::<char>::empty(),
        match b {
            ContentBlockView::ToolResult { content, .. } => nested_text(blocks.push(b))
                == nested_text(blocks) + llm::blocks_text(content),
            _ => nested_text(blocks.push(b)) == nested_text(blocks),
        },
{
    assert(blocks.push(b).drop_last() =~= blocks);
}

/// An announcement is taken up by the session that it names, with the entry that
/// it carries, and by no other.
pub proof fn law_announcement_is_for_its_session(
    payload: JsonView,
    session: Seq<char>,
    other: Seq<char>,
)
    requires
        payload.get("session"@) == Some(JsonView::Text(session)),
    ensures
        payload.get("event"@) matches Some(e) ==> announced(payload, session) == Some(e),
        payload.get("event"@) is None ==> announced(payload, session) == Some(JsonView::Null),
        other != session ==> announced(payload, other) is None,
{
}

} // verus!
