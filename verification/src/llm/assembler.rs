//! [`BlockAssembler`]: folds a raw [`StreamChunk`] stream back into complete
//! [`ContentBlock`]s, usage, finish reason and an assistant [`Message`].
//!
//! The agent loop logs raw chunks for replay while feeding the same chunks
//! through the assembler, then stores the assembled content.

use crate::text;
use crate::text::{blank, clone_opt, str_eq};
use crate::types::llm::{
    ContentBlock, FinishReason, Message, MessageSource, Role, StreamChunk, TokenUsage,
};
use vstd::prelude::*;

#[allow(unused_imports)]
use crate::types::llm::{
    ContentBlockView, FinishReasonView, MessageSourceView, MessageView, StreamChunkView,
};

verus! {

/// A block that is still being streamed.
#[derive(Debug)]
pub enum PartialBlock {
    Text { text: String },
    Reasoning { text: String },
    ToolCall { id: String, name: Option<String>, arguments: String },
}

/// What a [`PartialBlock`] says.
#[verifier::ext_equal]
pub enum PartialBlockView {
    Text { text: Seq<char> },
    Reasoning { text: Seq<char> },
    ToolCall { id: Seq<char>, name: Option<Seq<char>>, arguments: Seq<char> },
}

impl View for PartialBlock {
    type V = PartialBlockView;

    open spec fn view(&self) -> PartialBlockView {
        match *self {
            PartialBlock::Text { text } => PartialBlockView::Text { text: text@ },
            PartialBlock::Reasoning { text } => PartialBlockView::Reasoning { text: text@ },
            PartialBlock::ToolCall { id, name, arguments } => PartialBlockView::ToolCall {
                id: id@,
                name: text::opt_view(name),
                arguments: arguments@,
            },
        }
    }
}

impl PartialBlockView {
    /// The block as it stands. A call without a name is called `tool`.
    pub open spec fn assembled(self) -> ContentBlockView {
        match self {
            PartialBlockView::Text { text } => ContentBlockView::Text { text },
            PartialBlockView::Reasoning { text } => ContentBlockView::Reasoning { text },
            PartialBlockView::ToolCall { id, name, arguments } => ContentBlockView::ToolCall {
                id,
                name: match name {
                    Some(n) => n,
                    None => "tool"@,
                },
                arguments,
            },
        }
    }
}

/// Whether a block is text or reasoning with something other than white space.
pub open spec fn visible(b: ContentBlockView) -> bool {
    match b {
        ContentBlockView::Text { text } => !text::is_blank(text),
        ContentBlockView::Reasoning { text } => !text::is_blank(text),
        _ => false,
    }
}

impl PartialBlock {
    /// The block as it stands.
    pub fn assemble(&self) -> (r: ContentBlock)
        ensures
            r@ == self@.assembled(),
    {
        match self {
            PartialBlock::Text { text } => ContentBlock::Text { text: text.clone() },
            PartialBlock::Reasoning { text } => ContentBlock::Reasoning { text: text.clone() },
            PartialBlock::ToolCall { id, name, arguments } => ContentBlock::ToolCall {
                id: id.clone(),
                name: match name {
                    Some(n) => n.clone(),
                    None => "tool".to_owned(),
                },
                arguments: arguments.clone(),
            },
        }
    }

    /// Whether the block shows something other than white space.
    pub fn has_visible_content(&self) -> (r: bool)
        ensures
            r == visible(self@.assembled()),
    {
        match self {
            PartialBlock::Text { text } => !blank(text.as_str()),
            PartialBlock::Reasoning { text } => !blank(text.as_str()),
            PartialBlock::ToolCall { .. } => false,
        }
    }
}

/// One block of the stream: still open, or closed by a `block-end` that
/// carried it whole.
#[derive(Debug)]
pub enum SlotState {
    Open(PartialBlock),
    Closed(ContentBlock),
}

/// What a [`SlotState`] says.
#[verifier::ext_equal]
pub enum SlotStateView {
    Open(PartialBlockView),
    Closed(ContentBlockView),
}

impl View for SlotState {
    type V = SlotStateView;

    open spec fn view(&self) -> SlotStateView {
        match *self {
            SlotState::Open(p) => SlotStateView::Open(p@),
            SlotState::Closed(b) => SlotStateView::Closed(b@),
        }
    }
}

impl SlotStateView {
    /// The block of this slot.
    pub open spec fn block(self) -> ContentBlockView {
        match self {
            SlotStateView::Open(p) => p.assembled(),
            SlotStateView::Closed(b) => b,
        }
    }
}

/// A block together with its index in the stream.
#[derive(Debug)]
pub struct Slot {
    pub index: usize,
    pub state: SlotState,
}

/// What a [`Slot`] says.
#[verifier::ext_equal]
pub struct SlotView {
    pub index: usize,
    pub state: SlotStateView,
}

impl View for Slot {
    type V = SlotView;

    open spec fn view(&self) -> SlotView {
        SlotView { index: self.index, state: self.state@ }
    }
}

/// Incrementally assembles raw chunks into complete blocks and a final
/// assistant message. Tolerant of delta-only protocols (no block-start/end).
#[derive(Debug)]
pub struct BlockAssembler {
    /// The blocks in first-seen stream order.
    slots: Vec<Slot>,
    usage: Option<TokenUsage>,
    finish: Option<FinishReason>,
}

/// What a [`BlockAssembler`] has seen.
#[verifier::ext_equal]
pub struct AssemblerView {
    pub slots: Seq<SlotView>,
    pub usage: Option<TokenUsage>,
    pub finish: Option<FinishReasonView>,
}

impl View for BlockAssembler {
    type V = AssemblerView;

    closed spec fn view(&self) -> AssemblerView {
        AssemblerView {
            slots: text::views(self.slots@),
            usage: self.usage,
            finish: text::opt_view(self.finish),
        }
    }
}

/// The empty block that a `block-start` opens.
pub open spec fn blank_block(block_type: Seq<char>) -> PartialBlockView {
    if block_type == "reasoning"@ {
        PartialBlockView::Reasoning { text: seq![] }
    } else if block_type == "tool-call"@ {
        PartialBlockView::ToolCall { id: seq![], name: None, arguments: seq![] }
    } else {
        PartialBlockView::Text { text: seq![] }
    }
}

/// A piece of a block.
#[verifier::ext_equal]
pub enum Delta {
    Text { text: Seq<char> },
    Reasoning { text: Seq<char> },
    ToolCall { id: Seq<char>, name: Option<Seq<char>>, arguments: Seq<char> },
}

/// `p` with a piece added; a piece of another kind leaves it as it is. The
/// first name and the first id that is not empty stay.
pub open spec fn extended(p: PartialBlockView, d: Delta) -> PartialBlockView {
    match (p, d) {
        (PartialBlockView::Text { text }, Delta::Text { text: more }) => PartialBlockView::Text {
            text: text + more,
        },
        (
            PartialBlockView::Reasoning { text },
            Delta::Reasoning { text: more },
        ) => PartialBlockView::Reasoning { text: text + more },
        (
            PartialBlockView::ToolCall { id, name, arguments },
            Delta::ToolCall { id: new_id, name: new_name, arguments: more },
        ) => PartialBlockView::ToolCall {
            id: if id.len() == 0 {
                new_id
            } else {
                id
            },
            name: match name {
                Some(n) => Some(n),
                None => new_name,
            },
            arguments: arguments + more,
        },
        _ => p,
    }
}

/// The block that a piece opens where its index was not seen before.
pub open spec fn opened_by(d: Delta) -> PartialBlockView {
    match d {
        Delta::Text { text } => PartialBlockView::Text { text },
        Delta::Reasoning { text } => PartialBlockView::Reasoning { text },
        Delta::ToolCall { id, name, arguments } => PartialBlockView::ToolCall {
            id,
            name,
            arguments,
        },
    }
}

/// Whether `slots` holds a block at `index`.
pub open spec fn has_slot(slots: Seq<SlotView>, index: usize) -> bool {
    exists|i: int| 0 <= i < slots.len() && (#[trigger] slots[i]).index == index
}

/// Where `slots` holds the block at `index`.
pub open spec fn slot_at(slots: Seq<SlotView>, index: usize) -> int {
    choose|i: int| 0 <= i < slots.len() && (#[trigger] slots[i]).index == index
}

/// Whether no index is held twice.
pub open spec fn distinct_slots(slots: Seq<SlotView>) -> bool {
    forall|i: int, j: int|
        0 <= i < j < slots.len() ==> (#[trigger] slots[i]).index != (#[trigger] slots[j]).index
}

/// `slots` after a piece of the block at `index`.
pub open spec fn slots_after_delta(slots: Seq<SlotView>, index: usize, d: Delta) -> Seq<SlotView> {
    if has_slot(slots, index) {
        let at = slot_at(slots, index);
        match slots[at].state {
            SlotStateView::Open(p) => slots.update(
                at,
                SlotView { index, state: SlotStateView::Open(extended(p, d)) },
            ),
            SlotStateView::Closed(_) => slots,
        }
    } else {
        slots.push(SlotView { index, state: SlotStateView::Open(opened_by(d)) })
    }
}

/// `slots` after the block at `index` was delivered whole.
pub open spec fn slots_after_end(
    slots: Seq<SlotView>,
    index: usize,
    block: ContentBlockView,
) -> Seq<SlotView> {
    let closed = SlotView { index, state: SlotStateView::Closed(block) };
    if has_slot(slots, index) {
        let at = slot_at(slots, index);
        match slots[at].state {
            SlotStateView::Open(_) => slots.update(at, closed),
            SlotStateView::Closed(_) => slots,
        }
    } else {
        slots.push(closed)
    }
}

impl AssemblerView {
    /// The assembler before the first chunk.
    pub open spec fn empty() -> AssemblerView {
        AssemblerView { slots: seq![], usage: None, finish: None }
    }

    /// No index is held twice.
    pub open spec fn well_formed(self) -> bool {
        distinct_slots(self.slots)
    }

    /// The assembler after one more chunk. Chunks after the terminal `finish`
    /// are ignored, as are deltas for a block already closed.
    pub open spec fn push(self, chunk: StreamChunkView) -> AssemblerView {
        if self.finish is Some {
            self
        } else {
            match chunk {
                StreamChunkView::BlockStart { index, block_type } => if has_slot(
                    self.slots,
                    index,
                ) {
                    self
                } else {
                    AssemblerView {
                        slots: self.slots.push(
                            SlotView {
                                index,
                                state: SlotStateView::Open(blank_block(block_type)),
                            },
                        ),
                        ..self
                    }
                },
                StreamChunkView::TextDelta { index, text } => AssemblerView {
                    slots: slots_after_delta(self.slots, index, Delta::Text { text }),
                    ..self
                },
                StreamChunkView::ReasoningDelta { index, text } => AssemblerView {
                    slots: slots_after_delta(self.slots, index, Delta::Reasoning { text }),
                    ..self
                },
                StreamChunkView::ToolCallDelta { index, id, name, arguments_delta } => AssemblerView {
                    slots: slots_after_delta(
                        self.slots,
                        index,
                        Delta::ToolCall { id, name, arguments: arguments_delta },
                    ),
                    ..self
                },
                StreamChunkView::BlockEnd { index, block } => AssemblerView {
                    slots: slots_after_end(self.slots, index, block),
                    ..self
                },
                StreamChunkView::Usage { usage } => AssemblerView { usage: Some(usage), ..self },
                StreamChunkView::Finish { reason } => AssemblerView {
                    finish: Some(reason),
                    ..self
                },
            }
        }
    }

    /// The assembler after all of `chunks`.
    pub open spec fn push_all(self, chunks: Seq<StreamChunkView>) -> AssemblerView
        decreases chunks.len(),
    {
        if chunks.len() == 0 {
            self
        } else {
            self.push_all(chunks.drop_last()).push(chunks.last())
        }
    }

    /// All blocks, in stream order. A `max-tokens` finish drops every tool
    /// call: a truncated call is unsafe to execute.
    pub open spec fn blocks(self) -> Seq<ContentBlockView> {
        let all = Seq::new(self.slots.len(), |i: int| self.slots[i].state.block());
        if self.finish == Some(FinishReasonView::MaxTokens) {
            all.filter(|b: ContentBlockView| !(b is ToolCall))
        } else {
            all
        }
    }

    /// The blocks that an interrupted stream can safely finalize: text and
    /// reasoning, closed or open, with content other than white space.
    pub open spec fn interrupted_blocks(self) -> Seq<ContentBlockView> {
        Seq::new(self.slots.len(), |i: int| self.slots[i].state.block()).filter(
            |b: ContentBlockView| visible(b),
        )
    }

    /// Finish reason; `Stop` when the stream ended without a finish chunk.
    pub open spec fn finish_reason(self) -> FinishReasonView {
        match self.finish {
            Some(reason) => reason,
            None => FinishReasonView::Stop,
        }
    }

    /// The assembled assistant message.
    pub open spec fn message(self, id: Seq<char>, source: MessageSourceView) -> MessageView {
        MessageView { id, role: Role::Assistant, content: self.blocks(), source }
    }
}

proof fn lemma_slot_unique(slots: Seq<SlotView>, i: int)
    requires
        distinct_slots(slots),
        0 <= i < slots.len(),
    ensures
        has_slot(slots, slots[i].index),
        slot_at(slots, slots[i].index) == i,
{
    let at = slot_at(slots, slots[i].index);
    assert(0 <= at < slots.len() && slots[at].index == slots[i].index);
}

impl BlockAssembler {
    /// The assembler before the first chunk.
    pub fn new() -> (r: Self)
        ensures
            r@ == AssemblerView::empty(),
            r@.well_formed(),
    {
        let r = BlockAssembler { slots: Vec::new(), usage: None, finish: None };
        assert(r@.slots =~= seq![]);
        r
    }

    /// Where the block at `index` is held.
    fn observe(&self, index: usize) -> (r: Option<usize>)
        requires
            self@.well_formed(),
        ensures
            match r {
                Some(i) => i < self.slots@.len() && has_slot(self@.slots, index) && slot_at(
                    self@.slots,
                    index,
                ) == i && self.slots@[i as int].index == index,
                None => !has_slot(self@.slots, index),
            },
    {
        let mut i: usize = 0;
        while i < self.slots.len()
            invariant
                i <= self.slots@.len(),
                self@.well_formed(),
                forall|k: int| 0 <= k < i ==> (#[trigger] self.slots@[k]).index != index,
            decreases self.slots@.len() - i,
        {
            if self.slots[i].index == index {
                proof {
                    assert(self@.slots[i as int].index == index);
                    lemma_slot_unique(self@.slots, i as int);
                }
                return Some(i);
            }
            i = i + 1;
        }
        assert forall|k: int| 0 <= k < self@.slots.len() implies (#[trigger] self@.slots[k]).index
            != index by {
            assert(self.slots@[k].index != index);
        }
        None
    }

    /// Whether the block at `index` was closed by a `block-end`.
    pub fn is_closed(&self, index: usize) -> (r: bool)
        requires
            self@.well_formed(),
        ensures
            r == (has_slot(self@.slots, index) && self@.slots[slot_at(
                self@.slots,
                index,
            )].state is Closed),
    {
        match self.observe(index) {
            Some(i) => match self.slots[i].state {
                SlotState::Closed(_) => true,
                SlotState::Open(_) => false,
            },
            None => false,
        }
    }

    /// Opens a new block.
    fn open_slot(&mut self, index: usize, p: PartialBlock)
        requires
            old(self)@.well_formed(),
            !has_slot(old(self)@.slots, index),
        ensures
            final(self)@ == (AssemblerView {
                slots: old(self)@.slots.push(
                    SlotView { index, state: SlotStateView::Open(p@) },
                ),
                ..old(self)@
            }),
            final(self)@.well_formed(),
    {
        let ghost before = self@.slots;
        let ghost slot = SlotView { index, state: SlotStateView::Open(p@) };
        self.slots.push(Slot { index, state: SlotState::Open(p) });
        assert(self@.slots =~= before.push(slot));
        proof {
            lemma_push_distinct(before, slot);
        }
    }

    /// Replaces the state of the slot at position `at`.
    fn set_slot(&mut self, at: usize, state: SlotState)
        requires
            old(self)@.well_formed(),
            at < old(self).slots@.len(),
        ensures
            final(self)@ == (AssemblerView {
                slots: old(self)@.slots.update(
                    at as int,
                    SlotView { index: old(self)@.slots[at as int].index, state: state@ },
                ),
                ..old(self)@
            }),
            final(self)@.well_formed(),
    {
        let ghost before = self@.slots;
        let ghost slot = SlotView { index: before[at as int].index, state: state@ };
        let index: usize = self.slots[at].index;
        self.slots.set(at, Slot { index, state });
        assert(self@.slots =~= before.update(at as int, slot));
        proof {
            lemma_update_distinct(before, at as int, slot);
        }
    }

    /// Feeds one chunk, in stream order. Chunks after the terminal `finish`
    /// are ignored, as are deltas for an index already closed by `block-end`.
    pub fn push(&mut self, chunk: &StreamChunk)
        requires
            old(self)@.well_formed(),
        ensures
            final(self)@ == old(self)@.push(chunk@),
            final(self)@.well_formed(),
    {
        if self.finish.is_some() {
            return ;
        }
        match chunk {
            StreamChunk::BlockStart { index, block_type } => {
                if self.observe(*index).is_none() {
                    let p = if str_eq(block_type.as_str(), "reasoning") {
                        PartialBlock::Reasoning { text: String::new() }
                    } else if str_eq(block_type.as_str(), "tool-call") {
                        PartialBlock::ToolCall {
                            id: String::new(),
                            name: None,
                            arguments: String::new(),
                        }
                    } else {
                        PartialBlock::Text { text: String::new() }
                    };
                    assert(p@ =~= blank_block(block_type@));
                    self.open_slot(*index, p);
                }
            },
            StreamChunk::TextDelta { index, text } => {
                match self.observe(*index) {
                    Some(i) => {
                        if let SlotState::Open(p) = &self.slots[i].state {
                            let ghost before = p@;
                            let next = match p {
                                PartialBlock::Text { text: out } => PartialBlock::Text {
                                    text: text::concat2(out.as_str(), text.as_str()),
                                },
                                _ => p.copy(),
                            };
                            assert(next@ == extended(before, Delta::Text { text: text@ }));
                            self.set_slot(i, SlotState::Open(next));
                        }
                    },
                    None => {
                        self.open_slot(*index, PartialBlock::Text { text: text.clone() });
                    },
                }
            },
            StreamChunk::ReasoningDelta { index, text } => {
                match self.observe(*index) {
                    Some(i) => {
                        if let SlotState::Open(p) = &self.slots[i].state {
                            let ghost before = p@;
                            let next = match p {
                                PartialBlock::Reasoning { text: out } => PartialBlock::Reasoning {
                                    text: text::concat2(out.as_str(), text.as_str()),
                                },
                                _ => p.copy(),
                            };
                            assert(next@ == extended(before, Delta::Reasoning { text: text@ }));
                            self.set_slot(i, SlotState::Open(next));
                        }
                    },
                    None => {
                        self.open_slot(*index, PartialBlock::Reasoning { text: text.clone() });
                    },
                }
            },
            StreamChunk::ToolCallDelta { index, id, name, arguments_delta } => {
                match self.observe(*index) {
                    Some(i) => {
                        if let SlotState::Open(p) = &self.slots[i].state {
                            let ghost before = p@;
                            let next = match p {
                                PartialBlock::ToolCall {
                                    id: out_id,
                                    name: out_name,
                                    arguments,
                                } => PartialBlock::ToolCall {
                                    id: if out_id.as_str().is_empty() {
                                        id.clone()
                                    } else {
                                        out_id.clone()
                                    },
                                    name: if out_name.is_none() {
                                        clone_opt(name)
                                    } else {
                                        clone_opt(out_name)
                                    },
                                    arguments: text::concat2(
                                        arguments.as_str(),
                                        arguments_delta.as_str(),
                                    ),
                                },
                                _ => p.copy(),
                            };
                            assert(next@ == extended(
                                before,
                                Delta::ToolCall {
                                    id: id@,
                                    name: text::opt_view(*name),
                                    arguments: arguments_delta@,
                                },
                            ));
                            self.set_slot(i, SlotState::Open(next));
                        }
                    },
                    None => {
                        self.open_slot(
                            *index,
                            PartialBlock::ToolCall {
                                id: id.clone(),
                                name: clone_opt(name),
                                arguments: arguments_delta.clone(),
                            },
                        );
                    },
                }
            },
            StreamChunk::BlockEnd { index, block } => {
                match self.observe(*index) {
                    Some(i) => {
                        if let SlotState::Open(_) = &self.slots[i].state {
                            self.set_slot(i, SlotState::Closed(block.clone()));
                        }
                    },
                    None => {
                        let ghost before = self@.slots;
                        let copy = block.clone();
                        let ghost slot = SlotView {
                            index: *index,
                            state: SlotStateView::Closed(block@),
                        };
                        self.slots.push(Slot { index: *index, state: SlotState::Closed(copy) });
                        assert(self@.slots =~= before.push(slot));
                        proof {
                            lemma_push_distinct(before, slot);
                        }
                    },
                }
            },
            StreamChunk::Usage { usage } => {
                self.usage = Some(*usage);
            },
            StreamChunk::Finish { reason } => {
                self.finish = Some(reason.clone());
            },
        }
    }

    /// All blocks seen so far, in stream order. A `max-tokens` finish drops
    /// every tool call: a truncated call is unsafe to execute.
    pub fn blocks(&self) -> (r: Vec<ContentBlock>)
        ensures
            text::views(r@) == self@.blocks(),
    {
        let drop_tools = matches!(self.finish, Some(FinishReason::MaxTokens));
        let mut out: Vec<ContentBlock> = Vec::new();
        let ghost all = Seq::new(self@.slots.len(), |i: int| self@.slots[i].state.block());
        let ghost keep = |b: ContentBlockView| !(b is ToolCall);
        assert(all.take(0).filter(keep) =~= seq![]) by {
            reveal(Seq::filter);
        }
        assert(all.take(0) =~= seq![]);
        assert(text::views(out@) =~= seq![]);
        for i in 0..self.slots.len()
            invariant
                all == Seq::new(self@.slots.len(), |i: int| self@.slots[i].state.block()),
                keep == (|b: ContentBlockView| !(b is ToolCall)),
                text::views(out@) == (if drop_tools {
                    all.take(i as int).filter(keep)
                } else {
                    all.take(i as int)
                }),
        {
            let ghost before = text::views(out@);
            proof {
                assert(all.take(i + 1).drop_last() =~= all.take(i as int));
                assert(all.take(i + 1).last() == all[i as int]);
                assert(all.take(i + 1) =~= all.take(i as int).push(all[i as int]));
                reveal(Seq::filter);
            }
            let block = match &self.slots[i].state {
                SlotState::Open(p) => p.assemble(),
                SlotState::Closed(b) => b.clone(),
            };
            assert(block@ == all[i as int]);
            let is_call = matches!(block, ContentBlock::ToolCall { .. });
            if !(drop_tools && is_call) {
                out.push(block);
                assert(text::views(out@) =~= before.push(all[i as int]));
            }
        }
        assert(all.take(all.len() as int) =~= all);
        out
    }

    /// The prefix an interrupted stream can safely finalize: closed and open
    /// text/reasoning blocks with non-whitespace content. Tool calls omitted.
    pub fn interrupted_blocks(&self) -> (r: Vec<ContentBlock>)
        ensures
            text::views(r@) == self@.interrupted_blocks(),
    {
        let mut out: Vec<ContentBlock> = Vec::new();
        let ghost all = Seq::new(self@.slots.len(), |i: int| self@.slots[i].state.block());
        let ghost keep = |b: ContentBlockView| visible(b);
        assert(all.take(0).filter(keep) =~= seq![]) by {
            reveal(Seq::filter);
        }
        assert(text::views(out@) =~= seq![]);
        for i in 0..self.slots.len()
            invariant
                all == Seq::new(self@.slots.len(), |i: int| self@.slots[i].state.block()),
                keep == (|b: ContentBlockView| visible(b)),
                text::views(out@) == all.take(i as int).filter(keep),
        {
            let ghost before = text::views(out@);
            proof {
                assert(all.take(i + 1).drop_last() =~= all.take(i as int));
                assert(all.take(i + 1).last() == all[i as int]);
                reveal(Seq::filter);
            }
            match &self.slots[i].state {
                SlotState::Open(p) => {
                    if p.has_visible_content() {
                        out.push(p.assemble());
                        assert(text::views(out@) =~= before.push(all[i as int]));
                    }
                },
                SlotState::Closed(b) => {
                    let shown = match b {
                        ContentBlock::Text { text } => !blank(text.as_str()),
                        ContentBlock::Reasoning { text } => !blank(text.as_str()),
                        _ => false,
                    };
                    assert(shown == visible(all[i as int]));
                    if shown {
                        out.push(b.clone());
                        assert(text::views(out@) =~= before.push(all[i as int]));
                    }
                },
            }
        }
        assert(all.take(all.len() as int) =~= all);
        out
    }

    /// Usage from the `usage` chunk; `None` until one arrives.
    pub fn usage(&self) -> (r: Option<TokenUsage>)
        ensures
            r == self@.usage,
    {
        self.usage
    }

    /// Finish reason; `Stop` when the stream ended without a finish chunk.
    pub fn finish(&self) -> (r: FinishReason)
        ensures
            r@ == self@.finish_reason(),
    {
        match &self.finish {
            Some(reason) => reason.clone(),
            None => FinishReason::Stop,
        }
    }

    /// The assembled assistant message over `blocks()`.
    pub fn message(&self, id: &str, source: MessageSource) -> (r: Message)
        ensures
            r@ == self@.message(id@, source@),
    {
        Message { id: id.to_owned(), role: Role::Assistant, content: self.blocks(), source }
    }
}

impl PartialBlock {
    /// A copy of the block.
    fn copy(&self) -> (r: Self)
        ensures
            r@ == self@,
    {
        match self {
            PartialBlock::Text { text } => PartialBlock::Text { text: text.clone() },
            PartialBlock::Reasoning { text } => PartialBlock::Reasoning { text: text.clone() },
            PartialBlock::ToolCall { id, name, arguments } => PartialBlock::ToolCall {
                id: id.clone(),
                name: clone_opt(name),
                arguments: arguments.clone(),
            },
        }
    }
}

proof fn lemma_push_distinct(slots: Seq<SlotView>, slot: SlotView)
    requires
        distinct_slots(slots),
        !has_slot(slots, slot.index),
    ensures
        distinct_slots(slots.push(slot)),
{
    let all = slots.push(slot);
    assert forall|i: int, j: int| 0 <= i < j < all.len() implies (#[trigger] all[i]).index != (
    #[trigger] all[j]).index by {
        assert(all[i] == slots[i]);
        if j < slots.len() {
            assert(all[j] == slots[j]);
        }
    }
}

proof fn lemma_update_distinct(slots: Seq<SlotView>, at: int, slot: SlotView)
    requires
        distinct_slots(slots),
        0 <= at < slots.len(),
        slots[at].index == slot.index,
    ensures
        distinct_slots(slots.update(at, slot)),
{
    let all = slots.update(at, slot);
    assert forall|i: int, j: int| 0 <= i < j < all.len() implies (#[trigger] all[i]).index != (
    #[trigger] all[j]).index by {
        assert(slots[i].index != slots[j].index);
    }
}

impl Default for BlockAssembler {
    fn default() -> (r: Self)
        ensures
            r@ == AssemblerView::empty(),
            r@.well_formed(),
    {
        BlockAssembler::new()
    }
}

// ---------------------------------------------------------------------------
// laws
// ---------------------------------------------------------------------------

/// Every chunk keeps the indexes distinct, keeps the blocks in first-seen
/// order, and adds at most one block, at the end.
pub proof fn law_push_keeps_order(s: AssemblerView, chunk: StreamChunkView)
    requires
        s.well_formed(),
    ensures
        s.push(chunk).well_formed(),
        s.slots.len() <= s.push(chunk).slots.len() <= s.slots.len() + 1,
        forall|i: int|
            0 <= i < s.slots.len() ==> (#[trigger] s.push(chunk).slots[i]).index == s.slots[i].index,
{
    if s.finish is None {
        match chunk {
            StreamChunkView::BlockStart { index, block_type } => {
                if !has_slot(s.slots, index) {
                    lemma_push_distinct(
                        s.slots,
                        SlotView { index, state: SlotStateView::Open(blank_block(block_type)) },
                    );
                }
            },
            StreamChunkView::TextDelta { index, text } => {
                lemma_delta_distinct(s.slots, index, Delta::Text { text });
            },
            StreamChunkView::ReasoningDelta { index, text } => {
                lemma_delta_distinct(s.slots, index, Delta::Reasoning { text });
            },
            StreamChunkView::ToolCallDelta { index, id, name, arguments_delta } => {
                lemma_delta_distinct(
                    s.slots,
                    index,
                    Delta::ToolCall { id, name, arguments: arguments_delta },
                );
            },
            StreamChunkView::BlockEnd { index, block } => {
                let closed = SlotView { index, state: SlotStateView::Closed(block) };
                if has_slot(s.slots, index) {
                    lemma_update_distinct(s.slots, slot_at(s.slots, index), closed);
                } else {
                    lemma_push_distinct(s.slots, closed);
                }
            },
            _ => {},
        }
    }
}

proof fn lemma_delta_distinct(slots: Seq<SlotView>, index: usize, d: Delta)
    requires
        distinct_slots(slots),
    ensures
        distinct_slots(slots_after_delta(slots, index, d)),
{
    if has_slot(slots, index) {
        let at = slot_at(slots, index);
        if let SlotStateView::Open(p) = slots[at].state {
            lemma_update_distinct(
                slots,
                at,
                SlotView { index, state: SlotStateView::Open(extended(p, d)) },
            );
        }
    } else {
        lemma_push_distinct(slots, SlotView { index, state: SlotStateView::Open(opened_by(d)) });
    }
}

/// Chunks after the terminal `finish` are ignored.
pub proof fn law_finish_is_terminal(
    s: AssemblerView,
    reason: FinishReasonView,
    later: Seq<StreamChunkView>,
)
    ensures
        s.push(StreamChunkView::Finish { reason }).push_all(later) == s.push(
            StreamChunkView::Finish { reason },
        ),
    decreases later.len(),
{
    if later.len() > 0 {
        law_finish_is_terminal(s, reason, later.drop_last());
    }
}

/// A block that a `block-end` delivered stays as it was delivered, whatever
/// chunks follow.
pub proof fn law_closed_block_is_final(s: AssemblerView, at: int, later: Seq<StreamChunkView>)
    requires
        s.well_formed(),
        0 <= at < s.slots.len(),
        s.slots[at].state is Closed,
    ensures
        s.push_all(later).well_formed(),
        at < s.push_all(later).slots.len(),
        s.push_all(later).slots[at] == s.slots[at],
    decreases later.len(),
{
    if later.len() > 0 {
        law_closed_block_is_final(s, at, later.drop_last());
        let t = s.push_all(later.drop_last());
        law_push_keeps_order(t, later.last());
        lemma_slot_unique(t.slots, at);
    }
}

/// The text deltas of one block.
pub open spec fn text_deltas(index: usize, parts: Seq<Seq<char>>) -> Seq<StreamChunkView> {
    Seq::new(parts.len(), |i: int| StreamChunkView::TextDelta { index, text: parts[i] })
}

/// A stream of text deltas alone, without block-start or block-end, assembles
/// to one text block: the deltas one after the other.
pub proof fn law_text_deltas_concatenate(index: usize, parts: Seq<Seq<char>>)
    requires
        parts.len() > 0,
    ensures
        AssemblerView::empty().push_all(text_deltas(index, parts)).blocks()
            == seq![ContentBlockView::Text { text: text::join(parts, seq![]) }],
{
    lemma_text_deltas(index, parts);
    let s = AssemblerView::empty().push_all(text_deltas(index, parts));
    assert(s.blocks() =~= seq![
        ContentBlockView::Text { text: text::join(parts, seq![]) },
    ]);
}

proof fn lemma_text_deltas(index: usize, parts: Seq<Seq<char>>)
    requires
        parts.len() > 0,
    ensures
        AssemblerView::empty().push_all(text_deltas(index, parts)) == (AssemblerView {
            slots: seq![
                SlotView {
                    index,
                    state: SlotStateView::Open(
                        PartialBlockView::Text { text: text::join(parts, seq![]) },
                    ),
                },
            ],
            usage: None,
            finish: None,
        }),
    decreases parts.len(),
{
    let chunks = text_deltas(index, parts);
    assert(chunks.drop_last() =~= text_deltas(index, parts.drop_last()));
    let e = AssemblerView::empty();
    if parts.len() == 1 {
        assert(chunks.drop_last() =~= seq![]);
        assert(e.push_all(chunks.drop_last()) == e);
        assert(!has_slot(e.slots, index));
        assert(e.push(chunks.last()).slots =~= seq![
            SlotView {
                index,
                state: SlotStateView::Open(PartialBlockView::Text { text: parts[0] }),
            },
        ]);
    } else {
        lemma_text_deltas(index, parts.drop_last());
        let s = e.push_all(chunks.drop_last());
        assert(s.slots[0].index == index);
        assert(distinct_slots(s.slots));
        lemma_slot_unique(s.slots, 0);
        let before = text::join(parts.drop_last(), seq![]);
        assert(text::join(parts, seq![]) =~= before + parts.last());
        assert(s.push(chunks.last()).slots =~= seq![
            SlotView {
                index,
                state: SlotStateView::Open(
                    PartialBlockView::Text { text: text::join(parts, seq![]) },
                ),
            },
        ]);
    }
}

/// A `max-tokens` finish leaves no tool call among the blocks.
pub proof fn law_max_tokens_drops_tool_calls(s: AssemblerView, i: int)
    requires
        s.finish == Some(FinishReasonView::MaxTokens),
        0 <= i < s.blocks().len(),
    ensures
        !(s.blocks()[i] is ToolCall),
{
    let all = Seq::new(s.slots.len(), |i: int| s.slots[i].state.block());
    lemma_filter_pred(all, |b: ContentBlockView| !(b is ToolCall), i);
}

/// What an interrupted stream finalizes is text or reasoning with content
/// other than white space; never a tool call.
pub proof fn law_interrupted_blocks_are_visible(s: AssemblerView, i: int)
    requires
        0 <= i < s.interrupted_blocks().len(),
    ensures
        visible(s.interrupted_blocks()[i]),
        !(s.interrupted_blocks()[i] is ToolCall),
{
    let all = Seq::new(s.slots.len(), |i: int| s.slots[i].state.block());
    lemma_filter_pred(all, |b: ContentBlockView| visible(b), i);
}

proof fn lemma_filter_pred(
    s: Seq<ContentBlockView>,
    keep: spec_fn(ContentBlockView) -> bool,
    i: int,
)
    requires
        0 <= i < s.filter(keep).len(),
    ensures
        keep(s.filter(keep)[i]),
    decreases s.len(),
{
    reveal(Seq::filter);
    if s.len() > 0 {
        let f = s.drop_last().filter(keep);
        if i < f.len() {
            lemma_filter_pred(s.drop_last(), keep, i);
        }
    }
}

/// A piece of a block that is open is added at its end, and no other block
/// changes. A call keeps the id and the name that it got first.
pub proof fn law_piece_extends_its_block(s: AssemblerView, at: int, chunk: StreamChunkView)
    requires
        s.well_formed(),
        s.finish is None,
        0 <= at < s.slots.len(),
        s.slots[at].state is Open,
    ensures
        ({
            let after = s.push(chunk);
            let was = s.blocks()[at];
            let index = s.slots[at].index;
            match (was, chunk) {
                (
                    ContentBlockView::Text { text },
                    StreamChunkView::TextDelta { index: i, text: more },
                ) => i == index ==> after.blocks() == s.blocks().update(
                    at,
                    ContentBlockView::Text { text: text + more },
                ),
                (
                    ContentBlockView::Reasoning { text },
                    StreamChunkView::ReasoningDelta { index: i, text: more },
                ) => i == index ==> after.blocks() == s.blocks().update(
                    at,
                    ContentBlockView::Reasoning { text: text + more },
                ),
                (
                    ContentBlockView::ToolCall { id, name, arguments },
                    StreamChunkView::ToolCallDelta {
                        index: i,
                        id: new_id,
                        name: new_name,
                        arguments_delta,
                    },
                ) => i == index ==> {
                    let now = after.blocks()[at];
                    let named = s.slots[at].state->Open_0->name is Some;
                    &&& after.blocks() == s.blocks().update(at, now)
                    &&& now is ToolCall
                    &&& now->arguments == arguments + arguments_delta
                    &&& id.len() > 0 ==> now->id == id
                    &&& id.len() == 0 ==> now->id == new_id
                    &&& named ==> now->name == name
                    &&& !named ==> (new_name matches Some(n) ==> now->name == n)
                },
                _ => true,
            }
        }),
{
    lemma_slot_unique(s.slots, at);
    let after = s.push(chunk);
    assert(forall|k: int|
        0 <= k < s.slots.len() && k != at && after.slots[k] == s.slots[k]
            ==> after.slots[k].state.block() == s.slots[k].state.block());
    match (s.blocks()[at], chunk) {
        (
            ContentBlockView::Text { text },
            StreamChunkView::TextDelta { index, text: more },
        ) => {
            if index == s.slots[at].index {
                assert(after.blocks() =~= s.blocks().update(
                    at,
                    ContentBlockView::Text { text: text + more },
                ));
            }
        },
        (
            ContentBlockView::Reasoning { text },
            StreamChunkView::ReasoningDelta { index, text: more },
        ) => {
            if index == s.slots[at].index {
                assert(after.blocks() =~= s.blocks().update(
                    at,
                    ContentBlockView::Reasoning { text: text + more },
                ));
            }
        },
        (
            ContentBlockView::ToolCall { .. },
            StreamChunkView::ToolCallDelta { index, .. },
        ) => {
            if index == s.slots[at].index {
                assert(after.blocks() =~= s.blocks().update(at, after.blocks()[at]));
            }
        },
        _ => {},
    }
}

/// A piece of a block that was not seen before begins that block, behind all
/// others: text as text, reasoning as reasoning, a call as a call. A call that
/// has no name is called `tool`.
pub proof fn law_piece_begins_its_block(s: AssemblerView, chunk: StreamChunkView)
    requires
        s.finish is None,
    ensures
        match chunk {
            StreamChunkView::TextDelta { index, text } => !has_slot(s.slots, index) ==> s.push(
                chunk,
            ).blocks() == s.blocks().push(ContentBlockView::Text { text }),
            StreamChunkView::ReasoningDelta { index, text } => !has_slot(s.slots, index)
                ==> s.push(chunk).blocks() == s.blocks().push(
                ContentBlockView::Reasoning { text },
            ),
            StreamChunkView::ToolCallDelta { index, id, name, arguments_delta } => !has_slot(
                s.slots,
                index,
            ) ==> s.push(chunk).blocks() == s.blocks().push(
                ContentBlockView::ToolCall {
                    id,
                    name: if name is Some {
                        name->0
                    } else {
                        "tool"@
                    },
                    arguments: arguments_delta,
                },
            ),
            StreamChunkView::BlockEnd { index, block } => !has_slot(s.slots, index) ==> s.push(
                chunk,
            ).blocks() == s.blocks().push(block),
            StreamChunkView::BlockStart { index, block_type } => !has_slot(s.slots, index) ==> {
                let b = s.push(chunk).blocks();
                &&& b.len() == s.blocks().len() + 1
                &&& b.drop_last() == s.blocks()
                &&& block_type == "text"@ ==> b.last() == (ContentBlockView::Text { text: seq![] })
                &&& block_type == "reasoning"@ ==> b.last() == (ContentBlockView::Reasoning {
                    text: seq![],
                })
                &&& block_type == "tool-call"@ ==> b.last() is ToolCall && b.last()->id.len() == 0
                    && b.last()->arguments.len() == 0
            },
            StreamChunkView::Usage { usage } => s.push(chunk).blocks() == s.blocks() && s.push(
                chunk,
            ).usage == Some(usage),
            StreamChunkView::Finish { reason } => s.push(chunk).slots == s.slots && s.push(
                chunk,
            ).finish_reason() == reason,
        },
        s.finish_reason() == FinishReasonView::Stop,
        !(chunk is Finish) ==> s.push(chunk).finish is None,
        !(chunk is Usage) ==> s.push(chunk).usage == s.usage,
{
    let after = s.push(chunk);
    reveal_strlit("text");
    reveal_strlit("reasoning");
    reveal_strlit("tool-call");
    assert("text"@.len() == 4 && "reasoning"@.len() == 9 && "tool-call"@.len() == 9);
    assert("reasoning"@[0] != "tool-call"@[0]);
    match chunk {
        StreamChunkView::TextDelta { index, text } => {
            if !has_slot(s.slots, index) {
                assert(after.blocks() =~= s.blocks().push(ContentBlockView::Text { text }));
            }
        },
        StreamChunkView::ReasoningDelta { index, text } => {
            if !has_slot(s.slots, index) {
                assert(after.blocks() =~= s.blocks().push(ContentBlockView::Reasoning { text }));
            }
        },
        StreamChunkView::ToolCallDelta { index, id, name, arguments_delta } => {
            if !has_slot(s.slots, index) {
                assert(after.blocks() =~= s.blocks().push(after.blocks().last()));
            }
        },
        StreamChunkView::BlockEnd { index, block } => {
            if !has_slot(s.slots, index) {
                assert(after.blocks() =~= s.blocks().push(block));
            }
        },
        StreamChunkView::BlockStart { index, .. } => {
            if !has_slot(s.slots, index) {
                assert(after.blocks().drop_last() =~= s.blocks());
            }
        },
        StreamChunkView::Usage { .. } => {
            assert(after.blocks() =~= s.blocks());
        },
        _ => {},
    }
}

/// A block that is delivered whole is that block, whatever pieces came before.
pub proof fn law_delivered_block_counts(s: AssemblerView, at: int, block: ContentBlockView)
    requires
        s.well_formed(),
        s.finish is None,
        0 <= at < s.slots.len(),
        s.slots[at].state is Open,
    ensures
        s.push(StreamChunkView::BlockEnd { index: s.slots[at].index, block }).blocks()
            == s.blocks().update(at, block),
{
    lemma_slot_unique(s.slots, at);
    let after = s.push(StreamChunkView::BlockEnd { index: s.slots[at].index, block });
    assert(after.blocks() =~= s.blocks().update(at, block));
}

/// The message of a stream is the assistant's and carries its blocks.
pub proof fn law_message_carries_the_blocks(
    s: AssemblerView,
    id: Seq<char>,
    source: MessageSourceView,
)
    ensures
        s.message(id, source).id == id,
        s.message(id, source).role == Role::Assistant,
        s.message(id, source).source == source,
        s.message(id, source).content == s.blocks(),
        AssemblerView::empty().blocks().len() == 0,
        s.finish != Some(FinishReasonView::MaxTokens) ==> s.blocks().len() == s.slots.len(),
{
}

proof fn lemma_filter_keeps(
    s: Seq<ContentBlockView>,
    keep: spec_fn(ContentBlockView) -> bool,
    i: int,
)
    requires
        0 <= i < s.len(),
        keep(s[i]),
    ensures
        s.filter(keep).contains(s[i]),
    decreases s.len(),
{
    reveal(Seq::filter);
    let front = s.drop_last().filter(keep);
    let all = s.filter(keep);
    if i < s.len() - 1 {
        lemma_filter_keeps(s.drop_last(), keep, i);
        assert(s.drop_last()[i] == s[i]);
        let k = choose|k: int| 0 <= k < front.len() && front[k] == s[i];
        assert(all[k] == front[k]);
    } else {
        assert(all[all.len() - 1] == s[i]);
    }
}

/// What a stream said is kept where it is safe to: one that ran out of tokens
/// keeps all but its calls, one that was interrupted keeps its text and its
/// reasoning that say something.
pub proof fn law_nothing_safe_is_lost(s: AssemblerView, i: int)
    requires
        0 <= i < s.slots.len(),
    ensures
        s.finish == Some(FinishReasonView::MaxTokens) && !(s.slots[i].state.block() is ToolCall)
            ==> s.blocks().contains(s.slots[i].state.block()),
        s.slots[i].state.block() matches ContentBlockView::Text { text } && !text::is_blank(text)
            ==> s.interrupted_blocks().contains(s.slots[i].state.block()),
        s.slots[i].state.block() matches ContentBlockView::Reasoning { text } && !text::is_blank(
            text,
        ) ==> s.interrupted_blocks().contains(s.slots[i].state.block()),
{
    let all = Seq::new(s.slots.len(), |i: int| s.slots[i].state.block());
    assert(all[i] == s.slots[i].state.block());
    if !(all[i] is ToolCall) {
        lemma_filter_keeps(all, |b: ContentBlockView| !(b is ToolCall), i);
    }
    if visible(all[i]) {
        lemma_filter_keeps(all, |b: ContentBlockView| visible(b), i);
    }
}

} // verus!
