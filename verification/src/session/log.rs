//! The [`Session`]: an append-only event log with an ordered *surface*
//! projection from which message history is derived. Observers are told of
//! every committed append: the session keeps what each of them is to be told,
//! and whoever holds the observers takes it from there.

use crate::text;
use crate::text::{clone_opt, clone_vec};
use crate::types::llm::{ContentBlock, Message, MessageSource, Role};
use crate::types::session::{
    now_ms, EpochHeader, SessionEvent, SessionEventData, SessionHeader,
};
use vstd::prelude::*;

#[allow(unused_imports)]
use crate::types::llm::{ContentBlockView, MessageSourceView, MessageView};
#[allow(unused_imports)]
use crate::types::session::{
    EpochHeaderView, SessionEventDataView, SessionEventView, SessionHeaderView,
};

verus! {

/// An event-sourced session: an append-only log of [`SessionEvent`]s.
#[derive(Debug)]
pub struct Session {
    id: String,
    header: SessionHeader,
    events: Vec<SessionEvent>,
    /// Positions of the surface nodes, in model-visible order.
    surface: Vec<u64>,
    next_seq: u64,
    /// The header of the latest `request/header` event.
    request_header: Option<EpochHeader>,
    /// The observers of committed appends, in the order they were attached.
    notifiers: Vec<u64>,
    /// What the observers are still to be told, in order.
    notes: Vec<Note>,
}

/// What an observer is to be told: one committed append. Observers are known
/// by number.
#[derive(Debug, PartialEq)]
pub struct Note {
    pub notifier: u64,
    pub event: SessionEvent,
}

/// What a [`Note`] says.
#[verifier::ext_equal]
pub struct NoteView {
    pub notifier: u64,
    pub event: SessionEventView,
}

impl View for Note {
    type V = NoteView;

    open spec fn view(&self) -> NoteView {
        NoteView { notifier: self.notifier, event: self.event@ }
    }
}

/// What a [`Session`] holds. The surface and the request header follow from
/// the log.
#[verifier::ext_equal]
pub struct SessionView {
    pub id: Seq<char>,
    pub header: SessionHeaderView,
    pub events: Seq<SessionEventView>,
    pub next_seq: u64,
    pub notifiers: Seq<u64>,
    pub notes: Seq<NoteView>,
}

impl View for Session {
    type V = SessionView;

    closed spec fn view(&self) -> SessionView {
        SessionView {
            id: self.id@,
            header: self.header@,
            events: text::views(self.events@),
            next_seq: self.next_seq,
            notifiers: self.notifiers@,
            notes: text::views(self.notes@),
        }
    }
}

/// What each of the observers is told of an append.
pub open spec fn notes_of(notifiers: Seq<u64>, event: SessionEventView) -> Seq<NoteView> {
    Seq::new(notifiers.len(), |i: int| NoteView { notifier: notifiers[i], event })
}

/// The position after the highest of `events`; zero where there is none.
pub open spec fn next_after(events: Seq<SessionEventView>) -> int
    decreases events.len(),
{
    if events.len() == 0 {
        0
    } else {
        let before = next_after(events.drop_last());
        if events.last().seq + 1 > before {
            events.last().seq + 1
        } else {
            before
        }
    }
}

/// Positions of the surface nodes, in order.
pub open spec fn surface_of(events: Seq<SessionEventView>) -> Seq<u64>
    decreases events.len(),
{
    if events.len() == 0 {
        seq![]
    } else {
        let before = surface_of(events.drop_last());
        if events.last().data.is_surface() {
            before.push(events.last().seq)
        } else {
            before
        }
    }
}

/// The header of the latest `request/header` event.
pub open spec fn latest_header(events: Seq<SessionEventView>) -> Option<EpochHeaderView>
    decreases events.len(),
{
    if events.len() == 0 {
        None
    } else {
        match events.last().data {
            SessionEventDataView::RequestHeader { header } => Some(header),
            _ => latest_header(events.drop_last()),
        }
    }
}

/// The turn that was started last and not ended since.
pub open spec fn open_turn_of(events: Seq<SessionEventView>) -> Option<u64>
    decreases events.len(),
{
    if events.len() == 0 {
        None
    } else {
        match events.last().data {
            SessionEventDataView::TurnStart { turn } => Some(turn),
            SessionEventDataView::TurnEnd { .. } => None,
            _ => open_turn_of(events.drop_last()),
        }
    }
}

/// The message that an entry projects to:
/// - `user/message`: the user message, verbatim;
/// - `assistant/message`: the assistant message, unless its content is empty;
/// - `tool/result`: the user-role message that carries the result.
pub open spec fn message_of(data: SessionEventDataView) -> Option<MessageView> {
    match data {
        SessionEventDataView::UserMessage { message } => Some(message),
        SessionEventDataView::AssistantMessage { message, .. } => if message.content.len() == 0 {
            None
        } else {
            Some(message)
        },
        SessionEventDataView::ToolResult { message, .. } => Some(message),
        _ => None,
    }
}

/// The first entry at position `seq`.
pub open spec fn entry_at(events: Seq<SessionEventView>, seq: u64) -> Option<SessionEventView>
    decreases events.len(),
{
    if events.len() == 0 {
        None
    } else if events[0].seq == seq {
        Some(events[0])
    } else {
        entry_at(events.skip(1), seq)
    }
}

/// The messages that the surface nodes at `nodes` project to, in order.
pub open spec fn messages_at(events: Seq<SessionEventView>, nodes: Seq<u64>) -> Seq<MessageView>
    decreases nodes.len(),
{
    if nodes.len() == 0 {
        seq![]
    } else {
        let before = messages_at(events, nodes.drop_last());
        match entry_at(events, nodes.last()) {
            Some(e) => match message_of(e.data) {
                Some(m) => before.push(m),
                None => before,
            },
            None => before,
        }
    }
}

impl SessionView {
    /// The message history.
    pub open spec fn messages(self) -> Seq<MessageView> {
        messages_at(self.events, surface_of(self.events))
    }

    /// The session after an entry was appended at `time`.
    pub open spec fn appended(self, time: u64, data: SessionEventDataView) -> SessionView {
        let event = SessionEventView { seq: self.next_seq, time, data };
        SessionView {
            events: self.events.push(event),
            next_seq: self.next_seq.wrapping_add(1),
            notes: self.notes + notes_of(self.notifiers, event),
            ..self
        }
    }

    /// Whether the log ends below the next position. One that reached the last
    /// position there is has no next.
    pub open spec fn ends_below_next(self) -> bool {
        next_after(self.events) <= u64::MAX ==> next_after(self.events) <= self.next_seq
    }

    /// The session with one more observer.
    pub open spec fn observed_by(self, notifier: u64) -> SessionView {
        SessionView { notifiers: self.notifiers.push(notifier), ..self }
    }

    /// The session after its observers were told.
    pub open spec fn told(self) -> SessionView {
        SessionView { notes: seq![], ..self }
    }
}

/// The session after entries were appended at `times`.
pub open spec fn appended_all(
    s: SessionView,
    times: Seq<u64>,
    entries: Seq<SessionEventDataView>,
) -> SessionView
    decreases entries.len(),
{
    if entries.len() == 0 {
        s
    } else {
        appended_all(s, times.drop_last(), entries.drop_last()).appended(
            times.last(),
            entries.last(),
        )
    }
}

/// Finds the first entry at position `seq`.
fn find_entry(events: &Vec<SessionEvent>, seq: u64) -> (r: Option<&SessionEvent>)
    ensures
        match r {
            Some(e) => entry_at(text::views(events@), seq) == Some(e@),
            None => entry_at(text::views(events@), seq) is None,
        },
{
    let ghost all = text::views(events@);
    assert(all.skip(0) =~= all);
    let mut i: usize = 0;
    while i < events.len()
        invariant
            i <= events@.len(),
            all == text::views(events@),
            entry_at(all, seq) == entry_at(all.skip(i as int), seq),
        decreases events@.len() - i,
    {
        assert(all.skip(i as int)[0] == events@[i as int]@);
        assert(all.skip(i as int).skip(1) =~= all.skip(i + 1));
        if events[i].seq == seq {
            return Some(&events[i]);
        }
        i = i + 1;
    }
    None
}

/// The turn that was started last and not ended since.
pub fn open_turn_in(events: &Vec<SessionEvent>) -> (r: Option<u64>)
    ensures
        r == open_turn_of(text::views(events@)),
{
    let ghost all = text::views(events@);
    let mut open: Option<u64> = None;
    assert(all.take(0) =~= seq![]);
    for i in 0..events.len()
        invariant
            all == text::views(events@),
            open == open_turn_of(all.take(i as int)),
    {
        assert(all.take(i + 1).drop_last() =~= all.take(i as int));
        assert(all.take(i + 1).last() == events@[i as int]@);
        match &events[i].data {
            SessionEventData::TurnStart { turn } => {
                open = Some(*turn);
            },
            SessionEventData::TurnEnd { .. } => {
                open = None;
            },
            _ => {},
        }
    }
    assert(all.take(all.len() as int) =~= all);
    open
}

/// Projects one entry to a message, or `None` when it produces none.
pub fn project(data: &SessionEventData) -> (r: Option<Message>)
    ensures
        text::opt_view(r) == message_of(data@),
{
    match data {
        SessionEventData::UserMessage { message } => Some(message.clone()),
        SessionEventData::AssistantMessage { message, .. } => {
            if message.content.len() == 0 {
                None
            } else {
                Some(message.clone())
            }
        },
        SessionEventData::ToolResult { message, .. } => Some(message.clone()),
        _ => None,
    }
}

impl Session {
    /// The surface and the request header follow from the log, and the log ends
    /// below the next position.
    pub closed spec fn well_formed(&self) -> bool {
        &&& self.surface@ == surface_of(text::views(self.events@))
        &&& text::opt_view(self.request_header) == latest_header(text::views(self.events@))
        &&& self@.ends_below_next()
    }

    /// Creates a session, optionally seeded with existing events (replay or
    /// fork).
    pub fn new(id: String, header: SessionHeader, seed: Vec<SessionEvent>) -> (r: Self)
        requires
            next_after(text::views(seed@)) <= u64::MAX,
        ensures
            r.well_formed(),
            r@ == (SessionView {
                id: id@,
                header: header@,
                events: text::views(seed@),
                next_seq: next_after(text::views(seed@)) as u64,
                notifiers: seq![],
                notes: seq![],
            }),
    {
        let ghost all = text::views(seed@);
        let mut next_seq: u64 = 0;
        let mut surface: Vec<u64> = Vec::new();
        let mut request_header: Option<EpochHeader> = None;
        assert(all.take(0) =~= seq![]);
        for i in 0..seed.len()
            invariant
                all == text::views(seed@),
                next_after(all) <= u64::MAX,
                next_seq == next_after(all.take(i as int)),
                surface@ == surface_of(all.take(i as int)),
                text::opt_view(request_header) == latest_header(all.take(i as int)),
        {
            proof {
                assert(all.take(i + 1).drop_last() =~= all.take(i as int));
                assert(all.take(i + 1).last() == seed@[i as int]@);
                lemma_next_after_grows(all, i + 1);
            }
            let seq: u64 = seed[i].seq;
            if seq >= next_seq {
                next_seq = seq + 1;
            }
            if seed[i].data.is_surface() {
                surface.push(seq);
            }
            if let SessionEventData::RequestHeader { header } = &seed[i].data {
                request_header = Some(header.clone());
            }
        }
        assert(all.take(all.len() as int) =~= all);
        let r = Session {
            id,
            header,
            events: seed,
            surface,
            next_seq,
            request_header,
            notifiers: Vec::new(),
            notes: Vec::new(),
        };
        assert(r@.notes =~= seq![]);
        r
    }

    /// Attaches an observer of the appends to come, known by that number.
    pub fn add_notifier(&mut self, notifier: u64)
        requires
            old(self).well_formed(),
        ensures
            final(self).well_formed(),
            final(self)@ == old(self)@.observed_by(notifier),
    {
        self.notifiers.push(notifier);
    }

    /// Takes what the observers are still to be told, in order.
    pub fn take_notes(&mut self) -> (r: Vec<Note>)
        requires
            old(self).well_formed(),
        ensures
            final(self).well_formed(),
            text::views(r@) == old(self)@.notes,
            final(self)@ == old(self)@.told(),
    {
        let mut notes: Vec<Note> = Vec::new();
        std::mem::swap(&mut notes, &mut self.notes);
        assert(text::views(self.notes@) =~= seq![]);
        notes
    }

    /// The id of the session.
    pub fn id(&self) -> (r: &str)
        ensures
            r@ == self@.id,
    {
        self.id.as_str()
    }

    /// The storage metadata of the session.
    pub fn header(&self) -> (r: &SessionHeader)
        ensures
            r@ == self@.header,
    {
        &self.header
    }

    /// The next event's sequence number.
    pub fn seq(&self) -> (r: u64)
        ensures
            r == self@.next_seq,
    {
        self.next_seq
    }

    /// A snapshot of the append-only log.
    pub fn events(&self) -> (r: Vec<SessionEvent>)
        ensures
            text::views(r@) == self@.events,
    {
        clone_vec(&self.events)
    }

    /// Notes an append for every observer.
    fn note(&mut self, event: &SessionEvent)
        requires
            old(self).well_formed(),
        ensures
            final(self).well_formed(),
            final(self)@ == (SessionView {
                notes: old(self)@.notes + notes_of(old(self)@.notifiers, event@),
                ..old(self)@
            }),
    {
        let ghost before = text::views(self.notes@);
        let ghost all = notes_of(self.notifiers@, event@);
        assert(before + all.take(0) =~= before);
        let n: usize = self.notifiers.len();
        for i in 0..n
            invariant
                n == self.notifiers@.len(),
                self.well_formed(),
                *self == (Session { notes: self.notes, ..*old(self) }),
                all == notes_of(self.notifiers@, event@),
                text::views(self.notes@) == before + all.take(i as int),
        {
            let ghost upto = text::views(self.notes@);
            self.notes.push(Note { notifier: self.notifiers[i], event: event.clone() });
            assert(text::views(self.notes@) =~= upto.push(all[i as int]));
            assert(before + all.take(i + 1) =~= upto.push(all[i as int]));
        }
        assert(all.take(all.len() as int) =~= all);
    }

    /// Appends one typed event that happened at `time`. Every observer is to be
    /// told of it.
    pub fn append_at(&mut self, time: u64, data: SessionEventData) -> (r: SessionEvent)
        requires
            old(self).well_formed(),
        ensures
            final(self).well_formed(),
            final(self)@ == old(self)@.appended(time, data@),
            r@ == (SessionEventView { seq: old(self)@.next_seq, time, data: data@ }),
    {
        let ghost before = text::views(self.events@);
        let seq: u64 = self.next_seq;
        self.next_seq = seq.wrapping_add(1);
        let event = SessionEvent::new(seq, time, data);
        if event.data.is_surface() {
            self.surface.push(seq);
        }
        if let SessionEventData::RequestHeader { header } = &event.data {
            self.request_header = Some(header.clone());
        }
        let copy = event.clone();
        let ghost item = event@;
        self.events.push(event);
        assert(text::views(self.events@) =~= before.push(item));
        assert(before.push(item).drop_last() =~= before);
        self.note(&copy);
        copy
    }

    /// Appends one typed event now.
    pub fn append(&mut self, data: SessionEventData) -> (r: SessionEvent)
        requires
            old(self).well_formed(),
        ensures
            final(self).well_formed(),
            final(self)@ == old(self)@.appended(r@.time, data@),
            r@.seq == old(self)@.next_seq,
            r@.data == data@,
    {
        self.append_at(now_ms(), data)
    }

    /// Positions of the surface nodes, in model-visible order.
    pub fn surface(&self) -> (r: Vec<u64>)
        requires
            self.well_formed(),
        ensures
            r@ == surface_of(self@.events),
    {
        let r = self.surface.clone();
        assert(r@ =~= self.surface@);
        r
    }

    /// How often a part of the surface was replaced.
    pub fn replace_generation(&self) -> (r: u64)
        ensures
            r == 0,
    {
        0
    }

    /// The request header for the next request, or `None` before the first
    /// `request/header` snapshot.
    pub fn request_header(&self) -> (r: Option<EpochHeader>)
        requires
            self.well_formed(),
        ensures
            text::opt_view(r) == latest_header(self@.events),
    {
        clone_opt(&self.request_header)
    }

    /// Derives the message history by walking the surface nodes.
    pub fn derive_messages(&self) -> (r: Vec<Message>)
        requires
            self.well_formed(),
        ensures
            text::views(r@) == self@.messages(),
    {
        let ghost nodes = self.surface@;
        let ghost all = self@.events;
        let mut messages: Vec<Message> = Vec::new();
        assert(nodes.take(0) =~= seq![]);
        assert(text::views(messages@) =~= seq![]);
        for i in 0..self.surface.len()
            invariant
                nodes == self.surface@,
                all == text::views(self.events@),
                text::views(messages@) == messages_at(all, nodes.take(i as int)),
        {
            let ghost before = text::views(messages@);
            assert(nodes.take(i + 1).drop_last() =~= nodes.take(i as int));
            assert(nodes.take(i + 1).last() == nodes[i as int]);
            if let Some(event) = find_entry(&self.events, self.surface[i]) {
                if let Some(message) = project(&event.data) {
                    let ghost item = message@;
                    messages.push(message);
                    assert(text::views(messages@) =~= before.push(item));
                }
            }
        }
        assert(nodes.take(nodes.len() as int) =~= nodes);
        messages
    }

    /// Projects one event to a message, or `None` when it produces none.
    pub fn derive_event_message(&self, event: &SessionEvent) -> (r: Option<Message>)
        ensures
            text::opt_view(r) == message_of(event@.data),
    {
        project(&event.data)
    }

    /// The open turn (last `turn/start` without `turn/end`).
    pub fn open_turn(&self) -> (r: Option<u64>)
        ensures
            r == open_turn_of(self@.events),
    {
        open_turn_in(&self.events)
    }
}

proof fn lemma_next_after_grows(events: Seq<SessionEventView>, i: int)
    requires
        0 <= i <= events.len(),
    ensures
        0 <= next_after(events.take(i)) <= next_after(events),
    decreases events.len(),
{
    if i == events.len() {
        assert(events.take(i) =~= events);
        if i > 0 {
            lemma_next_after_grows(events.drop_last(), i - 1);
        }
    } else {
        lemma_next_after_grows(events.drop_last(), i);
        assert(events.drop_last().take(i) =~= events.take(i));
    }
}

/// What a helper message of a user says.
pub open spec fn user_message_of(id: Seq<char>, text: Seq<char>) -> MessageView {
    MessageView {
        id,
        role: Role::User,
        content: seq![ContentBlockView::Text { text }],
        source: MessageSourceView::User,
    }
}

/// A user-role message with one text block.
pub fn user_message(id: &str, text: &str) -> (r: Message)
    ensures
        r@ == user_message_of(id@, text@),
{
    let mut content: Vec<ContentBlock> = Vec::new();
    content.push(ContentBlock::text(text));
    assert(text::views(content@) =~= seq![ContentBlockView::Text { text: text@ }]);
    Message { id: id.to_owned(), role: Role::User, content, source: MessageSource::User }
}

// ---------------------------------------------------------------------------
// laws
// ---------------------------------------------------------------------------

/// Every entry stands at the position that it names.
pub open spec fn positional(events: Seq<SessionEventView>) -> bool {
    forall|i: int| 0 <= i < events.len() ==> (#[trigger] events[i]).seq == i
}

/// In a log whose entries stand at the positions they name, the next position
/// is the length of the log.
pub proof fn law_next_seq_is_log_length(events: Seq<SessionEventView>)
    requires
        positional(events),
    ensures
        next_after(events) == events.len(),
    decreases events.len(),
{
    if events.len() > 0 {
        assert forall|i: int| 0 <= i < events.drop_last().len() implies (
        #[trigger] events.drop_last()[i]).seq == i by {
            assert(events.drop_last()[i] == events[i]);
        }
        law_next_seq_is_log_length(events.drop_last());
    }
}

/// Appending assigns contiguous positions: the new entry names the length of
/// the log before it, and no earlier entry changes.
pub proof fn law_append_is_contiguous(s: SessionView, time: u64, data: SessionEventDataView)
    requires
        positional(s.events),
        s.next_seq == s.events.len(),
        s.events.len() < u64::MAX,
    ensures
        positional(s.appended(time, data).events),
        s.appended(time, data).next_seq == s.appended(time, data).events.len(),
        s.appended(time, data).events.drop_last() == s.events,
        s.appended(time, data).events.last().seq == s.events.len(),
        s.appended(time, data).events.last().data == data,
{
    let n = s.appended(time, data).events;
    assert(n.drop_last() =~= s.events);
}

/// The log of a session ends below the next position, however it came about: as
/// long as no entry stands at the last position there is, the next entry gets a
/// position of its own, above all others.
pub proof fn law_log_ends_below_next(s: Session)
    requires
        s.well_formed(),
    ensures
        s@.ends_below_next(),
        next_after(s@.events) <= u64::MAX ==> forall|i: int|
            0 <= i < s@.events.len() ==> (#[trigger] s@.events[i]).seq < s@.next_seq,
{
    assert forall|i: int| 0 <= i < s@.events.len() implies (#[trigger] s@.events[i]).seq
        < next_after(s@.events) by {
        lemma_below_next(s@.events, i);
    }
}

/// Appending adds one entry at the next position, and nothing else: it joins
/// the surface where its kind is shown to a model, and the request header where
/// it is one. That holds of every session, whatever its log.
pub proof fn law_append_adds_one_entry(s: SessionView, time: u64, data: SessionEventDataView)
    requires
        s.next_seq < u64::MAX,
    ensures
        s.appended(time, data).events == s.events + seq![
            SessionEventView { seq: s.next_seq, time, data },
        ],
        s.appended(time, data).next_seq == s.next_seq + 1,
        s.appended(time, data).id == s.id,
        s.appended(time, data).header == s.header,
        s.appended(time, data).notifiers == s.notifiers,
        surface_of(s.appended(time, data).events) == (if data.is_surface() {
            surface_of(s.events).push(s.next_seq)
        } else {
            surface_of(s.events)
        }),
        latest_header(s.appended(time, data).events) == (match data {
            SessionEventDataView::RequestHeader { header } => Some(header),
            _ => latest_header(s.events),
        }),
{
    let n = s.appended(time, data).events;
    assert(n.drop_last() =~= s.events);
    assert(n =~= s.events + seq![SessionEventView { seq: s.next_seq, time, data }]);
}

/// An append is noted once for each observer that was attached before it, in
/// the order they were attached, behind what was noted before. Those that are
/// attached later are told nothing of it.
pub proof fn law_append_is_noted_once_for_each_observer(
    s: SessionView,
    time: u64,
    data: SessionEventDataView,
    later: u64,
)
    ensures
        ({
            let event = SessionEventView { seq: s.next_seq, time, data };
            let after = s.appended(time, data);
            &&& after.notes.len() == s.notes.len() + s.notifiers.len()
            &&& after.notes.take(s.notes.len() as int) == s.notes
            &&& forall|i: int|
                0 <= i < s.notifiers.len() ==> #[trigger] after.notes[s.notes.len() + i] == (
                NoteView { notifier: s.notifiers[i], event })
            &&& after.observed_by(later).notes == after.notes
            &&& s.told().appended(time, data).notes == notes_of(s.notifiers, event)
        }),
{
    let event = SessionEventView { seq: s.next_seq, time, data };
    let after = s.appended(time, data);
    assert(after.notes.take(s.notes.len() as int) =~= s.notes);
    assert(s.told().appended(time, data).notes =~= notes_of(s.notifiers, event));
}

/// However many entries are appended to a log whose entries stand at the
/// positions they name, an empty one among them, every entry of the longer log
/// stands at the position it names.
pub proof fn law_appends_are_contiguous(
    s: SessionView,
    times: Seq<u64>,
    entries: Seq<SessionEventDataView>,
)
    requires
        positional(s.events),
        s.next_seq == s.events.len(),
        s.events.len() + entries.len() <= u64::MAX,
        times.len() == entries.len(),
    ensures
        positional(appended_all(s, times, entries).events),
        appended_all(s, times, entries).events.len() == s.events.len() + entries.len(),
        appended_all(s, times, entries).next_seq == appended_all(s, times, entries).events.len(),
    decreases entries.len(),
{
    if entries.len() > 0 {
        let before = appended_all(s, times.drop_last(), entries.drop_last());
        law_appends_are_contiguous(s, times.drop_last(), entries.drop_last());
        law_append_is_contiguous(before, times.last(), entries.last());
    }
}

/// Each entry names a higher position than the entries before it.
pub open spec fn increasing(events: Seq<SessionEventView>) -> bool {
    forall|i: int, j: int|
        0 <= i < j < events.len() ==> (#[trigger] events[i]).seq < (#[trigger] events[j]).seq
}

proof fn lemma_entry_at_position(events: Seq<SessionEventView>, i: int)
    requires
        0 <= i < events.len(),
        increasing(events),
    ensures
        entry_at(events, events[i].seq) == Some(events[i]),
    decreases events.len(),
{
    if i > 0 {
        let rest = events.skip(1);
        assert(rest[i - 1] == events[i]);
        lemma_entry_at_position(rest, i - 1);
    }
}

proof fn lemma_below_next(events: Seq<SessionEventView>, i: int)
    requires
        0 <= i < events.len(),
    ensures
        events[i].seq < next_after(events),
    decreases events.len(),
{
    if i < events.len() - 1 {
        lemma_below_next(events.drop_last(), i);
    }
}

proof fn lemma_no_entry_at(events: Seq<SessionEventView>, seq: u64)
    requires
        forall|i: int| 0 <= i < events.len() ==> (#[trigger] events[i]).seq != seq,
    ensures
        entry_at(events, seq) is None,
    decreases events.len(),
{
    if events.len() > 0 {
        lemma_no_entry_at(events.skip(1), seq);
    }
}

proof fn lemma_entry_after_push(events: Seq<SessionEventView>, e: SessionEventView, seq: u64)
    ensures
        entry_at(events.push(e), seq) == (match entry_at(events, seq) {
            Some(x) => Some(x),
            None => if e.seq == seq {
                Some(e)
            } else {
                None
            },
        }),
    decreases events.len(),
{
    let more = events.push(e);
    if events.len() > 0 {
        assert(more.skip(1) =~= events.skip(1).push(e));
        lemma_entry_after_push(events.skip(1), e, seq);
    } else {
        assert(more.skip(1) =~= seq![]);
        reveal_with_fuel(entry_at, 2);
    }
}

proof fn lemma_entry_found(events: Seq<SessionEventView>, i: int)
    requires
        0 <= i < events.len(),
    ensures
        entry_at(events, events[i].seq) is Some,
    decreases events.len(),
{
    if i > 0 && events[0].seq != events[i].seq {
        assert(events.skip(1)[i - 1] == events[i]);
        lemma_entry_found(events.skip(1), i - 1);
    }
}

proof fn lemma_surface_found(events: Seq<SessionEventView>, upto: int, k: int)
    requires
        0 <= upto <= events.len(),
        0 <= k < surface_of(events.take(upto)).len(),
    ensures
        entry_at(events, surface_of(events.take(upto))[k]) is Some,
    decreases upto,
{
    if upto > 0 {
        let here = events.take(upto);
        assert(here.drop_last() =~= events.take(upto - 1));
        assert(here.last() == events[upto - 1]);
        if k < surface_of(events.take(upto - 1)).len() {
            lemma_surface_found(events, upto - 1, k);
        } else {
            lemma_entry_found(events, upto - 1);
        }
    }
}

proof fn lemma_messages_at_pushed(
    events: Seq<SessionEventView>,
    e: SessionEventView,
    nodes: Seq<u64>,
)
    requires
        forall|k: int|
            0 <= k < nodes.len() ==> entry_at(events, #[trigger] nodes[k]) is Some,
    ensures
        messages_at(events.push(e), nodes) == messages_at(events, nodes),
    decreases nodes.len(),
{
    if nodes.len() > 0 {
        let before = nodes.drop_last();
        assert forall|k: int| 0 <= k < before.len() implies entry_at(
            events,
            #[trigger] before[k],
        ) is Some by {
            assert(before[k] == nodes[k]);
        }
        lemma_messages_at_pushed(events, e, before);
        assert(nodes[nodes.len() - 1] == nodes.last());
        lemma_entry_after_push(events, e, nodes.last());
    }
}

proof fn lemma_history_before_push(events: Seq<SessionEventView>, e: SessionEventView)
    ensures
        messages_at(events.push(e), surface_of(events)) == messages_at(events, surface_of(events)),
{
    let nodes = surface_of(events);
    assert forall|k: int| 0 <= k < nodes.len() implies entry_at(
        events,
        #[trigger] nodes[k],
    ) is Some by {
        assert(events.take(events.len() as int) =~= events);
        lemma_surface_found(events, events.len() as int, k);
    }
    lemma_messages_at_pushed(events, e, nodes);
}

/// An entry that is no surface node leaves the history of every session as it
/// is.
pub proof fn law_other_entries_add_no_message(
    s: SessionView,
    time: u64,
    data: SessionEventDataView,
)
    requires
        !data.is_surface(),
    ensures
        s.appended(time, data).messages() == s.messages(),
{
    let n = s.appended(time, data).events;
    assert(n.drop_last() =~= s.events);
    lemma_history_before_push(s.events, n.last());
}

/// The messages that the entries of a log project to, in order.
pub open spec fn projected(events: Seq<SessionEventView>) -> Seq<MessageView>
    decreases events.len(),
{
    if events.len() == 0 {
        seq![]
    } else {
        match message_of(events.last().data) {
            Some(m) => projected(events.drop_last()).push(m),
            None => projected(events.drop_last()),
        }
    }
}

proof fn lemma_messages_upto(events: Seq<SessionEventView>, i: int)
    requires
        increasing(events),
        0 <= i <= events.len(),
    ensures
        messages_at(events, surface_of(events.take(i))) == projected(events.take(i)),
    decreases i,
{
    if i > 0 {
        let upto = events.take(i);
        assert(upto.drop_last() =~= events.take(i - 1));
        assert(upto.last() == events[i - 1]);
        lemma_messages_upto(events, i - 1);
        if events[i - 1].data.is_surface() {
            let nodes = surface_of(upto);
            assert(nodes.drop_last() =~= surface_of(events.take(i - 1)));
            assert(nodes.last() == events[i - 1].seq);
            lemma_entry_at_position(events, i - 1);
        }
    }
}

/// The message history is the projection of the log, entry by entry, in log
/// order: nothing else adds to it.
pub proof fn law_history_is_the_projected_log(s: SessionView)
    requires
        increasing(s.events),
    ensures
        s.messages() == projected(s.events),
{
    lemma_messages_upto(s.events, s.events.len() as int);
    assert(s.events.take(s.events.len() as int) =~= s.events);
}

/// Appending an entry appends its message to the history, or leaves the
/// history as it was. That holds of every log that ends below the next
/// position, whatever the order of its entries.
pub proof fn law_append_extends_history(s: SessionView, time: u64, data: SessionEventDataView)
    requires
        next_after(s.events) <= s.next_seq,
    ensures
        s.appended(time, data).messages() == (match message_of(data) {
            Some(m) => s.messages().push(m),
            None => s.messages(),
        }),
{
    let e = SessionEventView { seq: s.next_seq, time, data };
    let n = s.events.push(e);
    let nodes = surface_of(s.events);
    assert(n.drop_last() =~= s.events);
    lemma_history_before_push(s.events, e);
    if data.is_surface() {
        assert(nodes.push(e.seq).drop_last() =~= nodes);
        assert forall|i: int| 0 <= i < s.events.len() implies (#[trigger] s.events[i]).seq
            != e.seq by {
            lemma_below_next(s.events, i);
        }
        lemma_no_entry_at(s.events, e.seq);
        lemma_entry_after_push(s.events, e, e.seq);
    }
}

/// A log that ends below the next position still does after an entry was
/// appended, and one whose positions increase stays so.
pub proof fn law_log_stays_below_next_seq(s: SessionView, time: u64, data: SessionEventDataView)
    requires
        next_after(s.events) <= s.next_seq,
        s.next_seq < u64::MAX,
    ensures
        next_after(s.appended(time, data).events) == s.appended(time, data).next_seq,
        increasing(s.events) ==> increasing(s.appended(time, data).events),
{
    let n = s.appended(time, data).events;
    assert(n.drop_last() =~= s.events);
    if increasing(s.events) {
        assert forall|i: int, j: int| 0 <= i < j < n.len() implies (#[trigger] n[i]).seq < (
        #[trigger] n[j]).seq by {
            if j == s.events.len() {
                lemma_below_next(s.events, i);
            }
        }
    }
}

/// The latest header wins.
pub proof fn law_latest_header_wins(s: SessionView, time: u64, header: EpochHeaderView)
    ensures
        latest_header(
            s.appended(time, SessionEventDataView::RequestHeader { header }).events,
        ) == Some(header),
{
}

/// What the model is shown of a log: every message of a user, every tool result
/// and every assistant message that has content, in log order.
pub open spec fn shown_history(events: Seq<SessionEventView>) -> Seq<MessageView>
    decreases events.len(),
{
    if events.len() == 0 {
        seq![]
    } else {
        let before = shown_history(events.drop_last());
        match events.last().data {
            SessionEventDataView::UserMessage { message } => before.push(message),
            SessionEventDataView::ToolResult { message, .. } => before.push(message),
            SessionEventDataView::AssistantMessage { message, .. } => if message.content.len()
                > 0 {
                before.push(message)
            } else {
                before
            },
            _ => before,
        }
    }
}

/// What is appended joins the history as its kind says: a message of a user and
/// a tool result as they are, an assistant message where it has content. No
/// other entry changes what the model is shown. That holds of every log that
/// ends below the next position.
pub proof fn law_appended_messages_join_the_history(
    s: SessionView,
    time: u64,
    data: SessionEventDataView,
)
    requires
        next_after(s.events) <= s.next_seq,
    ensures
        match data {
            SessionEventDataView::UserMessage { message } => s.appended(time, data).messages()
                == s.messages().push(message),
            SessionEventDataView::ToolResult { message, .. } => s.appended(time, data).messages()
                == s.messages().push(message),
            SessionEventDataView::AssistantMessage { message, .. } => if message.content.len()
                > 0 {
                s.appended(time, data).messages() == s.messages().push(message)
            } else {
                s.appended(time, data).messages() == s.messages()
            },
            _ => s.appended(time, data).messages() == s.messages(),
        },
{
    law_append_extends_history(s, time, data);
}

proof fn lemma_shown_history(events: Seq<SessionEventView>)
    ensures
        projected(events) == shown_history(events),
    decreases events.len(),
{
    if events.len() > 0 {
        lemma_shown_history(events.drop_last());
    }
}

/// The message history of a log is what its entries show the model, whatever
/// else was logged.
pub proof fn law_history_is_what_the_log_shows(s: SessionView)
    requires
        increasing(s.events),
    ensures
        s.messages() == shown_history(s.events),
{
    law_history_is_the_projected_log(s);
    lemma_shown_history(s.events);
}

/// The surface names the positions of messages and results, and of nothing else.
pub proof fn law_surface_names_messages(events: Seq<SessionEventView>, e: SessionEventView)
    ensures
        surface_of(seq![]) == Seq::<u64>::empty(),
        e.data is UserMessage || e.data is AssistantMessage || e.data is ToolResult
            ==> surface_of(events.push(e)) == surface_of(events).push(e.seq),
        !(e.data is UserMessage || e.data is AssistantMessage || e.data is ToolResult)
            ==> surface_of(events.push(e)) == surface_of(events),
{
    assert(events.push(e).drop_last() =~= events);
}

/// A turn is open from its start to its end, whatever is logged between them.
pub proof fn law_turn_is_open_until_it_ends(
    events: Seq<SessionEventView>,
    e: SessionEventView,
)
    ensures
        open_turn_of(seq![]) is None,
        match e.data {
            SessionEventDataView::TurnStart { turn } => open_turn_of(events.push(e)) == Some(turn),
            SessionEventDataView::TurnEnd { .. } => open_turn_of(events.push(e)) is None,
            _ => open_turn_of(events.push(e)) == open_turn_of(events),
        },
{
    assert(events.push(e).drop_last() =~= events);
}

/// A log is continued right behind its highest position; an empty one begins at
/// zero.
pub proof fn law_log_continues_behind_its_highest(events: Seq<SessionEventView>)
    ensures
        events.len() == 0 ==> next_after(events) == 0,
        forall|i: int| 0 <= i < events.len() ==> (#[trigger] events[i]).seq < next_after(events),
        events.len() > 0 ==> exists|i: int|
            0 <= i < events.len() && (#[trigger] events[i]).seq + 1 == next_after(events),
    decreases events.len(),
{
    assert forall|i: int| 0 <= i < events.len() implies (#[trigger] events[i]).seq < next_after(
        events,
    ) by {
        lemma_below_next(events, i);
    }
    if events.len() > 0 {
        let front = events.drop_last();
        law_log_continues_behind_its_highest(front);
        if events.last().seq + 1 > next_after(front) {
            assert(events[events.len() - 1].seq + 1 == next_after(events));
        } else {
            let i = choose|i: int|
                0 <= i < front.len() && (#[trigger] front[i]).seq + 1 == next_after(front);
            assert(events[i].seq + 1 == next_after(events));
        }
    }
}

/// The header that the next request starts from is the one that was logged last;
/// other entries leave it alone.
pub proof fn law_header_stays_until_the_next(events: Seq<SessionEventView>, e: SessionEventView)
    ensures
        latest_header(seq![]) is None,
        match e.data {
            SessionEventDataView::RequestHeader { header } => latest_header(events.push(e))
                == Some(header),
            _ => latest_header(events.push(e)) == latest_header(events),
        },
{
    assert(events.push(e).drop_last() =~= events);
}

/// A helper message is the user's, with the text alone.
pub proof fn law_user_message_says_its_text(id: Seq<char>, said: Seq<char>)
    ensures
        user_message_of(id, said).id == id,
        user_message_of(id, said).role == Role::User,
        user_message_of(id, said).content == seq![ContentBlockView::Text { text: said }],
        user_message_of(id, said).source == MessageSourceView::User,
{
}

} // verus!
