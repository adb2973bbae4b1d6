//! What a session is shown as, and the line mode of the chat.

use crate::agent::handle::user_message_with_text;
use crate::session::log::Session;
use crate::text;
use crate::text::{concat2, concat3, decimal_text, trimmed};
use crate::types::llm::{Message, Role};
use crate::types::session::SessionEvent;
use vstd::prelude::*;

#[allow(unused_imports)]
use crate::session::log;
#[allow(unused_imports)]
use crate::session::log::SessionView;
#[allow(unused_imports)]
use crate::session::render;
#[allow(unused_imports)]
use crate::types::llm;
#[allow(unused_imports)]
use crate::types::llm::MessageView;
#[allow(unused_imports)]
use crate::types::session::{SessionEventDataView, SessionEventView};

verus! {

/// The text of the last assistant message; empty where there is none.
pub open spec fn last_assistant(messages: Seq<MessageView>) -> Seq<char>
    decreases messages.len(),
{
    if messages.len() == 0 {
        seq![]
    } else if messages.last().role == Role::Assistant {
        llm::blocks_text(messages.last().content)
    } else {
        last_assistant(messages.drop_last())
    }
}

/// The final assistant text of a session (its last assistant message).
pub fn last_assistant_text(session: &Session) -> (r: String)
    requires
        session.well_formed(),
    ensures
        r@ == last_assistant(session@.messages()),
{
    let messages = session.derive_messages();
    let ghost all = text::views(messages@);
    let mut n: usize = messages.len();
    assert(all.take(n as int) =~= all);
    while n > 0
        invariant
            n <= messages.len(),
            all == text::views(messages@),
            all == session@.messages(),
            last_assistant(all) == last_assistant(all.take(n as int)),
        decreases n,
    {
        let m = &messages[n - 1];
        assert(all.take(n as int).last() == m@);
        assert(all.take(n as int).drop_last() =~= all.take(n - 1));
        if m.role == Role::Assistant {
            return m.text();
        }
        n = n - 1;
    }
    let none = String::new();
    assert(none@ =~= seq![]);
    none
}

/// A compact transcript of the session log.
pub fn transcript(session: &Session) -> (r: String)
    ensures
        r@ == render::transcript_text(session@.events),
{
    session.render()
}

/// One line for a log entry.
pub fn render_event(event: &SessionEvent) -> (r: String)
    ensures
        r@ == render::entry_text(event@.data),
{
    Session::render_event(event)
}

/// The lines that a stored session is printed as.
pub open spec fn stored_transcript(id: Seq<char>, events: Seq<SessionEventView>) -> Seq<Seq<char>> {
    if events.len() == 0 {
        seq!["(no events for session "@ + id + ")"@]
    } else {
        events.map_values(|e: SessionEventView| render::entry_text(e.data))
    }
}

/// Prints a stored session.
pub fn transcript_lines(id: &str, events: &Vec<SessionEvent>) -> (r: Vec<String>)
    ensures
        text::views(r@) == stored_transcript(id@, text::views(events@)),
{
    let mut out: Vec<String> = Vec::new();
    if events.len() == 0 {
        out.push(concat3("(no events for session ", id, ")"));
    } else {
        for i in 0..events.len()
            invariant
                out.len() == i,
                forall|k: int|
                    0 <= k < i ==> (#[trigger] out@[k])@ == render::entry_text(events@[k]@.data),
        {
            out.push(Session::render_event(&events[i]));
        }
    }
    assert(text::views(out@) =~= stored_transcript(id@, text::views(events@)));
    out
}

/// The message where a stored session could not be loaded.
pub fn load_failure(id: &str, message: &str) -> (r: String)
    ensures
        r@ == "cannot load "@ + id@ + ": "@ + message@,
{
    text::concat4("cannot load ", id, ": ", message)
}

/// The line-based chat for piped input.
#[derive(Debug)]
pub struct LineChat {
    seq: u64,
}

impl View for LineChat {
    type V = u64;

    closed spec fn view(&self) -> u64 {
        self.seq
    }
}

/// The message that a line stands for, as the `n`th that is said; none where the
/// line is blank.
pub open spec fn said_by(line: Seq<char>, n: nat) -> Option<MessageView> {
    if text::trim(line).len() == 0 {
        None
    } else {
        Some(log::user_message_of("u-"@ + text::decimal(n), text::trim(line)))
    }
}

impl LineChat {
    /// Nothing was said yet.
    pub fn new() -> (r: Self)
        ensures
            r@ == 0,
    {
        LineChat { seq: 0 }
    }

    /// How many messages were said.
    pub fn said(&self) -> (r: u64)
        ensures
            r == self@,
    {
        self.seq
    }

    /// The line that greets the user.
    pub fn banner() -> (r: &'static str)
        ensures
            r@ == "dsh chat \u{2014} type a line, Ctrl-D to exit"@,
    {
        "dsh chat \u{2014} type a line, Ctrl-D to exit"
    }

    /// The message that a line stands for; none where it is blank.
    pub fn accept(&mut self, line: &str) -> (r: Option<Message>)
        requires
            old(self)@ < u64::MAX,
        ensures
            text::opt_view(r) == said_by(line@, (old(self)@ + 1) as nat),
            final(self)@ == (if r is Some {
                old(self)@ + 1
            } else {
                old(self)@ as int
            }),
    {
        let said = trimmed(line);
        if said.as_str().is_empty() {
            return None;
        }
        self.seq = self.seq + 1;
        let number = decimal_text(self.seq);
        let id = concat2("u-", number.as_str());
        Some(user_message_with_text(id.as_str(), said.as_str()))
    }
}

// ---------------------------------------------------------------------------
// laws
// ---------------------------------------------------------------------------

/// Whether an entry leaves the last assistant text alone: whatever is no
/// message of an assistant, and an assistant message without content.
pub open spec fn keeps_last_text(data: SessionEventDataView) -> bool {
    match log::message_of(data) {
        Some(m) => m.role != Role::Assistant,
        None => true,
    }
}

/// Appending to a session changes its last assistant text only where the entry
/// carries a message of the assistant with content, whose text it then is. What
/// carries a message of another role, an assistant message without content and
/// every entry that is no surface node leave it as it was. That holds of every
/// session in which no entry stands at the last position there is.
pub proof fn law_last_text_follows_assistant_messages(
    s: SessionView,
    time: u64,
    data: SessionEventDataView,
)
    requires
        s.ends_below_next(),
        log::next_after(s.events) <= u64::MAX,
    ensures
        last_assistant(s.appended(time, data).messages()) == (if keeps_last_text(data) {
            last_assistant(s.messages())
        } else {
            llm::blocks_text(log::message_of(data)->0.content)
        }),
        data matches SessionEventDataView::AssistantMessage { message, .. }
            && message.content.len() == 0 ==> keeps_last_text(data),
        data matches SessionEventDataView::UserMessage { message } && message.role
            != Role::Assistant ==> keeps_last_text(data),
        data matches SessionEventDataView::ToolResult { message, .. } && message.role
            != Role::Assistant ==> keeps_last_text(data),
        !data.is_surface() ==> keeps_last_text(data),
{
    log::law_append_extends_history(s, time, data);
    if let Some(m) = log::message_of(data) {
        assert(s.messages().push(m).drop_last() =~= s.messages());
    }
}

/// However many such entries are appended, the last assistant text stays.
pub proof fn law_other_entries_keep_the_last_text(
    s: SessionView,
    times: Seq<u64>,
    entries: Seq<SessionEventDataView>,
)
    requires
        s.ends_below_next(),
        log::next_after(s.events) <= u64::MAX,
        s.next_seq + entries.len() <= u64::MAX,
        times.len() == entries.len(),
        forall|i: int| 0 <= i < entries.len() ==> keeps_last_text(#[trigger] entries[i]),
    ensures
        ({
            let after = log::appended_all(s, times, entries);
            &&& last_assistant(after.messages()) == last_assistant(s.messages())
            &&& after.ends_below_next()
            &&& log::next_after(after.events) <= u64::MAX
            &&& after.next_seq == s.next_seq + entries.len()
        }),
    decreases entries.len(),
{
    if entries.len() > 0 {
        let before = log::appended_all(s, times.drop_last(), entries.drop_last());
        law_other_entries_keep_the_last_text(s, times.drop_last(), entries.drop_last());
        law_last_text_follows_assistant_messages(before, times.last(), entries.last());
        log::law_log_stays_below_next_seq(before, times.last(), entries.last());
    }
}

/// What a session says last stays through an entry that is no message of the
/// assistant with content, whatever was logged before below the last position
/// there is.
pub proof fn law_session_keeps_its_last_text(s: Session, time: u64, data: SessionEventDataView)
    requires
        s.well_formed(),
        log::next_after(s@.events) <= u64::MAX,
        keeps_last_text(data),
    ensures
        last_assistant(s@.appended(time, data).messages()) == last_assistant(s@.messages()),
{
    log::law_log_ends_below_next(s);
    law_last_text_follows_assistant_messages(s@, time, data);
}

/// The last assistant text is that of the last assistant message, whatever others
/// said after it.
pub proof fn law_last_text_is_the_assistants(messages: Seq<MessageView>, m: MessageView)
    ensures
        last_assistant(seq![]) == Seq::<char>::empty(),
        m.role == Role::Assistant ==> last_assistant(messages.push(m)) == llm::blocks_text(
            m.content,
        ),
        m.role != Role::Assistant ==> last_assistant(messages.push(m)) == last_assistant(messages),
{
    assert(messages.push(m).drop_last() =~= messages);
}

/// A stored session is printed entry by entry, each on a line of its own, in
/// order; one without entries says so.
pub proof fn law_stored_session_is_printed(id: Seq<char>, events: Seq<SessionEventView>, i: int)
    ensures
        events.len() == 0 ==> stored_transcript(id, events) == seq![
            "(no events for session "@ + id + ")"@,
        ],
        events.len() > 0 ==> stored_transcript(id, events).len() == events.len(),
        0 <= i < events.len() ==> stored_transcript(id, events)[i] == render::entry_text(
            events[i].data,
        ),
{
}

/// A line of the chat is the user's message, trimmed and numbered; a blank line
/// says nothing.
pub proof fn law_line_is_said_trimmed(line: Seq<char>, n: nat)
    ensures
        text::is_blank(line) ==> said_by(line, n) is None,
        !text::is_blank(line) ==> (said_by(line, n) matches Some(m) && m.role == Role::User && m.id
            == "u-"@ + text::decimal(n) && llm::blocks_text(m.content) == text::trim(line)),
{
    text::law_trimming_cuts_white_space_only(line);
    if !text::is_blank(line) {
        let m = said_by(line, n)->0;
        llm::law_text_is_the_text_blocks(seq![], m.content[0]);
        assert(m.content =~= Seq::<llm::ContentBlockView>::empty().push(m.content[0]));
        assert(llm::blocks_text(m.content) =~= text::trim(line));
    }
}

} // verus!
