//! Durable session logs: JSONL framing and crash repair.
//!
//! A log is a file of lines, one JSON document per entry, named
//! `<session-id>.jsonl` under a directory. What the lines hold and where they
//! go is decided here; reading and writing files is left to the caller.

use crate::ordered_map;
use crate::ordered_map::OrderedMap;
use crate::paths;
use crate::paths::resolve_path;
use crate::session::log::open_turn_in;
use crate::text;
use crate::text::{chars_of, concat2, concat4, lines_of, string_of, trimmed};
use crate::types::session::{now_ms, SessionEvent, SessionEventData, TurnEndReason};
use vstd::prelude::*;

#[allow(unused_imports)]
use crate::session::log;
#[allow(unused_imports)]
use crate::types::session::{SessionEventDataView, SessionEventView, TurnEndReasonView};

verus! {

/// JSONL backend: one line per event, buffered per session until a flush.
#[derive(Debug)]
pub struct JsonlPersistence {
    dir: String,
    buffers: OrderedMap<Vec<String>>,
}

/// What a [`JsonlPersistence`] has buffered.
#[verifier::ext_equal]
pub struct JsonlView {
    pub dir: Seq<char>,
    pub buffers: Seq<(Seq<char>, Seq<Seq<char>>)>,
}

/// What buffers hold.
pub open spec fn buffers_view(e: Seq<(Seq<char>, Vec<String>)>) -> Seq<
    (Seq<char>, Seq<Seq<char>>),
> {
    Seq::new(e.len(), |i: int| (e[i].0, text::views(e[i].1@)))
}

impl View for JsonlPersistence {
    type V = JsonlView;

    closed spec fn view(&self) -> JsonlView {
        JsonlView { dir: self.dir@, buffers: buffers_view(self.buffers@) }
    }
}

impl JsonlView {
    /// The lines that are buffered for a session.
    pub open spec fn buffered(self, session: Seq<char>) -> Seq<Seq<char>> {
        match ordered_map::lookup(self.buffers, session) {
            Some(lines) => lines,
            None => seq![],
        }
    }

    /// The backend with one more line buffered for a session.
    pub open spec fn recorded(self, session: Seq<char>, line: Seq<char>) -> JsonlView {
        JsonlView {
            buffers: ordered_map::inserted(
                ordered_map::removed(self.buffers, session),
                session,
                self.buffered(session).push(line),
            ),
            ..self
        }
    }

    /// The backend after a flush of a session.
    pub open spec fn flushed(self, session: Seq<char>) -> JsonlView {
        JsonlView { buffers: ordered_map::removed(self.buffers, session), ..self }
    }

    /// The file of a session's log.
    pub open spec fn path(self, session: Seq<char>) -> Seq<char> {
        paths::resolved(Some(self.dir), session + ".jsonl"@)
    }
}

/// What lines take in a file: each followed by a line feed.
pub open spec fn framed(lines: Seq<Seq<char>>) -> Seq<char>
    decreases lines.len(),
{
    if lines.len() == 0 {
        seq![]
    } else {
        framed(lines.drop_last()) + lines.last() + "\n"@
    }
}

/// The lines that are read back from a file: trimmed, without empty ones.
pub open spec fn stored(lines: Seq<Seq<char>>) -> Seq<Seq<char>>
    decreases lines.len(),
{
    if lines.len() == 0 {
        seq![]
    } else {
        let before = stored(lines.drop_last());
        let line = text::trim(lines.last());
        if line.len() == 0 {
            before
        } else {
            before.push(line)
        }
    }
}

proof fn lemma_buffers_lookup(e: Seq<(Seq<char>, Vec<String>)>, key: Seq<char>)
    ensures
        match ordered_map::lookup(e, key) {
            Some(v) => ordered_map::lookup(buffers_view(e), key) == Some(text::views(v@)),
            None => ordered_map::lookup(buffers_view(e), key) is None,
        },
    decreases e.len(),
{
    if e.len() > 0 {
        assert(buffers_view(e).skip(1) =~= buffers_view(e.skip(1)));
        lemma_buffers_lookup(e.skip(1), key);
    }
}

proof fn lemma_buffers_removed(e: Seq<(Seq<char>, Vec<String>)>, key: Seq<char>)
    ensures
        buffers_view(ordered_map::removed(e, key)) == ordered_map::removed(buffers_view(e), key),
    decreases e.len(),
{
    if e.len() > 0 {
        assert(buffers_view(e).skip(1) =~= buffers_view(e.skip(1)));
        lemma_buffers_removed(e.skip(1), key);
    }
    assert(buffers_view(ordered_map::removed(e, key)) =~= ordered_map::removed(
        buffers_view(e),
        key,
    ));
}

proof fn lemma_buffers_inserted(e: Seq<(Seq<char>, Vec<String>)>, key: Seq<char>, v: Vec<String>)
    ensures
        buffers_view(ordered_map::inserted(e, key, v)) == ordered_map::inserted(
            buffers_view(e),
            key,
            text::views(v@),
        ),
{
    lemma_buffers_lookup(e, key);
    assert(buffers_view(ordered_map::inserted(e, key, v)) =~= ordered_map::inserted(
        buffers_view(e),
        key,
        text::views(v@),
    ));
}

impl JsonlPersistence {
    /// No session has two buffers.
    pub closed spec fn well_formed(&self) -> bool {
        ordered_map::distinct(self.buffers@)
    }

    /// A backend under `dir`.
    pub fn new(dir: &str) -> (r: Self)
        ensures
            r.well_formed(),
            r@ == (JsonlView { dir: dir@, buffers: seq![] }),
    {
        let r = JsonlPersistence { dir: dir.to_owned(), buffers: OrderedMap::new() };
        assert(r@.buffers =~= seq![]);
        r
    }

    /// The file of a session's log.
    pub fn path(&self, session: &str) -> (r: String)
        ensures
            r@ == self@.path(session@),
    {
        let name = concat2(session, ".jsonl");
        resolve_path(&Some(self.dir.clone()), name.as_str())
    }

    /// Buffers the line of one committed append.
    pub fn on_event(&mut self, session: &str, line: &str)
        requires
            old(self).well_formed(),
        ensures
            final(self).well_formed(),
            final(self)@ == old(self)@.recorded(session@, line@),
    {
        let ghost e = self.buffers@;
        proof {
            lemma_buffers_lookup(e, session@);
            lemma_buffers_removed(e, session@);
        }
        let mut lines: Vec<String> = match self.buffers.remove(session) {
            Some(lines) => lines,
            None => Vec::new(),
        };
        let ghost before = text::views(lines@);
        assert(before =~= old(self)@.buffered(session@));
        lines.push(line.to_owned());
        assert(text::views(lines@) =~= before.push(line@));
        proof {
            lemma_buffers_inserted(self.buffers@, session@, lines);
        }
        self.buffers.insert(session, lines);
    }

    /// Takes the text that a flush appends to a session's file; `None` where
    /// nothing is buffered.
    pub fn take_flush(&mut self, session: &str) -> (r: Option<String>)
        requires
            old(self).well_formed(),
        ensures
            final(self).well_formed(),
            final(self)@ == old(self)@.flushed(session@),
            match r {
                Some(s) => old(self)@.buffered(session@).len() > 0 && s@ == framed(
                    old(self)@.buffered(session@),
                ),
                None => old(self)@.buffered(session@).len() == 0,
            },
    {
        proof {
            lemma_buffers_lookup(self.buffers@, session@);
            lemma_buffers_removed(self.buffers@, session@);
        }
        match self.buffers.remove(session) {
            Some(lines) => if lines.len() == 0 {
                None
            } else {
                Some(frame(&lines))
            },
            None => None,
        }
    }
}

/// What lines take in a file.
pub fn frame(lines: &Vec<String>) -> (r: String)
    ensures
        r@ == framed(text::views(lines@)),
{
    let ghost all = text::views(lines@);
    let mut out = String::new();
    assert(all.take(0) =~= seq![]);
    for i in 0..lines.len()
        invariant
            all == text::views(lines@),
            out@ == framed(all.take(i as int)),
    {
        assert(all.take(i + 1).drop_last() =~= all.take(i as int));
        assert(all.take(i + 1).last() == lines@[i as int]@);
        out.push_str(lines[i].as_str());
        out.push_str("\n");
    }
    assert(all.take(all.len() as int) =~= all);
    out
}

/// The lines that a session's file holds.
pub fn stored_lines(content: &str) -> (r: Vec<String>)
    ensures
        text::views(r@) == stored(text::lines(content@)),
{
    let lines = lines_of(content);
    let ghost all = text::lines(content@);
    let mut out: Vec<String> = Vec::new();
    assert(all.take(0) =~= seq![]);
    assert(text::views(out@) =~= seq![]);
    for i in 0..lines.len()
        invariant
            all == text::views(lines@),
            text::views(out@) == stored(all.take(i as int)),
    {
        let ghost before = text::views(out@);
        assert(all.take(i + 1).drop_last() =~= all.take(i as int));
        assert(all.take(i + 1).last() == lines@[i as int]@);
        let line = trimmed(lines[i].as_str());
        if !line.as_str().is_empty() {
            let ghost item = line@;
            out.push(line);
            assert(text::views(out@) =~= before.push(item));
        }
    }
    assert(all.take(all.len() as int) =~= all);
    out
}

/// The report of a line that holds no event.
pub fn corrupt_line(path: &str, message: &str) -> (r: String)
    ensures
        r@ == "corrupt session line in "@ + path@ + ": "@ + message@,
{
    concat4("corrupt session line in ", path, ": ", message)
}

/// The session that a file of that name holds the log of.
pub open spec fn session_of_file(name: Seq<char>) -> Option<Seq<char>> {
    let suffix = ".jsonl"@;
    if suffix.len() <= name.len() && name.skip(name.len() - suffix.len()) == suffix {
        Some(name.take(name.len() - suffix.len()))
    } else {
        None
    }
}

/// The sessions whose logs files of these names hold.
pub open spec fn sessions_of_files(names: Seq<Seq<char>>) -> Seq<Seq<char>>
    decreases names.len(),
{
    if names.len() == 0 {
        seq![]
    } else {
        match session_of_file(names.last()) {
            Some(id) => sessions_of_files(names.drop_last()).push(id),
            None => sessions_of_files(names.drop_last()),
        }
    }
}

fn strip_jsonl(name: &str) -> (r: Option<String>)
    ensures
        text::opt_view(r) == session_of_file(name@),
{
    let v = chars_of(name);
    let suffix = chars_of(".jsonl");
    if suffix.len() > v.len() {
        return None;
    }
    let at: usize = v.len() - suffix.len();
    assert(v@.skip(at as int) =~= v@.subrange(at as int, at + suffix@.len()));
    if text::found_at(&v, &suffix, at) {
        let id = string_of(&v, 0, at);
        assert(id@ =~= name@.take(at as int));
        Some(id)
    } else {
        None
    }
}

/// The ids of the stored sessions, in order, given the names of the files.
pub fn stored_sessions(names: &Vec<String>) -> (r: Vec<String>)
    ensures
        text::sorted(None, text::views(r@)),
        text::views(r@).to_multiset() == sessions_of_files(text::views(names@)).to_multiset(),
{
    let ghost all = text::views(names@);
    let mut ids: Vec<String> = Vec::new();
    assert(all.take(0) =~= seq![]);
    assert(text::views(ids@) =~= seq![]);
    for i in 0..names.len()
        invariant
            all == text::views(names@),
            text::views(ids@) == sessions_of_files(all.take(i as int)),
    {
        let ghost before = text::views(ids@);
        assert(all.take(i + 1).drop_last() =~= all.take(i as int));
        assert(all.take(i + 1).last() == names@[i as int]@);
        if let Some(id) = strip_jsonl(names[i].as_str()) {
            let ghost item = id@;
            ids.push(id);
            assert(text::views(ids@) =~= before.push(item));
        }
    }
    assert(all.take(all.len() as int) =~= all);
    text::sort(None, ids)
}

// ---------------------------------------------------------------------------
// crash repair
// ---------------------------------------------------------------------------

/// A log with its open trailing turn closed at `time`.
pub open spec fn repaired(events: Seq<SessionEventView>, time: u64) -> Seq<SessionEventView> {
    match log::open_turn_of(events) {
        Some(turn) => events.push(
            SessionEventView {
                seq: events.len() as u64,
                time,
                data: SessionEventDataView::TurnEnd {
                    turn,
                    reason: TurnEndReasonView::Interrupted,
                },
            },
        ),
        None => events,
    }
}

/// Crash recovery at `time`: closes a genuinely open trailing turn as
/// interrupted. Returns true when a repair was made.
pub fn repair_crash_turns_at(events: &mut Vec<SessionEvent>, time: u64) -> (r: bool)
    ensures
        r == (log::open_turn_of(text::views(old(events)@)) is Some),
        text::views(final(events)@) == repaired(text::views(old(events)@), time),
{
    let ghost before = text::views(events@);
    match open_turn_in(events) {
        Some(turn) => {
            let seq: u64 = events.len() as u64;
            let end = SessionEvent::new(
                seq,
                time,
                SessionEventData::TurnEnd { turn, reason: TurnEndReason::Interrupted },
            );
            let ghost item = end@;
            events.push(end);
            assert(text::views(events@) =~= before.push(item));
            true
        },
        None => false,
    }
}

/// Crash recovery now: closes a genuinely open trailing turn as interrupted.
/// Returns true when a repair was made.
pub fn repair_crash_turns(events: &mut Vec<SessionEvent>) -> (r: bool)
    ensures
        r == (log::open_turn_of(text::views(old(events)@)) is Some),
        exists|time: u64|
            text::views(final(events)@) == #[trigger] repaired(text::views(old(events)@), time),
{
    let time = now_ms();
    repair_crash_turns_at(events, time)
}

/// Repairs a crash-orphaned turn of a log that was loaded.
pub fn load_with_repair(loaded: Result<Vec<SessionEvent>, String>) -> (r: Result<
    Vec<SessionEvent>,
    String,
>)
    ensures
        match (loaded, r) {
            (Ok(events), Ok(now)) => exists|time: u64|
                text::views(now@) == #[trigger] repaired(text::views(events@), time),
            (Err(m), Err(n)) => n@ == m@,
            _ => false,
        },
{
    match loaded {
        Ok(events) => {
            let mut events = events;
            let _ = repair_crash_turns(&mut events);
            Ok(events)
        },
        Err(m) => Err(m),
    }
}

// ---------------------------------------------------------------------------
// laws
// ---------------------------------------------------------------------------

/// A repaired log has no open turn, keeps every entry, and repairing it again
/// changes nothing.
pub proof fn law_repair_is_idempotent(events: Seq<SessionEventView>, time: u64, later: u64)
    ensures
        log::open_turn_of(repaired(events, time)) is None,
        events.is_prefix_of(repaired(events, time)),
        repaired(repaired(events, time), later) == repaired(events, time),
{
    let r = repaired(events, time);
    assert(events =~= r.subrange(0, events.len() as int));
}

/// A repaired positional log is positional.
pub proof fn law_repair_keeps_positions(events: Seq<SessionEventView>, time: u64)
    requires
        log::positional(events),
        events.len() < u64::MAX,
    ensures
        log::positional(repaired(events, time)),
{
}

/// Whether a line comes back from a file as it was written: not empty, no
/// white space around it, no line feed in it.
pub open spec fn is_line(s: Seq<char>) -> bool {
    &&& s.len() > 0
    &&& text::trim(s) == s
    &&& forall|i: int| 0 <= i < s.len() ==> #[trigger] s[i] != '\n'
}

proof fn lemma_newline()
    ensures
        "\n"@ == seq!['\n'],
{
    reveal_strlit("\n");
    assert("\n"@ =~= seq!['\n']);
}

proof fn lemma_position_of(s: Seq<char>, at: int)
    requires
        0 <= at < s.len(),
        s[at] == '\n',
        forall|k: int| 0 <= k < at ==> s[k] != '\n',
    ensures
        text::position(s, '\n') == at,
    decreases at,
{
    if at > 0 {
        lemma_position_of(s.skip(1), at - 1);
    }
}

/// A line that is trimmed does not end in a carriage return.
proof fn lemma_line_end(s: Seq<char>)
    requires
        is_line(s),
    ensures
        text::strip_carriage(s) == s,
{
    if s.last() == '\r' {
        assert(text::is_white('\r'));
        lemma_trim_ends(s);
    }
}

proof fn lemma_trim_ends(s: Seq<char>)
    requires
        text::trim(s) == s,
        s.len() > 0,
    ensures
        !text::is_white(s.last()),
{
    let t = text::trim_start(s);
    lemma_trim_start_len(s);
    lemma_trim_end_len(t);
    assert(t.len() == s.len());
    if text::is_white(s[0]) {
        lemma_trim_start_len(s.drop_first());
    }
    assert(t == s);
    if text::is_white(s.last()) {
        lemma_trim_end_len(s.drop_last());
    }
}

proof fn lemma_trim_start_len(s: Seq<char>)
    ensures
        text::trim_start(s).len() <= s.len(),
    decreases s.len(),
{
    if s.len() > 0 && text::is_white(s[0]) {
        lemma_trim_start_len(s.drop_first());
    }
}

proof fn lemma_trim_end_len(s: Seq<char>)
    ensures
        text::trim_end(s).len() <= s.len(),
    decreases s.len(),
{
    if s.len() > 0 && text::is_white(s.last()) {
        lemma_trim_end_len(s.drop_last());
    }
}

proof fn lemma_framed_split(lines: Seq<Seq<char>>)
    requires
        lines.len() > 0,
    ensures
        framed(lines) == lines[0] + "\n"@ + framed(lines.skip(1)),
    decreases lines.len(),
{
    if lines.len() == 1 {
        assert(lines.drop_last() =~= seq![]);
        assert(lines.skip(1) =~= seq![]);
        assert(framed(lines) =~= lines[0] + "\n"@ + framed(lines.skip(1)));
    } else {
        lemma_framed_split(lines.drop_last());
        assert(lines.drop_last().skip(1) =~= lines.skip(1).drop_last());
        assert(framed(lines) =~= lines[0] + "\n"@ + framed(lines.skip(1)));
    }
}

proof fn lemma_lines_of_framed(lines: Seq<Seq<char>>)
    requires
        forall|i: int| 0 <= i < lines.len() ==> is_line(#[trigger] lines[i]),
    ensures
        text::lines(framed(lines)) == lines,
    decreases lines.len(),
{
    lemma_newline();
    if lines.len() > 0 {
        let first = lines[0];
        let rest = lines.skip(1);
        lemma_framed_split(lines);
        let s = framed(lines);
        assert forall|i: int| 0 <= i < rest.len() implies is_line(#[trigger] rest[i]) by {
            assert(rest[i] == lines[i + 1]);
        }
        lemma_lines_of_framed(rest);
        assert(s[first.len() as int] == '\n');
        assert forall|k: int| 0 <= k < first.len() implies s[k] != '\n' by {
            assert(s[k] == first[k]);
        }
        lemma_position_of(s, first.len() as int);
        assert(s.take(first.len() as int) =~= first);
        assert(s.skip((first.len() + 1) as int) =~= framed(rest));
        lemma_line_end(first);
        assert(seq![first] + rest =~= lines);
    } else {
        assert(text::lines(framed(lines)) =~= lines);
    }
}

proof fn lemma_stored_lines(lines: Seq<Seq<char>>)
    requires
        forall|i: int| 0 <= i < lines.len() ==> is_line(#[trigger] lines[i]),
    ensures
        stored(lines) == lines,
    decreases lines.len(),
{
    if lines.len() > 0 {
        let before = lines.drop_last();
        assert forall|i: int| 0 <= i < before.len() implies is_line(#[trigger] before[i]) by {
            assert(before[i] == lines[i]);
        }
        lemma_stored_lines(before);
        assert(is_line(lines[lines.len() - 1]));
        assert(before.push(lines.last()) =~= lines);
    } else {
        assert(stored(lines) =~= lines);
    }
}

/// What was flushed is read back, line by line, in order.
pub proof fn law_load_reads_what_flush_wrote(lines: Seq<Seq<char>>)
    requires
        forall|i: int| 0 <= i < lines.len() ==> is_line(#[trigger] lines[i]),
    ensures
        stored(text::lines(framed(lines))) == lines,
{
    lemma_lines_of_framed(lines);
    lemma_stored_lines(lines);
}

/// Flushing twice writes what flushing everything at once writes.
pub proof fn law_flushes_add_up(first: Seq<Seq<char>>, second: Seq<Seq<char>>)
    ensures
        framed(first) + framed(second) == framed(first + second),
    decreases second.len(),
{
    if second.len() == 0 {
        assert(first + second =~= first);
        assert(framed(first) + framed(second) =~= framed(first));
    } else {
        law_flushes_add_up(first, second.drop_last());
        assert((first + second).drop_last() =~= first + second.drop_last());
        assert((first + second).last() == second.last());
        assert(framed(first) + framed(second) =~= framed(first + second));
    }
}

/// The backend after lines were recorded for a session, one by one.
pub open spec fn recorded_all(
    b: JsonlView,
    session: Seq<char>,
    lines: Seq<Seq<char>>,
) -> JsonlView
    decreases lines.len(),
{
    if lines.len() == 0 {
        b
    } else {
        recorded_all(b, session, lines.drop_last()).recorded(session, lines.last())
    }
}

/// Lines that are recorded for a session are buffered for it, in order, and for
/// no other session.
pub proof fn law_recorded_lines_are_buffered(
    b: JsonlView,
    session: Seq<char>,
    lines: Seq<Seq<char>>,
    other: Seq<char>,
)
    ensures
        recorded_all(b, session, lines).dir == b.dir,
        recorded_all(b, session, lines).buffered(session) == b.buffered(session) + lines,
        other != session ==> recorded_all(b, session, lines).buffered(other) == b.buffered(other),
    decreases lines.len(),
{
    if lines.len() == 0 {
        assert(b.buffered(session) + lines =~= b.buffered(session));
    } else {
        let before = recorded_all(b, session, lines.drop_last());
        law_recorded_lines_are_buffered(b, session, lines.drop_last(), other);
        let rest = ordered_map::removed(before.buffers, session);
        let grown = before.buffered(session).push(lines.last());
        ordered_map::law_remove_then_lookup(before.buffers, session, other);
        ordered_map::law_insert_then_lookup(rest, session, grown, other);
        assert((b.buffered(session) + lines.drop_last()).push(lines.last()) =~= b.buffered(session)
            + lines);
    }
}

/// What is recorded for a session and flushed is read back from its file,
/// behind what the file held before: everything in order, nothing twice. A
/// further flush finds nothing to write, and what other sessions have buffered
/// stays. The file goes by the directory and the session alone, so that another
/// backend over the same directory reads the same. A session that was never
/// stored reads as an empty log.
pub proof fn law_flushed_log_is_read_back(
    b: JsonlView,
    session: Seq<char>,
    earlier: Seq<Seq<char>>,
    lines: Seq<Seq<char>>,
    other: Seq<char>,
)
    requires
        b.buffered(session).len() == 0,
        forall|i: int| 0 <= i < earlier.len() ==> is_line(#[trigger] earlier[i]),
        forall|i: int| 0 <= i < lines.len() ==> is_line(#[trigger] lines[i]),
    ensures
        ({
            let full = recorded_all(b, session, lines);
            let file = framed(earlier) + framed(full.buffered(session));
            &&& stored(text::lines(file)) == earlier + lines
            &&& full.flushed(session).buffered(session).len() == 0
            &&& other != session ==> full.flushed(session).buffered(other) == b.buffered(other)
            &&& full.flushed(session).path(session) == b.path(session)
            &&& (JsonlView { dir: b.dir, buffers: seq![] }).path(session) == b.path(session)
            &&& stored(text::lines(framed(seq![]))) == Seq::<Seq<char>>::empty()
        }),
{
    let full = recorded_all(b, session, lines);
    let none: Seq<Seq<char>> = seq![];
    law_recorded_lines_are_buffered(b, session, lines, other);
    assert(b.buffered(session) + lines =~= lines);
    law_flushes_add_up(earlier, lines);
    law_load_reads_what_flush_wrote(earlier + lines);
    law_load_reads_what_flush_wrote(none);
    ordered_map::law_remove_then_lookup(full.buffers, session, other);
}

/// A log whose last turn is open is repaired by one entry that ends that turn as
/// interrupted, behind all others; any other log needs no repair.
pub proof fn law_repair_ends_the_open_turn(
    events: Seq<SessionEventView>,
    turn: u64,
    after: Seq<SessionEventView>,
    time: u64,
)
    requires
        events.len() + after.len() + 1 <= u64::MAX,
        forall|i: int|
            0 <= i < after.len() ==> !((#[trigger] after[i]).data is TurnStart)
                && !(after[i].data is TurnEnd),
    ensures
        ({
            let start = SessionEventView {
                seq: events.len() as u64,
                time,
                data: SessionEventDataView::TurnStart { turn },
            };
            let all = events.push(start) + after;
            repaired(all, time) == all.push(
                SessionEventView {
                    seq: all.len() as u64,
                    time,
                    data: SessionEventDataView::TurnEnd {
                        turn,
                        reason: TurnEndReasonView::Interrupted,
                    },
                },
            )
        }),
        log::open_turn_of(events) is None ==> repaired(events, time) == events,
{
    let start = SessionEventView {
        seq: events.len() as u64,
        time,
        data: SessionEventDataView::TurnStart { turn },
    };
    lemma_stays_open(events.push(start), turn, after);
}

proof fn lemma_stays_open(
    events: Seq<SessionEventView>,
    turn: u64,
    after: Seq<SessionEventView>,
)
    requires
        log::open_turn_of(events) == Some(turn),
        forall|i: int|
            0 <= i < after.len() ==> !((#[trigger] after[i]).data is TurnStart)
                && !(after[i].data is TurnEnd),
    ensures
        log::open_turn_of(events + after) == Some(turn),
    decreases after.len(),
{
    if after.len() == 0 {
        assert(events + after =~= events);
    } else {
        let front = after.drop_last();
        assert forall|i: int| 0 <= i < front.len() implies !((#[trigger] front[i]).data
            is TurnStart) && !(front[i].data is TurnEnd) by {
            assert(front[i] == after[i]);
        }
        lemma_stays_open(events, turn, front);
        assert((events + after).drop_last() =~= events + front);
        assert((events + after).last() == after[after.len() - 1]);
    }
}

/// The log of a session stands in the store's directory, under the session's
/// name; a file of such a name is that session's, and no other file is one's.
pub proof fn law_log_file_is_named_after_its_session(b: JsonlView, session: Seq<char>)
    ensures
        (session.len() == 0 || session[0] != '/') && b.dir.len() > 0 && b.dir.last() != '/'
            ==> b.path(session) == b.dir + seq!['/'] + session + ".jsonl"@,
        session_of_file(session + ".jsonl"@) == Some(session),
        forall|name: Seq<char>|
            #[trigger] session_of_file(name) matches Some(id) ==> name == id + ".jsonl"@,
{
    reveal_strlit("/");
    reveal_strlit(".jsonl");
    assert("/"@ =~= seq!['/']);
    let name = session + ".jsonl"@;
    assert(name.skip(session.len() as int) =~= ".jsonl"@);
    assert(name.take(session.len() as int) =~= session);
    if b.dir.len() > 0 {
        assert(b.dir + seq!['/'] + name =~= b.dir + seq!['/'] + session + ".jsonl"@);
    }
    assert forall|name: Seq<char>| #[trigger] session_of_file(name) matches Some(id) implies name
        == session_of_file(name)->0 + ".jsonl"@ by {
        let n = name.len() - ".jsonl"@.len();
        assert(name =~= name.take(n) + name.skip(n));
    }
}

/// The stored sessions are those that a file names, each once for its file.
pub proof fn law_stored_sessions_are_named_by_files(
    names: Seq<Seq<char>>,
    name: Seq<char>,
    id: Seq<char>,
)
    ensures
        sessions_of_files(seq![]) == Seq::<Seq<char>>::empty(),
        sessions_of_files(names.push(id + ".jsonl"@)) == sessions_of_files(names).push(id),
        (forall|s: Seq<char>| name != #[trigger] (s + ".jsonl"@)) ==> sessions_of_files(
            names.push(name),
        ) == sessions_of_files(names),
{
    let b = JsonlView { dir: seq![], buffers: seq![] };
    law_log_file_is_named_after_its_session(b, id);
    assert(names.push(name).drop_last() =~= names);
    assert(names.push(id + ".jsonl"@).drop_last() =~= names);
    if session_of_file(name) is Some {
        assert(name == session_of_file(name)->0 + ".jsonl"@);
    }
}

/// A file holds each line followed by a line feed, and nothing else; what is
/// read from it leaves out the lines that are blank.
pub proof fn law_each_line_ends_with_a_line_feed(lines: Seq<Seq<char>>, line: Seq<char>)
    ensures
        framed(seq![]) == Seq::<char>::empty(),
        framed(lines.push(line)) == framed(lines) + line + seq!['\n'],
        text::is_blank(line) ==> stored(lines.push(line)) == stored(lines),
        !text::is_blank(line) ==> stored(lines.push(line)) == stored(lines).push(text::trim(line)),
{
    lemma_newline();
    assert(lines.push(line).drop_last() =~= lines);
    text::law_trimming_cuts_white_space_only(line);
}

/// A line is read back without the white space around it; a blank one is left
/// out.
pub proof fn law_stored_lines_are_trimmed(lines: Seq<Seq<char>>, line: Seq<char>)
    ensures
        text::is_blank(line) ==> stored(lines.push(line)) == stored(lines),
        !text::is_blank(line) ==> stored(lines.push(line)) == stored(lines).push(
            text::trim(line),
        ),
        stored(seq![]) == Seq::<Seq<char>>::empty(),
{
    assert(lines.push(line).drop_last() =~= lines);
    text::law_trimming_cuts_white_space_only(line);
}

} // verus!
