//! The [`SessionStore`]: the live sessions.
//!
//! Persistence is deliberately not implemented here: durable logs follow the
//! appends from outside.

use crate::ordered_map;
use crate::ordered_map::OrderedMap;
use crate::session::log::{open_turn_in, Session};
use crate::text;
use crate::text::{clone_opt, concat2, concat3, decimal_text};
use crate::types::session::{
    now_ms, CreateSessionOptions, SessionEvent, SessionEventData, SessionHeader,
};
use vstd::prelude::*;

#[allow(unused_imports)]
use crate::session::log;
#[allow(unused_imports)]
use crate::session::log::{NoteView, SessionView};
#[allow(unused_imports)]
use crate::types::session::{
    CreateSessionOptionsView, SessionEventDataView, SessionEventView, SessionHeaderView,
};

verus! {

/// Errors from session operations.
#[derive(Debug, PartialEq)]
pub enum SessionError {
    /// A session with that id exists.
    Duplicate(String),
    /// The prefix to fork ends inside that turn.
    OpenTurn(u64),
    /// Persistence failed.
    Io(String),
    /// Anything else.
    Other(String),
}

/// What a [`SessionError`] says.
#[verifier::ext_equal]
pub enum SessionErrorView {
    Duplicate(Seq<char>),
    OpenTurn(u64),
    Io(Seq<char>),
    Other(Seq<char>),
}

impl View for SessionError {
    type V = SessionErrorView;

    open spec fn view(&self) -> SessionErrorView {
        match *self {
            SessionError::Duplicate(id) => SessionErrorView::Duplicate(id@),
            SessionError::OpenTurn(turn) => SessionErrorView::OpenTurn(turn),
            SessionError::Io(message) => SessionErrorView::Io(message@),
            SessionError::Other(message) => SessionErrorView::Other(message@),
        }
    }
}

/// How an error is shown.
pub open spec fn session_error_text(e: SessionErrorView) -> Seq<char> {
    match e {
        SessionErrorView::Duplicate(id) => "a session with id \""@ + id + "\" already exists"@,
        SessionErrorView::OpenTurn(turn) => "the forked prefix ends inside open turn "@
            + text::decimal(turn as nat),
        SessionErrorView::Io(message) => "persistence error: "@ + message,
        SessionErrorView::Other(message) => message,
    }
}

impl SessionError {
    /// How the error is shown.
    pub fn display(&self) -> (r: String)
        ensures
            r@ == session_error_text(self@),
    {
        match self {
            SessionError::Duplicate(id) => concat3(
                "a session with id \"",
                id.as_str(),
                "\" already exists",
            ),
            SessionError::OpenTurn(turn) => concat2(
                "the forked prefix ends inside open turn ",
                decimal_text(*turn).as_str(),
            ),
            SessionError::Io(message) => concat2("persistence error: ", message.as_str()),
            SessionError::Other(message) => message.clone(),
        }
    }
}

/// In-memory session store.
#[derive(Debug)]
pub struct SessionStore {
    sessions: OrderedMap<Session>,
    next: u64,
}

/// What a [`SessionStore`] holds: the live sessions in creation order, and how
/// many ids it has minted.
#[verifier::ext_equal]
pub struct SessionStoreView {
    pub sessions: Seq<(Seq<char>, SessionView)>,
    pub next: u64,
}

/// What the sessions of a store hold.
pub open spec fn sessions_view(e: Seq<(Seq<char>, Session)>) -> Seq<(Seq<char>, SessionView)> {
    Seq::new(e.len(), |i: int| (e[i].0, e[i].1@))
}

impl View for SessionStore {
    type V = SessionStoreView;

    closed spec fn view(&self) -> SessionStoreView {
        SessionStoreView { sessions: sessions_view(self.sessions@), next: self.next }
    }
}

/// The store's own observer, attached to every session that enters the store:
/// it announces each append and hands it on to the persistence backends.
pub const STORE_NOTIFIER: u64 = 0;

/// The id that a store mints as its `n`th.
pub open spec fn minted_id(n: u64) -> Seq<char> {
    "session-"@ + text::decimal(n as nat)
}

/// The session that `options` ask for, created at `time` under `id`.
pub open spec fn session_of(
    options: CreateSessionOptionsView,
    id: Seq<char>,
    time: u64,
) -> SessionView {
    SessionView {
        id,
        header: SessionHeaderView {
            cwd: options.cwd,
            created_at: time,
            parent_session: options.parent_session,
            seed_length: options.seed.len() as u64,
        },
        events: options.seed,
        next_seq: log::next_after(options.seed) as u64,
        notifiers: seq![],
        notes: seq![],
    }
}

impl SessionStoreView {
    /// The id of the next session that `options` ask for.
    pub open spec fn id_for(self, options: CreateSessionOptionsView) -> Seq<char> {
        match options.id {
            Some(id) => id,
            None => minted_id((self.next + 1) as u64),
        }
    }

    /// How many ids are minted after `options` were used.
    pub open spec fn next_for(self, options: CreateSessionOptionsView) -> u64 {
        match options.id {
            Some(_) => self.next,
            None => (self.next + 1) as u64,
        }
    }

    /// The store with a session entered as the latest.
    pub open spec fn with_session(self, session: SessionView) -> SessionStoreView {
        SessionStoreView {
            sessions: ordered_map::removed(self.sessions, session.id).push((session.id, session)),
            ..self
        }
    }

    /// The store after a session was created at `time`.
    pub open spec fn created(
        self,
        options: CreateSessionOptionsView,
        time: u64,
    ) -> SessionStoreView {
        SessionStoreView { next: self.next_for(options), ..self }.with_session(
            session_of(options, self.id_for(options), time).observed_by(STORE_NOTIFIER),
        )
    }

    /// The store after a fork was created from `options` at `time`, the end of
    /// its seed marked at `marked`.
    pub open spec fn forked(
        self,
        options: CreateSessionOptionsView,
        time: u64,
        marked: u64,
    ) -> SessionStoreView {
        SessionStoreView { next: self.next_for(options), ..self }.with_session(
            session_of(options, self.id_for(options), time).observed_by(STORE_NOTIFIER).appended(
                marked,
                SessionEventDataView::SessionEndSeed,
            ),
        )
    }

    /// What forking `source` gives, and the store afterwards.
    pub open spec fn fork(
        self,
        source: SessionView,
        boundary: Option<u64>,
        child_id: Option<Seq<char>>,
        time: u64,
        marked: u64,
    ) -> (Result<Seq<char>, SessionErrorView>, SessionStoreView) {
        let options = fork_options(source, boundary, child_id);
        match log::open_turn_of(options.seed) {
            Some(turn) => (Err(SessionErrorView::OpenTurn(turn)), self),
            None => (Ok(self.id_for(options)), self.forked(options, time, marked)),
        }
    }

    /// Whether there are positions and ids left for a fork of `source`.
    pub open spec fn can_fork(
        self,
        source: SessionView,
        boundary: Option<u64>,
        child_id: Option<Seq<char>>,
    ) -> bool {
        &&& log::next_after(fork_prefix(source, boundary)) <= u64::MAX
        &&& self.can_mint(fork_options(source, boundary, child_id))
    }

    /// Whether the store can mint one more id, where `options` need one.
    pub open spec fn can_mint(self, options: CreateSessionOptionsView) -> bool {
        options.id is Some || self.next < u64::MAX
    }
}

/// What a fork returns, by its view.
pub open spec fn id_result(r: Result<String, SessionError>) -> Result<Seq<char>, SessionErrorView> {
    match r {
        Ok(id) => Ok(id@),
        Err(e) => Err(e@),
    }
}

/// The entries of a log up to position `boundary`.
pub open spec fn prefix_upto(events: Seq<SessionEventView>, boundary: u64) -> Seq<SessionEventView> {
    events.filter(|e: SessionEventView| e.seq <= boundary)
}

/// The position that a fork takes along: the given one, or the last.
pub open spec fn fork_boundary(events: Seq<SessionEventView>, boundary: Option<u64>) -> u64 {
    match boundary {
        Some(b) => b,
        None => if events.len() > 0 {
            events.last().seq
        } else {
            0
        },
    }
}

/// What a fork of `source` starts with.
pub open spec fn fork_prefix(source: SessionView, boundary: Option<u64>) -> Seq<SessionEventView> {
    prefix_upto(source.events, fork_boundary(source.events, boundary))
}

/// The options that create a fork of `source`.
pub open spec fn fork_options(
    source: SessionView,
    boundary: Option<u64>,
    child_id: Option<Seq<char>>,
) -> CreateSessionOptionsView {
    CreateSessionOptionsView {
        id: child_id,
        cwd: source.header.cwd,
        seed: fork_prefix(source, boundary),
        parent_session: Some(source.id),
    }
}

proof fn lemma_sessions_lookup(e: Seq<(Seq<char>, Session)>, key: Seq<char>)
    ensures
        ordered_map::lookup(sessions_view(e), key) == text::opt_view(ordered_map::lookup(e, key)),
    decreases e.len(),
{
    if e.len() > 0 {
        assert(sessions_view(e).skip(1) =~= sessions_view(e.skip(1)));
        lemma_sessions_lookup(e.skip(1), key);
    }
}

proof fn lemma_sessions_removed(e: Seq<(Seq<char>, Session)>, key: Seq<char>)
    ensures
        sessions_view(ordered_map::removed(e, key)) == ordered_map::removed(sessions_view(e), key),
        forall|k: int|
            #![trigger ordered_map::removed(e, key)[k]]
            0 <= k < ordered_map::removed(e, key).len() ==> exists|j: int|
                0 <= j < e.len() && e[j] == ordered_map::removed(e, key)[k],
    decreases e.len(),
{
    let r = ordered_map::removed(e, key);
    if e.len() > 0 {
        let tail = e.skip(1);
        assert(sessions_view(e).skip(1) =~= sessions_view(tail));
        lemma_sessions_removed(tail, key);
        let rest = ordered_map::removed(tail, key);
        assert forall|k: int| #![trigger r[k]] 0 <= k < r.len() implies exists|j: int|
            0 <= j < e.len() && e[j] == r[k] by {
            if e[0].0 == key {
                assert(rest[k] == r[k]);
                let j = choose|j: int| 0 <= j < tail.len() && tail[j] == rest[k];
                assert(e[j + 1] == r[k]);
            } else if k == 0 {
                assert(e[0] == r[0]);
            } else {
                assert(rest[k - 1] == r[k]);
                let j = choose|j: int| 0 <= j < tail.len() && tail[j] == rest[k - 1];
                assert(e[j + 1] == r[k]);
            }
        }
    }
    assert(sessions_view(r) =~= ordered_map::removed(sessions_view(e), key));
}

/// The header and the log that `options` ask for.
fn build_session(options: CreateSessionOptions, id: String, time: u64) -> (r: Session)
    requires
        log::next_after(options@.seed) <= u64::MAX,
    ensures
        r.well_formed(),
        r@ == session_of(options@, id@, time),
{
    let header = SessionHeader {
        cwd: options.cwd,
        created_at: time,
        parent_session: options.parent_session,
        seed_length: options.seed.len() as u64,
    };
    Session::new(id, header, options.seed)
}

/// The entries of a log up to position `boundary`.
fn take_prefix(events: &Vec<SessionEvent>, boundary: u64) -> (r: Vec<SessionEvent>)
    ensures
        text::views(r@) == prefix_upto(text::views(events@), boundary),
{
    let ghost all = text::views(events@);
    let ghost keep = |e: SessionEventView| e.seq <= boundary;
    let mut out: Vec<SessionEvent> = Vec::new();
    assert(all.take(0).filter(keep) =~= seq![]) by {
        reveal(Seq::filter);
    }
    assert(text::views(out@) =~= seq![]);
    for i in 0..events.len()
        invariant
            all == text::views(events@),
            keep == (|e: SessionEventView| e.seq <= boundary),
            text::views(out@) == all.take(i as int).filter(keep),
    {
        let ghost before = text::views(out@);
        proof {
            assert(all.take(i + 1).drop_last() =~= all.take(i as int));
            assert(all.take(i + 1).last() == all[i as int]);
            reveal(Seq::filter);
        }
        if events[i].seq <= boundary {
            out.push(events[i].clone());
            assert(text::views(out@) =~= before.push(all[i as int]));
        }
    }
    assert(all.take(all.len() as int) =~= all);
    out
}

/// What creates a fork of `source`; the open turn where the prefix ends inside
/// one.
fn prepare_fork(
    source: &Session,
    boundary: Option<u64>,
    child_id: Option<String>,
) -> (r: Result<CreateSessionOptions, u64>)
    ensures
        match r {
            Ok(options) => {
                &&& log::open_turn_of(fork_prefix(source@, boundary)) is None
                &&& options@ == fork_options(source@, boundary, text::opt_view(child_id))
            },
            Err(turn) => log::open_turn_of(fork_prefix(source@, boundary)) == Some(turn),
        },
{
    let events = source.events();
    let limit: u64 = match boundary {
        Some(b) => b,
        None => if events.len() > 0 {
            events[events.len() - 1].seq
        } else {
            0
        },
    };
    assert(limit == fork_boundary(source@.events, boundary));
    let seed = take_prefix(&events, limit);
    if let Some(turn) = open_turn_in(&seed) {
        return Err(turn);
    }
    Ok(
        CreateSessionOptions {
            id: child_id,
            cwd: clone_opt(&source.header().cwd),
            seed,
            parent_session: Some(source.id().to_owned()),
        },
    )
}

impl SessionStore {
    /// Sessions are entered under their own ids, no two under one.
    pub closed spec fn well_formed(&self) -> bool {
        &&& ordered_map::distinct(self.sessions@)
        &&& forall|i: int|
            0 <= i < self.sessions@.len() ==> (#[trigger] self.sessions@[i]).1.well_formed()
                && self.sessions@[i].1@.id == self.sessions@[i].0
    }

    /// An empty store.
    pub fn new() -> (r: Self)
        ensures
            r.well_formed(),
            r@ == (SessionStoreView { sessions: seq![], next: 0 }),
    {
        let r = SessionStore { sessions: OrderedMap::new(), next: 0 };
        assert(r@.sessions =~= seq![]);
        r
    }

    /// Mints a session id.
    fn mint_id(&mut self) -> (r: String)
        requires
            old(self).well_formed(),
            old(self)@.next < u64::MAX,
        ensures
            final(self).well_formed(),
            r@ == minted_id((old(self)@.next + 1) as u64),
            final(self)@ == (SessionStoreView { next: (old(self)@.next + 1) as u64, ..old(self)@ }),
    {
        self.next = self.next + 1;
        concat2("session-", decimal_text(self.next).as_str())
    }

    fn id_for(&mut self, options: &CreateSessionOptions) -> (r: String)
        requires
            old(self).well_formed(),
            old(self)@.can_mint(options@),
        ensures
            final(self).well_formed(),
            r@ == old(self)@.id_for(options@),
            final(self)@ == (SessionStoreView { next: old(self)@.next_for(options@), ..old(self)@ }),
    {
        match &options.id {
            Some(id) => id.clone(),
            None => self.mint_id(),
        }
    }

    fn enter_last(&mut self, session: Session)
        requires
            old(self).well_formed(),
            session.well_formed(),
        ensures
            final(self).well_formed(),
            final(self)@ == old(self)@.with_session(session@),
    {
        let ghost before = self.sessions@;
        let ghost s = session;
        let id = session.id().to_owned();
        proof {
            lemma_sessions_removed(before, id@);
            ordered_map::law_remove_then_lookup(before, id@, id@);
        }
        let _ = self.sessions.remove(id.as_str());
        let ghost middle = self.sessions@;
        assert(session@.id == id@);
        self.sessions.insert(id.as_str(), session);
        assert(self.sessions@ =~= middle.push((id@, s)));
        assert(sessions_view(self.sessions@) =~= sessions_view(middle).push((id@, s@)));
        assert forall|i: int| 0 <= i < self.sessions@.len() implies (
        #[trigger] self.sessions@[i]).1.well_formed() && self.sessions@[i].1@.id
            == self.sessions@[i].0 by {
            if i < middle.len() {
                assert(self.sessions@[i] == middle[i]);
                let j = choose|j: int| 0 <= j < before.len() && before[j] == middle[i];
                assert(before[j].1.well_formed());
            }
        }
    }

    /// Creates a session at `time`, owned by the store.
    pub fn create_at(&mut self, options: CreateSessionOptions, time: u64) -> (r: String)
        requires
            old(self).well_formed(),
            old(self)@.can_mint(options@),
            log::next_after(options@.seed) <= u64::MAX,
        ensures
            final(self).well_formed(),
            r@ == old(self)@.id_for(options@),
            final(self)@ == old(self)@.created(options@, time),
    {
        let id = self.id_for(&options);
        let mut session = build_session(options, id.clone(), time);
        session.add_notifier(STORE_NOTIFIER);
        self.enter_last(session);
        id
    }

    /// Creates a session now, owned by the store.
    pub fn create(&mut self, options: CreateSessionOptions) -> (r: String)
        requires
            old(self).well_formed(),
            old(self)@.can_mint(options@),
            log::next_after(options@.seed) <= u64::MAX,
        ensures
            final(self).well_formed(),
            r@ == old(self)@.id_for(options@),
            exists|time: u64| final(self)@ == #[trigger] old(self)@.created(options@, time),
    {
        let time = now_ms();
        self.create_at(options, time)
    }

    /// Builds a session created at `time` without entering it into the store;
    /// the caller owns it.
    pub fn prepare(&mut self, options: CreateSessionOptions, time: u64) -> (r: Session)
        requires
            old(self).well_formed(),
            old(self)@.can_mint(options@),
            log::next_after(options@.seed) <= u64::MAX,
        ensures
            final(self).well_formed(),
            final(self)@ == (SessionStoreView { next: old(self)@.next_for(options@), ..old(self)@ }),
            r.well_formed(),
            r@ == session_of(options@, old(self)@.id_for(options@), time),
    {
        let id = self.id_for(&options);
        build_session(options, id, time)
    }

    /// Enters a prepared session into the store.
    pub fn enter(&mut self, session: Session) -> (r: Result<(), SessionError>)
        requires
            old(self).well_formed(),
            session.well_formed(),
        ensures
            final(self).well_formed(),
            match r {
                Ok(_) => ordered_map::lookup(old(self)@.sessions, session@.id) is None
                    && final(self)@ == old(self)@.with_session(
                    session@.observed_by(STORE_NOTIFIER),
                ),
                Err(e) => ordered_map::lookup(old(self)@.sessions, session@.id) is Some
                    && final(self)@ == old(self)@ && e@ == SessionErrorView::Duplicate(session@.id),
            },
    {
        proof {
            lemma_sessions_lookup(self.sessions@, session@.id);
        }
        if self.sessions.contains_key(session.id()) {
            return Err(SessionError::Duplicate(session.id().to_owned()));
        }
        let mut session = session;
        session.add_notifier(STORE_NOTIFIER);
        self.enter_last(session);
        Ok(())
    }

    /// Looks up a live session.
    pub fn get(&self, id: &str) -> (r: Option<&Session>)
        requires
            self.well_formed(),
        ensures
            match r {
                Some(s) => s.well_formed() && s@.id == id@ && ordered_map::lookup(
                    self@.sessions,
                    id@,
                ) == Some(s@),
                None => ordered_map::lookup(self@.sessions, id@) is None,
            },
    {
        proof {
            lemma_sessions_lookup(self.sessions@, id@);
        }
        match self.sessions.position(id) {
            Some(i) => {
                let (_, session) = self.sessions.at(i);
                Some(session)
            },
            None => None,
        }
    }

    /// The live session of that id, to be changed in place.
    pub fn get_mut(&mut self, id: &str) -> (r: Option<&mut Session>)
        requires
            old(self).well_formed(),
        ensures
            match r {
                Some(s) => {
                    &&& s.well_formed()
                    &&& s@.id == id@
                    &&& ordered_map::lookup(old(self)@.sessions, id@) == Some(s@)
                    &&& final(s).well_formed() && final(s)@.id == id@ ==> final(self).well_formed()
                    &&& final(self)@ == (SessionStoreView {
                        sessions: ordered_map::inserted(old(self)@.sessions, id@, final(s)@),
                        ..old(self)@
                    })
                },
                None => {
                    &&& ordered_map::lookup(old(self)@.sessions, id@) is None
                    &&& *final(self) == *old(self)
                },
            },
    {
        let ghost before = self.sessions@;
        proof {
            lemma_sessions_lookup(before, id@);
        }
        match self.sessions.position(id) {
            Some(i) => {
                proof {
                    assert(before[i as int].1.well_formed());
                    assert forall|k: int| 0 <= k < before.len() && k != i implies (
                    #[trigger] before[k]).0 != id@ by {
                        if k < i {
                            assert(before[k].0 != before[i as int].0);
                        } else {
                            assert(before[i as int].0 != before[k].0);
                        }
                    }
                    assert forall|s: Session|
                        #![trigger before.update(i as int, (id@, s))]
                        sessions_view(before.update(i as int, (id@, s))) == ordered_map::inserted(
                            sessions_view(before),
                            id@,
                            s@,
                        ) by {
                        assert(sessions_view(before.update(i as int, (id@, s)))
                            =~= ordered_map::inserted(sessions_view(before), id@, s@));
                    }
                }
                Some(self.sessions.value_at_mut(i))
            },
            None => None,
        }
    }

    /// Appends an event that happened at `time` to a live session.
    pub fn append_at(&mut self, id: &str, time: u64, data: SessionEventData) -> (r: Option<
        SessionEvent,
    >)
        requires
            old(self).well_formed(),
        ensures
            final(self).well_formed(),
            match ordered_map::lookup(old(self)@.sessions, id@) {
                Some(s) => r matches Some(e) && e@ == (SessionEventView {
                    seq: s.next_seq,
                    time,
                    data: data@,
                }) && final(self)@ == (SessionStoreView {
                    sessions: ordered_map::inserted(
                        old(self)@.sessions,
                        id@,
                        s.appended(time, data@),
                    ),
                    ..old(self)@
                }),
                None => r is None && final(self)@ == old(self)@,
            },
    {
        let ghost before = self.sessions@;
        proof {
            lemma_sessions_lookup(before, id@);
        }
        match self.sessions.position(id) {
            Some(i) => {
                assert(before[i as int].1.well_formed());
                let event = self.sessions.value_at_mut(i).append_at(time, data);
                proof {
                    let after = self.sessions@;
                    let updated = after[i as int].1;
                    assert(after =~= before.update(i as int, (id@, updated)));
                    assert(sessions_view(after) =~= ordered_map::inserted(
                        sessions_view(before),
                        id@,
                        updated@,
                    )) by {
                        assert forall|k: int| 0 <= k < before.len() && k != i implies (
                        #[trigger] before[k]).0 != id@ by {
                            if k < i {
                                assert(before[k].0 != before[i as int].0);
                            } else {
                                assert(before[i as int].0 != before[k].0);
                            }
                        }
                    }
                    assert forall|k: int| 0 <= k < after.len() implies (
                    #[trigger] after[k]).1.well_formed() && after[k].1@.id == after[k].0 by {
                        assert(before[k].1.well_formed());
                    }
                }
                Some(event)
            },
            None => None,
        }
    }

    /// All live sessions, in creation order.
    pub fn list(&self) -> (r: Vec<&Session>)
        ensures
            Seq::new(r@.len(), |i: int| r@[i]@) == Seq::new(
                self@.sessions.len(),
                |i: int| self@.sessions[i].1,
            ),
    {
        let mut out: Vec<&Session> = Vec::new();
        let n = self.sessions.len();
        for i in 0..n
            invariant
                n == self.sessions@.len(),
                out@.len() == i,
                forall|k: int| 0 <= k < i ==> (#[trigger] out@[k])@ == self@.sessions[k].1,
        {
            let (_, session) = self.sessions.at(i);
            out.push(session);
        }
        assert(Seq::new(out@.len(), |i: int| out@[i]@) =~= Seq::new(
            self@.sessions.len(),
            |i: int| self@.sessions[i].1,
        ));
        out
    }

    /// Removes a session from the store.
    pub fn remove(&mut self, id: &str) -> (r: Option<Session>)
        requires
            old(self).well_formed(),
        ensures
            final(self).well_formed(),
            text::opt_view(r) == ordered_map::lookup(old(self)@.sessions, id@),
            final(self)@ == (SessionStoreView {
                sessions: ordered_map::removed(old(self)@.sessions, id@),
                ..old(self)@
            }),
    {
        let ghost before = self.sessions@;
        proof {
            lemma_sessions_lookup(before, id@);
            lemma_sessions_removed(before, id@);
        }
        let r = self.sessions.remove(id);
        assert forall|i: int| 0 <= i < self.sessions@.len() implies (
        #[trigger] self.sessions@[i]).1.well_formed() && self.sessions@[i].1@.id
            == self.sessions@[i].0 by {
            let j = choose|j: int| 0 <= j < before.len() && before[j] == self.sessions@[i];
            assert(before[j].1.well_formed());
        }
        r
    }

    /// Forks a session, in the store or not, from a stable prefix of its log, at
    /// `time`; the end of the seed is marked at `marked`.
    ///
    /// `boundary` is an inclusive source position; the prefix must end outside
    /// an open turn.
    pub fn fork_session(
        &mut self,
        source: &Session,
        boundary: Option<u64>,
        child_id: Option<String>,
        time: u64,
        marked: u64,
    ) -> (r: Result<String, SessionError>)
        requires
            old(self).well_formed(),
            old(self)@.can_fork(source@, boundary, text::opt_view(child_id)),
        ensures
            final(self).well_formed(),
            (id_result(r), final(self)@) == old(self)@.fork(
                source@,
                boundary,
                text::opt_view(child_id),
                time,
                marked,
            ),
    {
        match prepare_fork(source, boundary, child_id) {
            Ok(options) => Ok(self.enter_fork(options, time, marked)),
            Err(turn) => Err(SessionError::OpenTurn(turn)),
        }
    }

    /// Forks a live session at `time`, as [`SessionStore::fork_session`] does.
    pub fn fork_at(
        &mut self,
        source: &str,
        boundary: Option<u64>,
        child_id: Option<String>,
        time: u64,
        marked: u64,
    ) -> (r: Result<String, SessionError>)
        requires
            old(self).well_formed(),
            ordered_map::lookup(old(self)@.sessions, source@) matches Some(s)
                && old(self)@.can_fork(s, boundary, text::opt_view(child_id)),
        ensures
            final(self).well_formed(),
            (id_result(r), final(self)@) == old(self)@.fork(
                ordered_map::lookup(old(self)@.sessions, source@)->0,
                boundary,
                text::opt_view(child_id),
                time,
                marked,
            ),
    {
        let prepared = match self.get(source) {
            Some(session) => prepare_fork(session, boundary, child_id),
            None => Err(0),
        };
        match prepared {
            Ok(options) => Ok(self.enter_fork(options, time, marked)),
            Err(turn) => Err(SessionError::OpenTurn(turn)),
        }
    }

    /// Forks a live session now.
    pub fn fork(
        &mut self,
        source: &str,
        boundary: Option<u64>,
        child_id: Option<String>,
    ) -> (r: Result<String, SessionError>)
        requires
            old(self).well_formed(),
            ordered_map::lookup(old(self)@.sessions, source@) matches Some(s)
                && old(self)@.can_fork(s, boundary, text::opt_view(child_id)),
        ensures
            final(self).well_formed(),
            exists|time: u64, marked: u64|
                (id_result(r), final(self)@) == #[trigger] old(self)@.fork(
                    ordered_map::lookup(old(self)@.sessions, source@)->0,
                    boundary,
                    text::opt_view(child_id),
                    time,
                    marked,
                ),
    {
        let time = now_ms();
        let marked = now_ms();
        self.fork_at(source, boundary, child_id, time, marked)
    }

    fn enter_fork(&mut self, options: CreateSessionOptions, time: u64, marked: u64) -> (r: String)
        requires
            old(self).well_formed(),
            old(self)@.can_mint(options@),
            log::next_after(options@.seed) <= u64::MAX,
        ensures
            final(self).well_formed(),
            r@ == old(self)@.id_for(options@),
            final(self)@ == old(self)@.forked(options@, time, marked),
    {
        let id = self.id_for(&options);
        let mut child = build_session(options, id.clone(), time);
        child.add_notifier(STORE_NOTIFIER);
        let _ = child.append_at(marked, SessionEventData::SessionEndSeed);
        self.enter_last(child);
        id
    }

    /// Appends an event to a live session now.
    pub fn append(&mut self, id: &str, data: SessionEventData) -> (r: Option<SessionEvent>)
        requires
            old(self).well_formed(),
        ensures
            final(self).well_formed(),
            match ordered_map::lookup(old(self)@.sessions, id@) {
                Some(s) => r matches Some(e) && e@.seq == s.next_seq && e@.data == data@
                    && final(self)@ == (SessionStoreView {
                    sessions: ordered_map::inserted(
                        old(self)@.sessions,
                        id@,
                        s.appended(e@.time, data@),
                    ),
                    ..old(self)@
                }),
                None => r is None && final(self)@ == old(self)@,
            },
    {
        self.append_at(id, now_ms(), data)
    }
}

impl Default for SessionStore {
    fn default() -> (r: Self)
        ensures
            r.well_formed(),
            r@ == (SessionStoreView { sessions: seq![], next: 0 }),
    {
        SessionStore::new()
    }
}

/// The outcome of a durability checkpoint: the backends' first failure, else
/// that of the `session/flush` event.
pub fn flush_outcome(
    flushed: Result<(), String>,
    dispatched: Result<(), String>,
) -> (r: Result<(), SessionError>)
    ensures
        match flushed {
            Err(message) => r matches Err(e) && e@ == SessionErrorView::Io(message@),
            Ok(_) => match dispatched {
                Err(message) => r matches Err(e) && e@ == SessionErrorView::Other(message@),
                Ok(_) => r is Ok,
            },
        },
{
    match flushed {
        Err(message) => Err(SessionError::Io(message)),
        Ok(_) => match dispatched {
            Err(message) => Err(SessionError::Other(message)),
            Ok(_) => Ok(()),
        },
    }
}

// ---------------------------------------------------------------------------
// laws
// ---------------------------------------------------------------------------

/// A session that was entered is found under its id, and it is the last of
/// the list; every other session is found as before.
pub proof fn law_entered_session_is_found(
    store: SessionStoreView,
    session: SessionView,
    other: Seq<char>,
)
    ensures
        ordered_map::distinct(store.sessions) ==> ordered_map::distinct(
            store.with_session(session).sessions,
        ),
        ordered_map::lookup(store.with_session(session).sessions, session.id) == Some(session),
        store.with_session(session).sessions.last() == (session.id, session),
        other != session.id ==> ordered_map::lookup(store.with_session(session).sessions, other)
            == ordered_map::lookup(store.sessions, other),
{
    let rest = ordered_map::removed(store.sessions, session.id);
    ordered_map::law_remove_then_lookup(store.sessions, session.id, other);
    assert(ordered_map::inserted(rest, session.id, session) == rest.push((session.id, session)));
    if ordered_map::distinct(store.sessions) {
        ordered_map::lemma_removed_distinct(store.sessions, session.id);
        ordered_map::lemma_inserted_distinct(rest, session.id, session);
    }
    ordered_map::law_insert_then_lookup(rest, session.id, session, other);
}

/// A session that was created in a store reports every append to it once.
pub proof fn law_live_session_reports_its_appends(
    store: SessionStoreView,
    options: CreateSessionOptionsView,
    created: u64,
    time: u64,
    data: SessionEventDataView,
)
    ensures
        ordered_map::lookup(
            store.created(options, created).sessions,
            store.id_for(options),
        ) matches Some(s) && s.notes.len() == 0 && s.appended(time, data).notes == seq![
            NoteView {
                notifier: STORE_NOTIFIER,
                event: SessionEventView { seq: s.next_seq, time, data },
            },
        ],
{
    let s = session_of(options, store.id_for(options), created).observed_by(STORE_NOTIFIER);
    let minted = SessionStoreView { next: store.next_for(options), ..store };
    law_entered_session_is_found(minted, s, s.id);
    assert(s.appended(time, data).notes =~= seq![
        NoteView {
            notifier: STORE_NOTIFIER,
            event: SessionEventView { seq: s.next_seq, time, data },
        },
    ]);
}

/// Minted ids are all different.
pub proof fn law_minted_ids_differ(a: u64, b: u64)
    ensures
        minted_id(a) == minted_id(b) ==> a == b,
{
    if minted_id(a) == minted_id(b) {
        let p = "session-"@;
        assert(minted_id(a).skip(p.len() as int) =~= text::decimal(a as nat));
        assert(minted_id(b).skip(p.len() as int) =~= text::decimal(b as nat));
        text::lemma_decimal_injective(a as nat, b as nat);
    }
}

/// A fork at a position of a positional log takes along exactly the entries up
/// to that position.
pub proof fn law_fork_takes_the_prefix(source: SessionView, boundary: u64)
    requires
        log::positional(source.events),
        boundary < source.events.len(),
    ensures
        fork_prefix(source, Some(boundary)) == source.events.take(boundary + 1),
        log::positional(fork_prefix(source, Some(boundary))),
{
    lemma_prefix_of_positional(source.events, boundary);
}

proof fn lemma_prefix_of_positional(events: Seq<SessionEventView>, boundary: u64)
    requires
        log::positional(events),
    ensures
        prefix_upto(events, boundary) == (if boundary < events.len() {
            events.take(boundary + 1)
        } else {
            events
        }),
    decreases events.len(),
{
    reveal(Seq::filter);
    if events.len() > 0 {
        let before = events.drop_last();
        assert forall|i: int| 0 <= i < before.len() implies (#[trigger] before[i]).seq == i by {
            assert(before[i] == events[i]);
        }
        lemma_prefix_of_positional(before, boundary);
        assert(events.last().seq == events.len() - 1);
        if boundary + 1 < events.len() {
            assert(before.take(boundary + 1) =~= events.take(boundary + 1));
        } else if boundary + 1 == events.len() {
            assert(before.push(events.last()) =~= events);
            assert(events.take(boundary + 1) =~= events);
        } else {
            assert(before.push(events.last()) =~= events);
        }
    } else {
        assert(prefix_upto(events, boundary) =~= events);
    }
}

proof fn lemma_prefix_is_all(events: Seq<SessionEventView>, boundary: u64)
    requires
        forall|i: int| 0 <= i < events.len() ==> (#[trigger] events[i]).seq <= boundary,
    ensures
        prefix_upto(events, boundary) == events,
    decreases events.len(),
{
    reveal(Seq::filter);
    if events.len() > 0 {
        lemma_prefix_is_all(events.drop_last(), boundary);
        assert(events.drop_last().push(events.last()) =~= events);
    } else {
        assert(prefix_upto(events, boundary) =~= events);
    }
}

/// A fork is refused exactly where the entries that it takes along end inside
/// an open turn, and then the store stays as it was. Else the fork is found
/// under its id: it holds those entries and the mark of the seed's end, and has
/// the working directory of its source. The entries are those up to the
/// boundary, or all of them where none is given. Every other session, the
/// source among them, is found as before.
pub proof fn law_fork_takes_all_or_nothing(
    store: SessionStoreView,
    source: SessionView,
    boundary: Option<u64>,
    child_id: Option<Seq<char>>,
    time: u64,
    marked: u64,
    other: Seq<char>,
)
    requires
        store.can_fork(source, boundary, child_id),
        boundary is None ==> log::increasing(source.events),
    ensures
        ({
            let taken = match boundary {
                Some(b) => source.events.filter(|e: SessionEventView| e.seq <= b),
                None => source.events,
            };
            let (r, after) = store.fork(source, boundary, child_id, time, marked);
            match log::open_turn_of(taken) {
                Some(turn) => r == Err::<Seq<char>, SessionErrorView>(
                    SessionErrorView::OpenTurn(turn),
                ) && after == store,
                None => {
                    &&& r is Ok
                    &&& child_id matches Some(id) ==> r->Ok_0 == id
                    &&& ordered_map::lookup(after.sessions, r->Ok_0) matches Some(child)
                        && child.events == taken.push(
                        SessionEventView {
                            seq: log::next_after(taken) as u64,
                            time: marked,
                            data: SessionEventDataView::SessionEndSeed,
                        },
                    ) && child.header.cwd == source.header.cwd && child.header.parent_session
                        == Some(source.id)
                    &&& other != r->Ok_0 ==> ordered_map::lookup(after.sessions, other)
                        == ordered_map::lookup(store.sessions, other)
                },
            }
        }),
{
    let options = fork_options(source, boundary, child_id);
    if boundary is None && source.events.len() > 0 {
        lemma_prefix_is_all(source.events, source.events.last().seq);
    } else if boundary is None {
        lemma_prefix_is_all(source.events, 0);
    }
    let child = session_of(options, store.id_for(options), time).observed_by(
        STORE_NOTIFIER,
    ).appended(marked, SessionEventDataView::SessionEndSeed);
    let minted = SessionStoreView { next: store.next_for(options), ..store };
    law_entered_session_is_found(minted, child, other);
}

/// A fork's history is the history of the prefix that it took along: the mark
/// of the seed's end adds no message, and no turn is open in it.
pub proof fn law_fork_continues_the_prefix(
    source: SessionView,
    boundary: u64,
    id: Seq<char>,
    time: u64,
)
    requires
        log::positional(source.events),
        boundary < source.events.len() < u64::MAX,
        log::open_turn_of(fork_prefix(source, Some(boundary))) is None,
    ensures
        ({
            let options = fork_options(source, Some(boundary), Some(id));
            let child = session_of(options, id, time).observed_by(STORE_NOTIFIER).appended(
                time,
                SessionEventDataView::SessionEndSeed,
            );
            &&& child.messages() == log::projected(source.events.take(boundary + 1))
            &&& log::open_turn_of(child.events) is None
            &&& child.header.parent_session == Some(source.id)
            &&& child.header.seed_length == boundary + 1
            &&& child.next_seq == child.events.len()
        }),
{
    let options = fork_options(source, Some(boundary), Some(id));
    let seeded = session_of(options, id, time).observed_by(STORE_NOTIFIER);
    law_fork_takes_the_prefix(source, boundary);
    log::law_next_seq_is_log_length(seeded.events);
    log::law_append_is_contiguous(seeded, time, SessionEventDataView::SessionEndSeed);
    log::law_append_extends_history(seeded, time, SessionEventDataView::SessionEndSeed);
    log::law_history_is_the_projected_log(seeded);
    let child = seeded.appended(time, SessionEventDataView::SessionEndSeed);
    assert(child.events.drop_last() =~= seeded.events);
}

/// A session that was created holds what was asked for: its id, the one it was
/// given or the next that is minted; its working directory and its parent; its
/// seed, behind which it goes on. Every other session is found as before.
pub proof fn law_created_session_is_as_asked(
    store: SessionStoreView,
    options: CreateSessionOptionsView,
    time: u64,
    other: Seq<char>,
)
    requires
        store.next < u64::MAX,
        log::next_after(options.seed) <= u64::MAX,
        options.seed.len() <= u64::MAX,
    ensures
        ({
            let after = store.created(options, time);
            let id: Seq<char> = if options.id is Some {
                options.id->0
            } else {
                "session-"@ + text::decimal((store.next + 1) as nat)
            };
            &&& store.id_for(options) == id
            &&& after.next == (if options.id is Some {
                store.next as int
            } else {
                store.next + 1
            })
            &&& ordered_map::lookup(after.sessions, id) matches Some(s) && s.id == id
                && s.header.cwd == options.cwd && s.header.parent_session
                == options.parent_session && s.header.created_at == time && s.header.seed_length
                == options.seed.len() && s.events == options.seed && s.next_seq
                == log::next_after(options.seed)
            &&& other != id ==> ordered_map::lookup(after.sessions, other) == ordered_map::lookup(
                store.sessions,
                other,
            )
        }),
{
    let s = session_of(options, store.id_for(options), time).observed_by(STORE_NOTIFIER);
    let minted = SessionStoreView { next: store.next_for(options), ..store };
    law_entered_session_is_found(minted, s, other);
}

/// An append to a session of the store changes that session and no other.
pub proof fn law_append_changes_one_session(
    sessions: Seq<(Seq<char>, SessionView)>,
    id: Seq<char>,
    s: SessionView,
    time: u64,
    data: SessionEventDataView,
    other: Seq<char>,
)
    requires
        ordered_map::lookup(sessions, id) == Some(s),
    ensures
        ({
            let after = ordered_map::inserted(sessions, id, s.appended(time, data));
            &&& ordered_map::lookup(after, id) matches Some(now) && now.events.len()
                == s.events.len() + 1 && now.events.last().data == data && now.events.drop_last()
                == s.events
            &&& other != id ==> ordered_map::lookup(after, other) == ordered_map::lookup(
                sessions,
                other,
            )
        }),
{
    ordered_map::law_insert_then_lookup(sessions, id, s.appended(time, data), other);
    assert(s.appended(time, data).events.drop_last() =~= s.events);
}

/// An error says what it is about.
pub proof fn law_session_errors_are_shown(id: Seq<char>, turn: u64, message: Seq<char>)
    ensures
        session_error_text(SessionErrorView::Duplicate(id)) == "a session with id \""@ + id
            + "\" already exists"@,
        session_error_text(SessionErrorView::OpenTurn(turn))
            == "the forked prefix ends inside open turn "@ + text::decimal(turn as nat),
        session_error_text(SessionErrorView::Io(message)) == "persistence error: "@ + message,
        session_error_text(SessionErrorView::Other(message)) == message,
{
}

} // verus!
