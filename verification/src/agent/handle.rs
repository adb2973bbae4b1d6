//! The [`Agent`] handle and [`AgentRegistry`].
//!
//! An agent owns one session (the durable event log), an inbox of pending user
//! messages and a lifecycle status. Its driver waits for work and drains it
//! turn by turn.

use crate::ordered_map;
use crate::ordered_map::OrderedMap;
use crate::session::log::user_message;
use crate::session::store::SessionStore;
use crate::text;
use crate::text::{concat2, concat3};
use crate::types::agent::{AgentCancelCause, AgentOptions, AgentStatus};
use crate::types::llm::Message;
use crate::types::session::{now_ms, CreateSessionOptions, SessionEvent, SessionEventData};
use vstd::prelude::*;

#[allow(unused_imports)]
use crate::session::log;
#[allow(unused_imports)]
use crate::session::store;
#[allow(unused_imports)]
use crate::session::store::SessionStoreView;
#[allow(unused_imports)]
use crate::types::agent::AgentOptionsView;
#[allow(unused_imports)]
use crate::types::llm::MessageView;
#[allow(unused_imports)]
use crate::types::session::{CreateSessionOptionsView, SessionEventDataView};

verus! {

/// Errors from agent operations.
#[derive(Debug, PartialEq)]
pub enum AgentError {
    /// An agent with that id exists.
    Duplicate(String),
    /// The loop failed.
    Loop(String),
}

/// What an [`AgentError`] says.
#[verifier::ext_equal]
pub enum AgentErrorView {
    Duplicate(Seq<char>),
    Loop(Seq<char>),
}

impl View for AgentError {
    type V = AgentErrorView;

    open spec fn view(&self) -> AgentErrorView {
        match *self {
            AgentError::Duplicate(id) => AgentErrorView::Duplicate(id@),
            AgentError::Loop(message) => AgentErrorView::Loop(message@),
        }
    }
}

/// How an error is shown.
pub open spec fn agent_error_text(e: AgentErrorView) -> Seq<char> {
    match e {
        AgentErrorView::Duplicate(id) => "an agent with id \""@ + id + "\" already exists"@,
        AgentErrorView::Loop(message) => "agent loop error: "@ + message,
    }
}

impl AgentError {
    /// How the error is shown.
    pub fn display(&self) -> (r: String)
        ensures
            r@ == agent_error_text(self@),
    {
        match self {
            AgentError::Duplicate(id) => concat3(
                "an agent with id \"",
                id.as_str(),
                "\" already exists",
            ),
            AgentError::Loop(message) => concat2("agent loop error: ", message.as_str()),
        }
    }
}

/// Cooperative cancellation of a turn: fires once.
#[derive(Debug, Clone, Copy, PartialEq, Eq, Structural)]
pub struct CancelToken {
    pub fired: bool,
}

impl CancelToken {
    /// A token that has not fired.
    pub fn new() -> (r: Self)
        ensures
            r == (CancelToken { fired: false }),
    {
        CancelToken { fired: false }
    }

    /// Fires the cancellation; idempotent.
    pub fn cancel(&mut self)
        ensures
            *final(self) == (CancelToken { fired: true }),
    {
        self.fired = true;
    }

    /// Whether the token has fired.
    pub fn is_cancelled(&self) -> (r: bool)
        ensures
            r == self.fired,
    {
        self.fired
    }
}

impl Default for CancelToken {
    fn default() -> (r: Self)
        ensures
            r == (CancelToken { fired: false }),
    {
        CancelToken::new()
    }
}

// ---------------------------------------------------------------------------
// the handle
// ---------------------------------------------------------------------------

/// Live agent handle.
#[derive(Debug)]
pub struct Agent {
    id: String,
    options: AgentOptions,
    status: AgentStatus,
    /// Messages that each open a turn.
    next_turn: Vec<Message>,
    /// Messages that enter the nearest step.
    next_step: Vec<Message>,
    cancel: Option<CancelToken>,
    /// Bumped whenever the driver is woken.
    wakes: u64,
    /// True while the driver is processing a batch.
    busy: bool,
    /// Number of pending (unclaimed) inbox messages that the driver was woken
    /// for.
    pending: usize,
    /// Bumped whenever the driver settles back to waiting.
    settled: u64,
    disposed: bool,
    completed_turns: u64,
}

/// What an [`Agent`] holds.
#[verifier::ext_equal]
pub struct AgentView {
    pub id: Seq<char>,
    pub options: AgentOptionsView,
    pub status: AgentStatus,
    pub next_turn: Seq<MessageView>,
    pub next_step: Seq<MessageView>,
    pub cancel: Option<CancelToken>,
    pub wakes: u64,
    pub busy: bool,
    pub pending: usize,
    pub settled: u64,
    pub disposed: bool,
    pub completed_turns: u64,
}

impl View for Agent {
    type V = AgentView;

    closed spec fn view(&self) -> AgentView {
        AgentView {
            id: self.id@,
            options: self.options@,
            status: self.status,
            next_turn: text::views(self.next_turn@),
            next_step: text::views(self.next_step@),
            cancel: self.cancel,
            wakes: self.wakes,
            busy: self.busy,
            pending: self.pending,
            settled: self.settled,
            disposed: self.disposed,
            completed_turns: self.completed_turns,
        }
    }
}

/// What the driver does next.
#[derive(Debug, PartialEq)]
pub enum Drive {
    /// Wait until the agent is woken.
    Wait,
    /// Stop driving.
    Exit,
    /// Run one turn on the batch that was claimed.
    RunTurn { messages: Vec<Message> },
}

/// What a [`Drive`] says.
#[verifier::ext_equal]
pub enum DriveView {
    Wait,
    Exit,
    RunTurn { messages: Seq<MessageView> },
}

impl View for Drive {
    type V = DriveView;

    open spec fn view(&self) -> DriveView {
        match *self {
            Drive::Wait => DriveView::Wait,
            Drive::Exit => DriveView::Exit,
            Drive::RunTurn { messages } => DriveView::RunTurn {
                messages: text::views(messages@),
            },
        }
    }
}

impl AgentView {
    /// A fresh agent.
    pub open spec fn fresh(id: Seq<char>, options: AgentOptionsView) -> AgentView {
        AgentView {
            id,
            options,
            status: AgentStatus::Idle,
            next_turn: seq![],
            next_step: seq![],
            cancel: None,
            wakes: 0,
            busy: false,
            pending: 0,
            settled: 0,
            disposed: false,
            completed_turns: 0,
        }
    }

    /// How many messages the inbox holds, as far as they can be counted.
    pub open spec fn queued(self) -> usize {
        if self.next_turn.len() + self.next_step.len() <= usize::MAX {
            (self.next_turn.len() + self.next_step.len()) as usize
        } else {
            usize::MAX
        }
    }

    /// Whether the driver is quiescent: no active batch and no pending work
    /// that it was woken for.
    pub open spec fn idle(self) -> bool {
        !self.busy && self.pending == 0
    }

    /// The agent after it was woken: all that is queued is pending.
    pub open spec fn woken(self) -> AgentView {
        AgentView { wakes: self.wakes.wrapping_add(1), pending: self.queued(), ..self }
    }

    /// With a message that opens a turn.
    pub open spec fn with_followup(self, m: MessageView) -> AgentView {
        AgentView { next_turn: self.next_turn.push(m), ..self }.woken()
    }

    /// With a message that enters the nearest step, unnoticed by the driver.
    pub open spec fn with_injected(self, m: MessageView) -> AgentView {
        AgentView { next_step: self.next_step.push(m), ..self }
    }

    /// With a message that enters the nearest step.
    pub open spec fn with_steering(self, m: MessageView) -> AgentView {
        self.with_injected(m).woken()
    }

    /// Cancelled.
    pub open spec fn cancelled(self, keep_inbox: bool) -> AgentView {
        AgentView {
            cancel: match self.cancel {
                Some(_) => Some(CancelToken { fired: true }),
                None => None,
            },
            next_turn: if keep_inbox {
                self.next_turn
            } else {
                seq![]
            },
            next_step: if keep_inbox {
                self.next_step
            } else {
                seq![]
            },
            pending: if keep_inbox {
                self.pending
            } else {
                0
            },
            ..self
        }
    }

    /// The batch that opens the next turn: one message that opens a turn, then
    /// all that enter the nearest step.
    pub open spec fn batch(self) -> Seq<MessageView> {
        if self.next_turn.len() > 0 {
            seq![self.next_turn[0]] + self.next_step
        } else {
            self.next_step
        }
    }

    /// The agent after that batch was claimed.
    pub open spec fn claimed(self) -> AgentView {
        AgentView {
            next_turn: if self.next_turn.len() > 0 {
                self.next_turn.skip(1)
            } else {
                seq![]
            },
            next_step: seq![],
            pending: 0,
            ..self
        }
    }

    /// The agent after only the input of the nearest step was claimed.
    pub open spec fn step_claimed(self) -> AgentView {
        AgentView { next_step: seq![], pending: 0, ..self }
    }

    /// The agent after its driver began to drain the inbox.
    pub open spec fn begun(self) -> AgentView {
        AgentView {
            cancel: Some(CancelToken { fired: false }),
            status: AgentStatus::Running,
            busy: true,
            ..self
        }
    }

    /// The agent after its driver settled.
    pub open spec fn ended(self) -> AgentView {
        AgentView {
            status: AgentStatus::Idle,
            busy: false,
            settled: self.settled.wrapping_add(1),
            ..self
        }
    }

    /// The agent after it was disposed.
    pub open spec fn disposed_of(self) -> AgentView {
        AgentView { disposed: true, ..self }.cancelled(false).woken()
    }

    /// What the driver does next, and the agent afterwards. A waiting driver
    /// begins where work is pending; a busy one has just run a turn. Turns are
    /// run until there is no batch left; then the driver settles.
    pub open spec fn drive(self) -> (DriveView, AgentView) {
        if self.disposed {
            (
                DriveView::Exit,
                if self.busy {
                    self.ended()
                } else {
                    self
                },
            )
        } else if !self.busy && self.pending == 0 {
            (DriveView::Wait, self)
        } else {
            let begun = if self.busy {
                self
            } else {
                self.begun()
            };
            if self.batch().len() == 0 {
                (DriveView::Wait, begun.claimed().ended())
            } else {
                (DriveView::RunTurn { messages: self.batch() }, begun.claimed())
            }
        }
    }
}

impl Agent {
    /// A fresh agent.
    pub fn new(id: &str, options: AgentOptions) -> (r: Self)
        ensures
            r@ == AgentView::fresh(id@, options@),
    {
        let r = Agent {
            id: id.to_owned(),
            options,
            status: AgentStatus::Idle,
            next_turn: Vec::new(),
            next_step: Vec::new(),
            cancel: None,
            wakes: 0,
            busy: false,
            pending: 0,
            settled: 0,
            disposed: false,
            completed_turns: 0,
        };
        assert(r@ =~= AgentView::fresh(id@, options@));
        r
    }

    /// The id of the agent and its session.
    pub fn id(&self) -> (r: &str)
        ensures
            r@ == self@.id,
    {
        self.id.as_str()
    }

    /// The creation options.
    pub fn options(&self) -> (r: &AgentOptions)
        ensures
            r@ == self@.options,
    {
        &self.options
    }

    /// The lifecycle state.
    pub fn status(&self) -> (r: AgentStatus)
        ensures
            r == self@.status,
    {
        self.status
    }

    /// Whether the agent was disposed.
    pub fn is_disposed(&self) -> (r: bool)
        ensures
            r == self@.disposed,
    {
        self.disposed
    }

    /// Whether the driver is processing a batch.
    pub fn driver_busy(&self) -> (r: bool)
        ensures
            r == self@.busy,
    {
        self.busy
    }

    /// How many steps with tool calls were completed.
    pub fn completed_turns(&self) -> (r: u64)
        ensures
            r == self@.completed_turns,
    {
        self.completed_turns
    }

    /// Counts one more completed step with tool calls.
    pub fn complete_turn(&mut self)
        ensures
            final(self)@ == (AgentView {
                completed_turns: old(self)@.completed_turns.wrapping_add(1),
                ..old(self)@
            }),
    {
        self.completed_turns = self.completed_turns.wrapping_add(1);
    }

    /// The token of the active turn.
    pub fn turn_token(&self) -> (r: Option<CancelToken>)
        ensures
            r == self@.cancel,
    {
        self.cancel
    }

    /// Queues an ordinary follow-up turn and wakes the driver.
    pub fn followup(&mut self, message: Message)
        ensures
            final(self)@ == old(self)@.with_followup(message@),
    {
        let ghost before = self@;
        self.next_turn.push(message);
        assert(text::views(self.next_turn@) =~= before.next_turn.push(message@));
        self.wake();
        assert(self@ =~= before.with_followup(message@));
    }

    /// Submits steering for the nearest step (does not open a new turn).
    pub fn steer(&mut self, message: Message)
        ensures
            final(self)@ == old(self)@.with_steering(message@),
    {
        self.inject(message);
        self.wake();
    }

    /// Queues model-facing context without waking the driver: an idle agent
    /// stays idle.
    pub fn inject(&mut self, message: Message)
        ensures
            final(self)@ == old(self)@.with_injected(message@),
            final(self)@.idle() == old(self)@.idle(),
    {
        let ghost before = self@;
        self.next_step.push(message);
        assert(self@ =~= before.with_injected(message@));
    }

    /// Wakes the driver so that it looks at the inbox again.
    pub fn wake(&mut self)
        ensures
            final(self)@ == old(self)@.woken(),
    {
        self.wakes = self.wakes.wrapping_add(1);
        self.pending = self.next_turn.len().saturating_add(self.next_step.len());
    }

    /// Cancels the active turn and (unless `keep_inbox`) clears pending work.
    pub fn cancel(&mut self, cause: AgentCancelCause, keep_inbox: bool)
        ensures
            final(self)@ == old(self)@.cancelled(keep_inbox),
    {
        let ghost before = self@;
        if self.cancel.is_some() {
            let mut token = CancelToken::new();
            token.cancel();
            self.cancel = Some(token);
        }
        if !keep_inbox {
            self.next_turn = Vec::new();
            self.next_step = Vec::new();
            self.pending = 0;
        }
        assert(self@ =~= before.cancelled(keep_inbox));
    }

    /// Whether there are pending messages that the driver was woken for.
    pub fn has_work(&self) -> (r: bool)
        ensures
            r == (self@.pending > 0),
    {
        self.pending > 0
    }

    /// Whether the driver is quiescent: no active batch and no pending work
    /// that it was woken for.
    pub fn is_idle(&self) -> (r: bool)
        ensures
            r == self@.idle(),
    {
        !self.busy && self.pending == 0
    }

    /// Claims one turn-opening batch: one message that opens a turn plus all
    /// input of the nearest step.
    pub fn claim_batch(&mut self) -> (r: Vec<Message>)
        ensures
            text::views(r@) == old(self)@.batch(),
            final(self)@ == old(self)@.claimed(),
    {
        let ghost before = self@;
        let mut batch: Vec<Message> = Vec::new();
        if self.next_turn.len() > 0 {
            let first = self.next_turn.remove(0);
            assert(text::views(self.next_turn@) =~= before.next_turn.skip(1));
            batch.push(first);
        } else {
            assert(text::views(self.next_turn@) =~= seq![]);
        }
        batch.append(&mut self.next_step);
        self.pending = 0;
        assert(text::views(batch@) =~= before.batch());
        assert(self@ =~= before.claimed());
        batch
    }

    /// Claims only the input of the nearest step (a step continuation).
    pub fn claim_next_step(&mut self) -> (r: Vec<Message>)
        ensures
            text::views(r@) == old(self)@.next_step,
            final(self)@ == old(self)@.step_claimed(),
    {
        let ghost before = self@;
        let mut drained: Vec<Message> = Vec::new();
        drained.append(&mut self.next_step);
        self.pending = 0;
        assert(text::views(drained@) =~= before.next_step);
        assert(self@ =~= before.step_claimed());
        drained
    }

    /// The driver begins to drain the inbox.
    pub fn begin_turn(&mut self)
        ensures
            final(self)@ == old(self)@.begun(),
    {
        self.cancel = Some(CancelToken::new());
        self.status = AgentStatus::Running;
        self.busy = true;
    }

    /// The driver settles.
    pub fn end_turn(&mut self)
        ensures
            final(self)@ == old(self)@.ended(),
    {
        self.status = AgentStatus::Idle;
        self.busy = false;
        self.settled = self.settled.wrapping_add(1);
    }

    /// What the driver does next: asked when it starts, after it was woken, and
    /// after each turn that it ran.
    pub fn drive(&mut self) -> (r: Drive)
        ensures
            (r@, final(self)@) == old(self)@.drive(),
    {
        if self.disposed {
            if self.busy {
                self.end_turn();
            }
            return Drive::Exit;
        }
        if !self.busy {
            if !self.has_work() {
                return Drive::Wait;
            }
            self.begin_turn();
        }
        let messages = self.claim_batch();
        if messages.len() == 0 {
            self.end_turn();
            return Drive::Wait;
        }
        Drive::RunTurn { messages }
    }

    /// The agent is disposed: its driver is woken so that it exits.
    pub fn dispose(&mut self)
        ensures
            final(self)@ == old(self)@.disposed_of(),
    {
        self.disposed = true;
        self.cancel(AgentCancelCause::Disposed, false);
        self.wake();
    }
}

/// A user-role message for the model.
pub fn user_message_with_text(id: &str, text: &str) -> (r: Message)
    ensures
        r@ == log::user_message_of(id@, text@),
{
    user_message(id, text)
}

// ---------------------------------------------------------------------------
// the registry
// ---------------------------------------------------------------------------

/// Live agent registry.
#[derive(Debug)]
pub struct AgentRegistry {
    agents: OrderedMap<Agent>,
}

/// What the agents of a registry hold.
pub open spec fn agents_view(e: Seq<(Seq<char>, Agent)>) -> Seq<(Seq<char>, AgentView)> {
    Seq::new(e.len(), |i: int| (e[i].0, e[i].1@))
}

impl View for AgentRegistry {
    type V = Seq<(Seq<char>, AgentView)>;

    closed spec fn view(&self) -> Seq<(Seq<char>, AgentView)> {
        agents_view(self.agents@)
    }
}

/// The options that create an agent's session.
pub open spec fn agent_session_options(
    id: Option<Seq<char>>,
    cwd: Option<Seq<char>>,
) -> CreateSessionOptionsView {
    CreateSessionOptionsView { id, cwd, seed: seq![], parent_session: None }
}

/// The entry that a seed prompt adds to the session of agent `id`.
pub open spec fn seed_entry(id: Seq<char>, prompt: Seq<char>) -> SessionEventDataView {
    SessionEventDataView::UserMessage { message: log::user_message_of("seed-"@ + id, prompt) }
}

/// The session store after an agent's session was created at `time` and its
/// seed prompt appended at `seeded`.
pub open spec fn store_with_agent(
    sessions: SessionStoreView,
    id: Option<Seq<char>>,
    cwd: Option<Seq<char>>,
    seed: Option<Seq<char>>,
    time: u64,
    seeded: u64,
) -> SessionStoreView {
    let options = agent_session_options(id, cwd);
    let agent_id = sessions.id_for(options);
    let created = SessionStoreView { next: sessions.next_for(options), ..sessions };
    let session = store::session_of(options, agent_id, time).observed_by(store::STORE_NOTIFIER);
    created.with_session(
        match seed {
            Some(prompt) => session.appended(seeded, seed_entry(agent_id, prompt)),
            None => session,
        },
    )
}

proof fn lemma_agents_lookup(e: Seq<(Seq<char>, Agent)>, key: Seq<char>)
    ensures
        ordered_map::lookup(agents_view(e), key) == text::opt_view(ordered_map::lookup(e, key)),
    decreases e.len(),
{
    if e.len() > 0 {
        assert(agents_view(e).skip(1) =~= agents_view(e.skip(1)));
        lemma_agents_lookup(e.skip(1), key);
    }
}

proof fn lemma_agents_inserted(e: Seq<(Seq<char>, Agent)>, key: Seq<char>, a: Agent)
    ensures
        agents_view(ordered_map::inserted(e, key, a)) == ordered_map::inserted(
            agents_view(e),
            key,
            a@,
        ),
{
    lemma_agents_lookup(e, key);
    assert(agents_view(ordered_map::inserted(e, key, a)) =~= ordered_map::inserted(
        agents_view(e),
        key,
        a@,
    ));
}

proof fn lemma_agents_removed(e: Seq<(Seq<char>, Agent)>, key: Seq<char>)
    ensures
        agents_view(ordered_map::removed(e, key)) == ordered_map::removed(agents_view(e), key),
    decreases e.len(),
{
    if e.len() > 0 {
        assert(agents_view(e).skip(1) =~= agents_view(e.skip(1)));
        lemma_agents_removed(e.skip(1), key);
    }
    assert(agents_view(ordered_map::removed(e, key)) =~= ordered_map::removed(agents_view(e), key));
}

impl AgentRegistry {
    /// No id is registered twice.
    pub closed spec fn well_formed(&self) -> bool {
        ordered_map::distinct(self.agents@)
    }

    /// A registry without agents.
    pub fn new() -> (r: Self)
        ensures
            r.well_formed(),
            r@ == Seq::<(Seq<char>, AgentView)>::empty(),
    {
        let r = AgentRegistry { agents: OrderedMap::new() };
        assert(r@ =~= seq![]);
        r
    }

    /// Creates a session and an agent under one identity. The session is
    /// created at `time`, the seed prompt appended at `seeded`. Where an agent
    /// of that id lives, the session is created all the same and the agent is
    /// not.
    pub fn create_at(
        &mut self,
        sessions: &mut SessionStore,
        id: Option<String>,
        options: AgentOptions,
        cwd: Option<String>,
        seed_prompt: Option<String>,
        time: u64,
        seeded: u64,
    ) -> (r: Result<String, AgentError>)
        requires
            old(self).well_formed(),
            old(sessions).well_formed(),
            old(sessions)@.can_mint(
                agent_session_options(text::opt_view(id), text::opt_view(cwd)),
            ),
        ensures
            final(self).well_formed(),
            final(sessions).well_formed(),
            final(sessions)@ == store_with_agent(
                old(sessions)@,
                text::opt_view(id),
                text::opt_view(cwd),
                text::opt_view(seed_prompt),
                time,
                seeded,
            ),
            ({
                let agent_id = old(sessions)@.id_for(
                    agent_session_options(text::opt_view(id), text::opt_view(cwd)),
                );
                match r {
                    Ok(created) => created@ == agent_id && ordered_map::lookup(
                        old(self)@,
                        agent_id,
                    ) is None && final(self)@ == old(self)@.push(
                        (agent_id, AgentView::fresh(agent_id, options@)),
                    ),
                    Err(e) => e@ == AgentErrorView::Duplicate(agent_id) && ordered_map::lookup(
                        old(self)@,
                        agent_id,
                    ) is Some && final(self)@ == old(self)@,
                }
            }),
    {
        let ghost wanted = agent_session_options(text::opt_view(id), text::opt_view(cwd));
        let seed: Vec<SessionEvent> = Vec::new();
        assert(text::views(seed@) =~= seq![]);
        let create = CreateSessionOptions { id, cwd, seed, parent_session: None };
        assert(create@ =~= wanted);
        let agent_id = sessions.create_at(create, time);
        proof {
            let rest = ordered_map::removed(old(sessions)@.sessions, agent_id@);
            let session = store::session_of(wanted, agent_id@, time).observed_by(
                store::STORE_NOTIFIER,
            );
            ordered_map::law_remove_then_lookup(old(sessions)@.sessions, agent_id@, agent_id@);
            if let Some(prompt) = text::opt_view(seed_prompt) {
                lemma_last_replaced(
                    rest,
                    agent_id@,
                    session,
                    session.appended(seeded, seed_entry(agent_id@, prompt)),
                );
            }
        }
        if let Some(prompt) = &seed_prompt {
            let message_id = concat2("seed-", agent_id.as_str());
            let message = user_message(message_id.as_str(), prompt.as_str());
            let _ = sessions.append_at(
                agent_id.as_str(),
                seeded,
                SessionEventData::UserMessage { message },
            );
        }
        proof {
            lemma_agents_lookup(self.agents@, agent_id@);
        }
        if self.agents.contains_key(agent_id.as_str()) {
            return Err(AgentError::Duplicate(agent_id));
        }
        let agent = Agent::new(agent_id.as_str(), options);
        proof {
            lemma_agents_inserted(self.agents@, agent_id@, agent);
        }
        self.agents.insert(agent_id.as_str(), agent);
        Ok(agent_id)
    }

    /// Creates a session and an agent under one identity, now.
    pub fn create(
        &mut self,
        sessions: &mut SessionStore,
        id: Option<String>,
        options: AgentOptions,
        cwd: Option<String>,
        seed_prompt: Option<String>,
    ) -> (r: Result<String, AgentError>)
        requires
            old(self).well_formed(),
            old(sessions).well_formed(),
            old(sessions)@.can_mint(
                agent_session_options(text::opt_view(id), text::opt_view(cwd)),
            ),
        ensures
            final(self).well_formed(),
            final(sessions).well_formed(),
            exists|time: u64, seeded: u64|
                final(sessions)@ == #[trigger] store_with_agent(
                    old(sessions)@,
                    text::opt_view(id),
                    text::opt_view(cwd),
                    text::opt_view(seed_prompt),
                    time,
                    seeded,
                ),
            ({
                let agent_id = old(sessions)@.id_for(
                    agent_session_options(text::opt_view(id), text::opt_view(cwd)),
                );
                match r {
                    Ok(created) => created@ == agent_id && ordered_map::lookup(
                        old(self)@,
                        agent_id,
                    ) is None && final(self)@ == old(self)@.push(
                        (agent_id, AgentView::fresh(agent_id, options@)),
                    ),
                    Err(e) => e@ == AgentErrorView::Duplicate(agent_id) && ordered_map::lookup(
                        old(self)@,
                        agent_id,
                    ) is Some && final(self)@ == old(self)@,
                }
            }),
    {
        let time = now_ms();
        let seeded = now_ms();
        self.create_at(sessions, id, options, cwd, seed_prompt, time, seeded)
    }

    /// The agent of that id.
    pub fn get(&self, id: &str) -> (r: Option<&Agent>)
        requires
            self.well_formed(),
        ensures
            match r {
                Some(a) => ordered_map::lookup(self@, id@) == Some(a@),
                None => ordered_map::lookup(self@, id@) is None,
            },
    {
        proof {
            lemma_agents_lookup(self.agents@, id@);
        }
        self.agents.get(id)
    }

    /// All agents, in creation order.
    pub fn list(&self) -> (r: Vec<&Agent>)
        ensures
            Seq::new(r@.len(), |i: int| r@[i]@) == Seq::new(self@.len(), |i: int| self@[i].1),
    {
        let mut out: Vec<&Agent> = Vec::new();
        let n = self.agents.len();
        for i in 0..n
            invariant
                n == self.agents@.len(),
                out@.len() == i,
                forall|k: int| 0 <= k < i ==> (#[trigger] out@[k])@ == self@[k].1,
        {
            let (_, agent) = self.agents.at(i);
            out.push(agent);
        }
        assert(Seq::new(out@.len(), |i: int| out@[i]@) =~= Seq::new(
            self@.len(),
            |i: int| self@[i].1,
        ));
        out
    }

    /// The agent of that id, to be changed in place.
    pub fn get_mut(&mut self, id: &str) -> (r: Option<&mut Agent>)
        requires
            old(self).well_formed(),
        ensures
            final(self).well_formed(),
            match r {
                Some(a) => ordered_map::lookup(old(self)@, id@) == Some(a@) && final(self)@
                    == ordered_map::inserted(old(self)@, id@, final(a)@),
                None => ordered_map::lookup(old(self)@, id@) is None && final(self)@ == old(self)@,
            },
    {
        let ghost before = self.agents@;
        proof {
            lemma_agents_lookup(before, id@);
        }
        match self.agents.position(id) {
            Some(i) => {
                proof {
                    assert forall|k: int| 0 <= k < before.len() && k != i implies (
                    #[trigger] before[k]).0 != id@ by {
                        if k < i {
                            assert(before[k].0 != before[i as int].0);
                        } else {
                            assert(before[i as int].0 != before[k].0);
                        }
                    }
                    assert forall|a: Agent|
                        #![trigger before.update(i as int, (id@, a))]
                        agents_view(before.update(i as int, (id@, a))) == ordered_map::inserted(
                            agents_view(before),
                            id@,
                            a@,
                        ) && ordered_map::distinct(before.update(i as int, (id@, a))) by {
                        assert(agents_view(before.update(i as int, (id@, a)))
                            =~= ordered_map::inserted(agents_view(before), id@, a@));
                    }
                }
                Some(self.agents.value_at_mut(i))
            },
            None => None,
        }
    }

    /// Disposes an agent: it leaves the registry, marked disposed and
    /// cancelled, and its driver is woken so that it exits.
    pub fn dispose(&mut self, id: &str) -> (r: Option<Agent>)
        requires
            old(self).well_formed(),
        ensures
            final(self).well_formed(),
            final(self)@ == ordered_map::removed(old(self)@, id@),
            match ordered_map::lookup(old(self)@, id@) {
                Some(a) => r matches Some(gone) && gone@ == a.disposed_of(),
                None => r is None,
            },
    {
        proof {
            lemma_agents_lookup(self.agents@, id@);
            lemma_agents_removed(self.agents@, id@);
        }
        match self.agents.remove(id) {
            Some(mut agent) => {
                agent.dispose();
                Some(agent)
            },
            None => None,
        }
    }

    /// Disposes every agent, in registration order.
    pub fn dispose_all(&mut self) -> (r: Vec<Agent>)
        requires
            old(self).well_formed(),
        ensures
            final(self).well_formed(),
            final(self)@.len() == 0,
            text::views(r@) == Seq::new(
                old(self)@.len(),
                |i: int| old(self)@[i].1.disposed_of(),
            ),
    {
        let ghost all = self@;
        let mut gone: Vec<Agent> = Vec::new();
        assert(all.skip(0) =~= all);
        while self.agents.len() > 0
            invariant
                self.well_formed(),
                gone@.len() <= all.len(),
                self@ == all.skip(gone@.len() as int),
                forall|k: int|
                    0 <= k < gone@.len() ==> (#[trigger] gone@[k])@ == all[k].1.disposed_of(),
            decreases all.len() - gone@.len(),
        {
            let ghost n = gone@.len() as int;
            let ghost now = self@;
            let (id, _) = self.agents.at(0);
            let id = id.clone();
            proof {
                assert(now.len() == self.agents@.len());
                assert(now[0] == all[n]);
                assert(now[0].0 == self.agents@[0].0);
                assert(ordered_map::distinct(now)) by {
                    assert forall|i: int, j: int| 0 <= i < j < now.len() implies (
                    #[trigger] now[i]).0 != (#[trigger] now[j]).0 by {
                        assert(self.agents@[i].0 != self.agents@[j].0);
                    }
                }
                lemma_first_removed(now);
            }
            if let Some(agent) = self.dispose(id.as_str()) {
                gone.push(agent);
            }
            assert(self@ =~= all.skip(n + 1));
        }
        assert(text::views(gone@) =~= Seq::new(all.len(), |i: int| all[i].1.disposed_of()));
        gone
    }
}

proof fn lemma_first_removed<V>(e: Seq<(Seq<char>, V)>)
    requires
        e.len() > 0,
        ordered_map::distinct(e),
    ensures
        ordered_map::lookup(e, e[0].0) == Some(e[0].1),
        ordered_map::removed(e, e[0].0) == e.skip(1),
{
    let rest = e.skip(1);
    assert forall|k: int| 0 <= k < rest.len() implies (#[trigger] rest[k]).0 != e[0].0 by {
        assert(rest[k] == e[k + 1]);
        assert(e[0].0 != e[k + 1].0);
    }
    lemma_absent_removed(rest, e[0].0);
}

proof fn lemma_absent_removed<V>(e: Seq<(Seq<char>, V)>, key: Seq<char>)
    requires
        forall|k: int| 0 <= k < e.len() ==> (#[trigger] e[k]).0 != key,
    ensures
        ordered_map::removed(e, key) == e,
    decreases e.len(),
{
    if e.len() > 0 {
        assert forall|k: int| 0 <= k < e.skip(1).len() implies (#[trigger] e.skip(1)[k]).0
            != key by {
            assert(e.skip(1)[k] == e[k + 1]);
        }
        lemma_absent_removed(e.skip(1), key);
        assert(seq![e[0]] + e.skip(1) =~= e);
    }
}

proof fn lemma_last_replaced<V>(rest: Seq<(Seq<char>, V)>, key: Seq<char>, v: V, new: V)
    requires
        ordered_map::lookup(rest, key) is None,
    ensures
        ordered_map::lookup(rest.push((key, v)), key) == Some(v),
        ordered_map::inserted(rest.push((key, v)), key, new) == rest.push((key, new)),
    decreases rest.len(),
{
    let all = rest.push((key, v));
    ordered_map::lemma_lookup_none(rest, key);
    if rest.len() > 0 {
        assert(all.skip(1) =~= rest.skip(1).push((key, v)));
        lemma_last_replaced(rest.skip(1), key, v, new);
    }
    assert(ordered_map::inserted(all, key, new) =~= rest.push((key, new)));
}

// ---------------------------------------------------------------------------
// laws
// ---------------------------------------------------------------------------

/// Follow-ups on an agent with an empty inbox.
pub open spec fn with_followups(a: AgentView, messages: Seq<MessageView>) -> AgentView
    decreases messages.len(),
{
    if messages.len() == 0 {
        a
    } else {
        with_followups(a, messages.drop_last()).with_followup(messages.last())
    }
}

/// Follow-ups wait in the order in which they came.
pub proof fn law_followups_wait_in_order(a: AgentView, messages: Seq<MessageView>)
    ensures
        with_followups(a, messages).next_turn == a.next_turn + messages,
        with_followups(a, messages).next_step == a.next_step,
    decreases messages.len(),
{
    if messages.len() > 0 {
        law_followups_wait_in_order(a, messages.drop_last());
        assert((a.next_turn + messages.drop_last()).push(messages.last()) =~= a.next_turn
            + messages);
    } else {
        assert(a.next_turn + messages =~= a.next_turn);
    }
}

/// Each claim opens one turn: it takes the oldest follow-up and all steering,
/// leaves the other follow-ups in order, and loses nothing.
pub proof fn law_claim_takes_the_oldest(a: AgentView)
    ensures
        a.next_turn.len() > 0 ==> a.batch() == seq![a.next_turn[0]] + a.next_step
            && a.claimed().next_turn == a.next_turn.skip(1),
        a.claimed().next_step.len() == 0,
        a.batch().len() == 0 <==> a.next_turn.len() == 0 && a.next_step.len() == 0,
        a.batch().len() + a.claimed().next_turn.len() == a.next_turn.len() + a.next_step.len(),
{
}

/// Steering never opens a turn of its own while follow-ups wait: it enters
/// with the next batch.
pub proof fn law_steering_enters_the_next_batch(a: AgentView, m: MessageView)
    ensures
        a.with_steering(m).batch() == a.batch().push(m),
        a.with_steering(m).next_turn == a.next_turn,
{
    assert(a.with_steering(m).batch() =~= a.batch().push(m));
}

/// Injected context does not wake the driver: it changes neither whether the
/// agent is idle nor what the driver does while it waits. Waking it does: the
/// context then enters the next turn.
pub proof fn law_injection_does_not_wake(a: AgentView, m: MessageView)
    ensures
        a.with_injected(m).idle() == a.idle(),
        a.idle() ==> a.with_injected(m).drive().0 == a.drive().0,
        a.with_injected(m).batch() == a.batch().push(m),
        !a.disposed ==> a.with_injected(m).woken().drive().0 == (DriveView::RunTurn {
            messages: a.batch().push(m),
        }),
{
    assert(a.with_injected(m).batch() =~= a.batch().push(m));
}

/// A cancel that does not keep the inbox leaves nothing to claim and no pending
/// work, and fires the token of the active turn.
pub proof fn law_cancel_clears_the_inbox(a: AgentView)
    ensures
        a.cancelled(false).batch().len() == 0,
        a.cancelled(false).pending == 0,
        !a.busy ==> a.cancelled(false).idle(),
        a.begun().cancelled(false).cancel == Some(CancelToken { fired: true }),
        a.cancelled(true).batch() == a.batch(),
{
}

/// A disposed agent's driver exits and settles, whatever is queued afterwards.
pub proof fn law_disposed_agent_is_not_driven(a: AgentView, m: MessageView)
    ensures
        a.disposed_of().drive().0 == DriveView::Exit,
        a.disposed_of().with_followup(m).drive().0 == DriveView::Exit,
        !a.disposed_of().drive().1.busy,
{
}

/// The batches of the turns that a driver runs before it waits, where nothing
/// is queued meanwhile.
pub open spec fn drained(a: AgentView) -> Seq<Seq<MessageView>>
    decreases a.next_turn.len() + a.next_step.len(),
{
    match a.drive().0 {
        DriveView::RunTurn { messages } => seq![messages] + drained(a.drive().1),
        _ => seq![],
    }
}

/// Each follow-up gets a turn of its own, in order; steering enters the first
/// turn.
pub proof fn law_each_followup_gets_a_turn(a: AgentView)
    requires
        !a.disposed,
        a.busy || a.pending > 0,
        a.next_turn.len() > 0,
    ensures
        drained(a).len() == a.next_turn.len(),
        drained(a)[0] == seq![a.next_turn[0]] + a.next_step,
        forall|i: int|
            1 <= i < a.next_turn.len() ==> #[trigger] drained(a)[i] == seq![a.next_turn[i]],
    decreases a.next_turn.len(),
{
    let next = a.drive().1;
    if a.next_turn.len() == 1 {
        assert(next.next_turn =~= seq![]);
        assert(drained(next) =~= seq![]);
        assert(drained(a) =~= seq![a.batch()]);
    } else {
        law_each_followup_gets_a_turn(next);
        assert(drained(a) == seq![a.batch()] + drained(next));
        assert forall|i: int| 1 <= i < a.next_turn.len() implies #[trigger] drained(a)[i] == seq![
            a.next_turn[i],
        ] by {
            assert(next.next_turn[i - 1] == a.next_turn[i]);
            assert(drained(next)[i - 1] == seq![next.next_turn[i - 1]]) by {
                if i == 1 {
                    assert(seq![next.next_turn[0]] + next.next_step =~= seq![next.next_turn[0]]);
                }
            }
        }
    }
}

/// A driver that found nothing to do has settled: the agent is idle.
pub proof fn law_waiting_driver_is_idle(a: AgentView)
    requires
        a.drive().0 == DriveView::Wait,
    ensures
        !a.drive().1.busy,
        a.drive().1.pending == 0,
        a.busy ==> a.drive().1.settled == a.settled.wrapping_add(1),
{
}

/// A message that is queued wakes the driver: it runs a turn on the oldest
/// message that waits, with all steering behind it. Steering alone opens a turn
/// too.
pub proof fn law_queued_message_is_driven(a: AgentView, m: MessageView)
    requires
        !a.disposed,
    ensures
        !a.with_followup(m).idle(),
        !a.with_steering(m).idle(),
        a.with_followup(m).drive().0 == (DriveView::RunTurn {
            messages: seq![
                if a.next_turn.len() > 0 {
                    a.next_turn[0]
                } else {
                    m
                },
            ] + a.next_step,
        }),
        a.with_steering(m).drive().0 == (DriveView::RunTurn {
            messages: (if a.next_turn.len() > 0 {
                seq![a.next_turn[0]] + a.next_step
            } else {
                a.next_step
            }).push(m),
        }),
{
    assert(a.with_followup(m).batch() =~= seq![
        if a.next_turn.len() > 0 {
            a.next_turn[0]
        } else {
            m
        },
    ] + a.next_step);
    assert(a.with_steering(m).batch() =~= (if a.next_turn.len() > 0 {
        seq![a.next_turn[0]] + a.next_step
    } else {
        a.next_step
    }).push(m));
}

/// A driver that runs a turn is at work, under a token of its own that has not
/// fired; once nothing is left it settles, and the agent is idle again. What it
/// was asked to do and who it is do not change.
pub proof fn law_driver_works_until_nothing_is_left(a: AgentView)
    requires
        !a.disposed,
    ensures
        ({
            let (what, after) = a.drive();
            &&& after.id == a.id
            &&& after.options == a.options
            &&& after.disposed == a.disposed
            &&& after.completed_turns == a.completed_turns
            &&& what is RunTurn ==> after.busy && after.next_step.len() == 0
            &&& what is RunTurn && !a.busy ==> after.status == AgentStatus::Running && after.cancel
                == Some(CancelToken { fired: false })
            &&& what is RunTurn && a.busy ==> after.status == a.status && after.cancel == a.cancel
            &&& what is Wait && a.busy ==> after.status == AgentStatus::Idle && !after.busy
            &&& what is Wait <==> (!a.busy && a.pending == 0) || (a.next_turn.len() == 0
                && a.next_step.len() == 0)
            &&& !(what is Exit)
        }),
{
}

/// The input of a step is what was steered, in order, and takes no follow-up.
pub proof fn law_step_takes_steering_only(a: AgentView, m: MessageView)
    ensures
        a.with_injected(m).next_step == a.next_step.push(m),
        a.with_steering(m).next_step == a.next_step.push(m),
        a.with_followup(m).next_step == a.next_step,
        a.with_followup(m).next_turn == a.next_turn.push(m),
        a.with_injected(m).next_turn == a.next_turn,
        a.step_claimed().next_step.len() == 0,
        a.step_claimed().next_turn == a.next_turn,
        a.step_claimed().status == a.status,
        a.step_claimed().busy == a.busy,
        a.step_claimed().cancel == a.cancel,
{
}

/// A fresh agent is idle and has nothing to do; cancelling it fires no token.
pub proof fn law_fresh_agent_is_idle(id: Seq<char>, options: AgentOptionsView)
    ensures
        ({
            let a = AgentView::fresh(id, options);
            &&& a.id == id
            &&& a.options == options
            &&& a.status == AgentStatus::Idle
            &&& a.idle()
            &&& !a.disposed
            &&& a.batch().len() == 0
            &&& a.completed_turns == 0
            &&& a.cancel is None
            &&& a.cancelled(true).cancel is None
            &&& a.drive().0 == DriveView::Wait
        }),
{
}

/// A cancelled turn learns of it; the inbox is cleared unless it is kept.
pub proof fn law_cancel_fires_the_token(a: AgentView, keep_inbox: bool)
    ensures
        a.cancel is Some ==> a.cancelled(keep_inbox).cancel == Some(CancelToken { fired: true }),
        a.cancel is None ==> a.cancelled(keep_inbox).cancel is None,
        keep_inbox ==> a.cancelled(keep_inbox).next_turn == a.next_turn && a.cancelled(
            keep_inbox,
        ).next_step == a.next_step && a.cancelled(keep_inbox).pending == a.pending,
        !keep_inbox ==> a.cancelled(keep_inbox).next_turn.len() == 0 && a.cancelled(
            keep_inbox,
        ).next_step.len() == 0,
        a.cancelled(keep_inbox).busy == a.busy,
        a.cancelled(keep_inbox).disposed == a.disposed,
        a.disposed_of().disposed,
        a.disposed_of().batch().len() == 0,
{
}

/// An agent and its session are created under one id, and the seed prompt is the
/// first message of the session, the user's.
pub proof fn law_agent_has_a_session_of_its_own(
    sessions: SessionStoreView,
    id: Option<Seq<char>>,
    cwd: Option<Seq<char>>,
    seed: Option<Seq<char>>,
    time: u64,
    seeded: u64,
)
    requires
        sessions.next < u64::MAX,
    ensures
        ({
            let agent_id = sessions.id_for(agent_session_options(id, cwd));
            let after = store_with_agent(sessions, id, cwd, seed, time, seeded);
            &&& id matches Some(given) ==> agent_id == given
            &&& ordered_map::lookup(after.sessions, agent_id) matches Some(s) && s.id == agent_id
                && s.header.cwd == cwd && s.header.parent_session is None && s.header.created_at
                == time && match seed {
                None => s.events.len() == 0 && s.messages().len() == 0,
                Some(prompt) => s.events.len() == 1 && s.events[0].seq == 0 && s.messages()
                    == seq![log::user_message_of("seed-"@ + agent_id, prompt)],
            }
        }),
{
    let options = agent_session_options(id, cwd);
    let agent_id = sessions.id_for(options);
    let created = SessionStoreView { next: sessions.next_for(options), ..sessions };
    let session = store::session_of(options, agent_id, time).observed_by(store::STORE_NOTIFIER);
    assert(session.events =~= seq![]);
    assert(session.messages() =~= seq![]);
    let entry = seed_entry(agent_id, seed->0);
    log::law_appended_messages_join_the_history(session, seeded, entry);
    let last = match seed {
        Some(_) => session.appended(seeded, entry),
        None => session,
    };
    store::law_entered_session_is_found(created, last, agent_id);
}

/// An error says what it is about.
pub proof fn law_agent_errors_are_shown(id: Seq<char>, message: Seq<char>)
    ensures
        agent_error_text(AgentErrorView::Duplicate(id)) == "an agent with id \""@ + id
            + "\" already exists"@,
        agent_error_text(AgentErrorView::Loop(message)) == "agent loop error: "@ + message,
{
}

} // verus!
