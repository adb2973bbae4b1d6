//! Agent-facing vocabulary shared by the agent registry, the loop and
//! consumers.

use vstd::prelude::*;

verus! {

/// Creation options for one agent.
#[derive(Debug, PartialEq)]
pub struct AgentOptions {
    pub provider: String,
    pub model: String,
    pub max_tokens: Option<u32>,
}

/// What a [`AgentOptions`] says.
#[verifier::ext_equal]
pub struct AgentOptionsView {
    pub provider: Seq<char>,
    pub model: Seq<char>,
    pub max_tokens: Option<u32>,
}

impl View for AgentOptions {
    type V = AgentOptionsView;

    open spec fn view(&self) -> AgentOptionsView {
        AgentOptionsView {
            provider: self.provider@,
            model: self.model@,
            max_tokens: self.max_tokens,
        }
    }
}

impl Clone for AgentOptions {
    fn clone(&self) -> (r: Self)
        ensures
            r@ == self@,
    {
        AgentOptions {
            provider: self.provider.clone(),
            model: self.model.clone(),
            max_tokens: self.max_tokens,
        }
    }
}

impl Default for AgentOptions {
    fn default() -> (r: Self)
        ensures
            r@ == (AgentOptionsView { provider: seq![], model: seq![], max_tokens: None }),
    {
        AgentOptions { provider: String::new(), model: String::new(), max_tokens: None }
    }
}

impl AgentOptions {
    /// Options for the scripted provider.
    pub fn mock(model: &str) -> (r: Self)
        ensures
            r@ == (AgentOptionsView { provider: "mock"@, model: model@, max_tokens: None }),
    {
        AgentOptions { provider: "mock".to_owned(), model: model.to_owned(), max_tokens: None }
    }
}

/// An agent's lifecycle state: `idle` means no driver activity; `running`
/// spans the driver draining its inbox.
#[derive(Debug, Clone, Copy, PartialEq, Eq, Structural)]
pub enum AgentStatus {
    Idle,
    Running,
}

/// The name of a lifecycle state.
pub open spec fn status_name(s: AgentStatus) -> Seq<char> {
    match s {
        AgentStatus::Idle => "idle"@,
        AgentStatus::Running => "running"@,
    }
}

impl AgentStatus {
    /// The name of this state.
    pub fn as_str_name(self) -> (r: &'static str)
        ensures
            r@ == status_name(self),
    {
        match self {
            AgentStatus::Idle => "idle",
            AgentStatus::Running => "running",
        }
    }
}

/// Why an active driver was cancelled.
#[derive(Debug, PartialEq, Eq)]
pub enum AgentCancelCause {
    User,
    Parent,
    Hook { reason: String },
    Disposed,
}

/// What a [`AgentCancelCause`] says.
#[verifier::ext_equal]
pub enum AgentCancelCauseView {
    User,
    Parent,
    Hook { reason: Seq<char> },
    Disposed,
}

impl View for AgentCancelCause {
    type V = AgentCancelCauseView;

    open spec fn view(&self) -> AgentCancelCauseView {
        match *self {
            AgentCancelCause::User => AgentCancelCauseView::User,
            AgentCancelCause::Parent => AgentCancelCauseView::Parent,
            AgentCancelCause::Hook { reason } => AgentCancelCauseView::Hook { reason: reason@ },
            AgentCancelCause::Disposed => AgentCancelCauseView::Disposed,
        }
    }
}

impl Clone for AgentCancelCause {
    fn clone(&self) -> (r: Self)
        ensures
            r@ == self@,
    {
        match self {
            AgentCancelCause::User => AgentCancelCause::User,
            AgentCancelCause::Parent => AgentCancelCause::Parent,
            AgentCancelCause::Hook { reason } => AgentCancelCause::Hook { reason: reason.clone() },
            AgentCancelCause::Disposed => AgentCancelCause::Disposed,
        }
    }
}

/// The two states of an agent are told apart by their names.
pub proof fn law_states_are_told_apart(s: AgentStatus)
    ensures
        status_name(s) == "idle"@ <==> s == AgentStatus::Idle,
        status_name(s) == "running"@ <==> s == AgentStatus::Running,
{
    reveal_strlit("idle");
    reveal_strlit("running");
    assert("idle"@.len() != "running"@.len());
}

} // verus!
