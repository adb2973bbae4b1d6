//! Typed events: every event name is bound to its payload type.

use crate::json;
use crate::json::Json;
use vstd::prelude::*;

#[allow(unused_imports)]
use crate::json::JsonView;

verus! {

/// A typed event: name and payload are bound together.
pub trait EventPayload: Sized {
    /// The name of the event.
    spec fn event_name() -> Seq<char>;

    /// What the event carries.
    spec fn carried(&self) -> JsonView;

    /// The name of the event.
    fn name() -> (r: &'static str)
        ensures
            r@ == Self::event_name(),
    ;

    /// The payload as a value.
    fn to_value(&self) -> (r: Json)
        ensures
            r@ == self.carried(),
    ;
}

/// `session/event`: one committed append on a session's log.
#[derive(Debug, PartialEq)]
pub struct SessionEventPayload {
    pub session: String,
    pub event: Json,
}

impl EventPayload for SessionEventPayload {
    open spec fn event_name() -> Seq<char> {
        "session/event"@
    }

    open spec fn carried(&self) -> JsonView {
        json::object_of(
            seq![
                ("session"@, JsonView::Text(self.session@)),
                ("event"@, self.event@),
            ],
        )
    }

    fn name() -> (r: &'static str) {
        "session/event"
    }

    fn to_value(&self) -> (r: Json) {
        let mut entries = json::no_entries();
        json::put(&mut entries, "session", Json::text(self.session.as_str()));
        json::put(&mut entries, "event", self.event.clone());
        assert(json::json_entries(entries@) =~= seq![
            ("session"@, JsonView::Text(self.session@)),
            ("event"@, self.event@),
        ]);
        Json::object(entries)
    }
}

/// `session/created`: a session entered the store.
#[derive(Debug, PartialEq)]
pub struct SessionCreatedPayload {
    pub session: String,
}

impl EventPayload for SessionCreatedPayload {
    open spec fn event_name() -> Seq<char> {
        "session/created"@
    }

    open spec fn carried(&self) -> JsonView {
        json::object_of(
            seq![
                ("session"@, JsonView::Text(self.session@)),
            ],
        )
    }

    fn name() -> (r: &'static str) {
        "session/created"
    }

    fn to_value(&self) -> (r: Json) {
        let mut entries = json::no_entries();
        json::put(&mut entries, "session", Json::text(self.session.as_str()));
        assert(json::json_entries(entries@) =~= seq![
            ("session"@, JsonView::Text(self.session@)),
        ]);
        Json::object(entries)
    }
}

/// `session/disposed`: a session left the store.
#[derive(Debug, PartialEq)]
pub struct SessionDisposedPayload {
    pub session: String,
}

impl EventPayload for SessionDisposedPayload {
    open spec fn event_name() -> Seq<char> {
        "session/disposed"@
    }

    open spec fn carried(&self) -> JsonView {
        json::object_of(
            seq![
                ("session"@, JsonView::Text(self.session@)),
            ],
        )
    }

    fn name() -> (r: &'static str) {
        "session/disposed"
    }

    fn to_value(&self) -> (r: Json) {
        let mut entries = json::no_entries();
        json::put(&mut entries, "session", Json::text(self.session.as_str()));
        assert(json::json_entries(entries@) =~= seq![
            ("session"@, JsonView::Text(self.session@)),
        ]);
        Json::object(entries)
    }
}

/// `agent/created`: an agent was published.
#[derive(Debug, PartialEq)]
pub struct AgentCreatedPayload {
    pub agent: String,
}

impl EventPayload for AgentCreatedPayload {
    open spec fn event_name() -> Seq<char> {
        "agent/created"@
    }

    open spec fn carried(&self) -> JsonView {
        json::object_of(
            seq![
                ("agent"@, JsonView::Text(self.agent@)),
            ],
        )
    }

    fn name() -> (r: &'static str) {
        "agent/created"
    }

    fn to_value(&self) -> (r: Json) {
        let mut entries = json::no_entries();
        json::put(&mut entries, "agent", Json::text(self.agent.as_str()));
        assert(json::json_entries(entries@) =~= seq![
            ("agent"@, JsonView::Text(self.agent@)),
        ]);
        Json::object(entries)
    }
}

/// `agent/disposed`: an agent left the registry.
#[derive(Debug, PartialEq)]
pub struct AgentDisposedPayload {
    pub agent: String,
}

impl EventPayload for AgentDisposedPayload {
    open spec fn event_name() -> Seq<char> {
        "agent/disposed"@
    }

    open spec fn carried(&self) -> JsonView {
        json::object_of(
            seq![
                ("agent"@, JsonView::Text(self.agent@)),
            ],
        )
    }

    fn name() -> (r: &'static str) {
        "agent/disposed"
    }

    fn to_value(&self) -> (r: Json) {
        let mut entries = json::no_entries();
        json::put(&mut entries, "agent", Json::text(self.agent.as_str()));
        assert(json::json_entries(entries@) =~= seq![
            ("agent"@, JsonView::Text(self.agent@)),
        ]);
        Json::object(entries)
    }
}

/// `agent/status`: an agent changed lifecycle state.
#[derive(Debug, PartialEq)]
pub struct AgentStatusPayload {
    pub agent: String,
    pub status: String,
}

impl EventPayload for AgentStatusPayload {
    open spec fn event_name() -> Seq<char> {
        "agent/status"@
    }

    open spec fn carried(&self) -> JsonView {
        json::object_of(
            seq![
                ("agent"@, JsonView::Text(self.agent@)),
                ("status"@, JsonView::Text(self.status@)),
            ],
        )
    }

    fn name() -> (r: &'static str) {
        "agent/status"
    }

    fn to_value(&self) -> (r: Json) {
        let mut entries = json::no_entries();
        json::put(&mut entries, "agent", Json::text(self.agent.as_str()));
        json::put(&mut entries, "status", Json::text(self.status.as_str()));
        assert(json::json_entries(entries@) =~= seq![
            ("agent"@, JsonView::Text(self.agent@)),
            ("status"@, JsonView::Text(self.status@)),
        ]);
        Json::object(entries)
    }
}

/// `agent/error`: a step or turn errored.
#[derive(Debug, PartialEq)]
pub struct AgentErrorPayload {
    pub agent: String,
    pub error: String,
}

impl EventPayload for AgentErrorPayload {
    open spec fn event_name() -> Seq<char> {
        "agent/error"@
    }

    open spec fn carried(&self) -> JsonView {
        json::object_of(
            seq![
                ("agent"@, JsonView::Text(self.agent@)),
                ("error"@, JsonView::Text(self.error@)),
            ],
        )
    }

    fn name() -> (r: &'static str) {
        "agent/error"
    }

    fn to_value(&self) -> (r: Json) {
        let mut entries = json::no_entries();
        json::put(&mut entries, "agent", Json::text(self.agent.as_str()));
        json::put(&mut entries, "error", Json::text(self.error.as_str()));
        assert(json::json_entries(entries@) =~= seq![
            ("agent"@, JsonView::Text(self.agent@)),
            ("error"@, JsonView::Text(self.error@)),
        ]);
        Json::object(entries)
    }
}

/// `system-prompt/change`: prompt providers changed; nothing is carried.
#[derive(Debug, PartialEq)]
pub struct SystemPromptChangePayload;

impl EventPayload for SystemPromptChangePayload {
    open spec fn event_name() -> Seq<char> {
        "system-prompt/change"@
    }

    open spec fn carried(&self) -> JsonView {
        JsonView::Null
    }

    fn name() -> (r: &'static str) {
        "system-prompt/change"
    }

    fn to_value(&self) -> (r: Json) {
        Json::Null
    }
}

// ---------------------------------------------------------------------------
// laws
// ---------------------------------------------------------------------------

/// An event of a session names the session, and one that was appended carries
/// the entry.
pub proof fn law_session_events_name_their_session(
    appended: SessionEventPayload,
    created: SessionCreatedPayload,
    disposed: SessionDisposedPayload,
)
    ensures
        appended.carried().get("session"@) == Some(JsonView::Text(appended.session@)),
        appended.carried().get("event"@) == Some(appended.event@),
        created.carried().get("session"@) == Some(JsonView::Text(created.session@)),
        disposed.carried().get("session"@) == Some(JsonView::Text(disposed.session@)),
        SessionEventPayload::event_name() == "session/event"@,
        SessionCreatedPayload::event_name() == "session/created"@,
        SessionDisposedPayload::event_name() == "session/disposed"@,
{
    reveal_strlit("session");
    reveal_strlit("event");
    assert("session"@.len() != "event"@.len());
    let e = seq![("session"@, JsonView::Text(appended.session@)), ("event"@, appended.event@)];
    json::law_object_holds_its_entries(e, 0);
    json::law_object_holds_its_entries(e, 1);
    json::law_object_holds_its_entries(
        seq![("session"@, JsonView::Text(created.session@))],
        0,
    );
    json::law_object_holds_its_entries(
        seq![("session"@, JsonView::Text(disposed.session@))],
        0,
    );
}

/// An event of an agent names the agent, and carries the state it is in or what
/// went wrong.
pub proof fn law_agent_events_name_their_agent(
    created: AgentCreatedPayload,
    disposed: AgentDisposedPayload,
    changed: AgentStatusPayload,
    failed: AgentErrorPayload,
)
    ensures
        created.carried().get("agent"@) == Some(JsonView::Text(created.agent@)),
        disposed.carried().get("agent"@) == Some(JsonView::Text(disposed.agent@)),
        changed.carried().get("agent"@) == Some(JsonView::Text(changed.agent@)),
        changed.carried().get("status"@) == Some(JsonView::Text(changed.status@)),
        failed.carried().get("agent"@) == Some(JsonView::Text(failed.agent@)),
        failed.carried().get("error"@) == Some(JsonView::Text(failed.error@)),
        AgentCreatedPayload::event_name() == "agent/created"@,
        AgentDisposedPayload::event_name() == "agent/disposed"@,
        AgentStatusPayload::event_name() == "agent/status"@,
        AgentErrorPayload::event_name() == "agent/error"@,
{
    reveal_strlit("agent");
    reveal_strlit("status");
    reveal_strlit("error");
    assert("agent"@[0] != "error"@[0]);
    assert("agent"@.len() != "status"@.len());
    json::law_object_holds_its_entries(seq![("agent"@, JsonView::Text(created.agent@))], 0);
    json::law_object_holds_its_entries(seq![("agent"@, JsonView::Text(disposed.agent@))], 0);
    let s = seq![
        ("agent"@, JsonView::Text(changed.agent@)),
        ("status"@, JsonView::Text(changed.status@)),
    ];
    json::law_object_holds_its_entries(s, 0);
    json::law_object_holds_its_entries(s, 1);
    let f = seq![
        ("agent"@, JsonView::Text(failed.agent@)),
        ("error"@, JsonView::Text(failed.error@)),
    ];
    json::law_object_holds_its_entries(f, 0);
    json::law_object_holds_its_entries(f, 1);
}

} // verus!
