//! The pairing state machine of one rendezvous.
//!
//! A session starts out unconnected, records the first party that registers,
//! and becomes established when a party of the other role registers. Every
//! other combination of state and event is a protocol violation and ends in
//! the failure state.

use vstd::prelude::*;

verus! {

/// Identity token of one live connection. The transport hands out one token
/// per connection; the engine never looks inside it.
pub type Token = usize;

/// The role-and-progress tag of a session state, without its endpoints.
#[derive(Clone, Copy, Debug, PartialEq, Eq, Structural)]
pub enum SessionKind {
    NotConnected,
    ClientRegistered,
    AppStreamRegistered,
    Established,
    Failure,
}

/// The tag of a registration event, without its endpoint.
#[derive(Clone, Copy, Debug, PartialEq, Eq, Structural)]
pub enum EventKind {
    RegisterClient,
    RegisterAppStream,
}

/// A registration request, carrying the endpoint that makes it.
#[derive(Clone, Copy, Debug, PartialEq, Eq, Structural)]
pub enum SessionEvent {
    RegisterClient { endpoint: Token },
    RegisterAppStream { endpoint: Token },
}

/// Why a session failed: the state it was in and the event that had no
/// transition from it.
#[derive(Clone, Copy, Debug, PartialEq, Eq, Structural)]
pub struct FailureReason {
    pub state: SessionKind,
    pub event: EventKind,
}

/// The pairing state of one rendezvous.
#[derive(Clone, Copy, Debug, PartialEq, Eq, Structural)]
pub enum Session {
    /// Nobody has registered yet.
    NotConnected,
    /// The client arrived and waits for the app-stream.
    ClientRegistered { endpoint: Token },
    /// The app-stream arrived and waits for the client.
    AppStreamRegistered { endpoint: Token },
    /// Both parties are present and messages are relayed between them.
    Established { client: Token, app_stream: Token },
    /// An event arrived that the state had no transition for.
    Failure { reason: FailureReason },
}

impl SessionKind {
    /// The name of the tag as it appears in failure messages.
    pub open spec fn name(self) -> Seq<char> {
        match self {
            SessionKind::NotConnected => "NotConnected"@,
            SessionKind::ClientRegistered => "ClientRegistered"@,
            SessionKind::AppStreamRegistered => "AppStreamRegistered"@,
            SessionKind::Established => "Established"@,
            SessionKind::Failure => "Failure"@,
        }
    }

    /// The name of the tag as it appears in failure messages.
    pub fn label(&self) -> (text: &'static str)
        ensures
            text@ == self.name(),
    {
        match self {
            SessionKind::NotConnected => "NotConnected",
            SessionKind::ClientRegistered => "ClientRegistered",
            SessionKind::AppStreamRegistered => "AppStreamRegistered",
            SessionKind::Established => "Established",
            SessionKind::Failure => "Failure",
        }
    }
}

impl EventKind {
    /// The name of the tag as it appears in failure messages.
    pub open spec fn name(self) -> Seq<char> {
        match self {
            EventKind::RegisterClient => "RegisterClient"@,
            EventKind::RegisterAppStream => "RegisterAppStream"@,
        }
    }

    /// The name of the tag as it appears in failure messages.
    pub fn label(&self) -> (text: &'static str)
        ensures
            text@ == self.name(),
    {
        match self {
            EventKind::RegisterClient => "RegisterClient",
            EventKind::RegisterAppStream => "RegisterAppStream",
        }
    }
}

impl SessionEvent {
    /// The tag of the event.
    pub open spec fn spec_kind(self) -> EventKind {
        match self {
            SessionEvent::RegisterClient { .. } => EventKind::RegisterClient,
            SessionEvent::RegisterAppStream { .. } => EventKind::RegisterAppStream,
        }
    }

    /// The endpoint that registers.
    pub open spec fn spec_endpoint(self) -> Token {
        match self {
            SessionEvent::RegisterClient { endpoint } => endpoint,
            SessionEvent::RegisterAppStream { endpoint } => endpoint,
        }
    }

    /// The tag of the event.
    #[verifier::when_used_as_spec(spec_kind)]
    pub fn kind(self) -> (kind: EventKind)
        ensures
            kind == self.spec_kind(),
    {
        match self {
            SessionEvent::RegisterClient { .. } => EventKind::RegisterClient,
            SessionEvent::RegisterAppStream { .. } => EventKind::RegisterAppStream,
        }
    }

    /// The endpoint that registers.
    #[verifier::when_used_as_spec(spec_endpoint)]
    pub fn endpoint(self) -> (endpoint: Token)
        ensures
            endpoint == self.spec_endpoint(),
    {
        match self {
            SessionEvent::RegisterClient { endpoint } => endpoint,
            SessionEvent::RegisterAppStream { endpoint } => endpoint,
        }
    }
}

impl FailureReason {
    /// The failure message: the fixed prefix, the state's name, a
    /// multiplication sign between two spaces, and the event's name.
    pub open spec fn text(self) -> Seq<char> {
        "invalid transition: "@ + self.state.name() + " × "@ + self.event.name()
    }

    /// Renders the failure message.
    pub fn message(&self) -> (text: String)
        ensures
            text@ == self.text(),
    {
        let mut text = String::from_str("invalid transition: ");
        text.append(self.state.label());
        text.append(" × ");
        text.append(self.event.label());
        text
    }
}

impl Session {
    /// The tag of the state.
    pub open spec fn spec_kind(self) -> SessionKind {
        match self {
            Session::NotConnected => SessionKind::NotConnected,
            Session::ClientRegistered { .. } => SessionKind::ClientRegistered,
            Session::AppStreamRegistered { .. } => SessionKind::AppStreamRegistered,
            Session::Established { .. } => SessionKind::Established,
            Session::Failure { .. } => SessionKind::Failure,
        }
    }

    /// The transition table. The two roles may register in either order; a
    /// pair of state and event outside the four listed rows fails, and the
    /// failure records the pair.
    pub open spec fn transition(self, event: SessionEvent) -> Session {
        match (self, event) {
            (Session::NotConnected, SessionEvent::RegisterClient { endpoint }) => {
                Session::ClientRegistered { endpoint }
            },
            (Session::NotConnected, SessionEvent::RegisterAppStream { endpoint }) => {
                Session::AppStreamRegistered { endpoint }
            },
            (
                Session::ClientRegistered { endpoint: client },
                SessionEvent::RegisterAppStream { endpoint: app_stream },
            ) => Session::Established { client, app_stream },
            (
                Session::AppStreamRegistered { endpoint: app_stream },
                SessionEvent::RegisterClient { endpoint: client },
            ) => Session::Established { client, app_stream },
            _ => Session::Failure {
                reason: FailureReason { state: self.spec_kind(), event: event.spec_kind() },
            },
        }
    }

    /// Where a message from `sender` goes: to the app-stream when the sender
    /// is the client, to the client otherwise. Only an established session
    /// relays.
    pub open spec fn spec_relay_target(self, sender: Token) -> Option<Token> {
        match self {
            Session::Established { client, app_stream } => Some(
                if sender == client {
                    app_stream
                } else {
                    client
                },
            ),
            _ => None,
        }
    }

    /// The tag of the state.
    #[verifier::when_used_as_spec(spec_kind)]
    pub fn kind(self) -> (kind: SessionKind)
        ensures
            kind == self.spec_kind(),
    {
        match self {
            Session::NotConnected => SessionKind::NotConnected,
            Session::ClientRegistered { .. } => SessionKind::ClientRegistered,
            Session::AppStreamRegistered { .. } => SessionKind::AppStreamRegistered,
            Session::Established { .. } => SessionKind::Established,
            Session::Failure { .. } => SessionKind::Failure,
        }
    }

    /// The state that follows `self` on `event`.
    pub fn next(&self, event: &SessionEvent) -> (next: Session)
        ensures
            next == self.transition(*event),
            next is Established <==> (self is ClientRegistered && event is RegisterAppStream) || (
            self is AppStreamRegistered && event is RegisterClient),
            !(next is NotConnected),
    {
        match *self {
            Session::NotConnected => match *event {
                SessionEvent::RegisterClient { endpoint } => Session::ClientRegistered { endpoint },
                SessionEvent::RegisterAppStream { endpoint } => Session::AppStreamRegistered {
                    endpoint,
                },
            },
            Session::ClientRegistered { endpoint: client } => match *event {
                SessionEvent::RegisterAppStream { endpoint: app_stream } => Session::Established {
                    client,
                    app_stream,
                },
                SessionEvent::RegisterClient { .. } => Session::Failure {
                    reason: FailureReason {
                        state: SessionKind::ClientRegistered,
                        event: EventKind::RegisterClient,
                    },
                },
            },
            Session::AppStreamRegistered { endpoint: app_stream } => match *event {
                SessionEvent::RegisterClient { endpoint: client } => Session::Established {
                    client,
                    app_stream,
                },
                SessionEvent::RegisterAppStream { .. } => Session::Failure {
                    reason: FailureReason {
                        state: SessionKind::AppStreamRegistered,
                        event: EventKind::RegisterAppStream,
                    },
                },
            },
            Session::Established { .. } => Session::Failure {
                reason: FailureReason { state: SessionKind::Established, event: event.kind() },
            },
            Session::Failure { .. } => Session::Failure {
                reason: FailureReason { state: SessionKind::Failure, event: event.kind() },
            },
        }
    }

    /// Where a message from `sender` goes, if the session relays at all.
    #[verifier::when_used_as_spec(spec_relay_target)]
    pub fn relay_target(self, sender: Token) -> (target: Option<Token>)
        ensures
            target == self.spec_relay_target(sender),
    {
        match self {
            Session::Established { client, app_stream } => {
                if sender == client {
                    Some(app_stream)
                } else {
                    Some(client)
                }
            },
            _ => None,
        }
    }
}

} // verus!
