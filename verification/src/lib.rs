//! Rendezvous and relay engine for paired real-time connections.
//!
//! Two anonymous connections, a client and an app-stream, share a relay key.
//! The engine pairs them when both have registered under the key and then
//! forwards each party's messages to the other. It never performs I/O: every
//! entry point takes plain values and returns the actions that the transport
//! has to carry out.

pub mod action;
pub mod laws;
pub mod message;
pub mod model;
pub mod pending;
pub mod preservation;
pub mod server;
pub mod session;

pub use action::{Action, CloseReason};
pub use message::{Message, RegistrationData, RelayKey};
pub use server::Server;
pub use session::{EventKind, FailureReason, Session, SessionEvent, SessionKind, Token};
