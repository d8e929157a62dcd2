//! What the engine asks the transport to do.

use crate::message::{Message, MessageView};
use crate::session::Token;
use vstd::prelude::*;

verus! {

/// The reason code that accompanies a close.
#[derive(Clone, Copy, Debug, PartialEq, Eq, Structural)]
pub enum CloseReason {
    /// The inbound unit could not be decoded.
    Invalid,
    /// The message is not allowed in the sender's session state.
    Unsupported,
    /// The other side of the pair went away.
    Normal,
}

/// One instruction to the transport.
#[derive(Clone, Debug, PartialEq, Eq)]
pub enum Action {
    /// Encode `message` and send it to `to`.
    Reply { to: Token, message: Message },
    /// Send `payload` to `to` exactly as it is.
    Relay { to: Token, payload: String },
    /// Close the connection of `target` with `reason`.
    Close { target: Token, reason: CloseReason },
}

/// What an action says, with its strings as character sequences.
pub enum ActionView {
    Reply { to: Token, message: MessageView },
    Relay { to: Token, payload: Seq<char> },
    Close { target: Token, reason: CloseReason },
}

impl View for Action {
    type V = ActionView;

    open spec fn view(&self) -> ActionView {
        match *self {
            Action::Reply { to, message } => ActionView::Reply { to, message: message@ },
            Action::Relay { to, payload } => ActionView::Relay { to, payload: payload@ },
            Action::Close { target, reason } => ActionView::Close { target, reason },
        }
    }
}

/// The views of a list of actions, in order.
pub open spec fn views(actions: Seq<Action>) -> Seq<ActionView> {
    actions.map_values(|action: Action| action@)
}

impl ActionView {
    /// The connection that the action touches.
    pub open spec fn target(self) -> Token {
        match self {
            ActionView::Reply { to, .. } => to,
            ActionView::Relay { to, .. } => to,
            ActionView::Close { target, .. } => target,
        }
    }
}

} // verus!
