//! The message envelope exchanged with the two parties.

use vstd::prelude::*;

verus! {

/// The shared secret that identifies one rendezvous. No structure is assumed.
pub type RelayKey = String;

/// The payload of a registration message.
#[derive(Clone, Debug, PartialEq, Eq)]
pub struct RegistrationData {
    pub key: RelayKey,
}

/// A decoded envelope, one variant per message type.
#[derive(Clone, Debug, PartialEq, Eq)]
#[allow(inconsistent_fields)]
pub enum Message {
    Ping {  },
    Pong {  },
    ClientRegister { data: RegistrationData },
    AppStreamRegister { data: RegistrationData },
    Default { data: String },
}

/// What a message says, with its strings as character sequences.
pub enum MessageView {
    Ping,
    Pong,
    ClientRegister { key: Seq<char> },
    AppStreamRegister { key: Seq<char> },
    Default { data: Seq<char> },
}

impl View for RegistrationData {
    type V = Seq<char>;

    open spec fn view(&self) -> Seq<char> {
        self.key@
    }
}

impl View for Message {
    type V = MessageView;

    open spec fn view(&self) -> MessageView {
        match *self {
            Message::Ping {  } => MessageView::Ping,
            Message::Pong {  } => MessageView::Pong,
            Message::ClientRegister { data } => MessageView::ClientRegister { key: data.key@ },
            Message::AppStreamRegister { data } => MessageView::AppStreamRegister {
                key: data.key@,
            },
            Message::Default { data } => MessageView::Default { data: data@ },
        }
    }
}

} // verus!
