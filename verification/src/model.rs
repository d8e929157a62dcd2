//! The mathematical model of the engine.
//!
//! The engine keeps three things: the pending registry, which says which
//! relay keys wait for a second party; the session registry, which says which
//! session each endpoint is bound to; and the sessions themselves. A session
//! lives in a numbered slot together with the list of endpoints that are
//! bound to it, so that two paired endpoints see one session and a change
//! made through either of them is seen by both. A slot without members is
//! free and is handed out again.
//!
//! Every entry point of the engine is specified as a function on this model.

use crate::action::{ActionView, CloseReason};
use crate::message::MessageView;
use crate::pending::without_token;
use crate::session::{Session, SessionEvent, Token};
use vstd::prelude::*;

verus! {

/// One slot of the session arena.
pub struct SlotView {
    /// The state of the session that lives here.
    pub state: Session,
    /// The endpoints bound to the session, in the order in which they came.
    pub members: Seq<Token>,
}

/// The state of the engine.
pub struct ServerView {
    /// The pending registry: the endpoint that waits under each relay key.
    pub pending: Map<Seq<char>, Token>,
    /// The session registry: the slot of the session that each endpoint is
    /// bound to.
    pub bindings: Map<Token, usize>,
    /// The session arena.
    pub slots: Seq<SlotView>,
}

/// The list without `token`.
pub open spec fn drop_member(members: Seq<Token>, token: Token) -> Seq<Token> {
    if members.contains(token) {
        members.remove(members.index_of(token))
    } else {
        members
    }
}

/// The first free slot at or after `from`, or the number of slots if there
/// is none.
pub open spec fn first_free(slots: Seq<SlotView>, from: int) -> int
    decreases slots.len() - from,
{
    if from < 0 || from >= slots.len() {
        slots.len() as int
    } else if slots[from].members.len() == 0 {
        from
    } else {
        first_free(slots, from + 1)
    }
}

/// One close instruction with the given reason for each of `members`.
pub open spec fn close_all(members: Seq<Token>, reason: CloseReason) -> Seq<ActionView> {
    members.map_values(|target: Token| ActionView::Close { target, reason })
}

impl ServerView {
    /// The engine before any connection was seen.
    pub open spec fn empty() -> ServerView {
        ServerView { pending: Map::empty(), bindings: Map::empty(), slots: Seq::empty() }
    }

    /// Whether `token` is bound to a session.
    pub open spec fn is_bound(self, token: Token) -> bool {
        self.bindings.contains_key(token)
    }

    /// The session that `token` sees. An endpoint that was never bound sees
    /// an unconnected session.
    pub open spec fn session_of(self, token: Token) -> Session {
        if self.is_bound(token) {
            self.slots[self.bindings[token] as int].state
        } else {
            Session::NotConnected
        }
    }

    /// The endpoints that share the session of `token`, itself included.
    pub open spec fn members_of(self, token: Token) -> Seq<Token> {
        if self.is_bound(token) {
            self.slots[self.bindings[token] as int].members
        } else {
            Seq::empty()
        }
    }

    /// Whether two endpoints are bound to one and the same session.
    pub open spec fn shares(self, a: Token, b: Token) -> bool {
        self.is_bound(a) && self.is_bound(b) && self.bindings[a] == self.bindings[b]
    }

    /// Whether the slot that `token` is bound to exists and lists it.
    pub open spec fn listed(self, token: Token) -> bool {
        &&& (self.bindings[token] as int) < self.slots.len()
        &&& self.slots[self.bindings[token] as int].members.contains(token)
    }

    /// Bindings and member lists say the same: an endpoint is bound to a slot
    /// exactly if the slot lists it, and no slot lists an endpoint twice.
    pub open spec fn linked(self) -> bool {
        &&& forall|token: Token| #[trigger] self.bindings.contains_key(token) ==> self.listed(token)
        &&& forall|i: int, token: Token|
            0 <= i < self.slots.len() && #[trigger] self.slots[i].members.contains(token)
                ==> self.bindings.contains_key(token) && self.bindings[token] == i
        &&& forall|i: int|
            0 <= i < self.slots.len() ==> (#[trigger] self.slots[i]).members.no_duplicates()
    }

    /// Every endpoint that waits under a relay key is bound to a session.
    pub open spec fn pending_bound(self) -> bool {
        forall|key: Seq<char>| #[trigger]
            self.pending.contains_key(key) ==> self.bindings.contains_key(self.pending[key])
    }

    /// The invariant of the engine.
    pub open spec fn wf(self) -> bool {
        &&& self.linked()
        &&& self.pending_bound()
        &&& self.slots.len() <= usize::MAX
    }

    /// Takes `token` out of its session. The slot becomes free when its last
    /// member leaves.
    pub open spec fn unbind(self, token: Token) -> ServerView {
        if self.is_bound(token) {
            let i = self.bindings[token] as int;
            ServerView {
                bindings: self.bindings.remove(token),
                slots: self.slots.update(
                    i,
                    SlotView {
                        state: self.slots[i].state,
                        members: drop_member(self.slots[i].members, token),
                    },
                ),
                ..self
            }
        } else {
            self
        }
    }

    /// Adds `token`, which is bound nowhere, to the session in `slot`.
    pub open spec fn attach(self, token: Token, slot: usize) -> ServerView {
        let i = slot as int;
        ServerView {
            bindings: self.bindings.insert(token, slot),
            slots: self.slots.update(
                i,
                SlotView {
                    state: self.slots[i].state,
                    members: self.slots[i].members.push(token),
                },
            ),
            ..self
        }
    }

    /// Binds `token` to the session in `slot`, leaving the session it was
    /// bound to before.
    pub open spec fn bind(self, token: Token, slot: usize) -> ServerView {
        if self.is_bound(token) && self.bindings[token] == slot {
            self
        } else {
            self.unbind(token).attach(token, slot)
        }
    }

    /// Puts a fresh unconnected session, with `token` as its only member,
    /// into the first free slot, or into a new slot if none is free.
    pub open spec fn allocate(self, token: Token) -> ServerView {
        let i = first_free(self.slots, 0);
        let fresh = SlotView { state: Session::NotConnected, members: seq![token] };
        ServerView {
            bindings: self.bindings.insert(token, i as usize),
            slots: if i < self.slots.len() {
                self.slots.update(i, fresh)
            } else {
                self.slots.push(fresh)
            },
            ..self
        }
    }

    /// Gives `token` a fresh unconnected session unless it is bound already.
    pub open spec fn ensure_session(self, token: Token) -> ServerView {
        if self.is_bound(token) {
            self
        } else {
            self.allocate(token)
        }
    }

    /// Takes `token` out of its session and out of the pending registry.
    pub open spec fn release(self, token: Token) -> ServerView {
        let unbound = self.unbind(token);
        ServerView { pending: without_token(unbound.pending, token), ..unbound }
    }

    /// Pairing coordination for a registration of `token` under `key`.
    ///
    /// If an endpoint waits under the key, this is the second arrival: the
    /// key stops waiting and `token` is bound to the session of the endpoint
    /// that waited, which gets an unconnected session first if it had none.
    /// Otherwise this is the first arrival: `token` waits under the key, with
    /// a session of its own if it had none.
    pub open spec fn coordinate(self, key: Seq<char>, token: Token) -> ServerView {
        if self.pending.contains_key(key) {
            let first = self.pending[key];
            let taken = ServerView { pending: self.pending.remove(key), ..self }.ensure_session(
                first,
            );
            taken.bind(token, taken.bindings[first])
        } else {
            ServerView { pending: self.pending.insert(key, token), ..self }.ensure_session(token)
        }
    }

    /// Drives the session of `token` with `event`. An endpoint without a
    /// session gets an unconnected one first.
    pub open spec fn apply(self, token: Token, event: SessionEvent) -> ServerView {
        let ready = self.ensure_session(token);
        let i = ready.bindings[token] as int;
        ServerView {
            slots: ready.slots.update(
                i,
                SlotView {
                    state: ready.slots[i].state.transition(event),
                    members: ready.slots[i].members,
                },
            ),
            ..ready
        }
    }

    /// A registration: pairing coordination, then the event.
    pub open spec fn register(
        self,
        key: Seq<char>,
        token: Token,
        event: SessionEvent,
    ) -> ServerView {
        self.coordinate(key, token).apply(token, event)
    }

    /// What a registration asks of the transport once it is done: if the
    /// session of `token` has failed, every endpoint bound to it is closed
    /// as unsupported; otherwise nothing.
    pub open spec fn failure_closes(self, token: Token) -> Seq<ActionView> {
        if self.session_of(token) is Failure {
            close_all(self.members_of(token), CloseReason::Unsupported)
        } else {
            Seq::empty()
        }
    }

    /// The engine after an inbound unit from `sender`. Only a registration
    /// changes anything.
    pub open spec fn after_message(
        self,
        sender: Token,
        decoded: Option<MessageView>,
    ) -> ServerView {
        match decoded {
            Some(MessageView::ClientRegister { key }) => self.register(
                key,
                sender,
                SessionEvent::RegisterClient { endpoint: sender },
            ),
            Some(MessageView::AppStreamRegister { key }) => self.register(
                key,
                sender,
                SessionEvent::RegisterAppStream { endpoint: sender },
            ),
            _ => self,
        }
    }

    /// What an inbound unit from `sender` asks of the transport.
    ///
    /// A unit that could not be decoded closes the sender as invalid. A ping
    /// is answered with a pong. A registration asks for nothing unless the
    /// session fails. Any other message is relayed as it came to the other
    /// side of an established session, and closes the sender as unsupported
    /// in every other state.
    pub open spec fn message_actions(
        self,
        sender: Token,
        decoded: Option<MessageView>,
        raw: Seq<char>,
    ) -> Seq<ActionView> {
        match decoded {
            None => seq![ActionView::Close { target: sender, reason: CloseReason::Invalid }],
            Some(MessageView::Ping) => seq![
                ActionView::Reply { to: sender, message: MessageView::Pong },
            ],
            Some(MessageView::ClientRegister { .. }) | Some(
                MessageView::AppStreamRegister { .. },
            ) => self.after_message(sender, decoded).failure_closes(sender),
            Some(_) => match self.session_of(sender).spec_relay_target(sender) {
                Some(to) => seq![ActionView::Relay { to, payload: raw }],
                None => seq![
                    ActionView::Close { target: sender, reason: CloseReason::Unsupported },
                ],
            },
        }
    }

    /// The engine after the connection of `token` has closed.
    ///
    /// The endpoint leaves its session and the pending registry. If its
    /// session was established, both endpoints of the pair leave as well.
    pub open spec fn after_close(self, token: Token) -> ServerView {
        match self.session_of(token) {
            Session::Established { client, app_stream } => self.release(token).release(
                client,
            ).release(app_stream),
            _ => self.release(token),
        }
    }

    /// What the close of `token` asks of the transport: if its session was
    /// established, the endpoints of the pair other than `token` are closed
    /// as normal, the client first.
    pub open spec fn close_actions(self, token: Token) -> Seq<ActionView> {
        match self.session_of(token) {
            Session::Established { client, app_stream } => {
                let first = if client != token {
                    seq![ActionView::Close { target: client, reason: CloseReason::Normal }]
                } else {
                    Seq::empty()
                };
                let second = if app_stream != token && app_stream != client {
                    seq![ActionView::Close { target: app_stream, reason: CloseReason::Normal }]
                } else {
                    Seq::empty()
                };
                first + second
            },
            _ => Seq::empty(),
        }
    }

    /// What a failed relay from `sender` asks of the transport: the sender is
    /// closed as normal, and then whatever its close asks for.
    pub open spec fn send_failure_actions(self, sender: Token) -> Seq<ActionView> {
        seq![ActionView::Close { target: sender, reason: CloseReason::Normal }]
            + self.close_actions(sender)
    }
}

/// A list without repetitions loses exactly `token` when it is dropped.
pub proof fn lemma_drop_member(members: Seq<Token>, token: Token)
    requires
        members.no_duplicates(),
    ensures
        drop_member(members, token).no_duplicates(),
        forall|other: Token| #[trigger]
            drop_member(members, token).contains(other) <==> members.contains(other) && other
                != token,
{
    let rest = drop_member(members, token);
    if members.contains(token) {
        let i = members.index_of(token);
        assert(members[i] == token);
        assert forall|a: int, b: int| 0 <= a < rest.len() && 0 <= b < rest.len() && a
            != b implies rest[a] != rest[b] by {
            let a0 = if a < i {
                a
            } else {
                a + 1
            };
            let b0 = if b < i {
                b
            } else {
                b + 1
            };
            assert(rest[a] == members[a0]);
            assert(rest[b] == members[b0]);
        }
        assert forall|other: Token| #[trigger]
            rest.contains(other) <==> members.contains(other) && other != token by {
            if rest.contains(other) {
                let a = choose|a: int| 0 <= a < rest.len() && rest[a] == other;
                let a0 = if a < i {
                    a
                } else {
                    a + 1
                };
                assert(rest[a] == members[a0]);
                assert(members.contains(other));
                assert(a0 != i);
            }
            if members.contains(other) && other != token {
                let a0 = choose|a: int| 0 <= a < members.len() && members[a] == other;
                let a = if a0 < i {
                    a0
                } else {
                    a0 - 1
                };
                assert(rest[a] == members[a0]);
            }
        }
    } else {
        assert forall|other: Token| #[trigger]
            rest.contains(other) <==> members.contains(other) && other != token by {}
    }
}

/// What `first_free` finds: a free slot with only occupied slots before it,
/// or the number of slots if every slot from `from` on is occupied.
pub proof fn lemma_first_free(slots: Seq<SlotView>, from: int)
    requires
        0 <= from <= slots.len(),
    ensures
        from <= first_free(slots, from) <= slots.len(),
        first_free(slots, from) < slots.len() ==> slots[first_free(slots, from)].members.len()
            == 0,
        forall|j: int|
            from <= j < first_free(slots, from) ==> (#[trigger] slots[j]).members.len() > 0,
    decreases slots.len() - from,
{
    if from < slots.len() && slots[from].members.len() != 0 {
        lemma_first_free(slots, from + 1);
    }
}

} // verus!
