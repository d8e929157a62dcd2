//! The relay engine: pairing coordination, message dispatch and teardown.
//!
//! The engine owns the pending registry, the session registry and the
//! sessions. It takes decoded messages and connection events and answers
//! with the actions that the transport has to carry out.

use crate::action::{views, Action, ActionView, CloseReason};
use crate::message::{Message, MessageView};
use crate::model::{close_all, first_free, lemma_first_free, ServerView, SlotView};
use crate::pending::PendingRegistry;
use crate::preservation::{
    lemma_after_close, lemma_allocate, lemma_apply, lemma_attach, lemma_coordinate, lemma_unbind,
};
use crate::session::{Session, SessionEvent, Token};
use std::collections::HashMap;
use vstd::prelude::*;

verus! {

broadcast use vstd::std_specs::hash::group_hash_axioms;

/// One slot of the session arena: a session and the endpoints bound to it.
struct Slot {
    state: Session,
    members: Vec<Token>,
}

impl View for Slot {
    type V = SlotView;

    closed spec fn view(&self) -> SlotView {
        SlotView { state: self.state, members: self.members@ }
    }
}

/// The relay engine.
pub struct Server {
    pending: PendingRegistry,
    bindings: HashMap<Token, usize>,
    slots: Vec<Slot>,
}

impl View for Server {
    type V = ServerView;

    closed spec fn view(&self) -> ServerView {
        ServerView {
            pending: self.pending@,
            bindings: self.bindings@,
            slots: self.slots@.map_values(|slot: Slot| slot@),
        }
    }
}

/// What was decoded, with its strings as character sequences.
pub open spec fn decoded_view(decoded: Option<Message>) -> Option<MessageView> {
    match decoded {
        Some(message) => Some(message@),
        None => None,
    }
}

fn position_of(members: &Vec<Token>, token: Token) -> (i: usize)
    requires
        members@.contains(token),
    ensures
        i < members.len(),
        members[i as int] == token,
{
    let mut i: usize = 0;
    while i < members.len()
        invariant
            members@.contains(token),
            forall|j: int| 0 <= j < i ==> members[j] != token,
        decreases members.len() - i,
    {
        if members[i] == token {
            return i;
        }
        i += 1;
    }
    proof {
        let j = choose|j: int| 0 <= j < members.len() && members[j] == token;
        assert(members[j] != token);
    }
    i
}

impl Server {
    /// The invariant of the engine: no relay key waits twice, bindings and
    /// member lists agree, and whoever waits is bound to a session.
    pub closed spec fn wf(&self) -> bool {
        &&& self.pending.wf()
        &&& self@.wf()
    }

    spec fn sound(&self) -> bool {
        &&& self.pending.wf()
        &&& self@.linked()
    }

    proof fn lemma_bounded(&self)
        ensures
            self@.slots.len() == self.slots@.len(),
            self@.slots.len() <= usize::MAX,
    {
        vstd::std_specs::vec::axiom_spec_len(&self.slots);
    }

    /// An engine that has seen no connection yet.
    pub fn new() -> (server: Server)
        ensures
            server.wf(),
            server@ == ServerView::empty(),
    {
        let server = Server {
            pending: PendingRegistry::new(),
            bindings: HashMap::new(),
            slots: Vec::new(),
        };
        assert(server@.slots =~= Seq::<SlotView>::empty());
        server
    }

    /// The session that `token` sees.
    pub fn session(&self, token: Token) -> (session: Session)
        requires
            self.wf(),
        ensures
            session == self@.session_of(token),
    {
        match self.bindings.get(&token) {
            Some(slot) => self.slots[*slot].state,
            None => Session::NotConnected,
        }
    }

    /// Whether `token` is bound to a session.
    pub fn is_bound(&self, token: Token) -> (bound: bool)
        ensures
            bound == self@.is_bound(token),
    {
        self.bindings.contains_key(&token)
    }

    /// The endpoint that waits under `relay_key`, if any.
    pub fn waiting(&self, relay_key: &str) -> (token: Option<Token>)
        requires
            self.wf(),
        ensures
            token == (if self@.pending.contains_key(relay_key@) {
                Some(self@.pending[relay_key@])
            } else {
                None
            }),
    {
        let key = String::from_str(relay_key);
        self.pending.lookup(&key)
    }

    fn unbind(&mut self, token: Token)
        requires
            old(self).sound(),
        ensures
            final(self).sound(),
            final(self)@ == old(self)@.unbind(token),
    {
        proof {
            lemma_unbind(self@, token);
        }
        match self.bindings.remove(&token) {
            Some(slot) => {
                let ghost members = self.slots[slot as int].members@;
                let at = position_of(&self.slots[slot].members, token);
                assert(at == members.index_of(token)) by {
                    let chosen = members.index_of(token);
                    assert(members[chosen] == token);
                    assert(members.no_duplicates());
                }
                self.slots[slot].members.remove(at);
                assert(self@.slots =~= old(self)@.unbind(token).slots);
                assert(self@.bindings =~= old(self)@.unbind(token).bindings);
            },
            None => {
                assert(self@.bindings =~= old(self)@.bindings);
            },
        }
    }

    fn attach(&mut self, token: Token, slot: usize)
        requires
            old(self).sound(),
            !old(self)@.is_bound(token),
            slot < old(self)@.slots.len(),
        ensures
            final(self).sound(),
            final(self)@ == old(self)@.attach(token, slot),
    {
        proof {
            lemma_attach(self@, token, slot);
        }
        self.slots[slot].members.push(token);
        self.bindings.insert(token, slot);
        assert(self@.slots =~= old(self)@.attach(token, slot).slots);
    }

    fn bind(&mut self, token: Token, slot: usize)
        requires
            old(self).sound(),
            slot < old(self)@.slots.len(),
        ensures
            final(self).sound(),
            final(self)@ == old(self)@.bind(token, slot),
    {
        let bound_there = match self.bindings.get(&token) {
            Some(current) => *current == slot,
            None => false,
        };
        if !bound_there {
            self.unbind(token);
            self.attach(token, slot);
        }
    }

    fn free_slot(&self) -> (slot: usize)
        ensures
            slot == first_free(self@.slots, 0),
            slot <= self@.slots.len(),
    {
        let mut slot: usize = 0;
        proof {
            lemma_first_free(self@.slots, 0);
        }
        while slot < self.slots.len()
            invariant
                slot <= self.slots.len(),
                first_free(self@.slots, 0) == first_free(self@.slots, slot as int),
            decreases self.slots.len() - slot,
        {
            if self.slots[slot].members.len() == 0 {
                return slot;
            }
            slot += 1;
        }
        slot
    }

    fn allocate(&mut self, token: Token) -> (slot: usize)
        requires
            old(self).sound(),
            !old(self)@.is_bound(token),
        ensures
            final(self).sound(),
            final(self)@ == old(self)@.allocate(token),
            final(self)@.is_bound(token),
            slot == final(self)@.bindings[token],
    {
        proof {
            self.lemma_bounded();
            lemma_allocate(self@, token);
            lemma_first_free(self@.slots, 0);
        }
        let slot = self.free_slot();
        if slot < self.slots.len() {
            self.slots[slot].state = Session::NotConnected;
            self.slots[slot].members.push(token);
            assert(self.slots[slot as int].members@ =~= seq![token]);
        } else {
            let mut members: Vec<Token> = Vec::new();
            members.push(token);
            assert(members@ =~= seq![token]);
            self.slots.push(Slot { state: Session::NotConnected, members });
        }
        self.bindings.insert(token, slot);
        assert(self@.slots =~= old(self)@.allocate(token).slots);
        slot
    }

    fn ensure_session(&mut self, token: Token) -> (slot: usize)
        requires
            old(self).sound(),
        ensures
            final(self).sound(),
            final(self)@ == old(self)@.ensure_session(token),
            final(self)@.is_bound(token),
            slot == final(self)@.bindings[token],
    {
        match self.bindings.get(&token) {
            Some(slot) => *slot,
            None => self.allocate(token),
        }
    }

    fn release(&mut self, token: Token)
        requires
            old(self).sound(),
        ensures
            final(self).sound(),
            final(self)@ == old(self)@.release(token),
    {
        self.unbind(token);
        let ghost unbound = self@;
        self.pending.purge(token);
        assert(self@.bindings == unbound.bindings && self@.slots == unbound.slots);
    }

    fn coordinate(&mut self, key: String, token: Token)
        requires
            old(self).wf(),
        ensures
            final(self).wf(),
            final(self)@ == old(self)@.coordinate(key@, token),
            final(self)@.is_bound(token),
    {
        proof {
            lemma_coordinate(self@, key@, token);
        }
        match self.pending.remove(&key) {
            Some(first) => {
                let slot = self.ensure_session(first);
                self.bind(token, slot);
            },
            None => {
                assert(self@.pending =~= old(self)@.pending);
                self.pending.insert(key, token);
                self.ensure_session(token);
            },
        }
        proof {
            self.lemma_bounded();
        }
    }

    /// Pairing coordination for a registration of `token` under `relay_key`.
    pub fn coordinate_sessions(&mut self, relay_key: &str, token: Token)
        requires
            old(self).wf(),
        ensures
            final(self).wf(),
            final(self)@ == old(self)@.coordinate(relay_key@, token),
            final(self)@.is_bound(token),
    {
        self.coordinate(String::from_str(relay_key), token);
    }

    /// Drives the session of `token` with `event`.
    pub fn session_event(&mut self, token: Token, event: SessionEvent)
        requires
            old(self).wf(),
        ensures
            final(self).wf(),
            final(self)@ == old(self)@.apply(token, event),
            final(self)@.session_of(token) == old(self)@.session_of(token).transition(event),
    {
        proof {
            lemma_apply(self@, token, event);
        }
        let slot = self.ensure_session(token);
        let next = self.slots[slot].state.next(&event);
        self.slots[slot].state = next;
        assert(self@.slots =~= old(self)@.apply(token, event).slots);
        proof {
            self.lemma_bounded();
        }
    }

    fn failure_closes(&self, token: Token) -> (actions: Vec<Action>)
        requires
            self.wf(),
        ensures
            views(actions@) == self@.failure_closes(token),
    {
        let mut actions: Vec<Action> = Vec::new();
        match self.bindings.get(&token) {
            Some(slot) => {
                let slot = *slot;
                match self.slots[slot].state {
                    Session::Failure { .. } => {
                        let ghost members = self.slots[slot as int].members@;
                        let mut i: usize = 0;
                        while i < self.slots[slot].members.len()
                            invariant
                                slot < self.slots.len(),
                                members == self.slots[slot as int].members@,
                                i <= members.len(),
                                actions.len() == i,
                                forall|j: int|
                                    0 <= j < i ==> (#[trigger] actions[j])@ == (ActionView::Close {
                                        target: members[j],
                                        reason: CloseReason::Unsupported,
                                    }),
                            decreases members.len() - i,
                        {
                            actions.push(
                                Action::Close {
                                    target: self.slots[slot].members[i],
                                    reason: CloseReason::Unsupported,
                                },
                            );
                            i += 1;
                        }
                        assert(views(actions@) =~= close_all(members, CloseReason::Unsupported));
                    },
                    _ => {
                        assert(views(actions@) =~= Seq::<ActionView>::empty());
                    },
                }
            },
            None => {
                assert(views(actions@) =~= Seq::<ActionView>::empty());
            },
        }
        actions
    }

    fn register(&mut self, key: String, token: Token, event: SessionEvent) -> (actions: Vec<
        Action,
    >)
        requires
            old(self).wf(),
        ensures
            final(self).wf(),
            final(self)@ == old(self)@.register(key@, token, event),
            views(actions@) == final(self)@.failure_closes(token),
    {
        self.coordinate(key, token);
        self.session_event(token, event);
        self.failure_closes(token)
    }

    /// Handles one inbound unit from `sender`: `raw` is the unit as it came,
    /// `decoded` the envelope read from it, or nothing if it could not be
    /// read.
    pub fn on_message(&mut self, sender: Token, raw: String, decoded: Option<Message>) -> (actions:
        Vec<Action>)
        requires
            old(self).wf(),
        ensures
            final(self).wf(),
            final(self)@ == old(self)@.after_message(sender, decoded_view(decoded)),
            views(actions@) == old(self)@.message_actions(sender, decoded_view(decoded), raw@),
    {
        let mut actions: Vec<Action> = Vec::new();
        match decoded {
            None => {
                actions.push(Action::Close { target: sender, reason: CloseReason::Invalid });
                assert(views(actions@) =~= old(self)@.message_actions(sender, None, raw@));
            },
            Some(Message::Ping {  }) => {
                actions.push(Action::Reply { to: sender, message: Message::Pong {  } });
                assert(views(actions@) =~= old(self)@.message_actions(
                    sender,
                    Some(MessageView::Ping),
                    raw@,
                ));
            },
            Some(Message::ClientRegister { data }) => {
                actions = self.register(
                    data.key,
                    sender,
                    SessionEvent::RegisterClient { endpoint: sender },
                );
            },
            Some(Message::AppStreamRegister { data }) => {
                actions = self.register(
                    data.key,
                    sender,
                    SessionEvent::RegisterAppStream { endpoint: sender },
                );
            },
            Some(_) => {
                match self.session(sender).relay_target(sender) {
                    Some(to) => {
                        actions.push(Action::Relay { to, payload: raw });
                    },
                    None => {
                        actions.push(
                            Action::Close { target: sender, reason: CloseReason::Unsupported },
                        );
                    },
                }
                assert(views(actions@) =~= old(self)@.message_actions(
                    sender,
                    decoded_view(decoded),
                    raw@,
                ));
            },
        }
        actions
    }

    /// Handles the close of the connection of `token`.
    pub fn on_close(&mut self, token: Token) -> (actions: Vec<Action>)
        requires
            old(self).wf(),
        ensures
            final(self).wf(),
            final(self)@ == old(self)@.after_close(token),
            views(actions@) == old(self)@.close_actions(token),
    {
        proof {
            lemma_after_close(self@, token);
        }
        let mut actions: Vec<Action> = Vec::new();
        match self.session(token) {
            Session::Established { client, app_stream } => {
                self.release(token);
                self.release(client);
                self.release(app_stream);
                if client != token {
                    actions.push(Action::Close { target: client, reason: CloseReason::Normal });
                }
                if app_stream != token && app_stream != client {
                    actions.push(
                        Action::Close { target: app_stream, reason: CloseReason::Normal },
                    );
                }
            },
            _ => {
                self.release(token);
            },
        }
        assert(views(actions@) =~= old(self)@.close_actions(token));
        actions
    }

    /// Handles a relay from `sender` that the transport could not deliver:
    /// the pair is no longer viable, so the sender is closed and the session
    /// is torn down as if the sender had closed.
    pub fn on_send_failure(&mut self, sender: Token) -> (actions: Vec<Action>)
        requires
            old(self).wf(),
        ensures
            final(self).wf(),
            final(self)@ == old(self)@.after_close(sender),
            views(actions@) == old(self)@.send_failure_actions(sender),
    {
        let mut actions: Vec<Action> = Vec::new();
        actions.push(Action::Close { target: sender, reason: CloseReason::Normal });
        let mut rest = self.on_close(sender);
        let ghost head = actions@;
        let ghost tail = rest@;
        actions.append(&mut rest);
        assert(views(actions@) =~= views(head) + views(tail));
        assert(views(head) =~= seq![
            ActionView::Close { target: sender, reason: CloseReason::Normal },
        ]);
        actions
    }
}

} // verus!
