//! What holds of the engine in every state.
//!
//! Each law is stated over the model, the same functions in which the
//! engine's entry points say what they do.

use crate::action::{ActionView, CloseReason};
use crate::message::MessageView;
use crate::model::{close_all, lemma_first_free, ServerView};
use crate::preservation::{
    lemma_allocate, lemma_apply, lemma_bind, lemma_coordinate, lemma_register, lemma_release,
    lemma_unbind,
};
use crate::session::{EventKind, FailureReason, Session, SessionEvent, SessionKind, Token};
use vstd::prelude::*;

verus! {

/// Pairing does not depend on who comes first. From a state in which nobody
/// waits under `key` and both endpoints see an unconnected session, the
/// client registering before the app-stream and the app-stream registering
/// before the client end alike: both endpoints share one session, it is
/// established between exactly these two, the key waits no longer, and no
/// step asks anything of the transport.
pub proof fn law_order_independence(
    s: ServerView,
    key: Seq<char>,
    client: Token,
    app_stream: Token,
    raw: Seq<char>,
)
    requires
        s.wf(),
        !s.pending.contains_key(key),
        s.session_of(client) == Session::NotConnected,
        s.session_of(app_stream) == Session::NotConnected,
    ensures
        ({
            let as_client = Some(MessageView::ClientRegister { key });
            let as_app_stream = Some(MessageView::AppStreamRegister { key });
            let client_first = s.after_message(client, as_client);
            let forward = client_first.after_message(app_stream, as_app_stream);
            let app_stream_first = s.after_message(app_stream, as_app_stream);
            let backward = app_stream_first.after_message(client, as_client);
            let paired = Session::Established { client, app_stream };
            &&& forward.session_of(client) == paired
            &&& forward.session_of(app_stream) == paired
            &&& forward.shares(client, app_stream)
            &&& !forward.pending.contains_key(key)
            &&& backward.session_of(client) == paired
            &&& backward.session_of(app_stream) == paired
            &&& backward.shares(client, app_stream)
            &&& !backward.pending.contains_key(key)
            &&& s.message_actions(client, as_client, raw) == Seq::<ActionView>::empty()
            &&& client_first.message_actions(app_stream, as_app_stream, raw) == Seq::<
                ActionView,
            >::empty()
            &&& s.message_actions(app_stream, as_app_stream, raw) == Seq::<ActionView>::empty()
            &&& app_stream_first.message_actions(client, as_client, raw) == Seq::<
                ActionView,
            >::empty()
        }),
{
    lemma_pairing(s, key, client, SessionEvent::RegisterClient { endpoint: client }, app_stream,
        SessionEvent::RegisterAppStream { endpoint: app_stream });
    lemma_pairing(s, key, app_stream, SessionEvent::RegisterAppStream { endpoint: app_stream },
        client, SessionEvent::RegisterClient { endpoint: client });
}

/// Two registrations in a row under a key under which nobody waits. After
/// the first, the first endpoint waits under the key and its session has
/// taken the first event. After the second, the key waits no longer and both
/// endpoints share the session, which has taken both events in turn.
proof fn lemma_pairing(
    s: ServerView,
    key: Seq<char>,
    first: Token,
    first_event: SessionEvent,
    second: Token,
    second_event: SessionEvent,
)
    requires
        s.wf(),
        !s.pending.contains_key(key),
    ensures
        ({
            let once = s.register(key, first, first_event);
            let twice = once.register(key, second, second_event);
            let result = s.session_of(first).transition(first_event).transition(second_event);
            &&& once.linked()
            &&& once.pending_bound()
            &&& once.pending.contains_key(key)
            &&& once.pending[key] == first
            &&& once.session_of(first) == s.session_of(first).transition(first_event)
            &&& twice.linked()
            &&& twice.pending_bound()
            &&& !twice.pending.contains_key(key)
            &&& twice.shares(first, second)
            &&& twice.session_of(first) == result
            &&& twice.session_of(second) == result
            &&& twice.members_of(second).contains(first)
            &&& twice.members_of(second).contains(second)
        }),
{
    let waiting = s.coordinate(key, first);
    lemma_coordinate(s, key, first);
    if !s.is_bound(first) {
        lemma_allocate(ServerView { pending: s.pending.insert(key, first), ..s }, first);
        lemma_first_free(s.slots, 0);
    }
    assert(waiting.session_of(first) == s.session_of(first));
    lemma_apply(waiting, first, first_event);
    let once = s.register(key, first, first_event);
    assert(once.pending == waiting.pending);
    assert(once.bindings == waiting.bindings);

    let taken = ServerView { pending: once.pending.remove(key), ..once };
    assert(taken.ensure_session(first) == taken);
    let slot = once.bindings[first];
    lemma_bind(taken, second, slot);
    let joined = once.coordinate(key, second);
    assert(joined == taken.bind(second, slot));
    assert(joined.session_of(second) == once.session_of(first)) by {
        if !(taken.is_bound(second) && taken.bindings[second] == slot) {
            lemma_unbind(taken, second);
        }
    }
    assert forall|k: Seq<char>| #[trigger]
        joined.pending.contains_key(k) implies joined.bindings.contains_key(joined.pending[k]) by {
        assert(once.pending.contains_key(k));
        assert(once.bindings.contains_key(once.pending[k]));
    }
    lemma_apply(joined, second, second_event);
    let twice = once.register(key, second, second_event);
    assert(twice.bindings == joined.bindings);
    assert(twice.pending == joined.pending);
    assert(twice.members_of(second) == joined.members_of(second));
}

/// A relay key pairs one client with one app-stream. When two clients
/// register in a row under a key under which nobody waited, the second
/// registration does not wait under the key: the key waits no longer, the
/// session that both endpoints now share has failed, and everybody bound to
/// it, these two among them, is closed as unsupported. If the first client
/// came with an unconnected session, the failure is that of a second
/// registration of the client role.
pub proof fn law_single_use_pending_slot(
    s: ServerView,
    key: Seq<char>,
    first: Token,
    second: Token,
    raw: Seq<char>,
)
    requires
        s.wf(),
        !s.pending.contains_key(key),
    ensures
        ({
            let as_client = Some(MessageView::ClientRegister { key });
            let once = s.after_message(first, as_client);
            let twice = once.after_message(second, as_client);
            let actions = once.message_actions(second, as_client, raw);
            let second_client = Session::Failure {
                reason: FailureReason {
                    state: SessionKind::ClientRegistered,
                    event: EventKind::RegisterClient,
                },
            };
            &&& once.pending.contains_key(key)
            &&& once.pending[key] == first
            &&& !twice.pending.contains_key(key)
            &&& twice.session_of(second) is Failure
            &&& twice.session_of(first) == twice.session_of(second)
            &&& s.session_of(first) == Session::NotConnected ==> twice.session_of(second)
                == second_client
            &&& actions == close_all(twice.members_of(second), CloseReason::Unsupported)
            &&& actions.contains(
                ActionView::Close { target: first, reason: CloseReason::Unsupported },
            )
            &&& actions.contains(
                ActionView::Close { target: second, reason: CloseReason::Unsupported },
            )
        }),
{
    let event_one = SessionEvent::RegisterClient { endpoint: first };
    let event_two = SessionEvent::RegisterClient { endpoint: second };
    lemma_pairing(s, key, first, event_one, second, event_two);
    let as_client = Some(MessageView::ClientRegister { key });
    let once = s.after_message(first, as_client);
    let twice = once.after_message(second, as_client);
    let members = twice.members_of(second);
    let actions = once.message_actions(second, as_client, raw);
    assert(actions == close_all(members, CloseReason::Unsupported));
    let i = choose|i: int| 0 <= i < members.len() && members[i] == first;
    assert(actions[i] == ActionView::Close { target: first, reason: CloseReason::Unsupported });
    let j = choose|j: int| 0 <= j < members.len() && members[j] == second;
    assert(actions[j] == ActionView::Close { target: second, reason: CloseReason::Unsupported });
}

/// No self-echo. In an established session between two different endpoints,
/// a message from either of them is relayed, exactly as it came, to the
/// other one and to nobody else, and nothing changes.
pub proof fn law_no_self_echo(
    s: ServerView,
    sender: Token,
    client: Token,
    app_stream: Token,
    message: MessageView,
    raw: Seq<char>,
)
    requires
        s.session_of(sender) == (Session::Established { client, app_stream }),
        client != app_stream,
        sender == client || sender == app_stream,
        message is Default || message is Pong,
    ensures
        s.after_message(sender, Some(message)) == s,
        s.message_actions(sender, Some(message), raw) == seq![
            ActionView::Relay {
                to: if sender == client {
                    app_stream
                } else {
                    client
                },
                payload: raw,
            },
        ],
        forall|i: int|
            0 <= i < s.message_actions(sender, Some(message), raw).len() ==> (
            #[trigger] s.message_actions(sender, Some(message), raw)[i]).target() != sender,
{
}

/// No relay before the pair is complete. A message from an endpoint whose
/// session is not established closes that endpoint as unsupported; nothing
/// is relayed and nothing changes.
pub proof fn law_rejected_unless_established(
    s: ServerView,
    sender: Token,
    message: MessageView,
    raw: Seq<char>,
)
    requires
        !(s.session_of(sender) is Established),
        message is Default || message is Pong,
    ensures
        s.after_message(sender, Some(message)) == s,
        s.message_actions(sender, Some(message), raw) == seq![
            ActionView::Close { target: sender, reason: CloseReason::Unsupported },
        ],
{
}

/// Teardown reaches the other side. When either endpoint of an established
/// session between two different endpoints closes, the other endpoint is
/// closed as normal, and neither is bound to a session or waits under any
/// key afterwards.
pub proof fn law_teardown_propagation(
    s: ServerView,
    closing: Token,
    client: Token,
    app_stream: Token,
)
    requires
        s.wf(),
        s.session_of(closing) == (Session::Established { client, app_stream }),
        client != app_stream,
        closing == client || closing == app_stream,
    ensures
        s.close_actions(closing) == seq![
            ActionView::Close {
                target: if closing == client {
                    app_stream
                } else {
                    client
                },
                reason: CloseReason::Normal,
            },
        ],
        !s.after_close(closing).is_bound(client),
        !s.after_close(closing).is_bound(app_stream),
        forall|key: Seq<char>| #[trigger]
            s.after_close(closing).pending.contains_key(key) ==> s.after_close(closing).pending[key]
                != client && s.after_close(closing).pending[key] != app_stream,
        s.after_close(closing).wf(),
{
    let a = s.release(closing);
    lemma_release(s, closing);
    let b = a.release(client);
    lemma_release(a, client);
    let c = b.release(app_stream);
    lemma_release(b, app_stream);
    assert(s.after_close(closing) == c);
    assert(s.close_actions(closing) =~= seq![
        ActionView::Close {
            target: if closing == client {
                app_stream
            } else {
                client
            },
            reason: CloseReason::Normal,
        },
    ]);
}

/// Outside an established session a close is local. The closing endpoint
/// leaves its session and stops waiting under its keys; nothing is asked of
/// the transport, and every other endpoint is bound, sees its session and
/// waits as before.
pub proof fn law_close_is_local(s: ServerView, closing: Token, other: Token, key: Seq<char>)
    requires
        s.wf(),
        !(s.session_of(closing) is Established),
        other != closing,
    ensures
        s.close_actions(closing) == Seq::<ActionView>::empty(),
        !s.after_close(closing).is_bound(closing),
        s.after_close(closing).is_bound(other) == s.is_bound(other),
        s.after_close(closing).session_of(other) == s.session_of(other),
        s.after_close(closing).pending.contains_key(key) == (s.pending.contains_key(key)
            && s.pending[key] != closing),
        s.after_close(closing).pending.contains_key(key) ==> s.after_close(closing).pending[key]
            == s.pending[key],
{
    lemma_unbind(s, closing);
    lemma_release(s, closing);
    if s.is_bound(other) {
        let i = s.bindings[other] as int;
        assert(s.slots[i].members.contains(other));
    }
}

/// A ping is answered with a pong to the sender, whatever the state, and
/// nothing changes.
pub proof fn law_ping_round_trip(s: ServerView, sender: Token, raw: Seq<char>)
    ensures
        s.after_message(sender, Some(MessageView::Ping)) == s,
        s.message_actions(sender, Some(MessageView::Ping), raw) == seq![
            ActionView::Reply { to: sender, message: MessageView::Pong },
        ],
{
}

/// A unit that cannot be decoded closes the sender as invalid, and nothing
/// changes.
pub proof fn law_undecodable_is_invalid(s: ServerView, sender: Token, raw: Seq<char>)
    ensures
        s.after_message(sender, None) == s,
        s.message_actions(sender, None, raw) == seq![
            ActionView::Close { target: sender, reason: CloseReason::Invalid },
        ],
{
}

/// Both sides of a pair see one session. After any registration, every
/// endpoint bound to the session of the registering endpoint sees the same
/// state as that endpoint.
pub proof fn law_shared_session(
    s: ServerView,
    key: Seq<char>,
    token: Token,
    event: SessionEvent,
    other: Token,
)
    requires
        s.wf(),
        s.register(key, token, event).members_of(token).contains(other),
    ensures
        s.register(key, token, event).shares(token, other),
        s.register(key, token, event).session_of(other) == s.register(
            key,
            token,
            event,
        ).session_of(token),
{
    lemma_register(s, key, token, event);
}

} // verus!
