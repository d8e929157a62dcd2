//! Every step of the model keeps the invariant of the engine.

use crate::message::MessageView;
use crate::model::{first_free, lemma_drop_member, lemma_first_free, ServerView};
use crate::session::{Session, SessionEvent, Token};
use vstd::prelude::*;

verus! {

/// Taking an endpoint out of its session keeps bindings and member lists in
/// step, and touches no other endpoint's binding.
pub proof fn lemma_unbind(s: ServerView, token: Token)
    requires
        s.linked(),
    ensures
        s.unbind(token).linked(),
        !s.unbind(token).is_bound(token),
        s.unbind(token).slots.len() == s.slots.len(),
        s.unbind(token).pending == s.pending,
        forall|other: Token|
            other != token ==> (#[trigger] s.unbind(token).bindings.contains_key(other))
                == s.bindings.contains_key(other),
        forall|other: Token|
            other != token && s.bindings.contains_key(other) ==> #[trigger] s.unbind(
                token,
            ).bindings[other] == s.bindings[other],
{
    let r = s.unbind(token);
    if s.is_bound(token) {
        let i = s.bindings[token] as int;
        lemma_drop_member(s.slots[i].members, token);
        assert forall|other: Token| #[trigger] r.bindings.contains_key(other) implies r.listed(
            other,
        ) by {
            assert(s.bindings.contains_key(other));
            let j = s.bindings[other] as int;
            assert(s.slots[j].members.contains(other));
        }
        assert forall|j: int, other: Token|
            0 <= j < r.slots.len() && #[trigger] r.slots[j].members.contains(
                other,
            ) implies r.bindings.contains_key(other) && r.bindings[other] == j by {
            if j == i {
                assert(s.slots[i].members.contains(other));
            } else {
                assert(s.slots[j].members.contains(other));
            }
        }
        assert forall|j: int| 0 <= j < r.slots.len() implies (
        #[trigger] r.slots[j]).members.no_duplicates() by {
            if j != i {
                assert(s.slots[j].members.no_duplicates());
            }
        }
    }
}

/// Adding an unbound endpoint to a slot keeps bindings and member lists in
/// step.
pub proof fn lemma_attach(s: ServerView, token: Token, slot: usize)
    requires
        s.linked(),
        !s.is_bound(token),
        (slot as int) < s.slots.len(),
    ensures
        s.attach(token, slot).linked(),
        s.attach(token, slot).slots.len() == s.slots.len(),
{
    let r = s.attach(token, slot);
    let i = slot as int;
    let before = s.slots[i].members;
    let after = before.push(token);
    assert(after[before.len() as int] == token);
    assert forall|other: Token| #[trigger] r.bindings.contains_key(other) implies r.listed(
        other,
    ) by {
        if other != token {
            let j = s.bindings[other] as int;
            assert(s.slots[j].members.contains(other));
            if j == i {
                let k = choose|k: int| 0 <= k < before.len() && before[k] == other;
                assert(after[k] == other);
            }
        }
    }
    assert forall|j: int, other: Token|
        0 <= j < r.slots.len() && #[trigger] r.slots[j].members.contains(
            other,
        ) implies r.bindings.contains_key(other) && r.bindings[other] == j by {
        if j == i {
            let k = choose|k: int| 0 <= k < after.len() && after[k] == other;
            if k < before.len() {
                assert(before[k] == other);
                assert(s.slots[i].members.contains(other));
            }
        } else {
            assert(s.slots[j].members.contains(other));
        }
    }
    assert forall|j: int| 0 <= j < r.slots.len() implies (
    #[trigger] r.slots[j]).members.no_duplicates() by {
        if j == i {
            assert(s.slots[i].members.no_duplicates());
            assert forall|a: int, b: int| 0 <= a < after.len() && 0 <= b < after.len() && a
                != b implies after[a] != after[b] by {
                if a < before.len() && after[a] == token {
                    assert(before[a] == token);
                    assert(s.slots[i].members.contains(token));
                }
                if b < before.len() && after[b] == token {
                    assert(before[b] == token);
                    assert(s.slots[i].members.contains(token));
                }
            }
        } else {
            assert(s.slots[j].members.no_duplicates());
        }
    }
}

/// Binding an endpoint to a slot keeps bindings and member lists in step;
/// afterwards the endpoint is bound to that slot and every other endpoint is
/// bound as before.
pub proof fn lemma_bind(s: ServerView, token: Token, slot: usize)
    requires
        s.linked(),
        (slot as int) < s.slots.len(),
    ensures
        s.bind(token, slot).linked(),
        s.bind(token, slot).is_bound(token),
        s.bind(token, slot).bindings[token] == slot,
        s.bind(token, slot).slots.len() == s.slots.len(),
        s.bind(token, slot).pending == s.pending,
        forall|other: Token|
            other != token ==> (#[trigger] s.bind(token, slot).bindings.contains_key(other))
                == s.bindings.contains_key(other),
        forall|other: Token|
            other != token && s.bindings.contains_key(other) ==> #[trigger] s.bind(
                token,
                slot,
            ).bindings[other] == s.bindings[other],
{
    if !(s.is_bound(token) && s.bindings[token] == slot) {
        lemma_unbind(s, token);
        lemma_attach(s.unbind(token), token, slot);
    }
}

/// Giving an unbound endpoint a fresh session keeps bindings and member
/// lists in step, and touches no other endpoint's binding.
pub proof fn lemma_allocate(s: ServerView, token: Token)
    requires
        s.linked(),
        !s.is_bound(token),
        s.slots.len() <= usize::MAX,
    ensures
        s.allocate(token).linked(),
        s.allocate(token).is_bound(token),
        s.allocate(token).pending == s.pending,
        forall|other: Token|
            other != token ==> (#[trigger] s.allocate(token).bindings.contains_key(other))
                == s.bindings.contains_key(other),
        forall|other: Token|
            other != token && s.bindings.contains_key(other) ==> #[trigger] s.allocate(
                token,
            ).bindings[other] == s.bindings[other],
{
    let r = s.allocate(token);
    let i = first_free(s.slots, 0);
    lemma_first_free(s.slots, 0);
    let fresh = seq![token];
    assert(fresh[0] == token);
    assert(r.slots[i].members == fresh);
    assert forall|other: Token| #[trigger] r.bindings.contains_key(other) implies r.listed(
        other,
    ) by {
        if other != token {
            let j = s.bindings[other] as int;
            assert(s.slots[j].members.contains(other));
            assert(j != i);
            assert(r.slots[j] == s.slots[j]);
        }
    }
    assert forall|j: int, other: Token|
        0 <= j < r.slots.len() && #[trigger] r.slots[j].members.contains(
            other,
        ) implies r.bindings.contains_key(other) && r.bindings[other] == j by {
        if j != i {
            assert(r.slots[j] == s.slots[j]);
            assert(s.slots[j].members.contains(other));
        }
    }
    assert forall|j: int| 0 <= j < r.slots.len() implies (
    #[trigger] r.slots[j]).members.no_duplicates() by {
        if j != i {
            assert(r.slots[j] == s.slots[j]);
            assert(s.slots[j].members.no_duplicates());
        }
    }
}

/// Taking an endpoint out of its session and out of the pending registry
/// keeps the invariant.
pub proof fn lemma_release(s: ServerView, token: Token)
    requires
        s.linked(),
        s.pending_bound(),
    ensures
        s.release(token).linked(),
        s.release(token).pending_bound(),
        s.release(token).slots.len() == s.slots.len(),
        !s.release(token).is_bound(token),
        forall|other: Token|
            other != token ==> (#[trigger] s.release(token).bindings.contains_key(other))
                == s.bindings.contains_key(other),
{
    lemma_unbind(s, token);
    let r = s.release(token);
    assert(r.slots == s.unbind(token).slots);
    assert(r.bindings == s.unbind(token).bindings);
    assert forall|key: Seq<char>| #[trigger]
        r.pending.contains_key(key) implies r.bindings.contains_key(r.pending[key]) by {
        assert(s.pending.contains_key(key));
        assert(s.pending[key] != token);
    }
}

/// Pairing coordination keeps the invariant and leaves the registering
/// endpoint bound.
pub proof fn lemma_coordinate(s: ServerView, key: Seq<char>, token: Token)
    requires
        s.wf(),
    ensures
        s.coordinate(key, token).linked(),
        s.coordinate(key, token).pending_bound(),
        s.coordinate(key, token).is_bound(token),
{
    let r = s.coordinate(key, token);
    if s.pending.contains_key(key) {
        let first = s.pending[key];
        let taken = ServerView { pending: s.pending.remove(key), ..s };
        assert(s.bindings.contains_key(first));
        assert(taken.ensure_session(first) == taken);
        lemma_bind(taken, token, s.bindings[first]);
        assert forall|k: Seq<char>| #[trigger]
            r.pending.contains_key(k) implies r.bindings.contains_key(r.pending[k]) by {
            assert(s.pending.contains_key(k));
            assert(s.bindings.contains_key(s.pending[k]));
        }
    } else {
        let waiting = ServerView { pending: s.pending.insert(key, token), ..s };
        if !s.is_bound(token) {
            lemma_allocate(waiting, token);
        }
        assert forall|k: Seq<char>| #[trigger]
            r.pending.contains_key(k) implies r.bindings.contains_key(r.pending[k]) by {
            if k != key {
                assert(s.pending.contains_key(k));
                assert(s.bindings.contains_key(s.pending[k]));
            }
        }
    }
}

/// Driving a session with an event keeps the invariant and leaves the
/// endpoint bound to a session whose state is what the transition table gives
/// for the state it saw before.
pub proof fn lemma_apply(s: ServerView, token: Token, event: SessionEvent)
    requires
        s.linked(),
        s.pending_bound(),
        s.is_bound(token) || s.slots.len() <= usize::MAX,
    ensures
        s.apply(token, event).linked(),
        s.apply(token, event).pending_bound(),
        s.apply(token, event).is_bound(token),
        s.apply(token, event).session_of(token) == s.session_of(token).transition(event),
{
    let ready = s.ensure_session(token);
    if !s.is_bound(token) {
        lemma_allocate(s, token);
        lemma_first_free(s.slots, 0);
    }
    let r = s.apply(token, event);
    let i = ready.bindings[token] as int;
    assert(ready.linked());
    assert forall|other: Token| #[trigger] r.bindings.contains_key(other) implies r.listed(
        other,
    ) by {
        let j = ready.bindings[other] as int;
        assert(ready.slots[j].members.contains(other));
    }
    assert forall|j: int, other: Token|
        0 <= j < r.slots.len() && #[trigger] r.slots[j].members.contains(
            other,
        ) implies r.bindings.contains_key(other) && r.bindings[other] == j by {
        assert(ready.slots[j].members.contains(other));
    }
    assert forall|j: int| 0 <= j < r.slots.len() implies (
    #[trigger] r.slots[j]).members.no_duplicates() by {
        assert(ready.slots[j].members.no_duplicates());
    }
    assert forall|k: Seq<char>| #[trigger]
        r.pending.contains_key(k) implies r.bindings.contains_key(r.pending[k]) by {
        assert(s.pending.contains_key(k));
        assert(s.bindings.contains_key(s.pending[k]));
    }
}

/// A registration keeps the invariant and leaves the registering endpoint
/// bound.
pub proof fn lemma_register(s: ServerView, key: Seq<char>, token: Token, event: SessionEvent)
    requires
        s.wf(),
    ensures
        s.register(key, token, event).linked(),
        s.register(key, token, event).pending_bound(),
        s.register(key, token, event).is_bound(token),
{
    lemma_coordinate(s, key, token);
    lemma_apply(s.coordinate(key, token), token, event);
}

/// Whatever arrives, the engine keeps its invariant.
pub proof fn lemma_after_message(s: ServerView, sender: Token, decoded: Option<MessageView>)
    requires
        s.wf(),
    ensures
        s.after_message(sender, decoded).linked(),
        s.after_message(sender, decoded).pending_bound(),
{
    match decoded {
        Some(MessageView::ClientRegister { key }) => {
            lemma_register(s, key, sender, SessionEvent::RegisterClient { endpoint: sender });
        },
        Some(MessageView::AppStreamRegister { key }) => {
            lemma_register(s, key, sender, SessionEvent::RegisterAppStream { endpoint: sender });
        },
        _ => {},
    }
}

/// Whoever closes, the engine keeps its invariant, and the closing endpoint
/// is bound to no session afterwards.
pub proof fn lemma_after_close(s: ServerView, token: Token)
    requires
        s.wf(),
    ensures
        s.after_close(token).wf(),
        !s.after_close(token).is_bound(token),
{
    lemma_release(s, token);
    match s.session_of(token) {
        Session::Established { client, app_stream } => {
            let a = s.release(token);
            lemma_release(a, client);
            let b = a.release(client);
            lemma_release(b, app_stream);
        },
        _ => {},
    }
}

} // verus!
