use relay_pairing::{
    Action, CloseReason, EventKind, FailureReason, Message, RegistrationData, Server, Session,
    SessionEvent, SessionKind,
};

const CLIENT_REGISTER_ABC: &str = r#"{"type":"clientRegister","data":{"key":"abc"}}"#;
const APP_STREAM_REGISTER_ABC: &str = r#"{"type":"appstreamRegister","data":{"key":"abc"}}"#;
const HELLO: &str = r#"{"type":"message","data":"hello"}"#;
const PING: &str = r#"{"type":"ping"}"#;

fn client_register(key: &str) -> Option<Message> {
    Some(Message::ClientRegister { data: RegistrationData { key: key.to_string() } })
}

fn app_stream_register(key: &str) -> Option<Message> {
    Some(Message::AppStreamRegister { data: RegistrationData { key: key.to_string() } })
}

fn payload(data: &str) -> Option<Message> {
    Some(Message::Default { data: data.to_string() })
}

fn close(target: usize, reason: CloseReason) -> Action {
    Action::Close { target, reason }
}

fn relay(to: usize, payload: &str) -> Action {
    Action::Relay { to, payload: payload.to_string() }
}

fn paired(client: usize, app_stream: usize, key: &str) -> Server {
    let mut server = Server::new();
    assert!(server.on_message(client, String::new(), client_register(key)).is_empty());
    assert!(server.on_message(app_stream, String::new(), app_stream_register(key)).is_empty());
    server
}

#[test]
fn concrete_scenario() {
    let (a, b) = (1, 2);
    let mut server = Server::new();

    let out = server.on_message(a, CLIENT_REGISTER_ABC.to_string(), client_register("abc"));
    assert_eq!(out, vec![]);
    assert_eq!(server.session(a), Session::ClientRegistered { endpoint: a });

    let out = server.on_message(b, APP_STREAM_REGISTER_ABC.to_string(), app_stream_register("abc"));
    assert_eq!(out, vec![]);
    assert_eq!(server.session(a), Session::Established { client: a, app_stream: b });
    assert_eq!(server.session(b), Session::Established { client: a, app_stream: b });

    let out = server.on_message(a, HELLO.to_string(), payload("hello"));
    assert_eq!(out, vec![relay(b, HELLO)]);
}

#[test]
fn new_server_knows_nobody() {
    let server = Server::new();
    assert!(!server.is_bound(0));
    assert_eq!(server.session(0), Session::NotConnected);
    assert_eq!(server.waiting("abc"), None);
}

#[test]
fn first_registration_waits_under_the_key() {
    let mut server = Server::new();
    server.on_message(4, String::new(), client_register("k"));
    assert_eq!(server.waiting("k"), Some(4));
    assert!(server.is_bound(4));
    assert_eq!(server.session(4), Session::ClientRegistered { endpoint: 4 });
}

#[test]
fn pairing_client_first() {
    let server = paired(10, 20, "k");
    assert_eq!(server.session(10), Session::Established { client: 10, app_stream: 20 });
    assert_eq!(server.session(20), Session::Established { client: 10, app_stream: 20 });
    assert_eq!(server.waiting("k"), None);
}

#[test]
fn pairing_app_stream_first() {
    let mut server = Server::new();
    assert_eq!(server.on_message(20, String::new(), app_stream_register("k")), vec![]);
    assert_eq!(server.session(20), Session::AppStreamRegistered { endpoint: 20 });
    assert_eq!(server.waiting("k"), Some(20));
    assert_eq!(server.on_message(10, String::new(), client_register("k")), vec![]);
    assert_eq!(server.session(10), Session::Established { client: 10, app_stream: 20 });
    assert_eq!(server.session(20), Session::Established { client: 10, app_stream: 20 });
    assert_eq!(server.waiting("k"), None);
}

#[test]
fn order_independence() {
    let forward = paired(10, 20, "k");
    let mut backward = Server::new();
    backward.on_message(20, String::new(), app_stream_register("k"));
    backward.on_message(10, String::new(), client_register("k"));
    assert_eq!(forward.session(10), backward.session(10));
    assert_eq!(forward.session(20), backward.session(20));
    assert_eq!(forward.session(10), forward.session(20));
}

#[test]
fn different_keys_do_not_pair() {
    let mut server = Server::new();
    server.on_message(1, String::new(), client_register("a"));
    server.on_message(2, String::new(), app_stream_register("b"));
    assert_eq!(server.session(1), Session::ClientRegistered { endpoint: 1 });
    assert_eq!(server.session(2), Session::AppStreamRegistered { endpoint: 2 });
    assert_eq!(server.waiting("a"), Some(1));
    assert_eq!(server.waiting("b"), Some(2));
}

#[test]
fn single_use_pending_slot() {
    let mut server = Server::new();
    assert_eq!(server.on_message(1, String::new(), client_register("k")), vec![]);
    let out = server.on_message(2, String::new(), client_register("k"));
    let failed = Session::Failure {
        reason: FailureReason {
            state: SessionKind::ClientRegistered,
            event: EventKind::RegisterClient,
        },
    };
    assert_eq!(server.session(2), failed);
    assert_eq!(server.session(1), failed);
    assert_eq!(server.waiting("k"), None);
    assert_eq!(out, vec![close(1, CloseReason::Unsupported), close(2, CloseReason::Unsupported)]);
}

#[test]
fn duplicate_app_stream_fails_too() {
    let mut server = Server::new();
    server.on_message(1, String::new(), app_stream_register("k"));
    let out = server.on_message(2, String::new(), app_stream_register("k"));
    let failed = Session::Failure {
        reason: FailureReason {
            state: SessionKind::AppStreamRegistered,
            event: EventKind::RegisterAppStream,
        },
    };
    assert_eq!(server.session(1), failed);
    assert_eq!(server.session(2), failed);
    assert_eq!(out, vec![close(1, CloseReason::Unsupported), close(2, CloseReason::Unsupported)]);
}

#[test]
fn registering_again_fails_an_established_pair() {
    let mut server = paired(1, 2, "k");
    let out = server.on_message(1, String::new(), client_register("other"));
    let failed = Session::Failure {
        reason: FailureReason { state: SessionKind::Established, event: EventKind::RegisterClient },
    };
    assert_eq!(server.session(1), failed);
    assert_eq!(server.session(2), failed);
    assert_eq!(out, vec![close(1, CloseReason::Unsupported), close(2, CloseReason::Unsupported)]);
}

#[test]
fn no_self_echo() {
    let mut server = paired(1, 2, "k");
    let out = server.on_message(1, HELLO.to_string(), payload("hello"));
    assert_eq!(out, vec![relay(2, HELLO)]);
    let out = server.on_message(2, HELLO.to_string(), payload("hello"));
    assert_eq!(out, vec![relay(1, HELLO)]);
}

#[test]
fn relay_is_verbatim() {
    let mut server = paired(1, 2, "k");
    let raw = "{ \"data\" : \"x\",\n  \"type\":\"message\", \"extra\": [1, 2] }";
    let out = server.on_message(2, raw.to_string(), payload("x"));
    assert_eq!(out, vec![relay(1, raw)]);
}

#[test]
fn relay_changes_nothing() {
    let mut server = paired(1, 2, "k");
    server.on_message(1, HELLO.to_string(), payload("hello"));
    assert_eq!(server.session(1), Session::Established { client: 1, app_stream: 2 });
    assert_eq!(server.session(2), Session::Established { client: 1, app_stream: 2 });
}

#[test]
fn a_pong_from_a_party_is_relayed_like_any_message() {
    let mut server = paired(1, 2, "k");
    let raw = r#"{"type":"pong"}"#;
    let out = server.on_message(1, raw.to_string(), Some(Message::Pong {}));
    assert_eq!(out, vec![relay(2, raw)]);
}

#[test]
fn pre_establishment_rejection_not_connected() {
    let mut server = Server::new();
    let out = server.on_message(5, HELLO.to_string(), payload("hello"));
    assert_eq!(out, vec![close(5, CloseReason::Unsupported)]);
    assert_eq!(server.session(5), Session::NotConnected);
    assert!(!server.is_bound(5));
}

#[test]
fn pre_establishment_rejection_client_registered() {
    let mut server = Server::new();
    server.on_message(5, String::new(), client_register("k"));
    let out = server.on_message(5, HELLO.to_string(), payload("hello"));
    assert_eq!(out, vec![close(5, CloseReason::Unsupported)]);
    assert_eq!(server.session(5), Session::ClientRegistered { endpoint: 5 });
    assert_eq!(server.waiting("k"), Some(5));
}

#[test]
fn pre_establishment_rejection_app_stream_registered() {
    let mut server = Server::new();
    server.on_message(5, String::new(), app_stream_register("k"));
    let out = server.on_message(5, HELLO.to_string(), payload("hello"));
    assert_eq!(out, vec![close(5, CloseReason::Unsupported)]);
    assert_eq!(server.session(5), Session::AppStreamRegistered { endpoint: 5 });
}

#[test]
fn a_failed_session_rejects_messages() {
    let mut server = Server::new();
    server.on_message(1, String::new(), client_register("k"));
    server.on_message(2, String::new(), client_register("k"));
    let out = server.on_message(1, HELLO.to_string(), payload("hello"));
    assert_eq!(out, vec![close(1, CloseReason::Unsupported)]);
}

#[test]
fn teardown_propagation() {
    let mut server = paired(1, 2, "k");
    let out = server.on_close(1);
    assert_eq!(out, vec![close(2, CloseReason::Normal)]);
    assert!(!server.is_bound(1));
    assert!(!server.is_bound(2));
    assert_eq!(server.session(2), Session::NotConnected);
}

#[test]
fn teardown_from_the_app_stream_side() {
    let mut server = paired(1, 2, "k");
    let out = server.on_close(2);
    assert_eq!(out, vec![close(1, CloseReason::Normal)]);
    assert!(!server.is_bound(1));
    assert!(!server.is_bound(2));
}

#[test]
fn close_after_teardown_asks_for_nothing() {
    let mut server = paired(1, 2, "k");
    server.on_close(1);
    assert_eq!(server.on_close(2), vec![]);
}

#[test]
fn close_of_a_waiting_endpoint_frees_the_key() {
    let mut server = Server::new();
    server.on_message(1, String::new(), client_register("k"));
    assert_eq!(server.on_close(1), vec![]);
    assert!(!server.is_bound(1));
    assert_eq!(server.waiting("k"), None);
    server.on_message(2, String::new(), app_stream_register("k"));
    assert_eq!(server.session(2), Session::AppStreamRegistered { endpoint: 2 });
    assert_eq!(server.waiting("k"), Some(2));
}

#[test]
fn close_of_an_unknown_endpoint_changes_nothing() {
    let mut server = paired(1, 2, "k");
    assert_eq!(server.on_close(9), vec![]);
    assert_eq!(server.session(1), Session::Established { client: 1, app_stream: 2 });
}

#[test]
fn close_in_a_failed_session_removes_only_the_closing_endpoint() {
    let mut server = Server::new();
    server.on_message(1, String::new(), client_register("k"));
    server.on_message(2, String::new(), client_register("k"));
    assert_eq!(server.on_close(1), vec![]);
    assert!(!server.is_bound(1));
    assert!(server.is_bound(2));
    assert_eq!(server.session(2).kind(), SessionKind::Failure);
}

#[test]
fn key_is_reusable_after_pairing() {
    let mut server = paired(1, 2, "k");
    assert_eq!(server.on_message(3, String::new(), client_register("k")), vec![]);
    assert_eq!(server.waiting("k"), Some(3));
    assert_eq!(server.on_message(4, String::new(), app_stream_register("k")), vec![]);
    assert_eq!(server.session(3), Session::Established { client: 3, app_stream: 4 });
    assert_eq!(server.session(1), Session::Established { client: 1, app_stream: 2 });
    let out = server.on_message(4, HELLO.to_string(), payload("hello"));
    assert_eq!(out, vec![relay(3, HELLO)]);
}

#[test]
fn key_is_reusable_after_teardown() {
    let mut server = paired(1, 2, "k");
    server.on_close(2);
    let server_after = {
        server.on_message(1, String::new(), app_stream_register("k"));
        server.on_message(2, String::new(), client_register("k"));
        server
    };
    assert_eq!(server_after.session(1), Session::Established { client: 2, app_stream: 1 });
    assert_eq!(server_after.session(2), Session::Established { client: 2, app_stream: 1 });
}

#[test]
fn ping_round_trip() {
    let mut server = Server::new();
    let pong = vec![Action::Reply { to: 1, message: Message::Pong {} }];
    assert_eq!(server.on_message(1, PING.to_string(), Some(Message::Ping {})), pong);
    assert!(!server.is_bound(1));
    server.on_message(1, String::new(), client_register("k"));
    assert_eq!(server.on_message(1, PING.to_string(), Some(Message::Ping {})), pong);
    assert_eq!(server.session(1), Session::ClientRegistered { endpoint: 1 });
    server.on_message(2, String::new(), app_stream_register("k"));
    assert_eq!(server.on_message(1, PING.to_string(), Some(Message::Ping {})), pong);
    assert_eq!(
        server.on_message(2, PING.to_string(), Some(Message::Ping {})),
        vec![Action::Reply { to: 2, message: Message::Pong {} }]
    );
    assert_eq!(server.session(1), Session::Established { client: 1, app_stream: 2 });
    server.on_message(1, String::new(), client_register("again"));
    assert_eq!(server.session(1).kind(), SessionKind::Failure);
    assert_eq!(server.on_message(1, PING.to_string(), Some(Message::Ping {})), pong);
}

#[test]
fn undecodable_unit_closes_as_invalid() {
    let mut server = paired(1, 2, "k");
    let out = server.on_message(1, "{not json".to_string(), None);
    assert_eq!(out, vec![close(1, CloseReason::Invalid)]);
    assert_eq!(server.session(1), Session::Established { client: 1, app_stream: 2 });
    let out = server.on_message(7, String::new(), None);
    assert_eq!(out, vec![close(7, CloseReason::Invalid)]);
    assert!(!server.is_bound(7));
}

#[test]
fn one_endpoint_in_both_roles_pairs_with_itself() {
    let mut server = Server::new();
    server.on_message(1, String::new(), client_register("k"));
    server.on_message(1, String::new(), app_stream_register("k"));
    assert_eq!(server.session(1), Session::Established { client: 1, app_stream: 1 });
    let out = server.on_message(1, HELLO.to_string(), payload("hello"));
    assert_eq!(out, vec![relay(1, HELLO)]);
    assert_eq!(server.on_close(1), vec![]);
    assert!(!server.is_bound(1));
}

#[test]
fn second_arrival_leaves_its_former_session() {
    let mut server = Server::new();
    server.on_message(1, String::new(), client_register("a"));
    server.on_message(2, String::new(), client_register("b"));
    let out = server.on_message(2, String::new(), app_stream_register("a"));
    assert_eq!(out, vec![]);
    assert_eq!(server.session(1), Session::Established { client: 1, app_stream: 2 });
    assert_eq!(server.session(2), Session::Established { client: 1, app_stream: 2 });
    assert_eq!(server.waiting("a"), None);
    assert_eq!(server.waiting("b"), Some(2));
}

#[test]
fn coordinate_then_event_is_a_registration() {
    let mut server = Server::new();
    server.coordinate_sessions("k", 1);
    assert_eq!(server.waiting("k"), Some(1));
    assert_eq!(server.session(1), Session::NotConnected);
    assert!(server.is_bound(1));
    server.session_event(1, SessionEvent::RegisterClient { endpoint: 1 });
    assert_eq!(server.session(1), Session::ClientRegistered { endpoint: 1 });
    server.coordinate_sessions("k", 2);
    assert_eq!(server.waiting("k"), None);
    assert_eq!(server.session(2), Session::ClientRegistered { endpoint: 1 });
    server.session_event(2, SessionEvent::RegisterAppStream { endpoint: 2 });
    assert_eq!(server.session(1), Session::Established { client: 1, app_stream: 2 });
    assert_eq!(server.session(2), Session::Established { client: 1, app_stream: 2 });
}

#[test]
fn an_event_gives_an_unknown_endpoint_a_session() {
    let mut server = Server::new();
    server.session_event(3, SessionEvent::RegisterAppStream { endpoint: 3 });
    assert!(server.is_bound(3));
    assert_eq!(server.session(3), Session::AppStreamRegistered { endpoint: 3 });
    assert_eq!(server.waiting("k"), None);
}

#[test]
fn send_failure_closes_the_sender_and_tears_down() {
    let mut server = paired(1, 2, "k");
    let out = server.on_send_failure(1);
    assert_eq!(out, vec![close(1, CloseReason::Normal), close(2, CloseReason::Normal)]);
    assert!(!server.is_bound(1));
    assert!(!server.is_bound(2));
}

#[test]
fn many_pairs_stay_apart() {
    let mut server = Server::new();
    for i in 0..50usize {
        let key = format!("key-{}", i);
        server.on_message(2 * i, String::new(), client_register(&key));
    }
    for i in 0..50usize {
        let key = format!("key-{}", i);
        server.on_message(2 * i + 1, String::new(), app_stream_register(&key));
    }
    for i in 0..50usize {
        let expected = Session::Established { client: 2 * i, app_stream: 2 * i + 1 };
        assert_eq!(server.session(2 * i), expected);
        assert_eq!(server.session(2 * i + 1), expected);
        let out = server.on_message(2 * i + 1, HELLO.to_string(), payload("hello"));
        assert_eq!(out, vec![relay(2 * i, HELLO)]);
    }
    for i in 0..50usize {
        if i % 2 == 0 {
            assert_eq!(server.on_close(2 * i), vec![close(2 * i + 1, CloseReason::Normal)]);
        }
    }
    for i in 0..50usize {
        assert_eq!(server.is_bound(2 * i), i % 2 == 1);
        assert_eq!(server.is_bound(2 * i + 1), i % 2 == 1);
    }
    server.on_message(1000, String::new(), client_register("late"));
    server.on_message(1001, String::new(), app_stream_register("late"));
    assert_eq!(server.session(1000), Session::Established { client: 1000, app_stream: 1001 });
    assert_eq!(server.session(3), Session::Established { client: 2, app_stream: 3 });
}
