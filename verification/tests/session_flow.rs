//! The per-connection state machine, driven with concrete transport
//! messages over the in-memory authenticator.
use dalang::auth::{Authenticator, MemoryAuthenticator, Register};
use dalang::session::{AuthState, CloseCode, Session, SessionAction, TransportMessage};

fn frame(category: u16, opcode: u16, payload: &[u8]) -> Vec<u8> {
    let mut v = vec![
        0x92,
        0xce,
        (category >> 8) as u8,
        category as u8,
        (opcode >> 8) as u8,
        opcode as u8,
    ];
    v.extend_from_slice(payload);
    v
}

fn credentials_payload(username: &str, password: &str) -> Vec<u8> {
    let mut v = vec![0x82];
    v.push(0xa0 + 8);
    v.extend_from_slice(b"username");
    v.push(0xa0 + username.len() as u8);
    v.extend_from_slice(username.as_bytes());
    v.push(0xa0 + 8);
    v.extend_from_slice(b"password");
    v.push(0xa0 + password.len() as u8);
    v.extend_from_slice(password.as_bytes());
    v
}

fn sent_bytes(actions: &[SessionAction]) -> Vec<u8> {
    assert_eq!(actions.len(), 1);
    match &actions[0] {
        SessionAction::Send(v) => v.clone(),
        other => panic!("expected a send, got {:?}", other),
    }
}

#[test]
fn handshake_is_sent_on_connect() {
    let session = Session::new(1);
    let actions = session.on_connect();
    assert_eq!(
        sent_bytes(&actions),
        vec![0x92, 0x93, 0xcc, 0, 0xcc, 0, 0xcc, 1, 0x90]
    );
}

#[test]
fn text_frame_closes_unsupported() {
    // regardless of authentication state
    let mut auth = MemoryAuthenticator::new();
    for state in [AuthState::Anonymous, AuthState::Authenticated(7)] {
        let mut session = Session::new(2);
        session.state = state;
        let actions = session.handle_message(TransportMessage::Text("hi".to_string()), &mut auth);
        assert_eq!(actions, vec![SessionAction::Close(CloseCode::Unsupported)]);
        assert_eq!(session.state, AuthState::Closed);
    }
}

#[test]
fn ping_is_answered_with_pong() {
    let mut auth = MemoryAuthenticator::new();
    let mut session = Session::new(3);
    let actions = session.handle_message(TransportMessage::Ping(vec![9, 9]), &mut auth);
    assert_eq!(actions, vec![SessionAction::Pong(vec![9, 9])]);
    assert_eq!(session.state, AuthState::Anonymous);
}

#[test]
fn malformed_frame_closes_protocol() {
    let mut auth = MemoryAuthenticator::new();
    let mut session = Session::new(4);
    let actions = session.handle_message(TransportMessage::Binary(vec![0x93]), &mut auth);
    assert_eq!(actions, vec![SessionAction::Close(CloseCode::Protocol)]);
    assert_eq!(session.state, AuthState::Closed);
}

#[test]
fn anonymous_user_packet_replies_not_authenticated() {
    let mut auth = MemoryAuthenticator::new();
    let mut session = Session::new(5);

    // a User-category packet (GetUsername) while Anonymous
    let actions = session.handle_message(
        TransportMessage::Binary(frame(0x0002, 0x0001, &[])),
        &mut auth,
    );
    // ErrorNotAuthenticated (User 0xffff), and the connection stays open
    assert_eq!(
        sent_bytes(&actions),
        frame(0x0002, 0xffff, &[])
    );
    assert_eq!(session.state, AuthState::Anonymous);

    // still usable afterward: registering now succeeds and authenticates
    let reg = frame(0x0001, 0x0020, &credentials_payload("dave", "pw"));
    let actions = session.handle_message(TransportMessage::Binary(reg), &mut auth);
    // register success is acknowledged with the success response
    assert_eq!(sent_bytes(&actions), frame(0x0001, 0x0000, &[]));
    assert!(matches!(session.state, AuthState::Authenticated(_)));
}

#[test]
fn login_failures_are_indistinguishable_on_the_wire() {
    let mut auth = MemoryAuthenticator::new();
    auth.register(Register {
        username: "bob".to_string(),
        password: "secret".to_string(),
    })
    .expect("registration");

    let mut s1 = Session::new(6);
    let wrong_password = s1.handle_message(
        TransportMessage::Binary(frame(0x0001, 0x0010, &credentials_payload("bob", "wrong"))),
        &mut auth,
    );

    let mut s2 = Session::new(7);
    let missing_user = s2.handle_message(
        TransportMessage::Binary(frame(0x0001, 0x0010, &credentials_payload("carol", "secret"))),
        &mut auth,
    );

    // both failures answer the same server opcode and the same bytes
    let expected = frame(0x0001, 0x0010, &[]);
    assert_eq!(sent_bytes(&wrong_password), expected);
    assert_eq!(sent_bytes(&missing_user), expected);
    assert_eq!(s1.state, AuthState::Anonymous);
    assert_eq!(s2.state, AuthState::Anonymous);
}

#[test]
fn login_success_authenticates_and_sends_a_token() {
    let mut auth = MemoryAuthenticator::new();
    let uid = auth
        .register(Register {
            username: "erin".to_string(),
            password: "hunter2".to_string(),
        })
        .expect("registration");

    let mut session = Session::new(8);
    let actions = session.handle_message(
        TransportMessage::Binary(frame(0x0001, 0x0010, &credentials_payload("erin", "hunter2"))),
        &mut auth,
    );
    assert_eq!(session.state, AuthState::Authenticated(uid));

    // the reply is LoginSuccess (Authentication 0x12) carrying a token record
    let bytes = sent_bytes(&actions);
    assert_eq!(&bytes[..6], &frame(0x0001, 0x0012, &[])[..6]);

    // once authenticated, GetUsername answers the stored name
    let actions = session.handle_message(
        TransportMessage::Binary(frame(0x0002, 0x0001, &[])),
        &mut auth,
    );
    let mut expected_payload = vec![0x81];
    expected_payload.push(0xa0 + 8);
    expected_payload.extend_from_slice(b"username");
    expected_payload.push(0xa0 + 4);
    expected_payload.extend_from_slice(b"erin");
    assert_eq!(sent_bytes(&actions), frame(0x0002, 0x0001, &expected_payload));
}

#[test]
fn peer_close_ends_the_session() {
    let mut auth = MemoryAuthenticator::new();
    let mut session = Session::new(9);
    let actions = session.handle_message(TransportMessage::Close, &mut auth);
    assert!(actions.is_empty());
    assert_eq!(session.state, AuthState::Closed);

    // terminal: a later frame is ignored
    let actions = session.handle_message(
        TransportMessage::Binary(frame(0x0001, 0x0000, &[])),
        &mut auth,
    );
    assert!(actions.is_empty());
    assert_eq!(session.state, AuthState::Closed);
}

#[test]
fn unwired_opcode_closes() {
    let mut auth = MemoryAuthenticator::new();
    let mut session = Session::new(10);
    // Logout (Authentication 0x00ff) is a valid opcode with no wired handler
    let actions = session.handle_message(
        TransportMessage::Binary(frame(0x0001, 0x00ff, &[])),
        &mut auth,
    );
    assert_eq!(actions, vec![SessionAction::Close(CloseCode::Protocol)]);
    assert_eq!(session.state, AuthState::Closed);
}
