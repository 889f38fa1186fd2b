use eventgate::capability::{AuthConfig, PolicyMode};
use eventgate::ids::parse_event_id;
use eventgate::replay::Event;
use eventgate::session::{
    next_state, relay_frame, session_begin, BeginOutcome, SessionInput, SessionState,
};

#[test]
fn end_to_end_anonymous_client_sees_only_public_events() {
    // The client connects to the `orders` topic with no cursor and no
    // credential.
    let outcome = session_begin(b"GET /orders HTTP/1.1\r\n\r\n");
    let (handshake, topic, cursor, token) = match outcome {
        BeginOutcome::Accepted {
            handshake,
            topic,
            cursor,
            token,
        } => (handshake, topic, cursor, token),
        BeginOutcome::Rejected { .. } => panic!("the request is well-formed"),
    };
    assert_eq!(
        handshake,
        b"HTTP/1.1 200 OK\r\nContent-Type: text/event-stream\r\nAccess-Control-Allow-Origin: *\r\n\r\n".to_vec()
    );
    assert_eq!(topic, b"orders".to_vec());
    assert!(cursor.is_none());
    assert!(token.is_none());

    let cfg = AuthConfig {
        mode: PolicyMode::CapabilityChain,
        root_key: vec![0u8; 32],
    };

    // A public event (absent policy) is delivered as one frame.
    let public_event = Event {
        id: parse_event_id(b"67e55044-10b1-426f-9247-bb680e5fe0c8").unwrap(),
        name: b"orders".to_vec(),
        topic: b"orders".to_vec(),
        policy: None,
        data: b"{\"a\":1}".to_vec(),
        added_at: 1,
    };
    let frame = relay_frame(&cfg, &token, &public_event).unwrap();
    assert_eq!(
        frame,
        b"event:orders\nid:67e55044-10b1-426f-9247-bb680e5fe0c8\ndata:{\"a\":1}\n\n".to_vec()
    );

    // A restricted event (present policy) is silently withheld.
    let restricted_event = Event {
        policy: Some(b"\"view\"".to_vec()),
        ..public_event
    };
    assert!(relay_frame(&cfg, &token, &restricted_event).is_none());
}

#[test]
fn root_path_is_rejected_with_400() {
    match session_begin(b"GET / HTTP/1.1\r\n\r\n") {
        BeginOutcome::Rejected { response } => {
            assert_eq!(response, b"HTTP/1.1 400 Bad Request\r\n\r\n".to_vec());
        }
        BeginOutcome::Accepted { .. } => panic!("the root path must be rejected"),
    }
}

#[test]
fn malformed_request_is_rejected_with_400() {
    match session_begin(b"\r\n\r\n") {
        BeginOutcome::Rejected { response } => {
            assert_eq!(response, b"HTTP/1.1 400 Bad Request\r\n\r\n".to_vec());
        }
        BeginOutcome::Accepted { .. } => panic!("garbage must be rejected"),
    }
}

#[test]
fn session_begin_carries_cursor_and_token() {
    let raw = b"GET /orders HTTP/1.1\r\nLast-Event-ID: 00000000-0000-0000-0000-000000000001\r\nAuthorization: aGVsbG8\r\n\r\n";
    match session_begin(raw) {
        BeginOutcome::Accepted { cursor, token, .. } => {
            assert_eq!(
                cursor,
                Some(parse_event_id(b"00000000-0000-0000-0000-000000000001").unwrap())
            );
            assert_eq!(token, Some(b"hello".to_vec()));
        }
        BeginOutcome::Rejected { .. } => panic!("the request is well-formed"),
    }
}

#[test]
fn transitions_are_strictly_forward() {
    let happy = [
        (SessionState::AwaitingRequest, SessionInput::RequestAccepted, SessionState::HandshakeSent),
        (SessionState::HandshakeSent, SessionInput::BeginReplay, SessionState::ReplayingMissed),
        (SessionState::HandshakeSent, SessionInput::BeginLive, SessionState::LiveStreaming),
        (SessionState::ReplayingMissed, SessionInput::ReplayFinished, SessionState::LiveStreaming),
        (SessionState::AwaitingRequest, SessionInput::RequestRejected, SessionState::Closed),
        (SessionState::LiveStreaming, SessionInput::FeedFailed, SessionState::Closed),
        (SessionState::LiveStreaming, SessionInput::WriteFailed, SessionState::Closed),
    ];
    for (from, input, to) in happy {
        assert_eq!(next_state(from, input), to);
    }
    // Closed absorbs every input.
    for input in [
        SessionInput::RequestRejected,
        SessionInput::RequestAccepted,
        SessionInput::BeginReplay,
        SessionInput::BeginLive,
        SessionInput::ReplayFinished,
        SessionInput::FeedFailed,
        SessionInput::WriteFailed,
    ] {
        assert_eq!(next_state(SessionState::Closed, input), SessionState::Closed);
    }
}
