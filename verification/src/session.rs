use vstd::prelude::*;
use crate::authz::spec_policy_operation;
use crate::capability::{can_view, chain_admits, AuthConfig};
use crate::frames::{error_response_bytes, frame_bytes, frame_event, handshake_bytes,
    write_error_response, write_handshake};
use crate::http::{auth_name, b64url_decode, parse_request, spec_find_header, spec_last_event_id,
    spec_parse_http};
use crate::replay::Event;

verus! {

/// The per-connection protocol states. Transitions only move forward; a
/// session that reaches `Closed` releases its database handle and socket.
#[derive(Clone, Copy, PartialEq, Eq, Structural, Debug)]
pub enum SessionState {
    AwaitingRequest,
    HandshakeSent,
    ReplayingMissed,
    LiveStreaming,
    Closed,
}

/// What drives a transition.
#[derive(Clone, Copy, PartialEq, Eq, Structural, Debug)]
pub enum SessionInput {
    /// The inbound request was malformed or asked for the root path; a 400
    /// was emitted.
    RequestRejected,
    /// A well-formed request; the handshake was emitted.
    RequestAccepted,
    /// A valid replay cursor was presented: catch up before streaming.
    BeginReplay,
    /// No usable cursor: stream live at once.
    BeginLive,
    /// Catch-up replay emitted its last frame.
    ReplayFinished,
    /// The notification feed reported an error; the connection is dead.
    FeedFailed,
    /// A socket write failed; the peer is gone.
    WriteFailed,
}

/// Position of each state along the session's one-way progression.
pub open spec fn state_rank(s: SessionState) -> int {
    match s {
        SessionState::AwaitingRequest => 0,
        SessionState::HandshakeSent => 1,
        SessionState::ReplayingMissed => 2,
        SessionState::LiveStreaming => 3,
        SessionState::Closed => 4,
    }
}

/// The transition table. Feed and write failures close the session from any
/// state, as does any input a state has no use for.
pub open spec fn spec_transition(s: SessionState, ev: SessionInput) -> SessionState {
    match (s, ev) {
        (SessionState::AwaitingRequest, SessionInput::RequestAccepted) => SessionState::HandshakeSent,
        (SessionState::HandshakeSent, SessionInput::BeginReplay) => SessionState::ReplayingMissed,
        (SessionState::HandshakeSent, SessionInput::BeginLive) => SessionState::LiveStreaming,
        (SessionState::ReplayingMissed, SessionInput::ReplayFinished) => SessionState::LiveStreaming,
        _ => SessionState::Closed,
    }
}

/// Steps the session state machine.
pub fn next_state(s: SessionState, ev: SessionInput) -> (r: SessionState)
    ensures
        r == spec_transition(s, ev),
{
    match (s, ev) {
        (SessionState::AwaitingRequest, SessionInput::RequestAccepted) => SessionState::HandshakeSent,
        (SessionState::HandshakeSent, SessionInput::BeginReplay) => SessionState::ReplayingMissed,
        (SessionState::HandshakeSent, SessionInput::BeginLive) => SessionState::LiveStreaming,
        (SessionState::ReplayingMissed, SessionInput::ReplayFinished) => SessionState::LiveStreaming,
        _ => SessionState::Closed,
    }
}

/// Transitions are strictly forward and never repeat a state: every step out
/// of a live state climbs the progression, and `Closed` is absorbing.
pub proof fn lemma_transitions_forward(s: SessionState, ev: SessionInput)
    ensures
        s != SessionState::Closed ==> state_rank(spec_transition(s, ev)) > state_rank(s),
        spec_transition(SessionState::Closed, ev) == SessionState::Closed,
{
}

/// How a session answers its inbound request.
pub enum BeginOutcome {
    /// The 400 response; the session then closes.
    Rejected { response: Vec<u8> },
    /// The handshake to write, the topic to subscribe, the replay cursor if
    /// a valid one was presented, and the decoded credential bytes.
    Accepted { handshake: Vec<u8>, topic: Vec<u8>, cursor: Option<u128>, token: Option<Vec<u8>> },
}

/// Sequences the start of a session from the raw inbound bytes: a request
/// that cannot be parsed, carries no leading path separator, or asks for the
/// root path is rejected with the 400 response; any other request yields the
/// handshake, the topic, the degraded replay cursor and the credential.
pub fn session_begin(raw: &[u8]) -> (r: BeginOutcome)
    ensures
        match spec_parse_http(raw@) {
            None => r matches BeginOutcome::Rejected { response } && response@
                == error_response_bytes(),
            Some(pv) => {
                if pv.0.len() <= 1 || pv.0[0] != 0x2f {
                    r matches BeginOutcome::Rejected { response } && response@
                        == error_response_bytes()
                } else {
                    r matches BeginOutcome::Accepted { handshake, topic, cursor, token }
                        && handshake@ == handshake_bytes() && topic@ == pv.0.drop_first() && cursor
                        == spec_last_event_id(pv.1) && (match spec_find_header(pv.1, auth_name()) {
                        None => token is None,
                        Some(v) => match b64url_decode(v) {
                            None => token is None,
                            Some(d) => token matches Some(t) && t@ == d,
                        },
                    })
                }
            },
        },
{
    match parse_request(raw) {
        Err(_) => BeginOutcome::Rejected { response: write_error_response() },
        Ok(pr) => {
            if pr.topic.len() == 0 {
                BeginOutcome::Rejected { response: write_error_response() }
            } else {
                BeginOutcome::Accepted {
                    handshake: write_handshake(),
                    topic: pr.topic,
                    cursor: pr.last_event_id,
                    token: pr.auth_token,
                }
            }
        },
    }
}

/// Resolves one event for delivery: the capability verifier filters, the
/// wire codec frames. A public event (absent policy) is always delivered; a
/// guarded event is withheld from an anonymous client; whenever a frame
/// comes out it is exactly the event's frame. Authorization denial produces
/// no frame and no diagnostic.
pub fn relay_frame(cfg: &AuthConfig, token: &Option<Vec<u8>>, event: &Event) -> (r: Option<Vec<u8>>)
    ensures
        event.policy is None ==> (r matches Some(f) && f@ == frame_bytes(
            event.name@,
            event.id,
            event.data@,
        )),
        !(cfg.mode is Public) && event.policy is Some && token is None ==> r is None,
        event.policy matches Some(p) ==> token matches Some(t) ==> cfg.mode is BearerEquality ==> (
        r is Some <==> t@ == p@),
        event.policy matches Some(p) ==> token matches Some(t) ==> cfg.mode is CapabilityChain
            ==> (spec_policy_operation(p@) matches Some(op) ==> (r is Some <==> chain_admits(
            cfg.root_key@,
            t@,
            op,
        ))),
        event.policy matches Some(p) ==> token is Some ==> cfg.mode is CapabilityChain ==> (
        spec_policy_operation(p@) is None ==> r is None),
        r matches Some(f) ==> f@ == frame_bytes(event.name@, event.id, event.data@),
{
    if can_view(cfg, token, &event.policy) {
        Some(frame_event(&event.name, event.id, &event.data))
    } else {
        None
    }
}

} // verus!
