use base64::Engine;
use eventgate::frames::{frame_event, write_error_response, write_handshake};
use eventgate::http::{parse_last_event_id, parse_request, WireError};
use eventgate::ids::{parse_event_id, render_event_id};

#[test]
fn frame_round_trip_orders() {
    let id = parse_event_id(b"67e55044-10b1-426f-9247-bb680e5fe0c8").unwrap();
    let frame = frame_event(&b"orders".to_vec(), id, &b"{\"a\":1}".to_vec());
    assert_eq!(
        frame,
        b"event:orders\nid:67e55044-10b1-426f-9247-bb680e5fe0c8\ndata:{\"a\":1}\n\n".to_vec()
    );
}

#[test]
fn render_matches_external_formatter() {
    let text = "f81d4fae-7dec-11d0-a765-00a0c91e6bf6";
    let id = parse_event_id(text.as_bytes()).unwrap();
    let rendered = render_event_id(id);
    let reference = uuid::Uuid::parse_str(text).unwrap().hyphenated().to_string();
    assert_eq!(rendered, reference.as_bytes().to_vec());
}

#[test]
fn parse_id_accepts_both_forms_and_case() {
    let a = parse_event_id(b"67e55044-10b1-426f-9247-bb680e5fe0c8").unwrap();
    let b = parse_event_id(b"67E55044-10B1-426F-9247-BB680E5FE0C8").unwrap();
    let c = parse_event_id(b"67e5504410b1426f9247bb680e5fe0c8").unwrap();
    assert_eq!(a, b);
    assert_eq!(a, c);
    // The canonical rendering is lower-case and hyphenated.
    assert_eq!(
        render_event_id(b),
        b"67e55044-10b1-426f-9247-bb680e5fe0c8".to_vec()
    );
}

#[test]
fn parse_id_rejects_garbage() {
    assert!(parse_event_id(b"").is_none());
    assert!(parse_event_id(b"not-an-id").is_none());
    assert!(parse_event_id(b"67e55044-10b1-426f-9247-bb680e5fe0cg").is_none());
    assert!(parse_event_id(b"67e55044+10b1-426f-9247-bb680e5fe0c8").is_none());
}

#[test]
fn invalid_cursor_is_its_own_error() {
    assert_eq!(
        parse_last_event_id(b"not-an-id"),
        Err(WireError::InvalidLastEventId)
    );
    assert_eq!(
        parse_last_event_id(b"67e55044-10b1-426f-9247-bb680e5fe0c8"),
        Ok(parse_event_id(b"67e55044-10b1-426f-9247-bb680e5fe0c8").unwrap())
    );
}

#[test]
fn handshake_and_error_bytes() {
    assert_eq!(
        write_handshake(),
        b"HTTP/1.1 200 OK\r\nContent-Type: text/event-stream\r\nAccess-Control-Allow-Origin: *\r\n\r\n".to_vec()
    );
    assert_eq!(
        write_error_response(),
        b"HTTP/1.1 400 Bad Request\r\n\r\n".to_vec()
    );
}

#[test]
fn parse_request_plain() {
    let req = parse_request(b"GET /orders HTTP/1.1\r\n\r\n").unwrap();
    assert_eq!(req.topic, b"orders".to_vec());
    assert!(req.last_event_id.is_none());
    assert!(req.auth_token.is_none());
}

#[test]
fn parse_request_headers_case_insensitive() {
    let raw =
        b"GET /orders HTTP/1.1\r\nLAST-EVENT-ID: 67e55044-10b1-426f-9247-bb680e5fe0c8\r\n\r\n";
    let req = parse_request(raw).unwrap();
    assert_eq!(
        req.last_event_id,
        Some(parse_event_id(b"67e55044-10b1-426f-9247-bb680e5fe0c8").unwrap())
    );
}

#[test]
fn parse_request_invalid_cursor_degrades_to_absent() {
    let req = parse_request(b"GET /orders HTTP/1.1\r\nLast-Event-ID: oops\r\n\r\n").unwrap();
    assert_eq!(req.topic, b"orders".to_vec());
    assert!(req.last_event_id.is_none());
}

#[test]
fn parse_request_decodes_authorization() {
    let token = b"raw token bytes".to_vec();
    let encoded = base64::engine::general_purpose::URL_SAFE_NO_PAD.encode(&token);
    let raw = format!("GET /orders HTTP/1.1\r\nAuthorization: {}\r\n\r\n", encoded);
    let req = parse_request(raw.as_bytes()).unwrap();
    // The header carried base64 text; the parsed request carries the decoded
    // bytes, so a codec that handed its input back unchanged would fail here.
    assert_eq!(req.auth_token, Some(token));
    assert_ne!(req.auth_token, Some(encoded.into_bytes()));
}

#[test]
fn parse_request_bad_authorization_degrades_to_absent() {
    let req =
        parse_request(b"GET /orders HTTP/1.1\r\nAuthorization: !!!not-base64!!!\r\n\r\n").unwrap();
    assert!(req.auth_token.is_none());
}

#[test]
fn parse_request_malformed() {
    assert_eq!(
        parse_request(b"nonsense").unwrap_err(),
        WireError::MalformedRequest
    );
    assert_eq!(
        parse_request(b"GET\r\n\r\n").unwrap_err(),
        WireError::MalformedRequest
    );
    assert_eq!(
        parse_request(b"GET orders HTTP/1.1\r\n\r\n").unwrap_err(),
        WireError::MalformedRequest
    );
    // A header fragment with no line end is unparsable.
    assert_eq!(
        parse_request(b"GET /orders HTTP/1.1\r\nLast-Eve").unwrap_err(),
        WireError::MalformedRequest
    );
}
