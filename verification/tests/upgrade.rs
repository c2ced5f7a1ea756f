use twist::handshake::{
    build_request, build_response, derive_accept_key, generate_key, parse_request, parse_response,
    HandshakeError, RequestParse, ResponseParse,
};

#[test]
fn sample_nonce_accept_key() {
    let key = b"dGhlIHNhbXBsZSBub25jZQ==".to_vec();
    let accept = derive_accept_key(&key);
    assert_eq!(accept, b"s3pPLMBiTxaQ9kYGzzhZRbK+xOo=".to_vec());
}

#[test]
fn request_round_trip() {
    let key = b"dGhlIHNhbXBsZSBub25jZQ==".to_vec();
    let req = build_request(&b"/chat".to_vec(), &b"example.com".to_vec(), &key);
    match parse_request(&req) {
        RequestParse::Valid(parsed_key, consumed) => {
            assert_eq!(parsed_key, key);
            assert_eq!(consumed, req.len());
        }
        _ => panic!("the built request must parse"),
    }
}

#[test]
fn response_round_trip() {
    let key = b"dGhlIHNhbXBsZSBub25jZQ==".to_vec();
    let resp = build_response(&key);
    match parse_response(&resp, &key) {
        ResponseParse::Valid(consumed) => assert_eq!(consumed, resp.len()),
        _ => panic!("the built response must parse against its key"),
    }
}

#[test]
fn accept_mismatch_is_fatal() {
    let key = b"dGhlIHNhbXBsZSBub25jZQ==".to_vec();
    let resp = build_response(&key);
    let other_key = b"AAAAAAAAAAAAAAAAAAAAAA==".to_vec();
    match parse_response(&resp, &other_key) {
        ResponseParse::Invalid(e) => assert_eq!(e, HandshakeError::AcceptMismatch),
        _ => panic!("a wrong accept key must be rejected"),
    }
}

#[test]
fn incomplete_heads_ask_for_more_bytes() {
    let partial = b"GET /chat HTTP/1.1\r\nHost: example.com\r\n".to_vec();
    assert!(matches!(parse_request(&partial), RequestParse::Incomplete));
    let partial = b"HTTP/1.1 101 Switching Protocols\r\n".to_vec();
    assert!(matches!(
        parse_response(&partial, &b"k".to_vec()),
        ResponseParse::Incomplete
    ));
}

#[test]
fn missing_headers_are_distinct_errors() {
    let no_upgrade =
        b"GET / HTTP/1.1\r\nHost: h\r\nConnection: Upgrade\r\nSec-WebSocket-Key: k\r\nSec-WebSocket-Version: 13\r\n\r\n"
            .to_vec();
    assert!(matches!(
        parse_request(&no_upgrade),
        RequestParse::Invalid(HandshakeError::MissingUpgrade)
    ));
    let no_connection =
        b"GET / HTTP/1.1\r\nHost: h\r\nUpgrade: websocket\r\nSec-WebSocket-Key: k\r\nSec-WebSocket-Version: 13\r\n\r\n"
            .to_vec();
    assert!(matches!(
        parse_request(&no_connection),
        RequestParse::Invalid(HandshakeError::MissingConnection)
    ));
    let no_version =
        b"GET / HTTP/1.1\r\nHost: h\r\nUpgrade: websocket\r\nConnection: Upgrade\r\nSec-WebSocket-Key: k\r\n\r\n"
            .to_vec();
    assert!(matches!(
        parse_request(&no_version),
        RequestParse::Invalid(HandshakeError::MissingVersion)
    ));
    let no_key =
        b"GET / HTTP/1.1\r\nHost: h\r\nUpgrade: websocket\r\nConnection: Upgrade\r\nSec-WebSocket-Version: 13\r\n\r\n"
            .to_vec();
    assert!(matches!(
        parse_request(&no_key),
        RequestParse::Invalid(HandshakeError::MissingKey)
    ));
    let not_get = b"POST / HTTP/1.1\r\nHost: h\r\n\r\n".to_vec();
    assert!(matches!(
        parse_request(&not_get),
        RequestParse::Invalid(HandshakeError::BadRequestLine)
    ));
}

#[test]
fn header_names_match_case_insensitively() {
    let req =
        b"GET / HTTP/1.1\r\nHOST: h\r\nUPGRADE: WebSocket\r\nCONNECTION: UPGRADE\r\nSEC-WEBSOCKET-KEY: AbCd==\r\nSEC-WEBSOCKET-VERSION: 13\r\n\r\n"
            .to_vec();
    match parse_request(&req) {
        RequestParse::Valid(key, _) => assert_eq!(key, b"AbCd==".to_vec()),
        _ => panic!("upper-case header names must be accepted"),
    }
}

#[test]
fn non_101_status_rejected() {
    let key = b"k".to_vec();
    let resp = b"HTTP/1.1 400 Bad Request\r\nUpgrade: websocket\r\n\r\n".to_vec();
    assert!(matches!(
        parse_response(&resp, &key),
        ResponseParse::Invalid(HandshakeError::BadStatus)
    ));
}

#[test]
fn generated_keys_are_base64_of_sixteen_bytes() {
    // 16 bytes encode to 24 base64 characters including padding.
    let key = generate_key();
    assert_eq!(key.len(), 24);
}
