use wscore::handshake::{build_response, calculate_accept_key, negotiate, HandshakeError};

const SAMPLE_KEY: &str = "dGhlIHNhbXBsZSBub25jZQ==";
const SAMPLE_ACCEPT: &str = "s3pPLMBiTxaQ9kYGzzhZRbK+xOo=";

#[test]
fn accept_key_reference_vector() {
    assert_eq!(calculate_accept_key(SAMPLE_KEY), SAMPLE_ACCEPT);
}

#[test]
fn accept_key_is_deterministic() {
    assert_eq!(calculate_accept_key("abc"), calculate_accept_key("abc"));
    assert_ne!(calculate_accept_key("abc"), calculate_accept_key("abd"));
}

#[test]
fn negotiate_extracts_and_derives_the_key() {
    let request = format!(
        "GET / HTTP/1.1\r\nHost: localhost\r\nUpgrade: websocket\r\nSec-WebSocket-Key: {}\r\nConnection: Upgrade\r\n\r\n",
        SAMPLE_KEY
    );
    let accept = negotiate(&request.into_bytes()).expect("key header present");
    assert_eq!(accept, SAMPLE_ACCEPT);
}

#[test]
fn negotiate_trims_surrounding_whitespace() {
    let request = format!("Sec-WebSocket-Key:   {}\t\r\nRest\r\n", SAMPLE_KEY);
    // one space belongs to the header marker; the rest is trimmed
    let accept = negotiate(&request.into_bytes()).expect("key header present");
    assert_eq!(accept, SAMPLE_ACCEPT);
}

#[test]
fn negotiate_without_key_header_fails() {
    let request = b"GET / HTTP/1.1\r\nHost: localhost\r\n\r\n".to_vec();
    assert_eq!(negotiate(&request), Err(HandshakeError::MissingKeyHeader));
}

#[test]
fn negotiate_without_carriage_return_fails() {
    let request = b"Sec-WebSocket-Key: abc".to_vec();
    assert_eq!(negotiate(&request), Err(HandshakeError::MissingKeyHeader));
}

#[test]
fn response_carries_the_accept_key() {
    let response = build_response(SAMPLE_ACCEPT);
    assert_eq!(
        response,
        "HTTP/1.1 101 Switching Protocols\r\nUpgrade: websocket\r\nConnection: Upgrade\r\nSec-WebSocket-Accept: s3pPLMBiTxaQ9kYGzzhZRbK+xOo=\r\n\r\n"
    );
}
