use websock::error::WebSocketError;
use websock::handshake::{
    accept_key, eq_bytes, eq_ignore_ascii_case, parse_request, parse_response, split_http_head,
    ClientHandshake, Header, ParsedRequest, ParsedResponse, ServerHanshake,
};
use websock::message::Text;

fn header(name: &str, value: &[u8]) -> Header {
    Header { name: name.as_bytes().to_vec(), value: value.to_vec() }
}

fn good_request() -> ParsedRequest {
    ParsedRequest {
        method: Some(b"GET".to_vec()),
        path: Some(b"/chat".to_vec()),
        version: Some(1),
        headers: vec![
            header("Host", b"server.example.com"),
            header("Upgrade", b"websocket"),
            header("Connection", b"Upgrade"),
            header("Sec-WebSocket-Key", b"dGhlIHNhbXBsZSBub25jZQ=="),
            header("Sec-WebSocket-Version", b"13"),
        ],
    }
}

#[test]
fn accept_key_matches_known_vector() {
    let key = b"dGhlIHNhbXBsZSBub25jZQ==".to_vec();
    assert_eq!(accept_key(&key), b"s3pPLMBiTxaQ9kYGzzhZRbK+xOo=".to_vec());
}

#[test]
fn conformant_request_is_accepted() {
    let handshake = ServerHanshake::from_request(&good_request()).expect("request conforms");
    let response = handshake.into_raw_response();
    let expected = b"HTTP/1.1 101 Switching Protocols\r\n\
                     Sec-WebSocket-Accept: s3pPLMBiTxaQ9kYGzzhZRbK+xOo=\r\n\
                     Upgrade: websocket\r\nConnection: Upgrade\r\n\r\n";
    assert_eq!(response, expected.to_vec());
}

#[test]
fn header_names_match_case_insensitively() {
    let mut request = good_request();
    request.headers[1] = header("UPGRADE", b"websocket");
    request.headers[4] = header("sec-websocket-version", b"13");
    assert!(ServerHanshake::from_request(&request).is_some());
}

#[test]
fn missing_header_is_rejected() {
    for i in 0..5 {
        let mut request = good_request();
        request.headers.remove(i);
        assert!(ServerHanshake::from_request(&request).is_none());
    }
}

#[test]
fn wrong_method_or_version_is_rejected() {
    let mut request = good_request();
    request.method = Some(b"POST".to_vec());
    assert!(ServerHanshake::from_request(&request).is_none());
    let mut request = good_request();
    request.version = Some(0);
    assert!(ServerHanshake::from_request(&request).is_none());
}

#[test]
fn bad_key_is_rejected() {
    // Not base64 at all.
    let mut request = good_request();
    request.headers[3] = header("Sec-WebSocket-Key", b"not base64!!");
    assert!(ServerHanshake::from_request(&request).is_none());
    // Valid base64, but not a 16-byte nonce.
    let mut request = good_request();
    request.headers[3] = header("Sec-WebSocket-Key", b"c2hvcnQ=");
    assert!(ServerHanshake::from_request(&request).is_none());
}

#[test]
fn parses_request_bytes() {
    let raw = b"GET /chat HTTP/1.1\r\nHost: example.net\r\nUpgrade: websocket\r\n\r\n".to_vec();
    let parsed = parse_request(&raw).expect("the head parses");
    assert_eq!(parsed.method, Some(b"GET".to_vec()));
    assert_eq!(parsed.path, Some(b"/chat".to_vec()));
    assert_eq!(parsed.version, Some(1));
    assert_eq!(parsed.headers.len(), 2);
    assert_eq!(parsed.headers[0].name, b"Host".to_vec());
    assert_eq!(parsed.headers[0].value, b"example.net".to_vec());
    assert_eq!(parsed.headers[1].name, b"Upgrade".to_vec());
    assert_eq!(parsed.headers[1].value, b"websocket".to_vec());
}

#[test]
fn garbage_request_bytes_are_rejected() {
    let raw = b"\xff\xfe not http\r\n\r\n".to_vec();
    match parse_request(&raw) {
        Err(WebSocketError::InvalidHandshake(_)) => {},
        other => panic!("expected a handshake error, got {:?}", other),
    }
}

#[test]
fn client_request_has_the_promised_shape() {
    let client = ClientHandshake::new(b"server.example.com:80".to_vec());
    let raw = client.raw_request();
    let text = String::from_utf8(raw.clone()).expect("the request is ASCII");
    assert!(text.starts_with("GET /chat HTTP/1.1\r\n"));
    assert!(text.contains("\r\nUpgrade: websocket\r\n"));
    assert!(text.contains("\r\nConnection: Upgrade\r\n"));
    assert!(text.contains("\r\nSec-WebSocket-Version: 13\r\n"));
    assert!(text.contains("\r\nHost: server.example.com:80\r\n"));
    assert!(text.ends_with("\r\n\r\n"));
    assert_eq!(client.key().len(), 24);
}

#[test]
fn full_handshake_round_trip() {
    // The client's request, parsed and validated by the server; the
    // server's response, parsed and validated by the client.
    let client = ClientHandshake::new(b"server.example.com:80".to_vec());
    let raw_request = client.raw_request();
    let parsed = parse_request(&raw_request).expect("the request parses");
    let server = ServerHanshake::from_request(&parsed).expect("the request conforms");
    let raw_response = server.into_raw_response();
    let response = parse_response(&raw_response).expect("the response parses");
    assert!(client.is_valid_response(&response));
}

fn good_response(key: &Vec<u8>) -> ParsedResponse {
    ParsedResponse {
        version: Some(1),
        code: Some(101),
        headers: vec![
            header("Upgrade", b"websocket"),
            header("Connection", b"Upgrade"),
            header("Sec-WebSocket-Accept", &accept_key(key)),
        ],
    }
}

#[test]
fn response_with_wrong_accept_is_rejected() {
    let client = ClientHandshake::new(b"h:1".to_vec());
    let mut response = good_response(client.key());
    assert!(client.is_valid_response(&response));
    response.headers[2] = header("Sec-WebSocket-Accept", b"AAAAAAAAAAAAAAAAAAAAAAAAAAA=");
    assert!(!client.is_valid_response(&response));
}

#[test]
fn response_with_wrong_status_is_rejected() {
    let client = ClientHandshake::new(b"h:1".to_vec());
    let mut response = good_response(client.key());
    response.code = Some(200);
    assert!(!client.is_valid_response(&response));
}

#[test]
fn response_advertising_extensions_is_rejected() {
    let client = ClientHandshake::new(b"h:1".to_vec());
    let mut response = good_response(client.key());
    response.headers.push(header("Sec-WebSocket-Extensions", b"permessage-deflate"));
    assert!(!client.is_valid_response(&response));
    let mut response = good_response(client.key());
    response.headers.push(header("Sec-WebSocket-Protocol", b"chat"));
    assert!(!client.is_valid_response(&response));
}

#[test]
fn response_with_duplicate_upgrade_is_rejected() {
    let client = ClientHandshake::new(b"h:1".to_vec());
    let mut response = good_response(client.key());
    response.headers.push(header("Upgrade", b"websocket"));
    assert!(!client.is_valid_response(&response));
}

#[test]
fn byte_comparisons() {
    assert!(eq_ignore_ascii_case(&b"Sec-WebSocket-Key".to_vec(), &b"sec-websocket-key".to_vec()));
    assert!(!eq_ignore_ascii_case(&b"Upgrade".to_vec(), &b"Upgrades".to_vec()));
    assert!(eq_bytes(&b"websocket".to_vec(), &b"websocket".to_vec()));
    assert!(!eq_bytes(&b"websocket".to_vec(), &b"webSocket".to_vec()));
}

#[test]
fn head_split_preserves_residual_bytes() {
    let bytes = b"GET / HTTP/1.1\r\nHost: h\r\n\r\n\x81\x05Hello".to_vec();
    let (head, rest) = split_http_head(&bytes).expect("the head is complete");
    assert_eq!(head, b"GET / HTTP/1.1\r\nHost: h\r\n\r\n".to_vec());
    assert_eq!(rest, b"\x81\x05Hello".to_vec());
}

#[test]
fn head_split_takes_the_shortest_prefix() {
    let bytes = b"a\r\n\r\nb\r\n\r\nc".to_vec();
    let (head, rest) = split_http_head(&bytes).expect("the head is complete");
    assert_eq!(head, b"a\r\n\r\n".to_vec());
    assert_eq!(rest, b"b\r\n\r\nc".to_vec());
}

#[test]
fn head_split_waits_for_the_blank_line() {
    assert!(split_http_head(&b"".to_vec()).is_none());
    assert!(split_http_head(&b"GET / HTTP/1.1\r\nHost: h\r\n".to_vec()).is_none());
    assert!(split_http_head(&b"\r\n\r".to_vec()).is_none());
}

#[test]
fn client_key_decodes_to_a_16_byte_nonce() {
    let client = ClientHandshake::new(b"h:1".to_vec());
    let nonce = base64::Engine::decode(&base64::prelude::BASE64_STANDARD, client.key())
        .expect("the key is base64");
    assert_eq!(nonce.len(), 16);
}

#[test]
fn text_validates_utf8() {
    assert!(Text::try_from_bytes(b"gr\xc3\xbcn".to_vec()).is_ok());
    assert!(Text::try_from_bytes(vec![0xFF, 0xFE]).is_err());
    let text = Text::try_from_bytes("müsli".as_bytes().to_vec()).unwrap();
    assert_eq!(text.as_str(), "müsli");
    assert_eq!(text.len(), 6);
}
