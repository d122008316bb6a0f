use ws_echo::handshake::{find_sec_key, generate_server_accept_key, lookup_sec_key, upgrade_response};
use ws_echo::request::{HeaderProgress, HeaderReader, Status, StatusMachine, LIMIT};

const REQUEST: &str = "GET /chat HTTP/1.1\r\nHost: server.example.com\r\nUpgrade: websocket\r\nConnection: Upgrade\r\nSec-WebSocket-Key: dGhlIHNhbXBsZSBub25jZQ==\r\nSec-WebSocket-Version: 13\r\n\r\n";

#[test]
fn status_machine_follows_line_endings() {
    let mut s = Status::new();
    assert_eq!(s.status, StatusMachine::Others);
    s.advance(b'\r');
    assert_eq!(s.status, StatusMachine::CR);
    s.advance(b'\n');
    assert_eq!(s.status, StatusMachine::CRLF);
    s.advance(b'\r');
    assert_eq!(s.status, StatusMachine::CRLFCR);
    s.advance(b'\n');
    assert_eq!(s.status, StatusMachine::CRLFCRLF);
    s.advance(b'\r');
    assert_eq!(s.status, StatusMachine::CR);
    s.advance(b'\r');
    assert_eq!(s.status, StatusMachine::CR);
    s.advance(b'x');
    assert_eq!(s.status, StatusMachine::Others);
    s.advance(b'\n');
    assert_eq!(s.status, StatusMachine::Others);
}

#[test]
fn reader_completes_on_the_byte_that_ends_the_blank_line() {
    let mut r = HeaderReader::new();
    assert_eq!(r.feed(REQUEST.as_bytes()), HeaderProgress::Complete);
    assert_eq!(r.raw_headers().as_slice(), REQUEST.as_bytes());
    assert_eq!(r.feed(b"next"), HeaderProgress::Complete);
    assert_eq!(r.raw_headers().as_slice(), REQUEST.as_bytes());
}

#[test]
fn reader_stops_at_the_first_blank_line() {
    let mut r = HeaderReader::new();
    assert_eq!(r.feed(b"A: b\r\n"), HeaderProgress::NeedMore);
    assert_eq!(r.feed(b"\r\nbody\r\n\r\n"), HeaderProgress::Complete);
    assert_eq!(r.raw_headers().as_slice(), b"A: b\r\n\r\n");
}

#[test]
fn header_split_across_reads_is_read_whole() {
    let mut r = HeaderReader::new();
    assert_eq!(r.feed(b"GET / HTTP/1.1\r\nSec-WebSocket-"), HeaderProgress::NeedMore);
    assert_eq!(r.feed(b"Key: abc\r\n\r\n"), HeaderProgress::Complete);
    let request = String::from_utf8(r.raw_headers().clone()).unwrap();
    assert_eq!(lookup_sec_key(&request), Some(Ok("abc".to_string())));
}

#[test]
fn reader_refuses_a_header_over_the_limit() {
    let mut r = HeaderReader::new();
    let chunk = vec![b'a'; LIMIT];
    assert_eq!(r.feed(&chunk), HeaderProgress::NeedMore);
    assert_eq!(r.raw_headers().len(), LIMIT);
    assert_eq!(r.feed(b"b"), HeaderProgress::TooLarge);
    assert_eq!(r.raw_headers().len(), LIMIT);

    let mut r = HeaderReader::new();
    assert_eq!(r.feed(&vec![b'a'; LIMIT + 10]), HeaderProgress::TooLarge);
    assert_eq!(r.raw_headers().len(), LIMIT);
}

#[test]
fn header_of_exactly_the_limit_is_complete() {
    let mut header = vec![b'a'; LIMIT - 4];
    header.extend_from_slice(b"\r\n\r\n");
    let mut r = HeaderReader::new();
    let chunks: Vec<&[u8]> = header.chunks(1024).collect();
    assert_eq!(chunks.len(), 5);
    for chunk in &chunks[..4] {
        assert_eq!(r.feed(chunk), HeaderProgress::NeedMore);
    }
    assert_eq!(r.feed(chunks[4]), HeaderProgress::Complete);
    assert_eq!(r.raw_headers().len(), LIMIT);
}

#[test]
fn header_one_byte_over_the_limit_is_too_large() {
    let mut header = vec![b'a'; LIMIT - 3];
    header.extend_from_slice(b"\r\n\r\n");
    let mut r = HeaderReader::new();
    assert_eq!(r.feed(&header), HeaderProgress::TooLarge);
    assert_eq!(r.raw_headers().len(), LIMIT);
}

#[test]
fn reader_takes_an_empty_chunk() {
    let mut r = HeaderReader::new();
    assert_eq!(r.feed(b""), HeaderProgress::NeedMore);
    assert_eq!(r.raw_headers().len(), 0);
}

#[test]
fn finds_the_key_of_a_request() {
    assert_eq!(find_sec_key(REQUEST), Ok("dGhlIHNhbXBsZSBub25jZQ==".to_string()));
    assert_eq!(lookup_sec_key(REQUEST), Some(Ok("dGhlIHNhbXBsZSBub25jZQ==".to_string())));
}

#[test]
fn key_name_is_matched_without_regard_to_case() {
    assert_eq!(find_sec_key("SEC-WEBSOCKET-KEY:abc\r\n"), Ok("abc".to_string()));
    // The Kelvin sign lowercases to `k`.
    assert_eq!(find_sec_key("sec-websocket-\u{212A}ey: x"), Ok("x".to_string()));
}

#[test]
fn key_value_is_trimmed_of_white_space() {
    assert_eq!(find_sec_key("Sec-WebSocket-Key:  \t abc \t \r\n\r\n"), Ok("abc".to_string()));
    assert_eq!(find_sec_key("Sec-WebSocket-Key:\u{00A0}abc\u{3000}"), Ok("abc".to_string()));
    assert_eq!(find_sec_key("Sec-WebSocket-Key:   "), Ok("".to_string()));
}

#[test]
fn key_value_ends_at_a_second_colon() {
    assert_eq!(find_sec_key("Sec-WebSocket-Key: a:b"), Ok("a".to_string()));
}

#[test]
fn first_key_line_wins() {
    assert_eq!(
        find_sec_key("Host: h\r\nsec-websocket-key: one\r\nSec-WebSocket-Key: two\r\n\r\n"),
        Ok("one".to_string())
    );
}

#[test]
fn key_name_must_be_the_whole_name() {
    assert_eq!(find_sec_key("Sec-WebSocket-Key2: x\r\n X-Sec-WebSocket-Key: y\r\n\r\n"), Err(()));
    assert_eq!(find_sec_key(" Sec-WebSocket-Key: x\r\n\r\n"), Err(()));
    assert_eq!(find_sec_key(""), Err(()));
}

#[test]
fn missing_key_is_an_error() {
    let request = "GET / HTTP/1.1\r\nHost: example.com\r\n\r\n";
    assert_eq!(find_sec_key(request), Err(()));
    assert_eq!(lookup_sec_key(request), Some(Err(())));
}

#[test]
fn key_line_without_a_colon_has_no_value() {
    assert_eq!(lookup_sec_key("GET / HTTP/1.1\r\nSec-WebSocket-Key\r\n\r\n"), None);
}

#[test]
fn accept_key_of_the_rfc_example() {
    assert_eq!(
        generate_server_accept_key("dGhlIHNhbXBsZSBub25jZQ=="),
        "s3pPLMBiTxaQ9kYGzzhZRbK+xOo="
    );
}

#[test]
fn upgrade_response_text() {
    assert_eq!(
        upgrade_response("s3pPLMBiTxaQ9kYGzzhZRbK+xOo="),
        "HTTP/1.1 101 Switching Protocols\r\nConnection: Upgrade\r\nUpgrade: websocket\r\nSec-WebSocket-Accept: s3pPLMBiTxaQ9kYGzzhZRbK+xOo=\r\n\r\n"
    );
}
