use pac4cli::preamble::{sniff_incoming_connection, Preamble, PreambleError};

fn sniff(data: &[u8], closed: bool) -> Option<Result<pac4cli::preamble::IncomingResult, PreambleError>> {
    sniff_incoming_connection(&data.to_vec(), closed)
}

#[test]
fn reads_request_line_headers_and_buffered_body() {
    let r = sniff(b"GET http://example.com/a?b=1 HTTP/1.1\r\nHost: example.com\r\nAccept: */*\r\n\r\nBODY", false)
        .expect("delimiter is present")
        .expect("preamble is well formed");
    assert_eq!(r.preamble.method, "GET");
    assert_eq!(r.preamble.uri, "http://example.com/a?b=1");
    assert_eq!(r.preamble.http_version, "HTTP/1.1");
    assert_eq!(r.preamble.headers, vec!["Host: example.com".to_string(), "Accept: */*".to_string()]);
    assert_eq!(r.buffered, b"BODY".to_vec());
}

#[test]
fn buffered_bytes_are_exactly_those_after_the_first_delimiter() {
    let r = sniff(b"CONNECT h:1 HTTP/1.1\r\n\r\n\x00\r\n\r\nxyz", false).unwrap().unwrap();
    assert_eq!(r.buffered, b"\x00\r\n\r\nxyz".to_vec());
    assert_eq!(r.buffered.len(), 8);
    assert!(r.preamble.headers.is_empty());
}

#[test]
fn nothing_buffered_when_preamble_ends_the_data() {
    let r = sniff(b"GET / HTTP/1.0\r\n\r\n", true).unwrap().unwrap();
    assert!(r.buffered.is_empty());
}

#[test]
fn asks_for_more_while_open_without_delimiter() {
    assert!(sniff(b"GET / HTTP/1.1\r\nHost: x\r\n", false).is_none());
    assert!(sniff(b"", false).is_none());
}

#[test]
fn closed_stream_without_delimiter_is_unexpected_eof() {
    let r = sniff(b"GET / HTTP/1.1\r\n", true).unwrap();
    assert_eq!(r.unwrap_err(), PreambleError::UnexpectedEof);
    assert_eq!(sniff(b"", true).unwrap().unwrap_err(), PreambleError::UnexpectedEof);
}

#[test]
fn request_line_needs_exactly_three_fields() {
    assert_eq!(sniff(b"GET /\r\n\r\n", false).unwrap().unwrap_err(), PreambleError::Malformed);
    assert_eq!(sniff(b"GET / HTTP/1.1 x\r\n\r\n", false).unwrap().unwrap_err(), PreambleError::Malformed);
    assert_eq!(sniff(b"GET  / HTTP/1.1\r\n\r\n", false).unwrap().unwrap_err(), PreambleError::Malformed);
    assert_eq!(sniff(b"\r\n\r\n", false).unwrap().unwrap_err(), PreambleError::Malformed);
}

#[test]
fn non_utf8_preamble_is_rejected() {
    assert_eq!(sniff(b"GET /\xff HTTP/1.1\r\n\r\n", false).unwrap().unwrap_err(), PreambleError::InvalidUtf8);
    assert_eq!(sniff(b"GET / HTTP/1.1\r\nX: \xfe\r\n\r\n", false).unwrap().unwrap_err(), PreambleError::InvalidUtf8);
}

#[test]
fn utf8_fields_are_decoded() {
    let r = sniff("GET /caf\u{e9} HTTP/1.1\r\n\r\n".as_bytes(), false).unwrap().unwrap();
    assert_eq!(r.preamble.uri, "/caf\u{e9}");
}

#[test]
fn write_puts_each_line_and_a_final_blank_line() {
    let p = Preamble {
        method: "GET".to_string(),
        uri: "/a?b=1".to_string(),
        http_version: "HTTP/1.1".to_string(),
        headers: vec!["Host: example.com".to_string(), "X: y".to_string()],
    };
    assert_eq!(p.write(), b"GET /a?b=1 HTTP/1.1\r\nHost: example.com\r\nX: y\r\n\r\n".to_vec());
    let bare = Preamble {
        method: "CONNECT".to_string(),
        uri: "h:443".to_string(),
        http_version: "HTTP/1.1".to_string(),
        headers: vec![],
    };
    assert_eq!(bare.write(), b"CONNECT h:443 HTTP/1.1\r\n\r\n".to_vec());
}

#[test]
fn written_preamble_reads_back_unchanged() {
    let p = Preamble {
        method: "POST".to_string(),
        uri: "http://example.com/form".to_string(),
        http_version: "HTTP/1.1".to_string(),
        headers: vec!["Host: example.com".to_string(), "Content-Length: 4".to_string()],
    };
    let r = sniff(&p.write(), true).unwrap().unwrap();
    assert_eq!(r.preamble.method, p.method);
    assert_eq!(r.preamble.uri, p.uri);
    assert_eq!(r.preamble.http_version, p.http_version);
    assert_eq!(r.preamble.headers, p.headers);
    assert!(r.buffered.is_empty());
}

#[test]
fn non_ascii_preamble_reads_back_unchanged() {
    let p = Preamble {
        method: "GET".to_string(),
        uri: "http://h\u{e9}.example/\u{2603}".to_string(),
        http_version: "HTTP/1.1".to_string(),
        headers: vec!["X-Name: J\u{fc}rgen \u{1f600}".to_string()],
    };
    let r = sniff(&p.write(), false).unwrap().unwrap();
    assert_eq!(r.preamble.uri, p.uri);
    assert_eq!(r.preamble.headers, p.headers);
    assert!(r.buffered.is_empty());
}
