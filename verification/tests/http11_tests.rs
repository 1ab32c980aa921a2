use yxorp::http11::crlf;
use yxorp::http11::digit;
use yxorp::http11::http_version;
use yxorp::http11::is_token_char;
use yxorp::http11::is_vchar;
use yxorp::http11::is_vchar_or_ws;
use yxorp::http11::is_ws;
use yxorp::http11::message_header;
use yxorp::http11::repeated_ws;
use yxorp::http11::request_head;
use yxorp::http11::request_line;
use yxorp::http11::sp;
use yxorp::http11::token;
use yxorp::http11::vchar_1;
use yxorp::types::Expected;
use yxorp::types::Outcome;
use yxorp::types::Span;

fn span_bytes<'a>(input: &'a [u8], s: Span) -> &'a [u8] {
    &input[s.start..s.start + s.len]
}

#[test]
fn request_line_test() {
    let input = b"GET /index.html HTTP/1.1\r\n";
    let result = request_line(input, 0);
    match result {
        Outcome::Complete(rl, end) => {
            assert_eq!(span_bytes(input, rl.method), b"GET");
            assert_eq!(span_bytes(input, rl.uri), b"/index.html");
            assert_eq!(span_bytes(input, rl.version.major), b"1");
            assert_eq!(span_bytes(input, rl.version.minor), b"1");
            // the whole line is consumed: zero bytes remain
            assert_eq!(end, input.len());
        }
        other => panic!("expected a complete request line, got {:?}", other),
    }
}

#[test]
fn header_test() {
    let input = b"Accept: */*\r\n";
    let result = message_header(input, 0);
    match result {
        Outcome::Complete(h, end) => {
            assert_eq!(span_bytes(input, h.name), b"Accept");
            assert_eq!(span_bytes(input, h.value), b"*/*");
            assert_eq!(end, input.len());
        }
        other => panic!("expected a complete header, got {:?}", other),
    }
}

#[test]
fn request_head_test() {
    let input = b"GET /index.html HTTP/1.1\r\nHost: localhost:8888\r\nUser-Agent: curl/7.43.0\r\nAccept: */*\r\n\r\n";
    let result = request_head(input, 0);
    match result {
        Outcome::Complete(head, end) => {
            assert_eq!(span_bytes(input, head.request_line.method), b"GET");
            assert_eq!(span_bytes(input, head.request_line.uri), b"/index.html");
            assert_eq!(span_bytes(input, head.request_line.version.major), b"1");
            assert_eq!(span_bytes(input, head.request_line.version.minor), b"1");
            assert_eq!(head.headers.len(), 3);
            assert_eq!(span_bytes(input, head.headers[0].name), b"Host");
            assert_eq!(span_bytes(input, head.headers[0].value), b"localhost:8888");
            assert_eq!(span_bytes(input, head.headers[1].name), b"User-Agent");
            assert_eq!(span_bytes(input, head.headers[1].value), b"curl/7.43.0");
            assert_eq!(span_bytes(input, head.headers[2].name), b"Accept");
            assert_eq!(span_bytes(input, head.headers[2].value), b"*/*");
            assert_eq!(end, input.len());
        }
        other => panic!("expected a complete request head, got {:?}", other),
    }
}

#[test]
fn request_line_leaves_trailing_bytes() {
    // arbitrary trailing bytes are left unconsumed
    let input = b"POST /submit HTTP/1.0\r\n\x00\xffbody bytes";
    let result = request_line(input, 0);
    match result {
        Outcome::Complete(rl, end) => {
            assert_eq!(span_bytes(input, rl.method), b"POST");
            assert_eq!(span_bytes(input, rl.uri), b"/submit");
            assert_eq!(span_bytes(input, rl.version.major), b"1");
            assert_eq!(span_bytes(input, rl.version.minor), b"0");
            assert_eq!(end, b"POST /submit HTTP/1.0\r\n".len());
            assert_eq!(&input[end..], b"\x00\xffbody bytes");
        }
        other => panic!("expected a complete request line, got {:?}", other),
    }
}

#[test]
fn every_prefix_of_complete_head_needs_more() {
    let input = b"GET /index.html HTTP/1.1\r\nHost: localhost:8888\r\n\r\n";
    assert!(matches!(request_head(input, 0), Outcome::Complete(_, _)));
    for cut in 0..input.len() {
        let prefix = &input[..cut];
        match request_head(prefix, 0) {
            Outcome::NeedsMoreInput => {}
            other => panic!("prefix of length {} gave {:?}", cut, other),
        }
    }
}

#[test]
fn missing_space_after_method_is_malformed() {
    // token run ends at the '(' which is neither token char nor space
    let input = b"GET(index HTTP/1.1\r\n";
    match request_line(input, 0) {
        Outcome::Malformed(pos, exp) => {
            assert_eq!(pos, 3);
            assert_eq!(exp, Expected::Space);
        }
        other => panic!("expected malformed, got {:?}", other),
    }
}

#[test]
fn parsing_twice_is_identical() {
    let input = b"GET /index.html HTTP/1.1\r\nAccept: */*\r\n\r\n";
    let first = request_head(input, 0);
    let second = request_head(input, 0);
    assert_eq!(first, second);
}

#[test]
fn pipelined_requests_parse_in_order() {
    let input = b"GET /a HTTP/1.1\r\nHost: x\r\n\r\nPUT /b HTTP/1.0\r\n\r\nDELETE /c HTTP/1.1\r\nAccept: */*\r\n\r\n";
    let mut pos: usize = 0;
    let mut methods: Vec<Vec<u8>> = Vec::new();
    let mut uris: Vec<Vec<u8>> = Vec::new();
    for _ in 0..3 {
        match request_head(input, pos) {
            Outcome::Complete(head, end) => {
                methods.push(span_bytes(input, head.request_line.method).to_vec());
                uris.push(span_bytes(input, head.request_line.uri).to_vec());
                pos = end;
            }
            other => panic!("expected a complete head at {}, got {:?}", pos, other),
        }
    }
    assert_eq!(pos, input.len(), "zero leftover bytes after the last request");
    assert_eq!(methods, vec![b"GET".to_vec(), b"PUT".to_vec(), b"DELETE".to_vec()]);
    assert_eq!(uris, vec![b"/a".to_vec(), b"/b".to_vec(), b"/c".to_vec()]);
}

#[test]
fn empty_input_needs_more() {
    assert!(matches!(request_head(b"", 0), Outcome::NeedsMoreInput));
    assert!(matches!(request_line(b"", 0), Outcome::NeedsMoreInput));
    assert!(matches!(message_header(b"", 0), Outcome::NeedsMoreInput));
    assert!(matches!(token(b"", 0), Outcome::NeedsMoreInput));
    assert!(matches!(crlf(b"", 0), Outcome::NeedsMoreInput));
}

#[test]
fn token_stops_at_boundary() {
    let input = b"Content-Type: text/html\r\n";
    match token(input, 0) {
        Outcome::Complete(s, end) => {
            assert_eq!(span_bytes(input, s), b"Content-Type");
            assert_eq!(end, 12);
        }
        other => panic!("expected a token, got {:?}", other),
    }
}

#[test]
fn token_at_end_of_input_is_incomplete() {
    // the run reaches the end of the bytes: the boundary is unknown
    assert!(matches!(token(b"GET", 0), Outcome::NeedsMoreInput));
}

#[test]
fn token_on_non_token_byte_is_malformed() {
    match token(b" GET", 0) {
        Outcome::Malformed(pos, exp) => {
            assert_eq!(pos, 0);
            assert_eq!(exp, Expected::Token);
        }
        other => panic!("expected malformed, got {:?}", other),
    }
}

#[test]
fn sp_and_crlf_literals() {
    assert!(matches!(sp(b" x", 0), Outcome::Complete(_, 1)));
    assert!(matches!(sp(b"x", 0), Outcome::Malformed(0, Expected::Space)));
    assert!(matches!(crlf(b"\r\nrest", 0), Outcome::Complete(_, 2)));
    assert!(matches!(crlf(b"\r", 0), Outcome::NeedsMoreInput));
    assert!(matches!(crlf(b"\rx", 0), Outcome::Malformed(1, Expected::Crlf)));
    assert!(matches!(crlf(b"x", 0), Outcome::Malformed(0, Expected::Crlf)));
}

#[test]
fn repeated_ws_may_be_empty() {
    let input = b"  \tx";
    match repeated_ws(input, 0) {
        Outcome::Complete(s, end) => {
            assert_eq!(span_bytes(input, s), b"  \t");
            assert_eq!(end, 3);
        }
        other => panic!("expected a whitespace run, got {:?}", other),
    }
    assert!(matches!(repeated_ws(b"x", 0), Outcome::Complete(Span { start: 0, len: 0 }, 0)));
    assert!(matches!(repeated_ws(b"  ", 0), Outcome::NeedsMoreInput));
}

#[test]
fn vchar_run_stops_at_space_and_control() {
    let input = b"/index.html rest";
    match vchar_1(input, 0) {
        Outcome::Complete(s, end) => {
            assert_eq!(span_bytes(input, s), b"/index.html");
            assert_eq!(end, 11);
        }
        other => panic!("expected a visible run, got {:?}", other),
    }
    assert!(matches!(vchar_1(b" x", 0), Outcome::Malformed(0, Expected::Visible)));
}

#[test]
fn digit_run() {
    let input = b"42.";
    match digit(input, 0) {
        Outcome::Complete(s, end) => {
            assert_eq!(span_bytes(input, s), b"42");
            assert_eq!(end, 2);
        }
        other => panic!("expected a digit run, got {:?}", other),
    }
    assert!(matches!(digit(b"x", 0), Outcome::Malformed(0, Expected::Digit)));
}

#[test]
fn http_version_parses_major_then_minor() {
    let input = b"HTTP/1.0\r\n";
    match http_version(input, 0) {
        Outcome::Complete(v, end) => {
            assert_eq!(span_bytes(input, v.major), b"1");
            assert_eq!(span_bytes(input, v.minor), b"0");
            assert_eq!(end, 8);
        }
        other => panic!("expected a version, got {:?}", other),
    }
}

#[test]
fn http_version_errors() {
    assert!(matches!(http_version(b"HTTX/1.1\r\n", 0), Outcome::Malformed(3, Expected::HttpKeyword)));
    assert!(matches!(http_version(b"HTTP/x.1\r\n", 0), Outcome::Malformed(5, Expected::Digit)));
    assert!(matches!(http_version(b"HTTP/1x1\r\n", 0), Outcome::Malformed(6, Expected::Dot)));
    assert!(matches!(http_version(b"HTTP/1.", 0), Outcome::NeedsMoreInput));
}

#[test]
fn header_errors() {
    assert!(matches!(message_header(b"Accept */*\r\n", 0), Outcome::Malformed(6, Expected::Colon)));
    assert!(matches!(message_header(b"Accept:*/*\r\n", 0), Outcome::Malformed(7, Expected::Space)));
    // an empty value line is rejected: the value requires a visible run
    assert!(matches!(message_header(b"Accept: \r\n", 0), Outcome::Malformed(8, Expected::Visible)));
    assert!(matches!(message_header(b"Accept: */*\rx", 0), Outcome::Malformed(12, Expected::Crlf)));
}

#[test]
fn head_with_no_headers() {
    let input = b"GET / HTTP/1.1\r\n\r\nnext";
    match request_head(input, 0) {
        Outcome::Complete(head, end) => {
            assert_eq!(head.headers.len(), 0);
            assert_eq!(end, 18);
            assert_eq!(&input[end..], b"next");
        }
        other => panic!("expected a complete head, got {:?}", other),
    }
}

#[test]
fn head_on_garbage_after_request_line() {
    // at the header position the byte is neither a token char nor a
    // carriage return: either a header or the end of the head was expected
    let input = b"GET / HTTP/1.1\r\n\x01\r\n";
    assert!(matches!(request_head(input, 0), Outcome::Malformed(16, Expected::HeaderOrEnd)));
}

#[test]
fn head_reports_furthest_failure() {
    // the header attempt gets further than the blank-line attempt
    let input = b"GET / HTTP/1.1\r\nHost x\r\n\r\n";
    assert!(matches!(request_head(input, 0), Outcome::Malformed(20, Expected::Colon)));
}

#[test]
fn classifiers() {
    assert!(is_token_char(b'G'));
    assert!(is_token_char(b'7'));
    assert!(is_token_char(b'!'));
    assert!(is_token_char(b'~'));
    assert!(!is_token_char(b' '));
    assert!(!is_token_char(b'/'));
    assert!(!is_token_char(b':'));
    // linear whitespace is space OR tab
    assert!(is_ws(b' '));
    assert!(is_ws(b'\t'));
    assert!(!is_ws(b'\r'));
    assert!(is_vchar(b'!'));
    assert!(is_vchar(b'~'));
    assert!(!is_vchar(b' '));
    assert!(!is_vchar(127));
    assert!(is_vchar_or_ws(b' '));
    assert!(is_vchar_or_ws(b'a'));
    assert!(!is_vchar_or_ws(b'\n'));
}

#[test]
fn incremental_feeding_reaches_complete() {
    // the streaming usage contract: grow the buffer, re-parse from the
    // start, and the outcome flips from needs-more to complete exactly
    // when the terminating blank line has arrived
    let full = b"GET /x HTTP/1.1\r\nHost: h\r\n\r\n";
    let mut buffer: Vec<u8> = Vec::new();
    for (i, b) in full.iter().enumerate() {
        buffer.push(*b);
        match request_head(&buffer, 0) {
            Outcome::Complete(_, end) => {
                assert_eq!(i, full.len() - 1);
                assert_eq!(end, full.len());
            }
            Outcome::NeedsMoreInput => assert!(i < full.len() - 1),
            Outcome::Malformed(pos, exp) => {
                panic!("malformed at {} expecting {:?} after {} bytes", pos, exp, i + 1)
            }
        }
    }
}

#[test]
fn version_spans_are_views_into_buffer() {
    let input = b"OPTIONS * HTTP/12.034\r\n";
    match request_line(input, 0) {
        Outcome::Complete(rl, end) => {
            assert_eq!(span_bytes(input, rl.method), b"OPTIONS");
            assert_eq!(span_bytes(input, rl.uri), b"*");
            assert_eq!(span_bytes(input, rl.version.major), b"12");
            assert_eq!(span_bytes(input, rl.version.minor), b"034");
            assert_eq!(end, input.len());
        }
        other => panic!("expected a complete request line, got {:?}", other),
    }
}
