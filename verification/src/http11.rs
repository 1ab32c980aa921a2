//! The executable decoder: byte classifiers, primitive parsers, and the
//! grammar parsers for the HTTP/1.1 request head.
//!
//! Every parser takes the buffer of bytes received so far and a cursor
//! position, and is proved to return exactly the outcome that the
//! mathematical grammar in `grammar` assigns to that buffer and position.

use vstd::prelude::*;

use crate::grammar::ByteClass;
use crate::grammar::byte_at;
use crate::grammar::byte_in_class;
use crate::grammar::class_expected;
use crate::grammar::crlf_at;
use crate::grammar::digit_char;
use crate::grammar::header_at;
use crate::grammar::headers_at;
use crate::grammar::http_keyword_at;
use crate::grammar::http_version_at;
use crate::grammar::lemma_header_at_advance;
use crate::grammar::opt_run_at;
use crate::grammar::request_head_at;
use crate::grammar::request_line_at;
use crate::grammar::run_at;
use crate::grammar::run_len;
use crate::grammar::token_char;
use crate::grammar::vchar;
use crate::grammar::vchar_or_ws;
use crate::grammar::ws_char;
use crate::types::Expected;
use crate::types::HeaderModel;
use crate::types::HttpVersion;
use crate::types::Outcome;
use crate::types::ParseModel;
use crate::types::RequestHead;
use crate::types::RequestHeader;
use crate::types::RequestLine;
use crate::types::Span;
use crate::types::models;

verus! {

/// True for a byte allowed in an HTTP token (method and header names).
pub fn is_token_char(b: u8) -> (r: bool)
    ensures
        r == token_char(b),
{
    (b >= 48 && b <= 57) || (b >= 65 && b <= 90) || (b >= 97 && b <= 122) || b == 33 || b == 35
        || b == 36 || b == 37 || b == 38 || b == 39 || b == 42 || b == 43 || b == 45 || b == 46
        || b == 94 || b == 95 || b == 96 || b == 124 || b == 126
}

/// True for linear whitespace: a space or a horizontal tab.
pub fn is_ws(b: u8) -> (r: bool)
    ensures
        r == ws_char(b),
{
    b == 32 || b == 9
}

/// True for a visible character: printable ASCII, values 33 through 126.
pub fn is_vchar(b: u8) -> (r: bool)
    ensures
        r == vchar(b),
{
    b > 32 && b <= 126
}

/// True for a visible character or linear whitespace.
pub fn is_vchar_or_ws(b: u8) -> (r: bool)
    ensures
        r == vchar_or_ws(b),
{
    is_vchar(b) || is_ws(b)
}

/// True for an ASCII decimal digit.
pub fn is_digit_char(b: u8) -> (r: bool)
    ensures
        r == digit_char(b),
{
    b >= 48 && b <= 57
}

/// Membership of a byte in a class.
fn in_class(c: ByteClass, b: u8) -> (r: bool)
    ensures
        r == byte_in_class(c, b),
{
    match c {
        ByteClass::Token => is_token_char(b),
        ByteClass::LinearWs => is_ws(b),
        ByteClass::Visible => is_vchar(b),
        ByteClass::VisibleOrWs => is_vchar_or_ws(b),
        ByteClass::Digit => is_digit_char(b),
    }
}

/// First position at or after `pos` whose byte falls outside class `c`.
fn run_end(input: &[u8], pos: usize, c: ByteClass) -> (end: usize)
    requires
        pos <= input@.len(),
    ensures
        pos <= end <= input@.len(),
        end - pos == run_len(input@, pos as int, c),
{
    let mut i: usize = pos;
    while i < input.len() && in_class(c, input[i])
        invariant
            pos <= i <= input@.len(),
            run_len(input@, pos as int, c) == (i - pos) + run_len(input@, i as int, c),
        decreases input@.len() - i,
    {
        assert(run_len(input@, i as int, c) == 1 + run_len(input@, i + 1, c));
        i = i + 1;
    }
    assert(run_len(input@, i as int, c) == 0);
    i
}

/// A required, non-empty run of class `c` bytes.
fn class_run(input: &[u8], pos: usize, c: ByteClass) -> (r: Outcome<Span>)
    requires
        pos <= input@.len(),
    ensures
        models(r, run_at(input@, pos as int, c)),
        r matches Outcome::Complete(v, e) ==> pos < e <= input@.len(),
{
    let end = run_end(input, pos, c);
    if end == input.len() {
        Outcome::NeedsMoreInput
    } else if end == pos {
        Outcome::Malformed(pos, expected_of(c))
    } else {
        Outcome::Complete(Span { start: pos, len: end - pos }, end)
    }
}

/// The construct a failed run of class `c` was expecting.
fn expected_of(c: ByteClass) -> (r: Expected)
    ensures
        r == class_expected(c),
{
    match c {
        ByteClass::Token => Expected::Token,
        ByteClass::LinearWs => Expected::Space,
        ByteClass::Visible => Expected::Visible,
        ByteClass::VisibleOrWs => Expected::VisibleOrWs,
        ByteClass::Digit => Expected::Digit,
    }
}

/// A single literal byte.
fn expect_byte(input: &[u8], pos: usize, b: u8, exp: Expected) -> (r: Outcome<Span>)
    requires
        pos <= input@.len(),
    ensures
        models(r, byte_at(input@, pos as int, b, exp)),
        r matches Outcome::Complete(v, e) ==> pos < e <= input@.len(),
{
    if pos >= input.len() {
        Outcome::NeedsMoreInput
    } else if input[pos] == b {
        Outcome::Complete(Span { start: pos, len: 1 }, pos + 1)
    } else {
        Outcome::Malformed(pos, exp)
    }
}

/// The longest non-empty run of token characters.
pub fn token(input: &[u8], pos: usize) -> (r: Outcome<Span>)
    requires
        pos <= input@.len(),
    ensures
        models(r, run_at(input@, pos as int, ByteClass::Token)),
        r matches Outcome::Complete(v, e) ==> pos < e <= input@.len(),
{
    class_run(input, pos, ByteClass::Token)
}

/// The possibly empty run of linear whitespace. It never reports a
/// malformed outcome, but a run reaching the end of the input is still
/// incomplete, so that a whitespace run is never truncated at a read
/// boundary.
pub fn repeated_ws(input: &[u8], pos: usize) -> (r: Outcome<Span>)
    requires
        pos <= input@.len(),
    ensures
        models(r, opt_run_at(input@, pos as int, ByteClass::LinearWs)),
        r matches Outcome::Complete(v, e) ==> pos <= e <= input@.len(),
        !(r matches Outcome::Malformed(p, ex)),
{
    let end = run_end(input, pos, ByteClass::LinearWs);
    if end == input.len() {
        Outcome::NeedsMoreInput
    } else {
        Outcome::Complete(Span { start: pos, len: end - pos }, end)
    }
}

/// The longest non-empty run of visible characters.
pub fn vchar_1(input: &[u8], pos: usize) -> (r: Outcome<Span>)
    requires
        pos <= input@.len(),
    ensures
        models(r, run_at(input@, pos as int, ByteClass::Visible)),
        r matches Outcome::Complete(v, e) ==> pos < e <= input@.len(),
{
    class_run(input, pos, ByteClass::Visible)
}

/// The longest non-empty run of visible-or-whitespace characters.
pub fn vchar_ws_1(input: &[u8], pos: usize) -> (r: Outcome<Span>)
    requires
        pos <= input@.len(),
    ensures
        models(r, run_at(input@, pos as int, ByteClass::VisibleOrWs)),
        r matches Outcome::Complete(v, e) ==> pos < e <= input@.len(),
{
    class_run(input, pos, ByteClass::VisibleOrWs)
}

/// The longest non-empty run of ASCII digits.
pub fn digit(input: &[u8], pos: usize) -> (r: Outcome<Span>)
    requires
        pos <= input@.len(),
    ensures
        models(r, run_at(input@, pos as int, ByteClass::Digit)),
        r matches Outcome::Complete(v, e) ==> pos < e <= input@.len(),
{
    class_run(input, pos, ByteClass::Digit)
}

/// The literal single space.
pub fn sp(input: &[u8], pos: usize) -> (r: Outcome<Span>)
    requires
        pos <= input@.len(),
    ensures
        models(r, byte_at(input@, pos as int, 32, Expected::Space)),
        r matches Outcome::Complete(v, e) ==> pos < e <= input@.len(),
{
    expect_byte(input, pos, 32, Expected::Space)
}

/// The literal two-byte line terminator, carriage return then line feed.
pub fn crlf(input: &[u8], pos: usize) -> (r: Outcome<Span>)
    requires
        pos <= input@.len(),
    ensures
        models(r, crlf_at(input@, pos as int)),
        r matches Outcome::Complete(v, e) ==> pos < e <= input@.len(),
{
    let p1 = match expect_byte(input, pos, 13, Expected::Crlf) {
        Outcome::Complete(v, e) => e,
        Outcome::NeedsMoreInput => {
            return Outcome::NeedsMoreInput;
        },
        Outcome::Malformed(q, ex) => {
            return Outcome::Malformed(q, ex);
        },
    };
    match expect_byte(input, p1, 10, Expected::Crlf) {
        Outcome::Complete(v, e) => Outcome::Complete(Span { start: pos, len: 2 }, e),
        Outcome::NeedsMoreInput => Outcome::NeedsMoreInput,
        Outcome::Malformed(q, ex) => Outcome::Malformed(q, ex),
    }
}

/// The five-byte literal `HTTP/`.
fn http_keyword(input: &[u8], pos: usize) -> (r: Outcome<Span>)
    requires
        pos <= input@.len(),
    ensures
        models(r, http_keyword_at(input@, pos as int)),
        r matches Outcome::Complete(v, e) ==> pos < e <= input@.len(),
{
    let p1 = match expect_byte(input, pos, 72, Expected::HttpKeyword) {
        Outcome::Complete(v, e) => e,
        Outcome::NeedsMoreInput => {
            return Outcome::NeedsMoreInput;
        },
        Outcome::Malformed(q, ex) => {
            return Outcome::Malformed(q, ex);
        },
    };
    let p2 = match expect_byte(input, p1, 84, Expected::HttpKeyword) {
        Outcome::Complete(v, e) => e,
        Outcome::NeedsMoreInput => {
            return Outcome::NeedsMoreInput;
        },
        Outcome::Malformed(q, ex) => {
            return Outcome::Malformed(q, ex);
        },
    };
    let p3 = match expect_byte(input, p2, 84, Expected::HttpKeyword) {
        Outcome::Complete(v, e) => e,
        Outcome::NeedsMoreInput => {
            return Outcome::NeedsMoreInput;
        },
        Outcome::Malformed(q, ex) => {
            return Outcome::Malformed(q, ex);
        },
    };
    let p4 = match expect_byte(input, p3, 80, Expected::HttpKeyword) {
        Outcome::Complete(v, e) => e,
        Outcome::NeedsMoreInput => {
            return Outcome::NeedsMoreInput;
        },
        Outcome::Malformed(q, ex) => {
            return Outcome::Malformed(q, ex);
        },
    };
    match expect_byte(input, p4, 47, Expected::HttpKeyword) {
        Outcome::Complete(v, e) => Outcome::Complete(Span { start: pos, len: 5 }, e),
        Outcome::NeedsMoreInput => Outcome::NeedsMoreInput,
        Outcome::Malformed(q, ex) => Outcome::Malformed(q, ex),
    }
}

/// The protocol version `HTTP/<major>.<minor>`, returned in canonical
/// major-then-minor order.
pub fn http_version(input: &[u8], pos: usize) -> (r: Outcome<HttpVersion>)
    requires
        pos <= input@.len(),
    ensures
        models(r, http_version_at(input@, pos as int)),
        r matches Outcome::Complete(v, e) ==> pos < e <= input@.len(),
{
    let p1 = match http_keyword(input, pos) {
        Outcome::Complete(v, e) => e,
        Outcome::NeedsMoreInput => {
            return Outcome::NeedsMoreInput;
        },
        Outcome::Malformed(q, ex) => {
            return Outcome::Malformed(q, ex);
        },
    };
    let (major, p2) = match digit(input, p1) {
        Outcome::Complete(v, e) => (v, e),
        Outcome::NeedsMoreInput => {
            return Outcome::NeedsMoreInput;
        },
        Outcome::Malformed(q, ex) => {
            return Outcome::Malformed(q, ex);
        },
    };
    let p3 = match expect_byte(input, p2, 46, Expected::Dot) {
        Outcome::Complete(v, e) => e,
        Outcome::NeedsMoreInput => {
            return Outcome::NeedsMoreInput;
        },
        Outcome::Malformed(q, ex) => {
            return Outcome::Malformed(q, ex);
        },
    };
    match digit(input, p3) {
        Outcome::Complete(minor, e) => Outcome::Complete(HttpVersion { major, minor }, e),
        Outcome::NeedsMoreInput => Outcome::NeedsMoreInput,
        Outcome::Malformed(q, ex) => Outcome::Malformed(q, ex),
    }
}

/// The request line: method, space, request target, space, protocol
/// version, line terminator.
pub fn request_line(input: &[u8], pos: usize) -> (r: Outcome<RequestLine>)
    requires
        pos <= input@.len(),
    ensures
        models(r, request_line_at(input@, pos as int)),
        r matches Outcome::Complete(v, e) ==> pos < e <= input@.len(),
{
    let (method, p1) = match token(input, pos) {
        Outcome::Complete(v, e) => (v, e),
        Outcome::NeedsMoreInput => {
            return Outcome::NeedsMoreInput;
        },
        Outcome::Malformed(q, ex) => {
            return Outcome::Malformed(q, ex);
        },
    };
    let p2 = match sp(input, p1) {
        Outcome::Complete(v, e) => e,
        Outcome::NeedsMoreInput => {
            return Outcome::NeedsMoreInput;
        },
        Outcome::Malformed(q, ex) => {
            return Outcome::Malformed(q, ex);
        },
    };
    let (uri, p3) = match vchar_1(input, p2) {
        Outcome::Complete(v, e) => (v, e),
        Outcome::NeedsMoreInput => {
            return Outcome::NeedsMoreInput;
        },
        Outcome::Malformed(q, ex) => {
            return Outcome::Malformed(q, ex);
        },
    };
    let p4 = match sp(input, p3) {
        Outcome::Complete(v, e) => e,
        Outcome::NeedsMoreInput => {
            return Outcome::NeedsMoreInput;
        },
        Outcome::Malformed(q, ex) => {
            return Outcome::Malformed(q, ex);
        },
    };
    let (version, p5) = match http_version(input, p4) {
        Outcome::Complete(v, e) => (v, e),
        Outcome::NeedsMoreInput => {
            return Outcome::NeedsMoreInput;
        },
        Outcome::Malformed(q, ex) => {
            return Outcome::Malformed(q, ex);
        },
    };
    match crlf(input, p5) {
        Outcome::Complete(v, e) => Outcome::Complete(RequestLine { method, uri, version }, e),
        Outcome::NeedsMoreInput => Outcome::NeedsMoreInput,
        Outcome::Malformed(q, ex) => Outcome::Malformed(q, ex),
    }
}

/// One header field: name, colon, a single space, value, line terminator.
pub fn message_header(input: &[u8], pos: usize) -> (r: Outcome<RequestHeader>)
    requires
        pos <= input@.len(),
    ensures
        models(r, header_at(input@, pos as int)),
        r matches Outcome::Complete(v, e) ==> pos < e <= input@.len(),
{
    let (name, p1) = match token(input, pos) {
        Outcome::Complete(v, e) => (v, e),
        Outcome::NeedsMoreInput => {
            return Outcome::NeedsMoreInput;
        },
        Outcome::Malformed(q, ex) => {
            return Outcome::Malformed(q, ex);
        },
    };
    let p2 = match expect_byte(input, p1, 58, Expected::Colon) {
        Outcome::Complete(v, e) => e,
        Outcome::NeedsMoreInput => {
            return Outcome::NeedsMoreInput;
        },
        Outcome::Malformed(q, ex) => {
            return Outcome::Malformed(q, ex);
        },
    };
    let p3 = match sp(input, p2) {
        Outcome::Complete(v, e) => e,
        Outcome::NeedsMoreInput => {
            return Outcome::NeedsMoreInput;
        },
        Outcome::Malformed(q, ex) => {
            return Outcome::Malformed(q, ex);
        },
    };
    let (value, p4) = match vchar_1(input, p3) {
        Outcome::Complete(v, e) => (v, e),
        Outcome::NeedsMoreInput => {
            return Outcome::NeedsMoreInput;
        },
        Outcome::Malformed(q, ex) => {
            return Outcome::Malformed(q, ex);
        },
    };
    match crlf(input, p4) {
        Outcome::Complete(v, e) => Outcome::Complete(RequestHeader { name, value }, e),
        Outcome::NeedsMoreInput => Outcome::NeedsMoreInput,
        Outcome::Malformed(q, ex) => Outcome::Malformed(q, ex),
    }
}

/// The whole request head: the request line, zero or more header fields in
/// received order, and the blank line that ends the head. On success the
/// returned position is the first byte of the body or of the next
/// pipelined request.
pub fn request_head(input: &[u8], pos: usize) -> (r: Outcome<RequestHead>)
    requires
        pos <= input@.len(),
    ensures
        models(r, request_head_at(input@, pos as int)),
        r matches Outcome::Complete(v, e) ==> pos < e <= input@.len(),
{
    let (line, start) = match request_line(input, pos) {
        Outcome::Complete(v, e) => (v, e),
        Outcome::NeedsMoreInput => {
            return Outcome::NeedsMoreInput;
        },
        Outcome::Malformed(q, ex) => {
            return Outcome::Malformed(q, ex);
        },
    };
    let mut p: usize = start;
    let mut headers: Vec<RequestHeader> = Vec::new();
    loop
        invariant
            pos <= input@.len(),
            start <= p <= input@.len(),
            request_line_at(input@, pos as int) == ParseModel::<
                crate::types::RequestLineModel,
            >::Matched(line@, start as int),
            match headers_at(input@, p as int) {
                ParseModel::Matched(hs, e) => headers_at(input@, start as int)
                    == ParseModel::<Seq<HeaderModel>>::Matched(
                    headers@.map_values(|h: RequestHeader| h@) + hs,
                    e,
                ),
                ParseModel::Incomplete => headers_at(input@, start as int) == ParseModel::<
                    Seq<HeaderModel>,
                >::Incomplete,
                ParseModel::Failed(q, ex) => headers_at(input@, start as int) == ParseModel::<
                    Seq<HeaderModel>,
                >::Failed(q, ex),
            },
        decreases input@.len() - p,
    {
        let ghost old_p = p as int;
        let ghost old_headers = headers@.map_values(|h: RequestHeader| h@);
        match message_header(input, p) {
            Outcome::Complete(h, e) => {
                proof {
                    lemma_header_at_advance(input@, p as int);
                }
                headers.push(h);
                proof {
                    assert(headers@.map_values(|hh: RequestHeader| hh@) =~= old_headers + seq![
                        h@,
                    ]);
                    match headers_at(input@, e as int) {
                        ParseModel::Matched(hs, e2) => {
                            assert(headers_at(input@, old_p) == ParseModel::<
                                Seq<HeaderModel>,
                            >::Matched(seq![h@] + hs, e2));
                            assert((old_headers + seq![h@]) + hs =~= old_headers + (seq![h@]
                                + hs));
                        },
                        _ => {},
                    }
                }
                p = e;
            },
            Outcome::NeedsMoreInput => {
                return Outcome::NeedsMoreInput;
            },
            Outcome::Malformed(ph, eh) => {
                match crlf(input, p) {
                    Outcome::Complete(v, e) => {
                        proof {
                            assert(headers_at(input@, p as int) == ParseModel::<
                                Seq<HeaderModel>,
                            >::Matched(Seq::<HeaderModel>::empty(), e as int));
                            assert(headers@.map_values(|h: RequestHeader| h@) + Seq::<
                                HeaderModel,
                            >::empty() =~= headers@.map_values(|h: RequestHeader| h@));
                        }
                        return Outcome::Complete(
                            RequestHead { request_line: line, headers },
                            e,
                        );
                    },
                    Outcome::NeedsMoreInput => {
                        return Outcome::NeedsMoreInput;
                    },
                    Outcome::Malformed(pc, ec) => {
                        if ph > pc {
                            return Outcome::Malformed(ph, eh);
                        } else if pc > ph {
                            return Outcome::Malformed(pc, ec);
                        } else {
                            return Outcome::Malformed(ph, Expected::HeaderOrEnd);
                        }
                    },
                }
            },
        }
    }
}

} // verus!
