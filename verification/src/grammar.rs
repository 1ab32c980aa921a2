//! The HTTP/1.1 request-head grammar as a mathematical specification.
//!
//! Each `..._at` function maps a byte sequence and a cursor position to the
//! unique outcome the grammar assigns there: matched (value plus next
//! position), incomplete (the bytes run out before the boundary of the
//! construct is decided), or failed (the position reached and the construct
//! expected there). The executable parsers in `http11` are proved to return
//! exactly these outcomes.

use vstd::prelude::*;

use crate::types::Expected;
use crate::types::HeaderModel;
use crate::types::HeadModel;
use crate::types::ParseModel;
use crate::types::RequestLineModel;
use crate::types::SpanModel;
use crate::types::VersionModel;

verus! {

/// A byte allowed in an HTTP token: ASCII alphanumerics plus
/// `! # $ % & ' * + - . ^ _ ` | ~`.
pub open spec fn token_char(b: u8) -> bool {
    (48 <= b && b <= 57) || (65 <= b && b <= 90) || (97 <= b && b <= 122) || b == 33 || b == 35
        || b == 36 || b == 37 || b == 38 || b == 39 || b == 42 || b == 43 || b == 45 || b == 46
        || b == 94 || b == 95 || b == 96 || b == 124 || b == 126
}

/// Linear whitespace: space or horizontal tab.
pub open spec fn ws_char(b: u8) -> bool {
    b == 32 || b == 9
}

/// A visible character: printable ASCII, byte values 33 through 126.
pub open spec fn vchar(b: u8) -> bool {
    33 <= b && b <= 126
}

/// Visible or linear whitespace.
pub open spec fn vchar_or_ws(b: u8) -> bool {
    vchar(b) || ws_char(b)
}

/// An ASCII decimal digit.
pub open spec fn digit_char(b: u8) -> bool {
    48 <= b && b <= 57
}

/// The byte classes whose runs the primitive parsers recognise.
#[derive(Clone, Copy, Debug, PartialEq, Eq, Structural)]
pub enum ByteClass {
    Token,
    LinearWs,
    Visible,
    VisibleOrWs,
    Digit,
}

/// Membership of a byte in a class.
pub open spec fn byte_in_class(c: ByteClass, b: u8) -> bool {
    match c {
        ByteClass::Token => token_char(b),
        ByteClass::LinearWs => ws_char(b),
        ByteClass::Visible => vchar(b),
        ByteClass::VisibleOrWs => vchar_or_ws(b),
        ByteClass::Digit => digit_char(b),
    }
}

/// The construct a failed run of the given class was expecting.
pub open spec fn class_expected(c: ByteClass) -> Expected {
    match c {
        ByteClass::Token => Expected::Token,
        ByteClass::LinearWs => Expected::Space,
        ByteClass::Visible => Expected::Visible,
        ByteClass::VisibleOrWs => Expected::VisibleOrWs,
        ByteClass::Digit => Expected::Digit,
    }
}

/// Length of the run of class `c` bytes starting at `pos`.
pub open spec fn run_len(s: Seq<u8>, pos: int, c: ByteClass) -> int
    decreases s.len() - pos,
{
    if pos < 0 || pos >= s.len() {
        0
    } else if byte_in_class(c, s[pos]) {
        1 + run_len(s, pos + 1, c)
    } else {
        0
    }
}

/// A required, non-empty run of class `c` bytes. A run that extends to the
/// end of the available bytes is incomplete: the boundary cannot be decided
/// until a byte outside the class (or more input) arrives.
pub open spec fn run_at(s: Seq<u8>, pos: int, c: ByteClass) -> ParseModel<SpanModel> {
    let n = run_len(s, pos, c);
    if pos + n == s.len() {
        ParseModel::Incomplete
    } else if n == 0 {
        ParseModel::Failed(pos, class_expected(c))
    } else {
        ParseModel::Matched(SpanModel { start: pos, len: n }, pos + n)
    }
}

/// An optional, possibly empty run of class `c` bytes: it never fails, but
/// a run reaching the end of the input is still incomplete.
pub open spec fn opt_run_at(s: Seq<u8>, pos: int, c: ByteClass) -> ParseModel<SpanModel> {
    let n = run_len(s, pos, c);
    if pos + n == s.len() {
        ParseModel::Incomplete
    } else {
        ParseModel::Matched(SpanModel { start: pos, len: n }, pos + n)
    }
}

/// A single literal byte.
pub open spec fn byte_at(s: Seq<u8>, pos: int, b: u8, exp: Expected) -> ParseModel<SpanModel> {
    if pos >= s.len() {
        ParseModel::Incomplete
    } else if s[pos] == b {
        ParseModel::Matched(SpanModel { start: pos, len: 1 }, pos + 1)
    } else {
        ParseModel::Failed(pos, exp)
    }
}

/// Sequencing helper: if `m` matched, expect the literal byte `b` next.
pub open spec fn then_byte(s: Seq<u8>, m: ParseModel<SpanModel>, b: u8, exp: Expected) -> ParseModel<
    SpanModel,
> {
    match m {
        ParseModel::Matched(v, p) => byte_at(s, p, b, exp),
        ParseModel::Incomplete => ParseModel::Incomplete,
        ParseModel::Failed(q, e) => ParseModel::Failed(q, e),
    }
}

/// The line terminator: carriage return then line feed.
pub open spec fn crlf_at(s: Seq<u8>, pos: int) -> ParseModel<SpanModel> {
    match then_byte(s, byte_at(s, pos, 13, Expected::Crlf), 10, Expected::Crlf) {
        ParseModel::Matched(v, p) => ParseModel::Matched(SpanModel { start: pos, len: 2 }, p),
        ParseModel::Incomplete => ParseModel::Incomplete,
        ParseModel::Failed(q, e) => ParseModel::Failed(q, e),
    }
}

/// The five-byte literal `HTTP/` that opens the protocol version.
pub open spec fn http_keyword_at(s: Seq<u8>, pos: int) -> ParseModel<SpanModel> {
    let m = then_byte(
        s,
        then_byte(
            s,
            then_byte(
                s,
                then_byte(s, byte_at(s, pos, 72, Expected::HttpKeyword), 84, Expected::HttpKeyword),
                84,
                Expected::HttpKeyword,
            ),
            80,
            Expected::HttpKeyword,
        ),
        47,
        Expected::HttpKeyword,
    );
    match m {
        ParseModel::Matched(v, p) => ParseModel::Matched(SpanModel { start: pos, len: 5 }, p),
        ParseModel::Incomplete => ParseModel::Incomplete,
        ParseModel::Failed(q, e) => ParseModel::Failed(q, e),
    }
}

/// The protocol version: `HTTP/`, a digit run (major), a dot, a digit run
/// (minor), reported in major-then-minor order.
pub open spec fn http_version_at(s: Seq<u8>, pos: int) -> ParseModel<VersionModel> {
    match http_keyword_at(s, pos) {
        ParseModel::Matched(k, p1) => match run_at(s, p1, ByteClass::Digit) {
            ParseModel::Matched(major, p2) => match byte_at(s, p2, 46, Expected::Dot) {
                ParseModel::Matched(d, p3) => match run_at(s, p3, ByteClass::Digit) {
                    ParseModel::Matched(minor, p4) => ParseModel::Matched(
                        VersionModel { major, minor },
                        p4,
                    ),
                    ParseModel::Incomplete => ParseModel::Incomplete,
                    ParseModel::Failed(q, e) => ParseModel::Failed(q, e),
                },
                ParseModel::Incomplete => ParseModel::Incomplete,
                ParseModel::Failed(q, e) => ParseModel::Failed(q, e),
            },
            ParseModel::Incomplete => ParseModel::Incomplete,
            ParseModel::Failed(q, e) => ParseModel::Failed(q, e),
        },
        ParseModel::Incomplete => ParseModel::Incomplete,
        ParseModel::Failed(q, e) => ParseModel::Failed(q, e),
    }
}

/// The request line: method token, space, request target, space, protocol
/// version, line terminator.
pub open spec fn request_line_at(s: Seq<u8>, pos: int) -> ParseModel<RequestLineModel> {
    match run_at(s, pos, ByteClass::Token) {
        ParseModel::Matched(method, p1) => match byte_at(s, p1, 32, Expected::Space) {
            ParseModel::Matched(sp1, p2) => match run_at(s, p2, ByteClass::Visible) {
                ParseModel::Matched(uri, p3) => match byte_at(s, p3, 32, Expected::Space) {
                    ParseModel::Matched(sp2, p4) => match http_version_at(s, p4) {
                        ParseModel::Matched(version, p5) => match crlf_at(s, p5) {
                            ParseModel::Matched(t, p6) => ParseModel::Matched(
                                RequestLineModel { method, uri, version },
                                p6,
                            ),
                            ParseModel::Incomplete => ParseModel::Incomplete,
                            ParseModel::Failed(q, e) => ParseModel::Failed(q, e),
                        },
                        ParseModel::Incomplete => ParseModel::Incomplete,
                        ParseModel::Failed(q, e) => ParseModel::Failed(q, e),
                    },
                    ParseModel::Incomplete => ParseModel::Incomplete,
                    ParseModel::Failed(q, e) => ParseModel::Failed(q, e),
                },
                ParseModel::Incomplete => ParseModel::Incomplete,
                ParseModel::Failed(q, e) => ParseModel::Failed(q, e),
            },
            ParseModel::Incomplete => ParseModel::Incomplete,
            ParseModel::Failed(q, e) => ParseModel::Failed(q, e),
        },
        ParseModel::Incomplete => ParseModel::Incomplete,
        ParseModel::Failed(q, e) => ParseModel::Failed(q, e),
    }
}

/// One header field: name token, colon, exactly one space, non-empty value
/// run of visible characters, line terminator. The required single space
/// and the non-empty value are design choices inherited from the grammar as
/// given: an empty value line is rejected.
pub open spec fn header_at(s: Seq<u8>, pos: int) -> ParseModel<HeaderModel> {
    match run_at(s, pos, ByteClass::Token) {
        ParseModel::Matched(name, p1) => match byte_at(s, p1, 58, Expected::Colon) {
            ParseModel::Matched(c, p2) => match byte_at(s, p2, 32, Expected::Space) {
                ParseModel::Matched(sp, p3) => match run_at(s, p3, ByteClass::Visible) {
                    ParseModel::Matched(value, p4) => match crlf_at(s, p4) {
                        ParseModel::Matched(t, p5) => ParseModel::Matched(
                            HeaderModel { name, value },
                            p5,
                        ),
                        ParseModel::Incomplete => ParseModel::Incomplete,
                        ParseModel::Failed(q, e) => ParseModel::Failed(q, e),
                    },
                    ParseModel::Incomplete => ParseModel::Incomplete,
                    ParseModel::Failed(q, e) => ParseModel::Failed(q, e),
                },
                ParseModel::Incomplete => ParseModel::Incomplete,
                ParseModel::Failed(q, e) => ParseModel::Failed(q, e),
            },
            ParseModel::Incomplete => ParseModel::Incomplete,
            ParseModel::Failed(q, e) => ParseModel::Failed(q, e),
        },
        ParseModel::Incomplete => ParseModel::Incomplete,
        ParseModel::Failed(q, e) => ParseModel::Failed(q, e),
    }
}

/// Zero or more header fields followed by the blank line that ends the
/// head. A position where neither a header nor the blank line starts is a
/// failure at the furthest position either attempt reached.
pub open spec fn headers_at(s: Seq<u8>, pos: int) -> ParseModel<Seq<HeaderModel>>
    decreases s.len() - pos,
    via headers_at_dec
{
    match header_at(s, pos) {
        ParseModel::Matched(h, p2) => match headers_at(s, p2) {
            ParseModel::Matched(hs, e) => ParseModel::Matched(seq![h] + hs, e),
            ParseModel::Incomplete => ParseModel::Incomplete,
            ParseModel::Failed(q, ex) => ParseModel::Failed(q, ex),
        },
        ParseModel::Incomplete => ParseModel::Incomplete,
        ParseModel::Failed(ph, eh) => match crlf_at(s, pos) {
            ParseModel::Matched(t, p2) => ParseModel::Matched(Seq::empty(), p2),
            ParseModel::Incomplete => ParseModel::Incomplete,
            ParseModel::Failed(pc, ec) => if ph > pc {
                ParseModel::Failed(ph, eh)
            } else if pc > ph {
                ParseModel::Failed(pc, ec)
            } else {
                ParseModel::Failed(ph, Expected::HeaderOrEnd)
            },
        },
    }
}

#[via_fn]
proof fn headers_at_dec(s: Seq<u8>, pos: int) {
    lemma_header_at_advance(s, pos);
}

/// The whole request head: the request line, then the header fields, then
/// the terminating blank line.
pub open spec fn request_head_at(s: Seq<u8>, pos: int) -> ParseModel<HeadModel> {
    match request_line_at(s, pos) {
        ParseModel::Matched(rl, p1) => match headers_at(s, p1) {
            ParseModel::Matched(hs, e) => ParseModel::Matched(
                HeadModel { request_line: rl, headers: hs },
                e,
            ),
            ParseModel::Incomplete => ParseModel::Incomplete,
            ParseModel::Failed(q, ex) => ParseModel::Failed(q, ex),
        },
        ParseModel::Incomplete => ParseModel::Incomplete,
        ParseModel::Failed(q, ex) => ParseModel::Failed(q, ex),
    }
}

/// A run is never negative and never extends past the end of the bytes.
pub proof fn lemma_run_len_bounds(s: Seq<u8>, pos: int, c: ByteClass)
    ensures
        0 <= run_len(s, pos, c),
        0 <= pos && pos <= s.len() ==> pos + run_len(s, pos, c) <= s.len(),
    decreases s.len() - pos,
{
    if 0 <= pos && pos < s.len() && byte_in_class(c, s[pos]) {
        lemma_run_len_bounds(s, pos + 1, c);
    }
}

/// A matched run starts at the cursor, is non-empty, and ends strictly
/// inside the bytes.
pub proof fn lemma_run_at_advance(s: Seq<u8>, pos: int, c: ByteClass)
    ensures
        match run_at(s, pos, c) {
            ParseModel::Matched(v, e) => 0 <= pos && pos < e && e <= s.len() && v == (SpanModel {
                start: pos,
                len: e - pos,
            }),
            ParseModel::Failed(q, ex) => q == pos && ex == class_expected(c),
            ParseModel::Incomplete => true,
        },
{
    lemma_run_len_bounds(s, pos, c);
    if pos < 0 {
        assert(run_len(s, pos, c) == 0);
    }
}

/// A matched literal byte advances the cursor by one, within bounds.
pub proof fn lemma_byte_at_advance(s: Seq<u8>, pos: int, b: u8, exp: Expected)
    ensures
        match byte_at(s, pos, b, exp) {
            ParseModel::Matched(v, e) => e == pos + 1 && e <= s.len() && v == (SpanModel {
                start: pos,
                len: 1,
            }),
            ParseModel::Failed(q, ex) => q == pos && ex == exp,
            ParseModel::Incomplete => pos >= s.len(),
        },
{
}

/// A matched line terminator advances the cursor by two, within bounds.
pub proof fn lemma_crlf_at_advance(s: Seq<u8>, pos: int)
    ensures
        match crlf_at(s, pos) {
            ParseModel::Matched(v, e) => e == pos + 2 && e <= s.len() && v == (SpanModel {
                start: pos,
                len: 2,
            }),
            ParseModel::Failed(q, ex) => pos <= q <= pos + 1 && ex == Expected::Crlf,
            ParseModel::Incomplete => true,
        },
{
}

/// A matched `HTTP/` keyword advances the cursor by five, within bounds.
pub proof fn lemma_http_keyword_at_advance(s: Seq<u8>, pos: int)
    ensures
        match http_keyword_at(s, pos) {
            ParseModel::Matched(v, e) => e == pos + 5 && e <= s.len() && v == (SpanModel {
                start: pos,
                len: 5,
            }),
            ParseModel::Failed(q, ex) => pos <= q <= pos + 4 && ex == Expected::HttpKeyword,
            ParseModel::Incomplete => true,
        },
{
}

/// A matched protocol version strictly advances the cursor, within bounds.
pub proof fn lemma_http_version_at_advance(s: Seq<u8>, pos: int)
    ensures
        match http_version_at(s, pos) {
            ParseModel::Matched(v, e) => pos + 8 <= e && e <= s.len(),
            ParseModel::Failed(q, ex) => pos <= q,
            ParseModel::Incomplete => true,
        },
{
    lemma_http_keyword_at_advance(s, pos);
    match http_keyword_at(s, pos) {
        ParseModel::Matched(k, p1) => {
            lemma_run_at_advance(s, p1, ByteClass::Digit);
            match run_at(s, p1, ByteClass::Digit) {
                ParseModel::Matched(major, p2) => {
                    lemma_byte_at_advance(s, p2, 46, Expected::Dot);
                    match byte_at(s, p2, 46, Expected::Dot) {
                        ParseModel::Matched(d, p3) => {
                            lemma_run_at_advance(s, p3, ByteClass::Digit);
                        },
                        _ => {},
                    }
                },
                _ => {},
            }
        },
        _ => {},
    }
}

/// A matched request line strictly advances the cursor, within bounds.
pub proof fn lemma_request_line_at_advance(s: Seq<u8>, pos: int)
    ensures
        match request_line_at(s, pos) {
            ParseModel::Matched(v, e) => pos < e && e <= s.len(),
            ParseModel::Failed(q, ex) => pos <= q,
            ParseModel::Incomplete => true,
        },
{
    lemma_run_at_advance(s, pos, ByteClass::Token);
    match run_at(s, pos, ByteClass::Token) {
        ParseModel::Matched(method, p1) => {
            lemma_byte_at_advance(s, p1, 32, Expected::Space);
            match byte_at(s, p1, 32, Expected::Space) {
                ParseModel::Matched(sp1, p2) => {
                    lemma_run_at_advance(s, p2, ByteClass::Visible);
                    match run_at(s, p2, ByteClass::Visible) {
                        ParseModel::Matched(uri, p3) => {
                            lemma_byte_at_advance(s, p3, 32, Expected::Space);
                            match byte_at(s, p3, 32, Expected::Space) {
                                ParseModel::Matched(sp2, p4) => {
                                    lemma_http_version_at_advance(s, p4);
                                    match http_version_at(s, p4) {
                                        ParseModel::Matched(version, p5) => {
                                            lemma_crlf_at_advance(s, p5);
                                        },
                                        _ => {},
                                    }
                                },
                                _ => {},
                            }
                        },
                        _ => {},
                    }
                },
                _ => {},
            }
        },
        _ => {},
    }
}

/// A matched header field strictly advances the cursor, within bounds.
pub proof fn lemma_header_at_advance(s: Seq<u8>, pos: int)
    ensures
        match header_at(s, pos) {
            ParseModel::Matched(v, e) => pos < e && e <= s.len(),
            ParseModel::Failed(q, ex) => pos <= q,
            ParseModel::Incomplete => true,
        },
{
    lemma_run_at_advance(s, pos, ByteClass::Token);
    match run_at(s, pos, ByteClass::Token) {
        ParseModel::Matched(name, p1) => {
            lemma_byte_at_advance(s, p1, 58, Expected::Colon);
            match byte_at(s, p1, 58, Expected::Colon) {
                ParseModel::Matched(c, p2) => {
                    lemma_byte_at_advance(s, p2, 32, Expected::Space);
                    match byte_at(s, p2, 32, Expected::Space) {
                        ParseModel::Matched(sp, p3) => {
                            lemma_run_at_advance(s, p3, ByteClass::Visible);
                            match run_at(s, p3, ByteClass::Visible) {
                                ParseModel::Matched(value, p4) => {
                                    lemma_crlf_at_advance(s, p4);
                                },
                                _ => {},
                            }
                        },
                        _ => {},
                    }
                },
                _ => {},
            }
        },
        _ => {},
    }
}

/// A matched header block ends within bounds, at or past the cursor.
pub proof fn lemma_headers_at_bounds(s: Seq<u8>, pos: int)
    ensures
        match headers_at(s, pos) {
            ParseModel::Matched(hs, e) => pos < e && e <= s.len(),
            ParseModel::Failed(q, ex) => pos <= q,
            ParseModel::Incomplete => true,
        },
    decreases s.len() - pos,
{
    lemma_header_at_advance(s, pos);
    lemma_crlf_at_advance(s, pos);
    match header_at(s, pos) {
        ParseModel::Matched(h, p2) => {
            lemma_headers_at_bounds(s, p2);
        },
        _ => {},
    }
}

/// A matched request head ends within bounds, strictly past the cursor.
pub proof fn lemma_request_head_at_bounds(s: Seq<u8>, pos: int)
    ensures
        match request_head_at(s, pos) {
            ParseModel::Matched(h, e) => pos < e && e <= s.len(),
            ParseModel::Failed(q, ex) => pos <= q,
            ParseModel::Incomplete => true,
        },
{
    lemma_request_line_at_advance(s, pos);
    match request_line_at(s, pos) {
        ParseModel::Matched(rl, p1) => {
            lemma_headers_at_bounds(s, p1);
        },
        _ => {},
    }
}

} // verus!
