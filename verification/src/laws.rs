//! The decoder's laws, proved against the grammar in `grammar`.
//!
//! Because every executable parser is proved to return exactly the outcome
//! of its `..._at` spec function, each law stated here about the spec
//! grammar holds of the executable decoder as well.

use vstd::prelude::*;

use crate::grammar::ByteClass;
use crate::grammar::byte_at;
use crate::grammar::byte_in_class;
use crate::grammar::crlf_at;
use crate::grammar::digit_char;
use crate::grammar::header_at;
use crate::grammar::headers_at;
use crate::grammar::http_keyword_at;
use crate::grammar::http_version_at;
use crate::grammar::lemma_byte_at_advance;
use crate::grammar::lemma_crlf_at_advance;
use crate::grammar::lemma_header_at_advance;
use crate::grammar::lemma_http_keyword_at_advance;
use crate::grammar::lemma_http_version_at_advance;
use crate::grammar::lemma_headers_at_bounds;
use crate::grammar::lemma_request_head_at_bounds;
use crate::grammar::lemma_request_line_at_advance;
use crate::grammar::lemma_run_at_advance;
use crate::grammar::lemma_run_len_bounds;
use crate::grammar::request_head_at;
use crate::grammar::request_line_at;
use crate::grammar::run_at;
use crate::grammar::run_len;
use crate::grammar::token_char;
use crate::grammar::vchar;
use crate::types::Expected;
use crate::types::HeaderModel;
use crate::types::HeadModel;
use crate::types::Outcome;
use crate::types::ParseModel;
use crate::types::RequestLineModel;
use crate::types::SpanModel;
use crate::types::VersionModel;
use crate::types::models;
use crate::types::outcome_equivalent;

verus! {

/// Every byte of a run lies in the class, and (for an in-range cursor) the
/// byte just past the run does not.
pub proof fn lemma_run_len_in_class(s: Seq<u8>, pos: int, c: ByteClass)
    ensures
        forall|i: int| pos <= i < pos + run_len(s, pos, c) ==> byte_in_class(c, #[trigger] s[i]),
        0 <= pos && pos + run_len(s, pos, c) < s.len() ==> !byte_in_class(
            c,
            s[pos + run_len(s, pos, c)],
        ),
    decreases s.len() - pos,
{
    if 0 <= pos && pos < s.len() && byte_in_class(c, s[pos]) {
        lemma_run_len_in_class(s, pos + 1, c);
    }
}

/// A run whose bytes all lie in the class and that is ended by the end of
/// the input or by a byte outside the class has exactly that length.
pub proof fn lemma_run_len_exact(s: Seq<u8>, pos: int, c: ByteClass, n: int)
    requires
        0 <= pos,
        0 <= n,
        pos + n <= s.len(),
        forall|i: int| pos <= i < pos + n ==> byte_in_class(c, #[trigger] s[i]),
        pos + n == s.len() || !byte_in_class(c, s[pos + n]),
    ensures
        run_len(s, pos, c) == n,
    decreases n,
{
    if n == 0 {
        if pos < s.len() {
            assert(!byte_in_class(c, s[pos]));
        }
    } else {
        assert(byte_in_class(c, s[pos]));
        lemma_run_len_exact(s, pos + 1, c, n - 1);
    }
}

/// The decoder is deterministic: two outcomes that both model the same
/// grammar outcome are structurally identical. Since every parser's
/// contract pins its result to the grammar outcome of the buffer alone,
/// parsing the same buffer twice yields structurally identical results.
pub proof fn lemma_parse_deterministic<T: View>(
    r1: Outcome<T>,
    r2: Outcome<T>,
    m: ParseModel<<T as View>::V>,
)
    requires
        models(r1, m),
        models(r2, m),
    ensures
        outcome_equivalent(r1, r2),
{
}

/// Any input of the form method, space, target, space, `HTTP/`, major
/// digits, dot, minor digits, line terminator — followed by arbitrary
/// trailing bytes — parses as a complete request line whose spans name the
/// method, target and version components exactly as written, and whose end
/// position leaves every trailing byte unconsumed.
pub proof fn lemma_request_line_complete(
    s: Seq<u8>,
    method: Seq<u8>,
    uri: Seq<u8>,
    major: Seq<u8>,
    minor: Seq<u8>,
    rest: Seq<u8>,
)
    requires
        method.len() > 0,
        forall|i: int| 0 <= i < method.len() ==> token_char(#[trigger] method[i]),
        uri.len() > 0,
        forall|i: int| 0 <= i < uri.len() ==> vchar(#[trigger] uri[i]),
        major.len() > 0,
        forall|i: int| 0 <= i < major.len() ==> digit_char(#[trigger] major[i]),
        minor.len() > 0,
        forall|i: int| 0 <= i < minor.len() ==> digit_char(#[trigger] minor[i]),
        s == method + seq![32u8] + uri + seq![32u8] + seq![72u8, 84u8, 84u8, 80u8, 47u8] + major
            + seq![46u8] + minor + seq![13u8, 10u8] + rest,
    ensures
        request_line_at(s, 0) == ParseModel::<RequestLineModel>::Matched(
            RequestLineModel {
                method: SpanModel { start: 0, len: method.len() as int },
                uri: SpanModel { start: method.len() + 1 as int, len: uri.len() as int },
                version: VersionModel {
                    major: SpanModel {
                        start: method.len() + uri.len() + 7 as int,
                        len: major.len() as int,
                    },
                    minor: SpanModel {
                        start: method.len() + uri.len() + major.len() + 8 as int,
                        len: minor.len() as int,
                    },
                },
            },
            method.len() + uri.len() + major.len() + minor.len() + 10 as int,
        ),
{
    let lm = method.len() as int;
    let lu = uri.len() as int;
    let lj = major.len() as int;
    let ln = minor.len() as int;
    let a1 = method + seq![32u8];
    let a2 = a1 + uri;
    let a3 = a2 + seq![32u8];
    let a4 = a3 + seq![72u8, 84u8, 84u8, 80u8, 47u8];
    let a5 = a4 + major;
    let a6 = a5 + seq![46u8];
    let a7 = a6 + minor;
    let a8 = a7 + seq![13u8, 10u8];
    assert(s == a8 + rest);
    let h0 = lm + lu + 2;
    let m0 = lm + lu + 7;
    let n0 = m0 + lj + 1;
    let end = n0 + ln + 2;
    assert(s.len() == end + rest.len());
    assert forall|i: int| 0 <= i < lm implies s[i] == method[i] by {
        assert(s[i] == a8[i]);
        assert(a8[i] == a7[i]);
        assert(a7[i] == a6[i]);
        assert(a6[i] == a5[i]);
        assert(a5[i] == a4[i]);
        assert(a4[i] == a3[i]);
        assert(a3[i] == a2[i]);
        assert(a2[i] == a1[i]);
        assert(a1[i] == method[i]);
    }
    assert(s[lm] == a1[lm] == 32);
    assert forall|i: int| 0 <= i < lu implies s[lm + 1 + i] == uri[i] by {
        assert(s[lm + 1 + i] == a2[lm + 1 + i]);
        assert(a2[lm + 1 + i] == uri[i]);
    }
    assert(s[lm + 1 + lu] == a3[lm + 1 + lu] == 32);
    assert forall|i: int| 0 <= i < 5 implies s[h0 + i] == seq![72u8, 84u8, 84u8, 80u8, 47u8][i] by {
        assert(s[h0 + i] == a4[h0 + i]);
        assert(a4[h0 + i] == seq![72u8, 84u8, 84u8, 80u8, 47u8][i]);
    }
    assert(s[h0] == 72);
    assert(s[h0 + 1] == 84);
    assert(s[h0 + 2] == 84);
    assert(s[h0 + 3] == 80);
    assert(s[h0 + 4] == 47);
    assert forall|i: int| 0 <= i < lj implies s[m0 + i] == major[i] by {
        assert(s[m0 + i] == a5[m0 + i]);
        assert(a5[m0 + i] == major[i]);
    }
    assert(s[m0 + lj] == a6[m0 + lj] == 46);
    assert forall|i: int| 0 <= i < ln implies s[n0 + i] == minor[i] by {
        assert(s[n0 + i] == a7[n0 + i]);
        assert(a7[n0 + i] == minor[i]);
    }
    assert(s[n0 + ln] == a8[n0 + ln] == 13);
    assert(s[n0 + ln + 1] == a8[n0 + ln + 1] == 10);
    lemma_run_len_exact(s, 0, ByteClass::Token, lm);
    assert(run_at(s, 0, ByteClass::Token) == ParseModel::<SpanModel>::Matched(
        SpanModel { start: 0, len: lm },
        lm,
    ));
    assert(byte_at(s, lm, 32, Expected::Space) == ParseModel::<SpanModel>::Matched(
        SpanModel { start: lm, len: 1 },
        lm + 1,
    ));
    lemma_run_len_exact(s, lm + 1, ByteClass::Visible, lu);
    assert(run_at(s, lm + 1, ByteClass::Visible) == ParseModel::<SpanModel>::Matched(
        SpanModel { start: lm + 1, len: lu },
        lm + 1 + lu,
    ));
    assert(byte_at(s, lm + 1 + lu, 32, Expected::Space) == ParseModel::<SpanModel>::Matched(
        SpanModel { start: lm + 1 + lu, len: 1 },
        h0,
    ));
    assert(http_keyword_at(s, h0) == ParseModel::<SpanModel>::Matched(
        SpanModel { start: h0, len: 5 },
        m0,
    ));
    lemma_run_len_exact(s, m0, ByteClass::Digit, lj);
    assert(run_at(s, m0, ByteClass::Digit) == ParseModel::<SpanModel>::Matched(
        SpanModel { start: m0, len: lj },
        m0 + lj,
    ));
    assert(byte_at(s, m0 + lj, 46, Expected::Dot) == ParseModel::<SpanModel>::Matched(
        SpanModel { start: m0 + lj, len: 1 },
        n0,
    ));
    lemma_run_len_exact(s, n0, ByteClass::Digit, ln);
    assert(run_at(s, n0, ByteClass::Digit) == ParseModel::<SpanModel>::Matched(
        SpanModel { start: n0, len: ln },
        n0 + ln,
    ));
    assert(crlf_at(s, n0 + ln) == ParseModel::<SpanModel>::Matched(
        SpanModel { start: n0 + ln, len: 2 },
        end,
    ));
    assert(http_version_at(s, h0) == ParseModel::<VersionModel>::Matched(
        VersionModel {
            major: SpanModel { start: m0, len: lj },
            minor: SpanModel { start: n0, len: ln },
        },
        n0 + ln,
    ));
    assert(request_line_at(s, 0) == ParseModel::<RequestLineModel>::Matched(
        RequestLineModel {
            method: SpanModel { start: 0, len: lm },
            uri: SpanModel { start: lm + 1, len: lu },
            version: VersionModel {
                major: SpanModel { start: m0, len: lj },
                minor: SpanModel { start: n0, len: ln },
            },
        },
        end,
    ));
}

/// A request line whose method run is immediately followed by a byte that
/// is neither a token character nor the required space is malformed, and
/// the reported position is exactly that of the first unexpected byte,
/// with the space named as the construct expected there.
pub proof fn lemma_missing_space_malformed(s: Seq<u8>, method: Seq<u8>, rest: Seq<u8>)
    requires
        method.len() > 0,
        forall|i: int| 0 <= i < method.len() ==> token_char(#[trigger] method[i]),
        rest.len() > 0,
        !token_char(rest[0]),
        rest[0] != 32,
        s == method + rest,
    ensures
        request_line_at(s, 0) == ParseModel::<RequestLineModel>::Failed(
            method.len() as int,
            Expected::Space,
        ),
{
    let lm = method.len() as int;
    assert forall|i: int| 0 <= i < lm implies s[i] == method[i] by {
        assert(s[i] == method[i]);
    }
    assert(s[lm] == rest[0]);
    lemma_run_len_exact(s, 0, ByteClass::Token, lm);
    assert(run_at(s, 0, ByteClass::Token) == ParseModel::<SpanModel>::Matched(
        SpanModel { start: 0, len: lm },
        lm,
    ));
    assert(byte_at(s, lm, 32, Expected::Space) == ParseModel::<SpanModel>::Failed(
        lm,
        Expected::Space,
    ));
}

/// Translation of a span by `d` bytes.
pub open spec fn shift_span(v: SpanModel, d: int) -> SpanModel {
    SpanModel { start: v.start + d, len: v.len }
}

/// Translation of a version by `d` bytes.
pub open spec fn shift_version(v: VersionModel, d: int) -> VersionModel {
    VersionModel { major: shift_span(v.major, d), minor: shift_span(v.minor, d) }
}

/// Translation of a request line by `d` bytes.
pub open spec fn shift_line(v: RequestLineModel, d: int) -> RequestLineModel {
    RequestLineModel {
        method: shift_span(v.method, d),
        uri: shift_span(v.uri, d),
        version: shift_version(v.version, d),
    }
}

/// Translation of a header field by `d` bytes.
pub open spec fn shift_header(v: HeaderModel, d: int) -> HeaderModel {
    HeaderModel { name: shift_span(v.name, d), value: shift_span(v.value, d) }
}

/// Translation of a header sequence by `d` bytes.
pub open spec fn shift_headers(hs: Seq<HeaderModel>, d: int) -> Seq<HeaderModel> {
    hs.map_values(|h: HeaderModel| shift_header(h, d))
}

/// Translation of a whole head by `d` bytes.
pub open spec fn shift_head(v: HeadModel, d: int) -> HeadModel {
    HeadModel {
        request_line: shift_line(v.request_line, d),
        headers: shift_headers(v.headers, d),
    }
}

/// Translation of a span outcome by `d` bytes.
pub open spec fn shift_pm_span(m: ParseModel<SpanModel>, d: int) -> ParseModel<SpanModel> {
    match m {
        ParseModel::Matched(v, e) => ParseModel::Matched(shift_span(v, d), e + d),
        ParseModel::Incomplete => ParseModel::Incomplete,
        ParseModel::Failed(q, x) => ParseModel::Failed(q + d, x),
    }
}

/// Translation of a version outcome by `d` bytes.
pub open spec fn shift_pm_version(m: ParseModel<VersionModel>, d: int) -> ParseModel<VersionModel> {
    match m {
        ParseModel::Matched(v, e) => ParseModel::Matched(shift_version(v, d), e + d),
        ParseModel::Incomplete => ParseModel::Incomplete,
        ParseModel::Failed(q, x) => ParseModel::Failed(q + d, x),
    }
}

/// Translation of a request-line outcome by `d` bytes.
pub open spec fn shift_pm_line(m: ParseModel<RequestLineModel>, d: int) -> ParseModel<
    RequestLineModel,
> {
    match m {
        ParseModel::Matched(v, e) => ParseModel::Matched(shift_line(v, d), e + d),
        ParseModel::Incomplete => ParseModel::Incomplete,
        ParseModel::Failed(q, x) => ParseModel::Failed(q + d, x),
    }
}

/// Translation of a header outcome by `d` bytes.
pub open spec fn shift_pm_header(m: ParseModel<HeaderModel>, d: int) -> ParseModel<HeaderModel> {
    match m {
        ParseModel::Matched(v, e) => ParseModel::Matched(shift_header(v, d), e + d),
        ParseModel::Incomplete => ParseModel::Incomplete,
        ParseModel::Failed(q, x) => ParseModel::Failed(q + d, x),
    }
}

/// Translation of a header-block outcome by `d` bytes.
pub open spec fn shift_pm_headers(m: ParseModel<Seq<HeaderModel>>, d: int) -> ParseModel<
    Seq<HeaderModel>,
> {
    match m {
        ParseModel::Matched(v, e) => ParseModel::Matched(shift_headers(v, d), e + d),
        ParseModel::Incomplete => ParseModel::Incomplete,
        ParseModel::Failed(q, x) => ParseModel::Failed(q + d, x),
    }
}

/// Translation of a head outcome by `d` bytes.
pub open spec fn shift_pm_head(m: ParseModel<HeadModel>, d: int) -> ParseModel<HeadModel> {
    match m {
        ParseModel::Matched(v, e) => ParseModel::Matched(shift_head(v, d), e + d),
        ParseModel::Incomplete => ParseModel::Incomplete,
        ParseModel::Failed(q, x) => ParseModel::Failed(q + d, x),
    }
}

/// The bytes from `pos2` on in `s2` extend the bytes from `pos1` on in
/// `s1`: the shorter tail is a prefix of the longer.
pub open spec fn tail_extends(s1: Seq<u8>, pos1: int, s2: Seq<u8>, pos2: int) -> bool {
    0 <= pos1 <= s1.len() && 0 <= pos2 <= s2.len() && s1.skip(pos1).is_prefix_of(s2.skip(pos2))
}

/// Extending tails agree byte for byte over the shorter tail.
pub proof fn lemma_tail_agree(s1: Seq<u8>, pos1: int, s2: Seq<u8>, pos2: int)
    requires
        tail_extends(s1, pos1, s2, pos2),
    ensures
        s1.len() - pos1 <= s2.len() - pos2,
        forall|i: int| 0 <= i < s1.len() - pos1 ==> s1[pos1 + i] == #[trigger] s2[pos2 + i],
{
    let t1 = s1.skip(pos1);
    let t2 = s2.skip(pos2);
    assert forall|i: int| 0 <= i < s1.len() - pos1 implies s1[pos1 + i] == #[trigger] s2[pos2
        + i] by {
        assert(t1[i] == s1[pos1 + i]);
        assert(t1[i] == t2.subrange(0, t1.len() as int)[i]);
        assert(t2[i] == s2[pos2 + i]);
    }
}

/// Tail extension is preserved when both cursors advance by the same
/// amount, as long as the shorter tail is not overrun.
pub proof fn lemma_tail_advance(s1: Seq<u8>, pos1: int, s2: Seq<u8>, pos2: int, k: int)
    requires
        tail_extends(s1, pos1, s2, pos2),
        0 <= k <= s1.len() - pos1,
    ensures
        tail_extends(s1, pos1 + k, s2, pos2 + k),
{
    let t1 = s1.skip(pos1);
    let t2 = s2.skip(pos2);
    let u1 = s1.skip(pos1 + k);
    let u2 = s2.skip(pos2 + k);
    assert forall|i: int| 0 <= i < u1.len() implies u1[i] == u2.subrange(
        0,
        u1.len() as int,
    )[i] by {
        assert(u1[i] == s1[pos1 + k + i]);
        assert(t1[k + i] == s1[pos1 + (k + i)]);
        assert(t1[k + i] == t2.subrange(0, t1.len() as int)[k + i]);
        assert(t2[k + i] == s2[pos2 + (k + i)]);
        assert(u2[i] == s2[pos2 + k + i]);
    }
    assert(u1 =~= u2.subrange(0, u1.len() as int));
}

/// A literal-byte outcome that is not incomplete persists, translated,
/// into any extending tail.
pub proof fn lemma_byte_at_mono(
    s1: Seq<u8>,
    pos1: int,
    s2: Seq<u8>,
    pos2: int,
    b: u8,
    exp: Expected,
)
    requires
        tail_extends(s1, pos1, s2, pos2),
    ensures
        !(byte_at(s1, pos1, b, exp) is Incomplete) ==> byte_at(s2, pos2, b, exp) == shift_pm_span(
            byte_at(s1, pos1, b, exp),
            pos2 - pos1,
        ),
{
    if pos1 < s1.len() {
        lemma_tail_agree(s1, pos1, s2, pos2);
        assert(s1[pos1 + 0] == s2[pos2 + 0]);
    }
}

/// A run length whose boundary was decided persists into any extending
/// tail.
pub proof fn lemma_run_len_mono(s1: Seq<u8>, pos1: int, s2: Seq<u8>, pos2: int, c: ByteClass)
    requires
        tail_extends(s1, pos1, s2, pos2),
    ensures
        pos1 + run_len(s1, pos1, c) < s1.len() ==> run_len(s2, pos2, c) == run_len(s1, pos1, c),
{
    let n = run_len(s1, pos1, c);
    lemma_run_len_bounds(s1, pos1, c);
    lemma_run_len_in_class(s1, pos1, c);
    if pos1 + n < s1.len() {
        lemma_tail_agree(s1, pos1, s2, pos2);
        assert forall|i: int| pos2 <= i < pos2 + n implies byte_in_class(c, #[trigger] s2[i]) by {
            let j = i - pos2;
            assert(s1[pos1 + j] == s2[pos2 + j]);
            assert(byte_in_class(c, s1[pos1 + j]));
        }
        assert(s1[pos1 + n] == s2[pos2 + n]);
        lemma_run_len_exact(s2, pos2, c, n);
    }
}

/// A required-run outcome that is not incomplete persists, translated,
/// into any extending tail.
pub proof fn lemma_run_at_mono(s1: Seq<u8>, pos1: int, s2: Seq<u8>, pos2: int, c: ByteClass)
    requires
        tail_extends(s1, pos1, s2, pos2),
    ensures
        !(run_at(s1, pos1, c) is Incomplete) ==> run_at(s2, pos2, c) == shift_pm_span(
            run_at(s1, pos1, c),
            pos2 - pos1,
        ),
{
    let n = run_len(s1, pos1, c);
    lemma_run_len_bounds(s1, pos1, c);
    lemma_run_len_mono(s1, pos1, s2, pos2, c);
    lemma_tail_agree(s1, pos1, s2, pos2);
    if !(run_at(s1, pos1, c) is Incomplete) {
        assert(pos1 + n < s1.len());
        assert(pos2 + n < s2.len());
    }
}

/// A line-terminator outcome that is not incomplete persists, translated,
/// into any extending tail.
pub proof fn lemma_crlf_at_mono(s1: Seq<u8>, pos1: int, s2: Seq<u8>, pos2: int)
    requires
        tail_extends(s1, pos1, s2, pos2),
    ensures
        !(crlf_at(s1, pos1) is Incomplete) ==> crlf_at(s2, pos2) == shift_pm_span(
            crlf_at(s1, pos1),
            pos2 - pos1,
        ),
{
    if !(crlf_at(s1, pos1) is Incomplete) {
        lemma_byte_at_mono(s1, pos1, s2, pos2, 13, Expected::Crlf);
        lemma_byte_at_advance(s1, pos1, 13, Expected::Crlf);
        match byte_at(s1, pos1, 13, Expected::Crlf) {
            ParseModel::Matched(v, p) => {
                lemma_tail_advance(s1, pos1, s2, pos2, 1);
                lemma_byte_at_mono(s1, pos1 + 1, s2, pos2 + 1, 10, Expected::Crlf);
            },
            _ => {},
        }
    }
}

/// An `HTTP/` keyword outcome that is not incomplete persists, translated,
/// into any extending tail.
pub proof fn lemma_http_keyword_at_mono(s1: Seq<u8>, pos1: int, s2: Seq<u8>, pos2: int)
    requires
        tail_extends(s1, pos1, s2, pos2),
    ensures
        !(http_keyword_at(s1, pos1) is Incomplete) ==> http_keyword_at(s2, pos2)
            == shift_pm_span(http_keyword_at(s1, pos1), pos2 - pos1),
{
    if !(http_keyword_at(s1, pos1) is Incomplete) {
        lemma_byte_at_mono(s1, pos1, s2, pos2, 72, Expected::HttpKeyword);
        lemma_byte_at_advance(s1, pos1, 72, Expected::HttpKeyword);
        match byte_at(s1, pos1, 72, Expected::HttpKeyword) {
            ParseModel::Matched(v1, q1) => {
                lemma_tail_advance(s1, pos1, s2, pos2, 1);
                lemma_byte_at_mono(s1, pos1 + 1, s2, pos2 + 1, 84, Expected::HttpKeyword);
                lemma_byte_at_advance(s1, pos1 + 1, 84, Expected::HttpKeyword);
                match byte_at(s1, pos1 + 1, 84, Expected::HttpKeyword) {
                    ParseModel::Matched(v2, q2) => {
                        lemma_tail_advance(s1, pos1, s2, pos2, 2);
                        lemma_byte_at_mono(s1, pos1 + 2, s2, pos2 + 2, 84, Expected::HttpKeyword);
                        lemma_byte_at_advance(s1, pos1 + 2, 84, Expected::HttpKeyword);
                        match byte_at(s1, pos1 + 2, 84, Expected::HttpKeyword) {
                            ParseModel::Matched(v3, q3) => {
                                lemma_tail_advance(s1, pos1, s2, pos2, 3);
                                lemma_byte_at_mono(
                                    s1,
                                    pos1 + 3,
                                    s2,
                                    pos2 + 3,
                                    80,
                                    Expected::HttpKeyword,
                                );
                                lemma_byte_at_advance(s1, pos1 + 3, 80, Expected::HttpKeyword);
                                match byte_at(s1, pos1 + 3, 80, Expected::HttpKeyword) {
                                    ParseModel::Matched(v4, q4) => {
                                        lemma_tail_advance(s1, pos1, s2, pos2, 4);
                                        lemma_byte_at_mono(
                                            s1,
                                            pos1 + 4,
                                            s2,
                                            pos2 + 4,
                                            47,
                                            Expected::HttpKeyword,
                                        );
                                    },
                                    _ => {},
                                }
                            },
                            _ => {},
                        }
                    },
                    _ => {},
                }
            },
            _ => {},
        }
    }
}

/// A protocol-version outcome that is not incomplete persists, translated,
/// into any extending tail.
pub proof fn lemma_http_version_at_mono(s1: Seq<u8>, pos1: int, s2: Seq<u8>, pos2: int)
    requires
        tail_extends(s1, pos1, s2, pos2),
    ensures
        !(http_version_at(s1, pos1) is Incomplete) ==> http_version_at(s2, pos2)
            == shift_pm_version(http_version_at(s1, pos1), pos2 - pos1),
{
    let d = pos2 - pos1;
    if !(http_version_at(s1, pos1) is Incomplete) {
        lemma_http_keyword_at_mono(s1, pos1, s2, pos2);
        lemma_http_keyword_at_advance(s1, pos1);
        match http_keyword_at(s1, pos1) {
            ParseModel::Matched(k, p1) => {
                lemma_tail_advance(s1, pos1, s2, pos2, p1 - pos1);
                lemma_run_at_mono(s1, p1, s2, p1 + d, ByteClass::Digit);
                lemma_run_at_advance(s1, p1, ByteClass::Digit);
                match run_at(s1, p1, ByteClass::Digit) {
                    ParseModel::Matched(major, p2) => {
                        lemma_tail_advance(s1, pos1, s2, pos2, p2 - pos1);
                        lemma_byte_at_mono(s1, p2, s2, p2 + d, 46, Expected::Dot);
                        lemma_byte_at_advance(s1, p2, 46, Expected::Dot);
                        match byte_at(s1, p2, 46, Expected::Dot) {
                            ParseModel::Matched(dot, p3) => {
                                lemma_tail_advance(s1, pos1, s2, pos2, p3 - pos1);
                                lemma_run_at_mono(s1, p3, s2, p3 + d, ByteClass::Digit);
                            },
                            _ => {},
                        }
                    },
                    _ => {},
                }
            },
            _ => {},
        }
    }
}

/// A request-line outcome that is not incomplete persists, translated,
/// into any extending tail.
pub proof fn lemma_request_line_at_mono(s1: Seq<u8>, pos1: int, s2: Seq<u8>, pos2: int)
    requires
        tail_extends(s1, pos1, s2, pos2),
    ensures
        !(request_line_at(s1, pos1) is Incomplete) ==> request_line_at(s2, pos2)
            == shift_pm_line(request_line_at(s1, pos1), pos2 - pos1),
{
    let d = pos2 - pos1;
    if !(request_line_at(s1, pos1) is Incomplete) {
        lemma_run_at_mono(s1, pos1, s2, pos2, ByteClass::Token);
        lemma_run_at_advance(s1, pos1, ByteClass::Token);
        match run_at(s1, pos1, ByteClass::Token) {
            ParseModel::Matched(method, p1) => {
                lemma_tail_advance(s1, pos1, s2, pos2, p1 - pos1);
                lemma_byte_at_mono(s1, p1, s2, p1 + d, 32, Expected::Space);
                lemma_byte_at_advance(s1, p1, 32, Expected::Space);
                match byte_at(s1, p1, 32, Expected::Space) {
                    ParseModel::Matched(sp1, p2) => {
                        lemma_tail_advance(s1, pos1, s2, pos2, p2 - pos1);
                        lemma_run_at_mono(s1, p2, s2, p2 + d, ByteClass::Visible);
                        lemma_run_at_advance(s1, p2, ByteClass::Visible);
                        match run_at(s1, p2, ByteClass::Visible) {
                            ParseModel::Matched(uri, p3) => {
                                lemma_tail_advance(s1, pos1, s2, pos2, p3 - pos1);
                                lemma_byte_at_mono(s1, p3, s2, p3 + d, 32, Expected::Space);
                                lemma_byte_at_advance(s1, p3, 32, Expected::Space);
                                match byte_at(s1, p3, 32, Expected::Space) {
                                    ParseModel::Matched(sp2, p4) => {
                                        lemma_tail_advance(s1, pos1, s2, pos2, p4 - pos1);
                                        lemma_http_version_at_mono(s1, p4, s2, p4 + d);
                                        lemma_http_version_at_advance(s1, p4);
                                        match http_version_at(s1, p4) {
                                            ParseModel::Matched(version, p5) => {
                                                lemma_tail_advance(s1, pos1, s2, pos2, p5 - pos1);
                                                lemma_crlf_at_mono(s1, p5, s2, p5 + d);
                                            },
                                            _ => {},
                                        }
                                    },
                                    _ => {},
                                }
                            },
                            _ => {},
                        }
                    },
                    _ => {},
                }
            },
            _ => {},
        }
    }
}

/// A header-field outcome that is not incomplete persists, translated,
/// into any extending tail.
pub proof fn lemma_header_at_mono(s1: Seq<u8>, pos1: int, s2: Seq<u8>, pos2: int)
    requires
        tail_extends(s1, pos1, s2, pos2),
    ensures
        !(header_at(s1, pos1) is Incomplete) ==> header_at(s2, pos2) == shift_pm_header(
            header_at(s1, pos1),
            pos2 - pos1,
        ),
{
    let d = pos2 - pos1;
    if !(header_at(s1, pos1) is Incomplete) {
        lemma_run_at_mono(s1, pos1, s2, pos2, ByteClass::Token);
        lemma_run_at_advance(s1, pos1, ByteClass::Token);
        match run_at(s1, pos1, ByteClass::Token) {
            ParseModel::Matched(name, p1) => {
                lemma_tail_advance(s1, pos1, s2, pos2, p1 - pos1);
                lemma_byte_at_mono(s1, p1, s2, p1 + d, 58, Expected::Colon);
                lemma_byte_at_advance(s1, p1, 58, Expected::Colon);
                match byte_at(s1, p1, 58, Expected::Colon) {
                    ParseModel::Matched(colon, p2) => {
                        lemma_tail_advance(s1, pos1, s2, pos2, p2 - pos1);
                        lemma_byte_at_mono(s1, p2, s2, p2 + d, 32, Expected::Space);
                        lemma_byte_at_advance(s1, p2, 32, Expected::Space);
                        match byte_at(s1, p2, 32, Expected::Space) {
                            ParseModel::Matched(sp, p3) => {
                                lemma_tail_advance(s1, pos1, s2, pos2, p3 - pos1);
                                lemma_run_at_mono(s1, p3, s2, p3 + d, ByteClass::Visible);
                                lemma_run_at_advance(s1, p3, ByteClass::Visible);
                                match run_at(s1, p3, ByteClass::Visible) {
                                    ParseModel::Matched(value, p4) => {
                                        lemma_tail_advance(s1, pos1, s2, pos2, p4 - pos1);
                                        lemma_crlf_at_mono(s1, p4, s2, p4 + d);
                                    },
                                    _ => {},
                                }
                            },
                            _ => {},
                        }
                    },
                    _ => {},
                }
            },
            _ => {},
        }
    }
}

/// A header-block outcome that is not incomplete persists, translated,
/// into any extending tail.
pub proof fn lemma_headers_at_mono(s1: Seq<u8>, pos1: int, s2: Seq<u8>, pos2: int)
    requires
        tail_extends(s1, pos1, s2, pos2),
    ensures
        !(headers_at(s1, pos1) is Incomplete) ==> headers_at(s2, pos2) == shift_pm_headers(
            headers_at(s1, pos1),
            pos2 - pos1,
        ),
    decreases s1.len() - pos1,
{
    let d = pos2 - pos1;
    if !(headers_at(s1, pos1) is Incomplete) {
        lemma_tail_agree(s1, pos1, s2, pos2);
        lemma_header_at_mono(s1, pos1, s2, pos2);
        lemma_header_at_advance(s1, pos1);
        match header_at(s1, pos1) {
            ParseModel::Matched(h, p2) => {
                lemma_tail_advance(s1, pos1, s2, pos2, p2 - pos1);
                lemma_headers_at_mono(s1, p2, s2, p2 + d);
                match headers_at(s1, p2) {
                    ParseModel::Matched(hs, e) => {
                        assert(shift_headers(seq![h] + hs, d) =~= seq![shift_header(h, d)]
                            + shift_headers(hs, d));
                    },
                    _ => {},
                }
            },
            ParseModel::Incomplete => {},
            ParseModel::Failed(ph, eh) => {
                lemma_crlf_at_mono(s1, pos1, s2, pos2);
                match crlf_at(s1, pos1) {
                    ParseModel::Matched(t, pc) => {
                        assert(shift_headers(Seq::<HeaderModel>::empty(), d) =~= Seq::<
                            HeaderModel,
                        >::empty());
                    },
                    _ => {},
                }
            },
        }
    }
}

/// A request-head outcome that is not incomplete persists, translated,
/// into any extending tail: the decoder never reads past the bytes that
/// decided its outcome.
pub proof fn lemma_request_head_at_mono(s1: Seq<u8>, pos1: int, s2: Seq<u8>, pos2: int)
    requires
        tail_extends(s1, pos1, s2, pos2),
    ensures
        !(request_head_at(s1, pos1) is Incomplete) ==> request_head_at(s2, pos2)
            == shift_pm_head(request_head_at(s1, pos1), pos2 - pos1),
{
    let d = pos2 - pos1;
    if !(request_head_at(s1, pos1) is Incomplete) {
        lemma_request_line_at_mono(s1, pos1, s2, pos2);
        lemma_request_line_at_advance(s1, pos1);
        match request_line_at(s1, pos1) {
            ParseModel::Matched(rl, p1) => {
                lemma_tail_advance(s1, pos1, s2, pos2, p1 - pos1);
                lemma_headers_at_mono(s1, p1, s2, p1 + d);
            },
            _ => {},
        }
    }
}

/// A span that lies entirely between `lo` and `hi`.
pub open spec fn span_within(v: SpanModel, lo: int, hi: int) -> bool {
    lo <= v.start && 0 <= v.len && v.start + v.len <= hi
}

/// Both version spans lie between `lo` and `hi`.
pub open spec fn version_within(v: VersionModel, lo: int, hi: int) -> bool {
    span_within(v.major, lo, hi) && span_within(v.minor, lo, hi)
}

/// All request-line spans lie between `lo` and `hi`.
pub open spec fn line_within(v: RequestLineModel, lo: int, hi: int) -> bool {
    span_within(v.method, lo, hi) && span_within(v.uri, lo, hi) && version_within(
        v.version,
        lo,
        hi,
    )
}

/// Both header spans lie between `lo` and `hi`.
pub open spec fn header_within(v: HeaderModel, lo: int, hi: int) -> bool {
    span_within(v.name, lo, hi) && span_within(v.value, lo, hi)
}

/// All spans of all headers lie between `lo` and `hi`.
pub open spec fn headers_within(hs: Seq<HeaderModel>, lo: int, hi: int) -> bool {
    forall|i: int| 0 <= i < hs.len() ==> header_within(#[trigger] hs[i], lo, hi)
}

/// All spans of a head lie between `lo` and `hi`.
pub open spec fn head_within(v: HeadModel, lo: int, hi: int) -> bool {
    line_within(v.request_line, lo, hi) && headers_within(v.headers, lo, hi)
}

/// A matched protocol version's spans lie within the consumed bytes.
proof fn lemma_http_version_spans(s: Seq<u8>, pos: int)
    ensures
        http_version_at(s, pos) matches ParseModel::Matched(v, e) ==> version_within(v, pos, e),
{
    lemma_http_keyword_at_advance(s, pos);
    match http_keyword_at(s, pos) {
        ParseModel::Matched(k, p1) => {
            lemma_run_at_advance(s, p1, ByteClass::Digit);
            match run_at(s, p1, ByteClass::Digit) {
                ParseModel::Matched(major, p2) => {
                    lemma_byte_at_advance(s, p2, 46, Expected::Dot);
                    match byte_at(s, p2, 46, Expected::Dot) {
                        ParseModel::Matched(dot, p3) => {
                            lemma_run_at_advance(s, p3, ByteClass::Digit);
                        },
                        _ => {},
                    }
                },
                _ => {},
            }
        },
        _ => {},
    }
}

/// A matched request line's spans lie within the consumed bytes.
proof fn lemma_request_line_spans(s: Seq<u8>, pos: int)
    ensures
        request_line_at(s, pos) matches ParseModel::Matched(v, e) ==> line_within(v, pos, e),
{
    lemma_run_at_advance(s, pos, ByteClass::Token);
    match run_at(s, pos, ByteClass::Token) {
        ParseModel::Matched(method, p1) => {
            lemma_byte_at_advance(s, p1, 32, Expected::Space);
            match byte_at(s, p1, 32, Expected::Space) {
                ParseModel::Matched(sp1, p2) => {
                    lemma_run_at_advance(s, p2, ByteClass::Visible);
                    match run_at(s, p2, ByteClass::Visible) {
                        ParseModel::Matched(uri, p3) => {
                            lemma_byte_at_advance(s, p3, 32, Expected::Space);
                            match byte_at(s, p3, 32, Expected::Space) {
                                ParseModel::Matched(sp2, p4) => {
                                    lemma_http_version_spans(s, p4);
                                    lemma_http_version_at_advance(s, p4);
                                    match http_version_at(s, p4) {
                                        ParseModel::Matched(version, p5) => {
                                            lemma_crlf_at_advance(s, p5);
                                        },
                                        _ => {},
                                    }
                                },
                                _ => {},
                            }
                        },
                        _ => {},
                    }
                },
                _ => {},
            }
        },
        _ => {},
    }
}

/// A matched header field's spans lie within the consumed bytes.
proof fn lemma_header_spans(s: Seq<u8>, pos: int)
    ensures
        header_at(s, pos) matches ParseModel::Matched(v, e) ==> header_within(v, pos, e),
{
    lemma_run_at_advance(s, pos, ByteClass::Token);
    match run_at(s, pos, ByteClass::Token) {
        ParseModel::Matched(name, p1) => {
            lemma_byte_at_advance(s, p1, 58, Expected::Colon);
            match byte_at(s, p1, 58, Expected::Colon) {
                ParseModel::Matched(colon, p2) => {
                    lemma_byte_at_advance(s, p2, 32, Expected::Space);
                    match byte_at(s, p2, 32, Expected::Space) {
                        ParseModel::Matched(sp, p3) => {
                            lemma_run_at_advance(s, p3, ByteClass::Visible);
                            match run_at(s, p3, ByteClass::Visible) {
                                ParseModel::Matched(value, p4) => {
                                    lemma_crlf_at_advance(s, p4);
                                },
                                _ => {},
                            }
                        },
                        _ => {},
                    }
                },
                _ => {},
            }
        },
        _ => {},
    }
}

/// A matched header block's spans lie within the consumed bytes.
proof fn lemma_headers_spans(s: Seq<u8>, pos: int)
    ensures
        headers_at(s, pos) matches ParseModel::Matched(hs, e) ==> headers_within(hs, pos, e),
    decreases s.len() - pos,
{
    lemma_header_spans(s, pos);
    lemma_header_at_advance(s, pos);
    match header_at(s, pos) {
        ParseModel::Matched(h, p2) => {
            lemma_headers_spans(s, p2);
            lemma_headers_at_bounds(s, p2);
            match headers_at(s, p2) {
                ParseModel::Matched(hs, e) => {
                    match headers_at(s, pos) {
                        ParseModel::Matched(all, e2) => {
                            assert(all == seq![h] + hs);
                            assert forall|i: int| 0 <= i < all.len() implies header_within(
                                #[trigger] all[i],
                                pos,
                                e2,
                            ) by {
                                if i == 0 {
                                    assert(all[0] == h);
                                } else {
                                    assert(all[i] == hs[i - 1]);
                                }
                            }
                        },
                        _ => {},
                    }
                },
                _ => {},
            }
        },
        _ => {},
    }
}

/// Every span of a complete request head is a valid view into the bytes
/// the parse consumed: it starts at or after the cursor the parse began
/// at, and ends at or before the position the parse stopped at. This is
/// the well-formedness invariant of the zero-copy design: a caller slicing
/// the buffer by any returned span stays inside the parsed head.
pub proof fn lemma_request_head_spans(s: Seq<u8>, pos: int)
    ensures
        request_head_at(s, pos) matches ParseModel::Matched(h, e) ==> head_within(h, pos, e),
{
    lemma_request_line_spans(s, pos);
    lemma_request_line_at_advance(s, pos);
    match request_line_at(s, pos) {
        ParseModel::Matched(rl, p1) => {
            lemma_headers_spans(s, p1);
            lemma_headers_at_bounds(s, p1);
        },
        _ => {},
    }
}

/// Truncation is never misread as a protocol error: any strict prefix of a
/// buffer holding a complete request head — cut anywhere before the end of
/// the head — parses as needs-more-input, never as malformed and never as
/// complete.
pub proof fn lemma_prefix_needs_more(s: Seq<u8>, p: int)
    requires
        request_head_at(s, 0) matches ParseModel::Matched(h, e) && 0 <= p < e,
    ensures
        request_head_at(s.take(p), 0) is Incomplete,
{
    let t = s.take(p);
    lemma_request_head_at_bounds(s, 0);
    assert(t.len() == p);
    assert(t.skip(0) =~= t.subrange(0, t.len() as int));
    assert forall|i: int| 0 <= i < t.len() implies t.skip(0)[i] == s.skip(0).subrange(
        0,
        t.len() as int,
    )[i] by {
        assert(t[i] == s[i]);
    }
    assert(t.skip(0) =~= s.skip(0).subrange(0, t.skip(0).len() as int));
    assert(tail_extends(t, 0, s, 0));
    lemma_request_head_at_mono(t, 0, s, 0);
    lemma_request_head_at_bounds(t, 0);
    if !(request_head_at(t, 0) is Incomplete) {
        match request_head_at(t, 0) {
            ParseModel::Matched(h2, e2) => {
                assert(request_head_at(s, 0) == shift_pm_head(request_head_at(t, 0), 0));
                assert(false);
            },
            ParseModel::Failed(q, x) => {
                assert(request_head_at(s, 0) == shift_pm_head(request_head_at(t, 0), 0));
                assert(false);
            },
            ParseModel::Incomplete => {},
        }
    }
}

/// Pipelining: parsing the retained remainder of a buffer is exactly the
/// same as continuing in place at the consumed position, with every span
/// and position translated back by the bytes discarded. In particular,
/// after a complete parse ending at `e`, the unconsumed remainder
/// `s.skip(e)` parses to the next request head exactly as the original
/// buffer does at `e`; applied repeatedly, a buffer holding several
/// back-to-back requests yields each of them in order.
pub proof fn lemma_pipelined_remainder(s: Seq<u8>, e: int)
    requires
        0 <= e <= s.len(),
    ensures
        request_head_at(s.skip(e), 0) == shift_pm_head(request_head_at(s, e), -e),
{
    let t = s.skip(e);
    assert(t.skip(0) =~= t.subrange(0, t.len() as int));
    assert forall|i: int| 0 <= i < t.len() implies t.skip(0)[i] == s.skip(e).subrange(
        0,
        t.len() as int,
    )[i] by {
        assert(t[i] == s[e + i]);
    }
    assert(t.skip(0) =~= s.skip(e).subrange(0, t.skip(0).len() as int));
    assert(s.skip(e) =~= s.skip(e).subrange(0, s.skip(e).len() as int));
    assert(tail_extends(t, 0, s, e));
    assert(tail_extends(s, e, t, 0));
    lemma_request_head_at_mono(s, e, t, 0);
    lemma_request_head_at_mono(t, 0, s, e);
    if request_head_at(s, e) is Incomplete {
        if !(request_head_at(t, 0) is Incomplete) {
            assert(request_head_at(s, e) == shift_pm_head(request_head_at(t, 0), e));
            assert(false);
        }
    }
}

} // verus!
