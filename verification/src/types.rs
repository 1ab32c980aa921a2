//! Data carried by the decoder: zero-copy spans, the structured request
//! head, the shared three-way parse outcome, and the ghost models that the
//! contracts are stated over.

use vstd::prelude::*;

verus! {

/// The grammar construct that the decoder expected at the position named by
/// a `Malformed` outcome.
#[derive(Clone, Copy, Debug, PartialEq, Eq, Structural)]
pub enum Expected {
    /// A non-empty run of token characters (a method or header name).
    Token,
    /// A single space byte.
    Space,
    /// A non-empty run of visible (printable, non-space) characters.
    Visible,
    /// A non-empty run of visible-or-linear-whitespace characters.
    VisibleOrWs,
    /// A non-empty run of ASCII digits.
    Digit,
    /// A byte of the literal `HTTP/` that opens the protocol version.
    HttpKeyword,
    /// The literal dot between the two version components.
    Dot,
    /// The literal colon after a header name.
    Colon,
    /// The two-byte line terminator, carriage return then line feed.
    Crlf,
    /// Either a further header field or the blank line that ends the head.
    HeaderOrEnd,
}

/// A zero-copy view into the input buffer: `len` bytes starting at byte
/// offset `start`. It is valid only against the buffer that produced it.
#[derive(Clone, Copy, Debug, PartialEq, Eq, Structural)]
pub struct Span {
    pub start: usize,
    pub len: usize,
}

/// Mathematical counterpart of `Span`.
pub struct SpanModel {
    pub start: int,
    pub len: int,
}

impl View for Span {
    type V = SpanModel;

    open spec fn view(&self) -> SpanModel {
        SpanModel { start: self.start as int, len: self.len as int }
    }
}

/// Protocol version as the two digit runs of `HTTP/<major>.<minor>`, in
/// canonical major-then-minor order.
#[derive(Clone, Copy, Debug, PartialEq, Eq, Structural)]
pub struct HttpVersion {
    pub major: Span,
    pub minor: Span,
}

/// Mathematical counterpart of `HttpVersion`.
pub struct VersionModel {
    pub major: SpanModel,
    pub minor: SpanModel,
}

impl View for HttpVersion {
    type V = VersionModel;

    open spec fn view(&self) -> VersionModel {
        VersionModel { major: self.major@, minor: self.minor@ }
    }
}

/// The request line: method, request target, and protocol version.
#[derive(Clone, Copy, Debug, PartialEq, Eq, Structural)]
pub struct RequestLine {
    pub method: Span,
    pub uri: Span,
    pub version: HttpVersion,
}

/// Mathematical counterpart of `RequestLine`.
pub struct RequestLineModel {
    pub method: SpanModel,
    pub uri: SpanModel,
    pub version: VersionModel,
}

impl View for RequestLine {
    type V = RequestLineModel;

    open spec fn view(&self) -> RequestLineModel {
        RequestLineModel { method: self.method@, uri: self.uri@, version: self.version@ }
    }
}

/// One header field: name and value.
#[derive(Clone, Copy, Debug, PartialEq, Eq, Structural)]
pub struct RequestHeader {
    pub name: Span,
    pub value: Span,
}

/// Mathematical counterpart of `RequestHeader`.
pub struct HeaderModel {
    pub name: SpanModel,
    pub value: SpanModel,
}

impl View for RequestHeader {
    type V = HeaderModel;

    open spec fn view(&self) -> HeaderModel {
        HeaderModel { name: self.name@, value: self.value@ }
    }
}

/// The whole request head: the request line plus the header fields in
/// exactly the order they were received.
#[derive(Clone, Debug, PartialEq)]
pub struct RequestHead {
    pub request_line: RequestLine,
    pub headers: Vec<RequestHeader>,
}

/// Mathematical counterpart of `RequestHead`.
pub struct HeadModel {
    pub request_line: RequestLineModel,
    pub headers: Seq<HeaderModel>,
}

impl View for RequestHead {
    type V = HeadModel;

    open spec fn view(&self) -> HeadModel {
        HeadModel {
            request_line: self.request_line@,
            headers: self.headers@.map_values(|h: RequestHeader| h@),
        }
    }
}

/// Three-way outcome shared by every parser, so that partial socket reads
/// compose: a parser never confuses "not enough bytes yet" with a protocol
/// error.
#[derive(Clone, Copy, Debug, PartialEq)]
pub enum Outcome<T> {
    /// The construct matched; the `usize` is the index of the first byte the
    /// parser did not consume.
    Complete(T, usize),
    /// The available bytes are a valid prefix but do not yet decide the
    /// match boundary; the caller must supply more input and retry.
    NeedsMoreInput,
    /// The grammar is violated: the position reached and the construct that
    /// was expected there.
    Malformed(usize, Expected),
}

/// Ghost counterpart of `Outcome`, over unbounded positions.
pub enum ParseModel<T> {
    Matched(T, int),
    Incomplete,
    Failed(int, Expected),
}

/// Relates an executable outcome to its ghost model: same variant, and the
/// carried value, positions and expected construct agree.
pub open spec fn models<T: View>(r: Outcome<T>, m: ParseModel<<T as View>::V>) -> bool {
    match (r, m) {
        (Outcome::Complete(v, e), ParseModel::Matched(mv, me)) => v@ == mv && e as int == me,
        (Outcome::NeedsMoreInput, ParseModel::Incomplete) => true,
        (Outcome::Malformed(p, ex), ParseModel::Failed(mp, mex)) => p as int == mp && ex == mex,
        _ => false,
    }
}

/// Structural identity of two outcomes: same variant, equal positions, and
/// carried values with equal views.
pub open spec fn outcome_equivalent<T: View>(r1: Outcome<T>, r2: Outcome<T>) -> bool {
    match (r1, r2) {
        (Outcome::Complete(v1, e1), Outcome::Complete(v2, e2)) => v1@ == v2@ && e1 == e2,
        (Outcome::NeedsMoreInput, Outcome::NeedsMoreInput) => true,
        (Outcome::Malformed(p1, x1), Outcome::Malformed(p2, x2)) => p1 == p2 && x1 == x2,
        _ => false,
    }
}

} // verus!
