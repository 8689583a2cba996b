//! RTSP 1.0 messages (RFC 2326) in the subset that Wi-Fi Display uses:
//! parsing from bytes and building back to bytes.

use vstd::prelude::*;
use vstd::string::*;
use vstd::utf8::encode_utf8;

use crate::chars::{decode_text, decode_utf8_lossy, str_chars, string_bytes, string_from_chars};
use crate::rtsp::headers::{
    insert_header, insert_if_absent, keys_unique, law_insert_then_lookup, lookup, HeaderMap,
    HeaderSeq,
};
use crate::text::{
    bytes_find, eq_ignore_ascii_case, range_eq_ignore_ascii_case, starts_with, trim_start,
    range_starts_with, chars_find, decimal, find, find_char, first_segment, lemma_find_char, lemma_find_some, lines,
    lines_from, next_line, parse_bounded, parse_decimal, push_decimal, range_eq, split_once,
    split_once_range, splitn3, trim, trim_range,
};

verus! {

/// Largest message accepted, in bytes.
pub const MAX_MESSAGE_SIZE: usize = 65536;

/// Largest `Content-Length` accepted.
pub const MAX_CONTENT_LENGTH: usize = 16384;

/// Why a message could not be parsed.
#[derive(Debug)]
pub enum ParseError {
    Empty,
    InvalidRequestLine(String),
    InvalidStatusLine(String),
    UnsupportedVersion(String),
    UnknownMethod(String),
    InvalidStatusCode(String),
    MessageTooLarge(usize),
    ContentLengthExceeded(usize),
    Incomplete,
}

/// A parse error with its text as characters.
pub enum ParseErrorView {
    Empty,
    InvalidRequestLine(Seq<char>),
    InvalidStatusLine(Seq<char>),
    UnsupportedVersion(Seq<char>),
    UnknownMethod(Seq<char>),
    InvalidStatusCode(Seq<char>),
    MessageTooLarge(nat),
    ContentLengthExceeded(nat),
    Incomplete,
}

impl View for ParseError {
    type V = ParseErrorView;

    open spec fn view(&self) -> ParseErrorView {
        match self {
            ParseError::Empty => ParseErrorView::Empty,
            ParseError::InvalidRequestLine(s) => ParseErrorView::InvalidRequestLine(s@),
            ParseError::InvalidStatusLine(s) => ParseErrorView::InvalidStatusLine(s@),
            ParseError::UnsupportedVersion(s) => ParseErrorView::UnsupportedVersion(s@),
            ParseError::UnknownMethod(s) => ParseErrorView::UnknownMethod(s@),
            ParseError::InvalidStatusCode(s) => ParseErrorView::InvalidStatusCode(s@),
            ParseError::MessageTooLarge(n) => ParseErrorView::MessageTooLarge(*n as nat),
            ParseError::ContentLengthExceeded(n) => ParseErrorView::ContentLengthExceeded(
                *n as nat,
            ),
            ParseError::Incomplete => ParseErrorView::Incomplete,
        }
    }
}

/// RTSP methods used in Wi-Fi Display session management.
#[derive(Debug, Clone, Copy, PartialEq, Eq, Hash, Structural)]
pub enum RtspMethod {
    Options,
    GetParameter,
    SetParameter,
    Setup,
    Play,
    Pause,
    Teardown,
}

/// The name of a method on the wire.
pub open spec fn method_name(m: RtspMethod) -> Seq<char> {
    match m {
        RtspMethod::Options => "OPTIONS"@,
        RtspMethod::GetParameter => "GET_PARAMETER"@,
        RtspMethod::SetParameter => "SET_PARAMETER"@,
        RtspMethod::Setup => "SETUP"@,
        RtspMethod::Play => "PLAY"@,
        RtspMethod::Pause => "PAUSE"@,
        RtspMethod::Teardown => "TEARDOWN"@,
    }
}

/// The method whose name is exactly `s`.
pub open spec fn method_from_name(s: Seq<char>) -> Option<RtspMethod> {
    if s == "OPTIONS"@ {
        Some(RtspMethod::Options)
    } else if s == "GET_PARAMETER"@ {
        Some(RtspMethod::GetParameter)
    } else if s == "SET_PARAMETER"@ {
        Some(RtspMethod::SetParameter)
    } else if s == "SETUP"@ {
        Some(RtspMethod::Setup)
    } else if s == "PLAY"@ {
        Some(RtspMethod::Play)
    } else if s == "PAUSE"@ {
        Some(RtspMethod::Pause)
    } else if s == "TEARDOWN"@ {
        Some(RtspMethod::Teardown)
    } else {
        None
    }
}

/// The method named by `s[lo..hi]`.
fn method_from_range(s: &[char], lo: usize, hi: usize) -> (r: Option<RtspMethod>)
    requires
        lo <= hi <= s@.len(),
    ensures
        r == method_from_name(s@.subrange(lo as int, hi as int)),
{
    if range_eq(s, lo, hi, &str_chars("OPTIONS")) {
        Some(RtspMethod::Options)
    } else if range_eq(s, lo, hi, &str_chars("GET_PARAMETER")) {
        Some(RtspMethod::GetParameter)
    } else if range_eq(s, lo, hi, &str_chars("SET_PARAMETER")) {
        Some(RtspMethod::SetParameter)
    } else if range_eq(s, lo, hi, &str_chars("SETUP")) {
        Some(RtspMethod::Setup)
    } else if range_eq(s, lo, hi, &str_chars("PLAY")) {
        Some(RtspMethod::Play)
    } else if range_eq(s, lo, hi, &str_chars("PAUSE")) {
        Some(RtspMethod::Pause)
    } else if range_eq(s, lo, hi, &str_chars("TEARDOWN")) {
        Some(RtspMethod::Teardown)
    } else {
        None
    }
}

impl RtspMethod {
    /// The method's name on the wire.
    pub fn as_str(&self) -> (s: &'static str)
        ensures
            s@ == method_name(*self),
    {
        match self {
            RtspMethod::Options => "OPTIONS",
            RtspMethod::GetParameter => "GET_PARAMETER",
            RtspMethod::SetParameter => "SET_PARAMETER",
            RtspMethod::Setup => "SETUP",
            RtspMethod::Play => "PLAY",
            RtspMethod::Pause => "PAUSE",
            RtspMethod::Teardown => "TEARDOWN",
        }
    }

    /// The method named exactly `s`; any other text is an unknown method.
    pub fn from_str(s: &str) -> (r: Result<Self, ParseError>)
        ensures
            match method_from_name(s@) {
                Some(m) => r == Ok::<RtspMethod, ParseError>(m),
                None => r matches Err(e) && e@ == ParseErrorView::UnknownMethod(s@),
            },
    {
        let cs = str_chars(s);
        match method_from_range(&cs, 0, cs.len()) {
            Some(m) => {
                assert(cs@.subrange(0, cs@.len() as int) =~= s@);
                Ok(m)
            },
            None => {
                assert(cs@.subrange(0, cs@.len() as int) =~= s@);
                Err(ParseError::UnknownMethod(s.to_owned()))
            },
        }
    }
}

/// The reason phrase for a status code.
pub open spec fn reason_phrase(code: u16) -> Seq<char> {
    if code == 200 {
        "OK"@
    } else if code == 400 {
        "Bad Request"@
    } else if code == 401 {
        "Unauthorized"@
    } else if code == 404 {
        "Not Found"@
    } else if code == 405 {
        "Method Not Allowed"@
    } else if code == 406 {
        "Not Acceptable"@
    } else if code == 454 {
        "Session Not Found"@
    } else if code == 455 {
        "Method Not Valid in This State"@
    } else if code == 500 {
        "Internal Server Error"@
    } else if code == 501 {
        "Not Implemented"@
    } else if code == 503 {
        "Service Unavailable"@
    } else {
        "Unknown"@
    }
}

/// The reason phrase for a status code.
pub fn status_reason(code: u16) -> (s: &'static str)
    ensures
        s@ == reason_phrase(code),
{
    match code {
        200 => "OK",
        400 => "Bad Request",
        401 => "Unauthorized",
        404 => "Not Found",
        405 => "Method Not Allowed",
        406 => "Not Acceptable",
        454 => "Session Not Found",
        455 => "Method Not Valid in This State",
        500 => "Internal Server Error",
        501 => "Not Implemented",
        503 => "Service Unavailable",
        _ => "Unknown",
    }
}

/// The protocol version this library speaks.
pub open spec fn rtsp_version() -> Seq<char> {
    "RTSP/1.0"@
}

/// A message split into its header section and its trimmed body: at the first
/// blank line written with CR LF, or else at the first written with LF alone.
pub open spec fn split_header_body(text: Seq<char>) -> (Seq<char>, Seq<char>) {
    match find(text, "\r\n\r\n"@) {
        Some(p) => (text.subrange(0, p), trim(text.subrange(p + 4, text.len() as int))),
        None => match find(text, "\n\n"@) {
            Some(p) => (text.subrange(0, p), trim(text.subrange(p + 2, text.len() as int))),
            None => (text, Seq::empty()),
        },
    }
}

/// Bounds of the header section (`text[..r.0]`) and of the body (`text[r.1..r.2]`).
fn header_body_bounds(text: &[char]) -> (r: (usize, usize, usize))
    ensures
        r.0 <= text@.len(),
        r.1 <= r.2 <= text@.len(),
        split_header_body(text@) == (
            text@.subrange(0, r.0 as int),
            text@.subrange(r.1 as int, r.2 as int),
        ),
{
    proof {
        reveal_strlit("\r\n\r\n");
        reveal_strlit("\n\n");
    }
    let crlf = str_chars("\r\n\r\n");
    match chars_find(text, &crlf) {
        Some(p) => {
            proof {
                lemma_find_some(text@, crlf@, 0);
            }
            let n = text.len();
            let (a, b) = trim_range(text, p + 4, text.len());
            (p, a, b)
        },
        None => {
            let lf = str_chars("\n\n");
            match chars_find(text, &lf) {
                Some(p) => {
                    proof {
                        lemma_find_some(text@, lf@, 0);
                    }
                    let n = text.len();
                    let (a, b) = trim_range(text, p + 2, text.len());
                    (p, a, b)
                },
                None => {
                    assert(text@.subrange(0, text@.len() as int) =~= text@);
                    assert(text@.subrange(text@.len() as int, text@.len() as int)
                        =~= Seq::<char>::empty());
                    (text.len(), text.len(), text.len())
                },
            }
        },
    }
}

/// The header field a line holds, if it holds one: the trimmed line cut at
/// its first colon, name and value trimmed.
pub open spec fn header_entry(line: Seq<char>) -> Option<(Seq<char>, Seq<char>)> {
    match split_once(trim(line), ':') {
        Some((k, v)) => Some((trim(k), trim(v))),
        None => None,
    }
}

/// Header lines applied in order to `acc`; a later field of the same name
/// replaces an earlier one.
pub open spec fn fold_headers(acc: HeaderSeq, ls: Seq<Seq<char>>) -> HeaderSeq
    decreases ls.len(),
{
    if ls.len() == 0 {
        acc
    } else {
        let next = match header_entry(ls[0]) {
            Some((k, v)) => insert_header(acc, k, v),
            None => acc,
        };
        fold_headers(next, ls.drop_first())
    }
}

/// The header fields of lines `k..` of `text[..hi]`.
fn parse_headers(text: &[char], k: usize, hi: usize) -> (m: HeaderMap)
    requires
        k <= hi <= text@.len(),
    ensures
        m@ == fold_headers(Seq::empty(), lines_from(text@.subrange(0, hi as int), k as int)),
{
    let ghost t = text@.subrange(0, hi as int);
    let mut m = HeaderMap::new();
    let mut k = k;
    let ghost goal = fold_headers(Seq::empty(), lines_from(t, k as int));
    while k < hi
        invariant
            k <= hi <= text@.len(),
            t == text@.subrange(0, hi as int),
            fold_headers(m@, lines_from(t, k as int)) == goal,
        decreases hi - k,
    {
        let (e, next) = next_line(text, k, hi);
        let ghost line = text@.subrange(k as int, e as int);
        let ghost rest = lines_from(t, next as int);
        assert((seq![line] + rest)[0] == line);
        assert((seq![line] + rest).drop_first() =~= rest);
        let (a, b) = trim_range(text, k, e);
        match split_once_range(text, ':', a, b) {
            Some(j) => {
                let (ka, kb) = trim_range(text, a, j);
                let (va, vb) = trim_range(text, j + 1, b);
                let key = string_from_chars(&text[ka..kb]);
                let value = string_from_chars(&text[va..vb]);
                m.insert(key, value);
            },
            None => {},
        }
        k = next;
    }
    assert(lines_from(t, k as int) == Seq::<Seq<char>>::empty());
    m
}

/// A request with its text as characters.
pub struct RequestView {
    pub method: RtspMethod,
    pub uri: Seq<char>,
    pub headers: HeaderSeq,
    pub body: Seq<char>,
}

/// A response with its text as characters.
pub struct ResponseView {
    pub status_code: u16,
    pub reason: Seq<char>,
    pub headers: HeaderSeq,
    pub body: Seq<char>,
}

/// A request parsed from its decoded text.
pub open spec fn parse_request_text(text: Seq<char>) -> Result<RequestView, ParseErrorView> {
    let (hs, body) = split_header_body(text);
    let ls = lines(hs);
    if ls.len() == 0 {
        Err(ParseErrorView::Empty)
    } else {
        let line = ls[0];
        let parts = splitn3(line, ' ');
        if parts.len() != 3 {
            Err(ParseErrorView::InvalidRequestLine(line))
        } else {
            match method_from_name(parts[0]) {
                None => Err(ParseErrorView::UnknownMethod(parts[0])),
                Some(method) => if parts[2] != rtsp_version() {
                    Err(ParseErrorView::UnsupportedVersion(parts[2]))
                } else {
                    Ok(
                        RequestView {
                            method,
                            uri: parts[1],
                            headers: fold_headers(Seq::empty(), ls.drop_first()),
                            body,
                        },
                    )
                },
            }
        }
    }
}

/// A response parsed from its decoded text.
pub open spec fn parse_response_text(text: Seq<char>) -> Result<ResponseView, ParseErrorView> {
    let (hs, body) = split_header_body(text);
    let ls = lines(hs);
    if ls.len() == 0 {
        Err(ParseErrorView::Empty)
    } else {
        let line = ls[0];
        let parts = splitn3(line, ' ');
        if parts.len() < 2 {
            Err(ParseErrorView::InvalidStatusLine(line))
        } else if parts[0] != rtsp_version() {
            Err(ParseErrorView::UnsupportedVersion(parts[0]))
        } else {
            match parse_bounded(parts[1], 65535) {
                None => Err(ParseErrorView::InvalidStatusCode(parts[1])),
                Some(code) => Ok(
                    ResponseView {
                        status_code: code as u16,
                        reason: if parts.len() > 2 {
                            parts[2]
                        } else {
                            reason_phrase(code as u16)
                        },
                        headers: fold_headers(Seq::empty(), ls.drop_first()),
                        body,
                    },
                ),
            }
        }
    }
}


/// A request or a response, as parsed.
pub open spec fn request_result(r: Result<RtspRequest, ParseError>) -> Result<
    RequestView,
    ParseErrorView,
> {
    match r {
        Ok(q) => Ok(q@),
        Err(e) => Err(e@),
    }
}

/// A response result with its text as characters.
pub open spec fn response_result(r: Result<RtspResponse, ParseError>) -> Result<
    ResponseView,
    ParseErrorView,
> {
    match r {
        Ok(q) => Ok(q@),
        Err(e) => Err(e@),
    }
}

/// A request parsed from bytes: refused when empty or larger than
/// `MAX_MESSAGE_SIZE`, otherwise parsed from its decoded text.
pub open spec fn parse_request_bytes(data: Seq<u8>) -> Result<RequestView, ParseErrorView> {
    if data.len() == 0 {
        Err(ParseErrorView::Empty)
    } else if data.len() > MAX_MESSAGE_SIZE {
        Err(ParseErrorView::MessageTooLarge(data.len()))
    } else {
        parse_request_text(decode_text(data))
    }
}

/// A response parsed from bytes: refused when empty or larger than
/// `MAX_MESSAGE_SIZE`, otherwise parsed from its decoded text.
pub open spec fn parse_response_bytes(data: Seq<u8>) -> Result<ResponseView, ParseErrorView> {
    if data.len() == 0 {
        Err(ParseErrorView::Empty)
    } else if data.len() > MAX_MESSAGE_SIZE {
        Err(ParseErrorView::MessageTooLarge(data.len()))
    } else {
        parse_response_text(decode_text(data))
    }
}

/// A header line as it is written: `name: value` and CR LF.
pub open spec fn header_line(e: (Seq<char>, Seq<char>)) -> Seq<char> {
    e.0 + ": "@ + e.1 + "\r\n"@
}

/// Header lines as they are written, in order.
pub open spec fn headers_text(hs: HeaderSeq) -> Seq<char>
    decreases hs.len(),
{
    if hs.len() == 0 {
        Seq::empty()
    } else {
        headers_text(hs.drop_last()) + header_line(hs.last())
    }
}

/// The length of `s` in bytes, as `str::len` reports it.
pub open spec fn byte_len(s: Seq<char>) -> usize {
    encode_utf8(s).len() as usize
}

/// The header fields written with a body: a non-empty body sets
/// `Content-Length` to its length in bytes and adds `Content-Type:
/// text/parameters` unless a content type is present.
pub open spec fn body_headers(hs: HeaderSeq, body: Seq<char>) -> HeaderSeq {
    if body.len() == 0 {
        hs
    } else {
        insert_if_absent(
            insert_header(hs, "Content-Length"@, decimal(byte_len(body) as nat)),
            "Content-Type"@,
            "text/parameters"@,
        )
    }
}

/// The text of a request as it is sent.
pub open spec fn request_text(r: RequestView) -> Seq<char> {
    method_name(r.method) + " "@ + r.uri + " RTSP/1.0\r\n"@ + headers_text(
        body_headers(r.headers, r.body),
    ) + "\r\n"@ + r.body
}

/// The text of a response as it is sent.
pub open spec fn response_text(r: ResponseView) -> Seq<char> {
    "RTSP/1.0 "@ + decimal(r.status_code as nat) + " "@ + r.reason + "\r\n"@ + headers_text(
        body_headers(r.headers, r.body),
    ) + "\r\n"@ + r.body
}

/// The written header lines of `hs`.
fn write_headers(hs: &HeaderMap) -> (out: String)
    ensures
        out@ == headers_text(hs@),
{
    let mut out = String::new();
    let mut i: usize = 0;
    while i < hs.len()
        invariant
            0 <= i <= hs@.len(),
            out@ == headers_text(hs@.subrange(0, i as int)),
        decreases hs@.len() - i,
    {
        let (k, v) = hs.entry(i);
        out.append(k.as_str());
        out.append(": ");
        out.append(v.as_str());
        out.append("\r\n");
        assert(hs@.subrange(0, i + 1).drop_last() =~= hs@.subrange(0, i as int));
        assert(hs@.subrange(0, i + 1).last() == hs@[i as int]);
        i = i + 1;
    }
    assert(hs@.subrange(0, i as int) =~= hs@);
    out
}

/// The decimal numeral of `n` as a string.
pub(crate) fn decimal_string(n: u64) -> (s: String)
    ensures
        s@ == decimal(n as nat),
{
    let mut digits: Vec<char> = Vec::new();
    push_decimal(&mut digits, n);
    assert(digits@ =~= decimal(n as nat));
    string_from_chars(&digits)
}

/// The header fields to write with `body`.
fn fields_with_body(hs: &HeaderMap, body: &String) -> (m: HeaderMap)
    ensures
        m@ == body_headers(hs@, body@),
{
    let mut m = hs.duplicate();
    if !body.as_str().is_empty() {
        let n = body.as_str().len();
        m.insert("Content-Length".to_owned(), decimal_string(n as u64));
        m.insert_if_absent("Content-Type".to_owned(), "text/parameters".to_owned());
    }
    m
}

/// The value of the `CSeq` field read as a number, when it is one that fits.
pub open spec fn cseq_of(hs: HeaderSeq) -> Option<nat> {
    match lookup(hs, "CSeq"@) {
        Some(v) => parse_bounded(v, u32::MAX as nat),
        None => None,
    }
}

/// The session identifier in a `Session` field: what precedes the first
/// `;`, trimmed.
pub open spec fn session_of(hs: HeaderSeq) -> Option<Seq<char>> {
    match lookup(hs, "Session"@) {
        Some(v) => Some(trim(first_segment(v, ';'))),
        None => None,
    }
}

/// The `CSeq` that `with_cseq` sets reads back as the number written.
pub proof fn law_cseq_roundtrip(hs: HeaderSeq, c: u32)
    requires
        keys_unique(hs),
    ensures
        cseq_of(insert_header(hs, "CSeq"@, decimal(c as nat))) == Some(c as nat),
{
    law_insert_then_lookup(hs, "CSeq"@, decimal(c as nat), "CSeq"@);
    crate::text::lemma_decimal_roundtrip(c as nat);
}

/// A `Session` field written as an identifier, optionally followed by
/// parameters after `;`, reads back as that identifier, when it has no `;`
/// and no white space at either end.
pub proof fn law_session_id_roundtrip(hs: HeaderSeq, id: Seq<char>, params: Seq<char>)
    requires
        keys_unique(hs),
        crate::text::lacks(id, ';'),
        crate::text::is_trimmed(id),
    ensures
        session_of(insert_header(hs, "Session"@, id)) == Some(id),
        session_of(insert_header(hs, "Session"@, id + seq![';'] + params)) == Some(id),
{
    law_insert_then_lookup(hs, "Session"@, id, "Session"@);
    law_insert_then_lookup(hs, "Session"@, id + seq![';'] + params, "Session"@);
    crate::text::lemma_split_once_at(id, ';', params);
    crate::text::lemma_trim_trimmed(id);
    crate::text::lemma_find_char(id, ';', 0, id.len() as int);
}

/// An optional `u32` as an optional natural number.
pub open spec fn opt_u32(r: Option<u32>) -> Option<nat> {
    match r {
        Some(v) => Some(v as nat),
        None => None,
    }
}

/// The `CSeq` field of `hs` read as a number.
fn cseq_field(hs: &HeaderMap) -> (r: Option<u32>)
    ensures
        opt_u32(r) == cseq_of(hs@),
{
    match hs.get("CSeq") {
        Some(v) => {
            let cs = str_chars(v.as_str());
            assert(cs@.subrange(0, cs@.len() as int) =~= v@);
            match parse_decimal(&cs, 0, cs.len(), 0xFFFF_FFFF) {
                Some(n) => Some(n as u32),
                None => None,
            }
        },
        None => None,
    }
}

/// The session identifier in the `Session` field of `hs`.
fn session_field(hs: &HeaderMap) -> (r: Option<&str>)
    ensures
        match r {
            Some(id) => session_of(hs@) == Some(id@),
            None => session_of(hs@) is None,
        },
{
    match hs.get("Session") {
        Some(v) => {
            let s = v.as_str();
            let cs = str_chars(s);
            let j = find_char(&cs, ';', 0, cs.len());
            proof {
                lemma_find_char(cs@, ';', 0, j as int);
                assert(cs@.subrange(0, cs@.len() as int) =~= cs@);
            }
            let (a, b) = trim_range(&cs, 0, j);
            proof {
                if j == cs.len() {
                    assert(cs@.subrange(0, j as int) =~= cs@);
                }
            }
            Some(s.substring_char(a, b))
        },
        None => None,
    }
}

/// An RTSP request message.
#[derive(Debug)]
pub struct RtspRequest {
    pub method: RtspMethod,
    pub uri: String,
    pub headers: HeaderMap,
    pub body: String,
}

impl View for RtspRequest {
    type V = RequestView;

    open spec fn view(&self) -> RequestView {
        RequestView {
            method: self.method,
            uri: self.uri@,
            headers: self.headers@,
            body: self.body@,
        }
    }
}

impl RtspRequest {
    /// A request with the given method and URI, no header fields and no body.
    pub fn new(method: RtspMethod, uri: &str) -> (r: Self)
        ensures
            r@ == (RequestView {
                method,
                uri: uri@,
                headers: Seq::empty(),
                body: Seq::empty(),
            }),
    {
        RtspRequest { method, uri: uri.to_owned(), headers: HeaderMap::new(), body: String::new() }
    }

    /// Sets the `CSeq` field.
    pub fn with_cseq(self, cseq: u32) -> (r: Self)
        ensures
            r@ == (RequestView {
                headers: insert_header(self@.headers, "CSeq"@, decimal(cseq as nat)),
                ..self@
            }),
    {
        let mut r = self;
        r.headers.insert("CSeq".to_owned(), decimal_string(cseq as u64));
        r
    }

    /// Sets a header field.
    pub fn with_header(self, key: &str, value: &str) -> (r: Self)
        ensures
            r@ == (RequestView { headers: insert_header(self@.headers, key@, value@), ..self@ }),
    {
        let mut r = self;
        r.headers.insert(key.to_owned(), value.to_owned());
        r
    }

    /// Sets the body.
    pub fn with_body(self, body: &str) -> (r: Self)
        ensures
            r@ == (RequestView { body: body@, ..self@ }),
    {
        let mut r = self;
        r.body = body.to_owned();
        r
    }

    /// The `CSeq` field read as a number.
    pub fn cseq(&self) -> (r: Option<u32>)
        ensures
            opt_u32(r) == cseq_of(self@.headers),
    {
        cseq_field(&self.headers)
    }

    /// The session identifier, without the timeout parameter.
    pub fn session_id(&self) -> (r: Option<&str>)
        ensures
            match r {
                Some(id) => session_of(self@.headers) == Some(id@),
                None => session_of(self@.headers) is None,
            },
    {
        session_field(&self.headers)
    }

    /// The request as bytes to send.
    pub fn serialize(&self) -> (b: Vec<u8>)
        ensures
            b@ == encode_utf8(request_text(self@)),
    {
        let mut out = String::new();
        out.append(self.method.as_str());
        out.append(" ");
        out.append(self.uri.as_str());
        out.append(" RTSP/1.0\r\n");
        let fields = fields_with_body(&self.headers, &self.body);
        let lines = write_headers(&fields);
        out.append(lines.as_str());
        out.append("\r\n");
        out.append(self.body.as_str());
        string_bytes(&out)
    }

    /// A request parsed from its decoded text.
    pub fn parse_text(text: &[char]) -> (r: Result<Self, ParseError>)
        ensures
            request_result(r) == parse_request_text(text@),
    {
        let (he, bl, bh) = header_body_bounds(text);
        let ghost hs = text@.subrange(0, he as int);
        if he == 0 {
            assert(lines(hs) == Seq::<Seq<char>>::empty());
            return Err(ParseError::Empty);
        }
        let (e, next) = next_line(text, 0, he);
        let ghost ls = lines(hs);
        assert(ls[0] == text@.subrange(0, e as int));
        assert(ls.drop_first() =~= lines_from(hs, next as int));
        match split_once_range(text, ' ', 0, e) {
            None => Err(ParseError::InvalidRequestLine(string_from_chars(&text[0..e]))),
            Some(j1) => match split_once_range(text, ' ', j1 + 1, e) {
                None => Err(ParseError::InvalidRequestLine(string_from_chars(&text[0..e]))),
                Some(j2) => {
                    let method = match method_from_range(text, 0, j1) {
                        Some(m) => m,
                        None => {
                            return Err(
                                ParseError::UnknownMethod(string_from_chars(&text[0..j1])),
                            );
                        },
                    };
                    if !range_eq(text, j2 + 1, e, &str_chars("RTSP/1.0")) {
                        return Err(
                            ParseError::UnsupportedVersion(string_from_chars(&text[j2 + 1..e])),
                        );
                    }
                    let headers = parse_headers(text, next, he);
                    Ok(
                        RtspRequest {
                            method,
                            uri: string_from_chars(&text[j1 + 1..j2]),
                            headers,
                            body: string_from_chars(&text[bl..bh]),
                        },
                    )
                },
            },
        }
    }

    /// A request parsed from bytes.
    pub fn parse(data: &[u8]) -> (r: Result<Self, ParseError>)
        ensures
            request_result(r) == parse_request_bytes(data@),
    {
        if data.len() == 0 {
            return Err(ParseError::Empty);
        }
        if data.len() > MAX_MESSAGE_SIZE {
            return Err(ParseError::MessageTooLarge(data.len()));
        }
        let text = decode_utf8_lossy(data);
        Self::parse_text(&text)
    }
}

/// An RTSP response message.
#[derive(Debug)]
pub struct RtspResponse {
    pub status_code: u16,
    pub reason: String,
    pub headers: HeaderMap,
    pub body: String,
}

impl View for RtspResponse {
    type V = ResponseView;

    open spec fn view(&self) -> ResponseView {
        ResponseView {
            status_code: self.status_code,
            reason: self.reason@,
            headers: self.headers@,
            body: self.body@,
        }
    }
}

impl RtspResponse {
    /// A `200 OK` response carrying `CSeq`.
    pub fn ok(cseq: u32) -> (r: Self)
        ensures
            r@ == (ResponseView {
                status_code: 200,
                reason: "OK"@,
                headers: seq![("CSeq"@, decimal(cseq as nat))],
                body: Seq::empty(),
            }),
    {
        let mut headers = HeaderMap::new();
        headers.insert("CSeq".to_owned(), decimal_string(cseq as u64));
        let r = RtspResponse { status_code: 200, reason: "OK".to_owned(), headers, body: String::new() };
        assert(r@.headers =~= seq![("CSeq"@, decimal(cseq as nat))]);
        r
    }

    /// An error response with the standard reason phrase, carrying `CSeq`.
    pub fn error(status_code: u16, cseq: u32) -> (r: Self)
        ensures
            r@ == (ResponseView {
                status_code,
                reason: reason_phrase(status_code),
                headers: seq![("CSeq"@, decimal(cseq as nat))],
                body: Seq::empty(),
            }),
    {
        let reason = status_reason(status_code).to_owned();
        let mut headers = HeaderMap::new();
        headers.insert("CSeq".to_owned(), decimal_string(cseq as u64));
        let r = RtspResponse { status_code, reason, headers, body: String::new() };
        assert(r@.headers =~= seq![("CSeq"@, decimal(cseq as nat))]);
        r
    }

    /// Sets a header field.
    pub fn with_header(self, key: &str, value: &str) -> (r: Self)
        ensures
            r@ == (ResponseView { headers: insert_header(self@.headers, key@, value@), ..self@ }),
    {
        let mut r = self;
        r.headers.insert(key.to_owned(), value.to_owned());
        r
    }

    /// Sets the body.
    pub fn with_body(self, body: &str) -> (r: Self)
        ensures
            r@ == (ResponseView { body: body@, ..self@ }),
    {
        let mut r = self;
        r.body = body.to_owned();
        r
    }

    /// The `CSeq` field read as a number.
    pub fn cseq(&self) -> (r: Option<u32>)
        ensures
            opt_u32(r) == cseq_of(self@.headers),
    {
        cseq_field(&self.headers)
    }

    /// The session identifier, without the timeout parameter.
    pub fn session_id(&self) -> (r: Option<&str>)
        ensures
            match r {
                Some(id) => session_of(self@.headers) == Some(id@),
                None => session_of(self@.headers) is None,
            },
    {
        session_field(&self.headers)
    }

    /// The response as bytes to send.
    pub fn serialize(&self) -> (b: Vec<u8>)
        ensures
            b@ == encode_utf8(response_text(self@)),
    {
        let mut out = String::new();
        out.append("RTSP/1.0 ");
        let code = decimal_string(self.status_code as u64);
        out.append(code.as_str());
        out.append(" ");
        out.append(self.reason.as_str());
        out.append("\r\n");
        let fields = fields_with_body(&self.headers, &self.body);
        let lines = write_headers(&fields);
        out.append(lines.as_str());
        out.append("\r\n");
        out.append(self.body.as_str());
        string_bytes(&out)
    }

    /// A response parsed from its decoded text.
    pub fn parse_text(text: &[char]) -> (r: Result<Self, ParseError>)
        ensures
            response_result(r) == parse_response_text(text@),
    {
        let (he, bl, bh) = header_body_bounds(text);
        let ghost hs = text@.subrange(0, he as int);
        if he == 0 {
            assert(lines(hs) == Seq::<Seq<char>>::empty());
            return Err(ParseError::Empty);
        }
        let (e, next) = next_line(text, 0, he);
        let ghost ls = lines(hs);
        assert(ls[0] == text@.subrange(0, e as int));
        assert(ls.drop_first() =~= lines_from(hs, next as int));
        let j1 = match split_once_range(text, ' ', 0, e) {
            None => {
                return Err(ParseError::InvalidStatusLine(string_from_chars(&text[0..e])));
            },
            Some(j1) => j1,
        };
        if !range_eq(text, 0, j1, &str_chars("RTSP/1.0")) {
            return Err(ParseError::UnsupportedVersion(string_from_chars(&text[0..j1])));
        }
        let second = split_once_range(text, ' ', j1 + 1, e);
        let code_end = match second {
            Some(j2) => j2,
            None => e,
        };
        let code = match parse_decimal(text, j1 + 1, code_end, 65535) {
            Some(c) => c as u16,
            None => {
                return Err(ParseError::InvalidStatusCode(string_from_chars(&text[j1 + 1..code_end])));
            },
        };
        let reason = match second {
            Some(j2) => string_from_chars(&text[j2 + 1..e]),
            None => status_reason(code).to_owned(),
        };
        let headers = parse_headers(text, next, he);
        Ok(RtspResponse { status_code: code, reason, headers, body: string_from_chars(&text[bl..bh]) })
    }

    /// A response parsed from bytes.
    pub fn parse(data: &[u8]) -> (r: Result<Self, ParseError>)
        ensures
            response_result(r) == parse_response_bytes(data@),
    {
        if data.len() == 0 {
            return Err(ParseError::Empty);
        }
        if data.len() > MAX_MESSAGE_SIZE {
            return Err(ParseError::MessageTooLarge(data.len()));
        }
        let text = decode_utf8_lossy(data);
        Self::parse_text(&text)
    }
}


/// A message parsed from a buffer: a request or a response.
#[derive(Debug)]
pub enum ParsedMessage {
    Request(RtspRequest),
    Response(RtspResponse),
}

/// A parsed message with its text as characters.
pub enum MessageView {
    Request(RequestView),
    Response(ResponseView),
}

impl View for ParsedMessage {
    type V = MessageView;

    open spec fn view(&self) -> MessageView {
        match self {
            ParsedMessage::Request(r) => MessageView::Request(r@),
            ParsedMessage::Response(r) => MessageView::Response(r@),
        }
    }
}

/// Where the header section of a buffer ends and how long the blank line after
/// it is: at the first CR LF CR LF, or else at the first LF LF.
pub open spec fn header_block_end(buf: Seq<u8>) -> Option<(int, int)> {
    match find(buf, seq![13u8, 10u8, 13u8, 10u8]) {
        Some(p) => Some((p, 4)),
        None => match find(buf, seq![10u8, 10u8]) {
            Some(p) => Some((p, 2)),
            None => None,
        },
    }
}

/// Whether a header line names `Content-Length`, in any ASCII case.
pub open spec fn is_content_length_line(line: Seq<char>) -> bool {
    line.len() >= 15 && eq_ignore_ascii_case(line.subrange(0, 15), "content-length:"@)
}

/// The number after `Content-Length:`, or 0 where there is no such number.
pub open spec fn content_length_value(line: Seq<char>) -> nat {
    match parse_bounded(trim(line.subrange(15, line.len() as int)), usize::MAX as nat) {
        Some(v) => v,
        None => 0,
    }
}

/// The value of the first `Content-Length` line, or 0 when there is none.
pub open spec fn content_length_in(ls: Seq<Seq<char>>) -> nat
    decreases ls.len(),
{
    if ls.len() == 0 {
        0
    } else if is_content_length_line(ls[0]) {
        content_length_value(ls[0])
    } else {
        content_length_in(ls.drop_first())
    }
}

/// The content length that a header section announces.
pub open spec fn announced_length(header: Seq<char>) -> nat {
    content_length_in(lines(header))
}

/// Whether decoded text is a response: it starts, after white space, with `RTSP/`.
pub open spec fn is_response_text(text: Seq<char>) -> bool {
    starts_with(trim_start(text), "RTSP/"@)
}

/// What `try_parse_message` makes of a buffer.
pub open spec fn try_parse_spec(buf: Seq<u8>) -> Result<Option<(MessageView, int)>, ParseErrorView> {
    if buf.len() > MAX_MESSAGE_SIZE {
        Err(ParseErrorView::MessageTooLarge(buf.len()))
    } else {
        match header_block_end(buf) {
            None => Ok(None),
            Some((he, sl)) => {
                let cl = announced_length(decode_text(buf.subrange(0, he)));
                if cl > MAX_CONTENT_LENGTH {
                    Err(ParseErrorView::ContentLengthExceeded(cl))
                } else if buf.len() < he + sl + cl {
                    Ok(None)
                } else {
                    let total = he + sl + cl;
                    let msg = buf.subrange(0, total);
                    if is_response_text(decode_text(msg)) {
                        match parse_response_bytes(msg) {
                            Ok(r) => Ok(Some((MessageView::Response(r), total))),
                            Err(e) => Err(e),
                        }
                    } else {
                        match parse_request_bytes(msg) {
                            Ok(r) => Ok(Some((MessageView::Request(r), total))),
                            Err(e) => Err(e),
                        }
                    }
                }
            },
        }
    }
}

/// A `try_parse_message` result with texts as characters.
pub open spec fn try_parse_result(r: Result<Option<(ParsedMessage, usize)>, ParseError>) -> Result<
    Option<(MessageView, int)>,
    ParseErrorView,
> {
    match r {
        Ok(Some((m, n))) => Ok(Some((m@, n as int))),
        Ok(None) => Ok(None),
        Err(e) => Err(e@),
    }
}

/// The content length announced by a decoded header section.
pub fn content_length(header: &[char]) -> (n: usize)
    ensures
        n as nat == announced_length(header@),
{
    let ghost t = header@.subrange(0, header@.len() as int);
    assert(t =~= header@);
    let name = str_chars("content-length:");
    proof {
        reveal_strlit("content-length:");
    }
    let hi = header.len();
    let mut k: usize = 0;
    while k < hi
        invariant
            k <= hi == header@.len(),
            t == header@,
            name@ == "content-length:"@,
            name@.len() == 15,
            content_length_in(lines_from(t, k as int)) == announced_length(header@),
        decreases hi - k,
    {
        assert(header@.subrange(0, hi as int) =~= t);
        let (e, next) = next_line(header, k, hi);
        let ghost line = header@.subrange(k as int, e as int);
        let ghost rest = lines_from(t, next as int);
        assert((seq![line] + rest)[0] == line);
        assert((seq![line] + rest).drop_first() =~= rest);
        if e - k >= 15 && range_eq_ignore_ascii_case(header, k, k + 15, &name) {
            assert(line.subrange(0, 15) =~= header@.subrange(k as int, k + 15));
            let (a, b) = trim_range(header, k + 15, e);
            assert(line.subrange(15, line.len() as int) =~= header@.subrange(k + 15, e as int));
            return match parse_decimal(header, a, b, usize::MAX as u64) {
                Some(v) => v as usize,
                None => 0,
            };
        }
        proof {
            if e - k >= 15 {
                assert(line.subrange(0, 15) =~= header@.subrange(k as int, k + 15));
            }
        }
        k = next;
    }
    0
}

/// Whether decoded text is a response rather than a request.
pub fn is_response(text: &[char]) -> (b: bool)
    ensures
        b == is_response_text(text@),
{
    let a = crate::text::trim_start_index(text, 0, text.len());
    assert(text@.subrange(0, text@.len() as int) =~= text@);
    range_starts_with(text, a, text.len(), &str_chars("RTSP/"))
}

/// Tries to parse one complete message from the start of a buffer.
///
/// Returns the message and the number of bytes it took, `Ok(None)` when the
/// buffer does not hold a complete message yet, or why the data is invalid.
pub fn try_parse_message(buf: &[u8]) -> (r: Result<Option<(ParsedMessage, usize)>, ParseError>)
    ensures
        try_parse_result(r) == try_parse_spec(buf@),
{
    if buf.len() > MAX_MESSAGE_SIZE {
        return Err(ParseError::MessageTooLarge(buf.len()));
    }
    let crlf: [u8; 4] = [13, 10, 13, 10];
    let lf: [u8; 2] = [10, 10];
    assert(crlf@ =~= seq![13u8, 10u8, 13u8, 10u8]);
    assert(lf@ =~= seq![10u8, 10u8]);
    let (he, sl) = match bytes_find(buf, &crlf) {
        Some(p) => (p, 4usize),
        None => match bytes_find(buf, &lf) {
            Some(p) => (p, 2usize),
            None => {
                return Ok(None);
            },
        },
    };
    proof {
        if sl == 4 {
            crate::text::lemma_find_some(buf@, crlf@, 0);
        } else {
            crate::text::lemma_find_some(buf@, lf@, 0);
        }
    }
    let header = decode_utf8_lossy(&buf[0..he]);
    let cl = content_length(&header);
    if cl > MAX_CONTENT_LENGTH {
        return Err(ParseError::ContentLengthExceeded(cl));
    }
    let total = he + sl + cl;
    if buf.len() < total {
        return Ok(None);
    }
    let msg = &buf[0..total];
    let text = decode_utf8_lossy(msg);
    if is_response(&text) {
        match RtspResponse::parse(msg) {
            Ok(r) => Ok(Some((ParsedMessage::Response(r), total))),
            Err(e) => Err(e),
        }
    } else {
        match RtspRequest::parse(msg) {
            Ok(r) => Ok(Some((ParsedMessage::Request(r), total))),
            Err(e) => Err(e),
        }
    }
}

} // verus!
