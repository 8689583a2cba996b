//! The Miracast source's RTSP/WFD session (M1-M7 establishment, M8 teardown,
//! M14 keep-alive) as a state machine: each event (a message sent, a message
//! received, a request to establish, tear down or keep alive) gives the next
//! state and the action to perform. Connecting, reading, writing and waiting
//! are left to the caller, which feeds the bytes it reads into the session's
//! receive buffer.

use vstd::prelude::*;
use vstd::string::*;
use vstd::utf8::encode_utf8;

use crate::chars::{str_chars, string_from_chars};
use crate::rtsp::headers::{insert_header, lookup, HeaderSeq};
use crate::rtsp::messages::{
    cseq_of, decimal_string, request_text, response_text, try_parse_message, try_parse_spec, MessageView,
    ParseError, ParseErrorView, ParsedMessage, RequestView, ResponseView, RtspMethod,
    RtspRequest, RtspResponse,
};
use crate::text::{
    decimal, find_char, first_segment, lemma_find_char, parse_bounded, parse_decimal,
    range_starts_with, segments, segments_from, starts_with, trim, trim_range,
};
use crate::wfd::{body_params, WfdParameters, WfdView};

verus! {

/// Default WFD control port (TCP).
pub const WFD_DEFAULT_CONTROL_PORT: u16 = 7236;

/// RTP port used when the sink names none.
pub const DEFAULT_RTP_PORT: u16 = 19000;

/// Size at which a receive buffer without a complete message is refused.
pub const MAX_RECV_BUFFER: usize = 65536;

/// Largest number of bytes taken from the connection at a time.
pub const RECV_CHUNK: usize = 4096;

/// WFD RTSP session states.
#[derive(Debug, Clone, Copy, PartialEq, Eq, Structural)]
pub enum SessionState {
    Init,
    M1Sent,
    M2Received,
    M3Sent,
    M4Sent,
    M5Sent,
    M6Received,
    M7Received,
    Streaming,
    Teardown,
    Done,
    Error,
}

/// Configuration for an RTSP/WFD session.
#[derive(Debug, Clone)]
pub struct SessionConfig {
    pub peer_ip: String,
    pub control_port: u16,
    pub local_ip: String,
}

impl Default for SessionConfig {
    fn default() -> (c: Self)
        ensures
            c.peer_ip@ == Seq::<char>::empty(),
            c.control_port == WFD_DEFAULT_CONTROL_PORT,
            c.local_ip@ == Seq::<char>::empty(),
    {
        SessionConfig {
            peer_ip: String::new(),
            control_port: WFD_DEFAULT_CONTROL_PORT,
            local_ip: String::new(),
        }
    }
}

/// Parameters negotiated during session establishment.
#[derive(Debug, Clone)]
pub struct NegotiatedParams {
    pub sink_capabilities: Option<WfdParameters>,
    pub rtp_port: u16,
    pub session_id: String,
    pub selected_width: u32,
    pub selected_height: u32,
    pub selected_fps: u32,
}

/// Negotiated parameters with texts as characters.
pub struct NegotiatedView {
    pub sink_capabilities: Option<WfdView>,
    pub rtp_port: u16,
    pub session_id: Seq<char>,
    pub selected_width: u32,
    pub selected_height: u32,
    pub selected_fps: u32,
}

impl View for NegotiatedParams {
    type V = NegotiatedView;

    open spec fn view(&self) -> NegotiatedView {
        NegotiatedView {
            sink_capabilities: match self.sink_capabilities {
                Some(p) => Some(p@),
                None => None,
            },
            rtp_port: self.rtp_port,
            session_id: self.session_id@,
            selected_width: self.selected_width,
            selected_height: self.selected_height,
            selected_fps: self.selected_fps,
        }
    }
}

impl Default for NegotiatedParams {
    fn default() -> (p: Self)
        ensures
            p@ == (NegotiatedView {
                sink_capabilities: None,
                rtp_port: 0,
                session_id: Seq::empty(),
                selected_width: 0,
                selected_height: 0,
                selected_fps: 0,
            }),
    {
        NegotiatedParams {
            sink_capabilities: None,
            rtp_port: 0,
            session_id: String::new(),
            selected_width: 0,
            selected_height: 0,
            selected_fps: 0,
        }
    }
}

/// The client port named by one `;`-separated Transport parameter: the
/// trimmed parameter starts with `client_port=`, and the number before any
/// `-` is a port other than 0.
pub open spec fn client_port_of(param: Seq<char>) -> Option<u16> {
    let t = trim(param);
    if starts_with(t, "client_port="@) {
        match parse_bounded(first_segment(t.subrange(12, t.len() as int), '-'), 65535) {
            Some(p) => if p > 0 {
                Some(p as u16)
            } else {
                None
            },
            None => None,
        }
    } else {
        None
    }
}

/// The first client port among Transport parameters, or 19000.
pub open spec fn port_in_params(ps: Seq<Seq<char>>) -> u16
    decreases ps.len(),
{
    if ps.len() == 0 {
        DEFAULT_RTP_PORT
    } else {
        match client_port_of(ps[0]) {
            Some(p) => p,
            None => port_in_params(ps.drop_first()),
        }
    }
}

/// The port found among Transport parameters is never 0.
pub proof fn lemma_port_in_params_nonzero(ps: Seq<Seq<char>>)
    ensures
        port_in_params(ps) != 0,
    decreases ps.len(),
{
    if ps.len() > 0 && client_port_of(ps[0]) is None {
        lemma_port_in_params_nonzero(ps.drop_first());
    }
}

/// The client port in an RTSP Transport header value, or 19000.
pub open spec fn transport_port(transport: Seq<char>) -> u16 {
    port_in_params(segments(transport, ';'))
}

/// The port read from a Transport header is never 0.
pub proof fn law_transport_port_nonzero(transport: Seq<char>)
    ensures
        transport_port(transport) != 0,
{
    lemma_port_in_params_nonzero(segments(transport, ';'));
}

/// Parse `client_port` from an RTSP Transport header (a `port` or a
/// `port-port` range); 19000 when there is none.
pub fn parse_transport_port(transport: &str) -> (p: u16)
    ensures
        p == transport_port(transport@),
{
    let s = str_chars(transport);
    let prefix = str_chars("client_port=");
    proof {
        reveal_strlit("client_port=");
    }
    let n = s.len();
    let mut k: usize = 0;
    loop
        invariant
            k <= n == s@.len(),
            s@ == transport@,
            prefix@ == "client_port="@,
            prefix@.len() == 12,
            port_in_params(segments_from(s@, ';', k as int)) == transport_port(transport@),
        decreases n - k,
    {
        let j = find_char(&s, ';', k, n);
        proof {
            lemma_find_char(s@, ';', k as int, j as int);
        }
        let ghost seg = s@.subrange(k as int, j as int);
        let ghost rest = if j < n {
            segments_from(s@, ';', j + 1)
        } else {
            Seq::<Seq<char>>::empty()
        };
        assert(segments_from(s@, ';', k as int) =~= seq![seg] + rest);
        assert((seq![seg] + rest)[0] == seg);
        assert((seq![seg] + rest).drop_first() =~= rest);
        let (a, b) = trim_range(&s, k, j);
        if range_starts_with(&s, a, b, &prefix) {
            let c = a + 12;
            let d = find_char(&s, '-', c, b);
            proof {
                let t = s@.subrange(a as int, b as int);
                assert(t.subrange(12, t.len() as int) =~= s@.subrange(c as int, b as int));
                lemma_find_char(s@.subrange(c as int, b as int), '-', 0, d - c);
                if d < b {
                    assert(s@.subrange(c as int, b as int).subrange(0, d - c) =~= s@.subrange(
                        c as int,
                        d as int,
                    ));
                } else {
                    assert(s@.subrange(c as int, b as int) =~= s@.subrange(c as int, d as int));
                }
            }
            match parse_decimal(&s, c, d, 65535) {
                Some(p) => {
                    if p > 0 {
                        return p as u16;
                    }
                },
                None => {},
            }
        }
        if j == n {
            assert(port_in_params(rest) == DEFAULT_RTP_PORT);
            return DEFAULT_RTP_PORT;
        }
        k = j + 1;
    }
}


/// The exchange a session is in the middle of.
#[derive(Debug, Clone, Copy, PartialEq, Eq, Structural)]
pub enum Phase {
    Idle,
    SendingM1,
    AwaitingM1Reply,
    AwaitingM2,
    SendingM2Reply,
    SendingM3,
    AwaitingM3Reply,
    SendingM4,
    AwaitingM4Reply,
    SendingM5,
    AwaitingM5Reply,
    AwaitingM6,
    SendingM6Reply,
    AwaitingM7,
    SendingM7Reply,
    SendingTeardown,
    AwaitingTeardownReply,
    SendingKeepalive,
    AwaitingKeepaliveReply,
}

/// A request of the source that the sink may reject.
#[derive(Debug, Clone, Copy, PartialEq, Eq, Structural)]
pub enum Exchange {
    M1Options,
    M3GetParameter,
    M4SetParameter,
    M5TriggerSetup,
}

/// Why a session step failed.
#[derive(Debug)]
pub enum SessionError {
    /// The sink answered a request with a status other than 200.
    Rejected { exchange: Exchange, status_code: u16, reason: String },
    /// The sink sent a request with another method than the one expected.
    UnexpectedMethod { expected: RtspMethod, got: RtspMethod },
    /// A response was expected; this request came.
    ExpectedResponse(RtspMethod),
    /// A request was expected; a response with this status came.
    ExpectedRequest(u16),
    /// The event does not fit the exchange in progress.
    OutOfOrder,
    /// The received bytes are not a valid message.
    Parse(ParseError),
    /// The receive buffer is full without a complete message.
    BufferOverflow,
}

/// A session error with texts as characters.
pub enum SessionErrorView {
    Rejected { exchange: Exchange, status_code: u16, reason: Seq<char> },
    UnexpectedMethod { expected: RtspMethod, got: RtspMethod },
    ExpectedResponse(RtspMethod),
    ExpectedRequest(u16),
    OutOfOrder,
    Parse(ParseErrorView),
    BufferOverflow,
}

impl View for SessionError {
    type V = SessionErrorView;

    open spec fn view(&self) -> SessionErrorView {
        match self {
            SessionError::Rejected { exchange, status_code, reason } => SessionErrorView::Rejected {
                exchange: *exchange,
                status_code: *status_code,
                reason: reason@,
            },
            SessionError::UnexpectedMethod { expected, got } => SessionErrorView::UnexpectedMethod {
                expected: *expected,
                got: *got,
            },
            SessionError::ExpectedResponse(m) => SessionErrorView::ExpectedResponse(*m),
            SessionError::ExpectedRequest(c) => SessionErrorView::ExpectedRequest(*c),
            SessionError::OutOfOrder => SessionErrorView::OutOfOrder,
            SessionError::Parse(e) => SessionErrorView::Parse(e@),
            SessionError::BufferOverflow => SessionErrorView::BufferOverflow,
        }
    }
}

/// What happened, as the caller reports it to the session.
pub enum SessionEvent {
    /// Start establishing the session (after the control connection is open).
    Establish,
    /// Start tearing the session down.
    Teardown,
    /// Start a keep-alive exchange.
    Keepalive,
    /// The bytes of the last `Send` action were written.
    Sent,
    /// A message was received.
    Received(ParsedMessage),
    /// No reply came in time (or it could not be read) where one is optional.
    NoReply,
}

/// An event with its message as a view.
pub enum EventView {
    Establish,
    Teardown,
    Keepalive,
    Sent,
    Received(MessageView),
    NoReply,
}

impl View for SessionEvent {
    type V = EventView;

    open spec fn view(&self) -> EventView {
        match self {
            SessionEvent::Establish => EventView::Establish,
            SessionEvent::Teardown => EventView::Teardown,
            SessionEvent::Keepalive => EventView::Keepalive,
            SessionEvent::Sent => EventView::Sent,
            SessionEvent::Received(m) => EventView::Received(m@),
            SessionEvent::NoReply => EventView::NoReply,
        }
    }
}

/// What the caller is to do next.
#[derive(Debug)]
pub enum SessionAction {
    /// Write these bytes, then report `Sent`.
    Send(Vec<u8>),
    /// Read one message (within the response timeout), then report `Received`.
    Receive,
    /// Wait a short while for one message: report `Received`, or `NoReply`.
    ReceiveOptional,
    /// The session is established: streaming can begin.
    Established,
    /// The exchange is over; nothing more to do.
    Finished,
    /// The keep-alive was answered with this status.
    KeepaliveAnswered(u16),
    /// The exchange failed.
    Failed(SessionError),
}

/// An action with its bytes and texts as views.
pub enum ActionView {
    Send(Seq<u8>),
    Receive,
    ReceiveOptional,
    Established,
    Finished,
    KeepaliveAnswered(u16),
    Failed(SessionErrorView),
}

impl View for SessionAction {
    type V = ActionView;

    open spec fn view(&self) -> ActionView {
        match self {
            SessionAction::Send(b) => ActionView::Send(b@),
            SessionAction::Receive => ActionView::Receive,
            SessionAction::ReceiveOptional => ActionView::ReceiveOptional,
            SessionAction::Established => ActionView::Established,
            SessionAction::Finished => ActionView::Finished,
            SessionAction::KeepaliveAnswered(c) => ActionView::KeepaliveAnswered(*c),
            SessionAction::Failed(e) => ActionView::Failed(e@),
        }
    }
}

/// A session's configuration with texts as characters.
pub struct ConfigView {
    pub peer_ip: Seq<char>,
    pub control_port: u16,
    pub local_ip: Seq<char>,
}

/// The whole state of a session.
pub struct SessionView {
    pub config: ConfigView,
    pub state: SessionState,
    pub phase: Phase,
    pub cseq: u32,
    pub recv_buffer: Seq<u8>,
    pub negotiated: NegotiatedView,
}

/// The URL of the presentation that the source offers.
pub open spec fn presentation_url_of(local_ip: Seq<char>) -> Seq<char> {
    "rtsp://"@ + local_ip + "/wfd1.0/streamid=0"@
}

/// The URI of the WFD control requests M3 to M5.
pub open spec fn control_uri() -> Seq<char> {
    "rtsp://localhost/wfd1.0"@
}

/// Header fields holding only `CSeq`.
pub open spec fn cseq_only(c: u32) -> HeaderSeq {
    insert_header(Seq::empty(), "CSeq"@, decimal(c as nat))
}

/// M1: OPTIONS, asking the sink for its methods.
pub open spec fn m1_request(c: u32) -> RequestView {
    RequestView {
        method: RtspMethod::Options,
        uri: "*"@,
        headers: insert_header(cseq_only(c), "Require"@, "org.wfa.wfd1.0"@),
        body: Seq::empty(),
    }
}

/// The answer to the sink's M2 OPTIONS.
pub open spec fn m2_reply(c: u32) -> ResponseView {
    ResponseView {
        status_code: 200,
        reason: "OK"@,
        headers: insert_header(
            seq![("CSeq"@, decimal(c as nat))],
            "Public"@,
            "org.wfa.wfd1.0, GET_PARAMETER, SET_PARAMETER"@,
        ),
        body: Seq::empty(),
    }
}

/// M3: GET_PARAMETER for the sink's capabilities.
pub open spec fn m3_request(c: u32) -> RequestView {
    RequestView {
        method: RtspMethod::GetParameter,
        uri: control_uri(),
        headers: cseq_only(c),
        body: "wfd_video_formats\r\nwfd_audio_codecs\r\nwfd_client_rtp_ports\r\nwfd_content_protection"@,
    }
}

/// The body of M4: the chosen formats, the RTP port and the presentation URL.
pub open spec fn m4_body(port: u16, url: Seq<char>) -> Seq<char> {
    "wfd_video_formats: 00 00 01 02 000000A1 00000000 00000000 00 0000 0000 00 none none\r\nwfd_audio_codecs: LPCM 00000003 00\r\nwfd_client_rtp_ports: RTP/AVP/UDP;unicast "@
        + decimal(port as nat) + " 0 mode=play\r\nwfd_presentation_URL: "@ + url + " none"@
}

/// M4: SET_PARAMETER with the session parameters.
pub open spec fn m4_request(c: u32, port: u16, url: Seq<char>) -> RequestView {
    RequestView {
        method: RtspMethod::SetParameter,
        uri: control_uri(),
        headers: cseq_only(c),
        body: m4_body(port, url),
    }
}

/// M5: SET_PARAMETER triggering SETUP.
pub open spec fn m5_request(c: u32) -> RequestView {
    RequestView {
        method: RtspMethod::SetParameter,
        uri: control_uri(),
        headers: cseq_only(c),
        body: "wfd_trigger_method: SETUP"@,
    }
}

/// The answer to the sink's M6 SETUP: the session and its transport.
pub open spec fn m6_reply(c: u32, id: Seq<char>, port: u16) -> ResponseView {
    ResponseView {
        status_code: 200,
        reason: "OK"@,
        headers: insert_header(
            insert_header(seq![("CSeq"@, decimal(c as nat))], "Session"@, id + ";timeout=30"@),
            "Transport"@,
            "RTP/AVP/UDP;unicast;client_port="@ + decimal(port as nat) + ";server_port="@
                + decimal(port as nat),
        ),
        body: Seq::empty(),
    }
}

/// The answer to the sink's M7 PLAY.
pub open spec fn m7_reply(c: u32, id: Seq<char>) -> ResponseView {
    ResponseView {
        status_code: 200,
        reason: "OK"@,
        headers: insert_header(seq![("CSeq"@, decimal(c as nat))], "Session"@, id),
        body: Seq::empty(),
    }
}

/// M8: SET_PARAMETER triggering TEARDOWN.
pub open spec fn teardown_request(c: u32, url: Seq<char>, id: Seq<char>) -> RequestView {
    RequestView {
        method: RtspMethod::SetParameter,
        uri: url,
        headers: insert_header(cseq_only(c), "Session"@, id),
        body: "wfd_trigger_method: TEARDOWN"@,
    }
}

/// M14: GET_PARAMETER with no body, keeping the session alive.
pub open spec fn keepalive_request(c: u32, url: Seq<char>, id: Seq<char>) -> RequestView {
    RequestView {
        method: RtspMethod::GetParameter,
        uri: url,
        headers: insert_header(cseq_only(c), "Session"@, id),
        body: Seq::empty(),
    }
}

/// The bytes of a request.
pub open spec fn request_bytes(r: RequestView) -> Seq<u8> {
    encode_utf8(request_text(r))
}

/// The bytes of a response.
pub open spec fn response_bytes(r: ResponseView) -> Seq<u8> {
    encode_utf8(response_text(r))
}

/// The `CSeq` of a request, or 0.
pub open spec fn cseq_or_zero(hs: HeaderSeq) -> u32 {
    match cseq_of(hs) {
        Some(n) => n as u32,
        None => 0,
    }
}

/// The Transport field of a request, or nothing.
pub open spec fn transport_field(hs: HeaderSeq) -> Seq<char> {
    match lookup(hs, "Transport"@) {
        Some(v) => v,
        None => Seq::empty(),
    }
}

fn m1_bytes(c: u32) -> (b: Vec<u8>)
    ensures
        b@ == request_bytes(m1_request(c)),
{
    RtspRequest::new(RtspMethod::Options, "*").with_cseq(c).with_header(
        "Require",
        "org.wfa.wfd1.0",
    ).serialize()
}

fn m2_reply_bytes(c: u32) -> (b: Vec<u8>)
    ensures
        b@ == response_bytes(m2_reply(c)),
{
    RtspResponse::ok(c).with_header(
        "Public",
        "org.wfa.wfd1.0, GET_PARAMETER, SET_PARAMETER",
    ).serialize()
}

fn m3_bytes(c: u32) -> (b: Vec<u8>)
    ensures
        b@ == request_bytes(m3_request(c)),
{
    RtspRequest::new(RtspMethod::GetParameter, "rtsp://localhost/wfd1.0").with_cseq(c).with_body(
        "wfd_video_formats\r\nwfd_audio_codecs\r\nwfd_client_rtp_ports\r\nwfd_content_protection",
    ).serialize()
}

fn m4_bytes(c: u32, port: u16, url: &String) -> (b: Vec<u8>)
    ensures
        b@ == request_bytes(m4_request(c, port, url@)),
{
    let mut body = String::new();
    body.append(
        "wfd_video_formats: 00 00 01 02 000000A1 00000000 00000000 00 0000 0000 00 none none\r\nwfd_audio_codecs: LPCM 00000003 00\r\nwfd_client_rtp_ports: RTP/AVP/UDP;unicast ",
    );
    body.append(decimal_string(port as u64).as_str());
    body.append(" 0 mode=play\r\nwfd_presentation_URL: ");
    body.append(url.as_str());
    body.append(" none");
    RtspRequest::new(RtspMethod::SetParameter, "rtsp://localhost/wfd1.0").with_cseq(c).with_body(
        body.as_str(),
    ).serialize()
}

fn m5_bytes(c: u32) -> (b: Vec<u8>)
    ensures
        b@ == request_bytes(m5_request(c)),
{
    RtspRequest::new(RtspMethod::SetParameter, "rtsp://localhost/wfd1.0").with_cseq(c).with_body(
        "wfd_trigger_method: SETUP",
    ).serialize()
}

fn m6_reply_bytes(c: u32, id: &String, port: u16) -> (b: Vec<u8>)
    ensures
        b@ == response_bytes(m6_reply(c, id@, port)),
{
    let mut session = id.clone();
    session.append(";timeout=30");
    let p = decimal_string(port as u64);
    let mut transport = String::new();
    transport.append("RTP/AVP/UDP;unicast;client_port=");
    transport.append(p.as_str());
    transport.append(";server_port=");
    transport.append(p.as_str());
    RtspResponse::ok(c).with_header("Session", session.as_str()).with_header(
        "Transport",
        transport.as_str(),
    ).serialize()
}

fn m7_reply_bytes(c: u32, id: &String) -> (b: Vec<u8>)
    ensures
        b@ == response_bytes(m7_reply(c, id@)),
{
    RtspResponse::ok(c).with_header("Session", id.as_str()).serialize()
}

fn teardown_bytes(c: u32, url: &String, id: &String) -> (b: Vec<u8>)
    ensures
        b@ == request_bytes(teardown_request(c, url@, id@)),
{
    RtspRequest::new(RtspMethod::SetParameter, url.as_str()).with_cseq(c).with_header(
        "Session",
        id.as_str(),
    ).with_body("wfd_trigger_method: TEARDOWN").serialize()
}

fn keepalive_bytes(c: u32, url: &String, id: &String) -> (b: Vec<u8>)
    ensures
        b@ == request_bytes(keepalive_request(c, url@, id@)),
{
    RtspRequest::new(RtspMethod::GetParameter, url.as_str()).with_cseq(c).with_header(
        "Session",
        id.as_str(),
    ).serialize()
}


/// Whether `c` is a lower-case hexadecimal digit.
pub open spec fn is_lower_hex(c: char) -> bool {
    ('0' <= c <= '9') || ('a' <= c <= 'f')
}

/// Whether `s` is the hyphenated lower-case text of a version-4 UUID.
pub open spec fn is_uuid_v4_text(s: Seq<char>) -> bool {
    &&& s.len() == 36
    &&& forall|i: int|
        0 <= i < 36 ==> if i == 8 || i == 13 || i == 18 || i == 23 {
            s[i] == '-'
        } else {
            is_lower_hex(s[i])
        }
    &&& s[14] == '4'
    &&& (s[19] == '8' || s[19] == '9' || s[19] == 'a' || s[19] == 'b')
}

/// Whether `id` can be a session identifier: the first sixteen characters of
/// a version-4 UUID's text.
pub open spec fn is_session_token(id: Seq<char>) -> bool {
    &&& id.len() == 16
    &&& forall|i: int| 0 <= i < 16 && i != 8 && i != 13 ==> is_lower_hex(id[i])
    &&& id[8] == '-'
    &&& id[13] == '-'
    &&& id[14] == '4'
}

/// The text of a fresh random UUID.
///
/// Trusted: calls `uuid::Uuid::new_v4` and formats it with `to_string`. The
/// uuid crate sets the version nibble to 4 and the variant bits to `10`, and
/// its `Display` writes the hyphenated form with lower-case hex digits. The
/// value itself is random; nothing else is stated of it. The uuid crate panics
/// when the operating system gives no random bytes; that is a failure of the
/// environment, not of an input, so no `requires` can rule it out.
#[verifier::external_body]
fn random_uuid_text() -> (s: String)
    ensures
        is_uuid_v4_text(s@),
{
    uuid::Uuid::new_v4().to_string()
}

/// A fresh session identifier: the first sixteen characters of a random UUID.
fn fresh_session_id() -> (id: String)
    ensures
        is_session_token(id@),
{
    let u = random_uuid_text();
    let cs = str_chars(u.as_str());
    string_from_chars(&cs[0..16])
}

/// `s` in phase `p`.
pub open spec fn with_phase(s: SessionView, p: Phase) -> SessionView {
    SessionView { phase: p, ..s }
}

/// A failed step: the exchange is abandoned, nothing else changes.
pub open spec fn failed(s: SessionView, e: SessionErrorView) -> (SessionView, ActionView) {
    (with_phase(s, Phase::Idle), ActionView::Failed(e))
}

/// The sequence number of the next request.
pub open spec fn next_cseq(s: SessionView) -> u32 {
    (s.cseq + 1) as u32
}

/// Starting establishment: M1 is sent.
pub open spec fn on_establish(s: SessionView) -> (SessionView, ActionView) {
    let c = next_cseq(s);
    (
        SessionView { cseq: c, phase: Phase::SendingM1, ..s },
        ActionView::Send(request_bytes(m1_request(c))),
    )
}

/// Starting teardown: only a streaming session is torn down, by sending M8.
pub open spec fn on_teardown(s: SessionView) -> (SessionView, ActionView) {
    if s.state != SessionState::Streaming {
        (s, ActionView::Finished)
    } else {
        let c = next_cseq(s);
        (
            SessionView {
                state: SessionState::Teardown,
                cseq: c,
                phase: Phase::SendingTeardown,
                ..s
            },
            ActionView::Send(
                request_bytes(
                    teardown_request(
                        c,
                        presentation_url_of(s.config.local_ip),
                        s.negotiated.session_id,
                    ),
                ),
            ),
        )
    }
}

/// Starting a keep-alive: M14 is sent.
pub open spec fn on_keepalive(s: SessionView) -> (SessionView, ActionView) {
    let c = next_cseq(s);
    (
        SessionView { cseq: c, phase: Phase::SendingKeepalive, ..s },
        ActionView::Send(
            request_bytes(
                keepalive_request(
                    c,
                    presentation_url_of(s.config.local_ip),
                    s.negotiated.session_id,
                ),
            ),
        ),
    )
}

/// The end of a teardown: the session is done and its buffer emptied.
pub open spec fn finish_teardown(s: SessionView) -> (SessionView, ActionView) {
    (
        SessionView {
            state: SessionState::Done,
            phase: Phase::Idle,
            recv_buffer: Seq::empty(),
            ..s
        },
        ActionView::Finished,
    )
}

/// What follows the write of the last message.
pub open spec fn on_sent(s: SessionView) -> (SessionView, ActionView) {
    match s.phase {
        Phase::SendingM1 => (
            SessionView { state: SessionState::M1Sent, phase: Phase::AwaitingM1Reply, ..s },
            ActionView::Receive,
        ),
        Phase::SendingM2Reply => {
            let c = next_cseq(s);
            (
                SessionView {
                    state: SessionState::M2Received,
                    phase: Phase::SendingM3,
                    cseq: c,
                    ..s
                },
                ActionView::Send(request_bytes(m3_request(c))),
            )
        },
        Phase::SendingM3 => (
            SessionView { state: SessionState::M3Sent, phase: Phase::AwaitingM3Reply, ..s },
            ActionView::Receive,
        ),
        Phase::SendingM4 => (
            SessionView { state: SessionState::M4Sent, phase: Phase::AwaitingM4Reply, ..s },
            ActionView::Receive,
        ),
        Phase::SendingM5 => (
            SessionView { state: SessionState::M5Sent, phase: Phase::AwaitingM5Reply, ..s },
            ActionView::Receive,
        ),
        Phase::SendingM6Reply => (
            SessionView { state: SessionState::M6Received, phase: Phase::AwaitingM7, ..s },
            ActionView::Receive,
        ),
        Phase::SendingM7Reply => (
            SessionView { state: SessionState::Streaming, phase: Phase::Idle, ..s },
            ActionView::Established,
        ),
        Phase::SendingTeardown => (
            with_phase(s, Phase::AwaitingTeardownReply),
            ActionView::ReceiveOptional,
        ),
        Phase::SendingKeepalive => (
            with_phase(s, Phase::AwaitingKeepaliveReply),
            ActionView::Receive,
        ),
        _ => failed(s, SessionErrorView::OutOfOrder),
    }
}

/// The RTP port to offer: the sink's, or 19000.
pub open spec fn offered_port(caps: WfdView) -> u16 {
    match caps.client_rtp_port {
        Some(p) => p,
        None => DEFAULT_RTP_PORT,
    }
}

/// What a received response leads to.
pub open spec fn on_reply(s: SessionView, r: ResponseView) -> (SessionView, ActionView) {
    match s.phase {
        Phase::AwaitingM1Reply => if r.status_code != 200 {
            failed(
                s,
                SessionErrorView::Rejected {
                    exchange: Exchange::M1Options,
                    status_code: r.status_code,
                    reason: r.reason,
                },
            )
        } else {
            (with_phase(s, Phase::AwaitingM2), ActionView::Receive)
        },
        Phase::AwaitingM3Reply => if r.status_code != 200 {
            failed(
                s,
                SessionErrorView::Rejected {
                    exchange: Exchange::M3GetParameter,
                    status_code: r.status_code,
                    reason: r.reason,
                },
            )
        } else {
            let caps = body_params(r.body);
            let c = next_cseq(s);
            (
                SessionView {
                    phase: Phase::SendingM4,
                    cseq: c,
                    negotiated: NegotiatedView { sink_capabilities: Some(caps), ..s.negotiated },
                    ..s
                },
                ActionView::Send(
                    request_bytes(
                        m4_request(c, offered_port(caps), presentation_url_of(s.config.local_ip)),
                    ),
                ),
            )
        },
        Phase::AwaitingM4Reply => if r.status_code != 200 {
            failed(
                s,
                SessionErrorView::Rejected {
                    exchange: Exchange::M4SetParameter,
                    status_code: r.status_code,
                    reason: r.reason,
                },
            )
        } else {
            let c = next_cseq(s);
            (
                SessionView { phase: Phase::SendingM5, cseq: c, ..s },
                ActionView::Send(request_bytes(m5_request(c))),
            )
        },
        Phase::AwaitingM5Reply => if r.status_code != 200 {
            failed(
                s,
                SessionErrorView::Rejected {
                    exchange: Exchange::M5TriggerSetup,
                    status_code: r.status_code,
                    reason: r.reason,
                },
            )
        } else {
            (with_phase(s, Phase::AwaitingM6), ActionView::Receive)
        },
        Phase::AwaitingTeardownReply => finish_teardown(s),
        Phase::AwaitingKeepaliveReply => (
            with_phase(s, Phase::Idle),
            ActionView::KeepaliveAnswered(r.status_code),
        ),
        Phase::AwaitingM2 | Phase::AwaitingM6 | Phase::AwaitingM7 => failed(
            s,
            SessionErrorView::ExpectedRequest(r.status_code),
        ),
        _ => failed(s, SessionErrorView::OutOfOrder),
    }
}

/// What a received request leads to; `fresh` is the session identifier that
/// answering SETUP creates.
pub open spec fn on_request(s: SessionView, q: RequestView, fresh: Seq<char>) -> (
    SessionView,
    ActionView,
) {
    match s.phase {
        Phase::AwaitingM2 => if q.method != RtspMethod::Options {
            failed(
                s,
                SessionErrorView::UnexpectedMethod { expected: RtspMethod::Options, got: q.method },
            )
        } else {
            (
                with_phase(s, Phase::SendingM2Reply),
                ActionView::Send(response_bytes(m2_reply(cseq_or_zero(q.headers)))),
            )
        },
        Phase::AwaitingM6 => if q.method != RtspMethod::Setup {
            failed(
                s,
                SessionErrorView::UnexpectedMethod { expected: RtspMethod::Setup, got: q.method },
            )
        } else {
            let port = transport_port(transport_field(q.headers));
            (
                SessionView {
                    phase: Phase::SendingM6Reply,
                    negotiated: NegotiatedView { rtp_port: port, session_id: fresh, ..s.negotiated },
                    ..s
                },
                ActionView::Send(response_bytes(m6_reply(cseq_or_zero(q.headers), fresh, port))),
            )
        },
        Phase::AwaitingM7 => if q.method != RtspMethod::Play {
            failed(
                s,
                SessionErrorView::UnexpectedMethod { expected: RtspMethod::Play, got: q.method },
            )
        } else {
            (
                with_phase(s, Phase::SendingM7Reply),
                ActionView::Send(
                    response_bytes(m7_reply(cseq_or_zero(q.headers), s.negotiated.session_id)),
                ),
            )
        },
        Phase::AwaitingTeardownReply => finish_teardown(s),
        Phase::AwaitingM1Reply | Phase::AwaitingM3Reply | Phase::AwaitingM4Reply
        | Phase::AwaitingM5Reply | Phase::AwaitingKeepaliveReply => failed(
            s,
            SessionErrorView::ExpectedResponse(q.method),
        ),
        _ => failed(s, SessionErrorView::OutOfOrder),
    }
}

/// What a missing optional reply leads to.
pub open spec fn on_no_reply(s: SessionView) -> (SessionView, ActionView) {
    if s.phase == Phase::AwaitingTeardownReply {
        finish_teardown(s)
    } else {
        failed(s, SessionErrorView::OutOfOrder)
    }
}

/// The session's next state and action for an event.
pub open spec fn transition(s: SessionView, ev: EventView, fresh: Seq<char>) -> (
    SessionView,
    ActionView,
) {
    match ev {
        EventView::Establish => on_establish(s),
        EventView::Teardown => on_teardown(s),
        EventView::Keepalive => on_keepalive(s),
        EventView::Sent => on_sent(s),
        EventView::Received(MessageView::Response(r)) => on_reply(s, r),
        EventView::Received(MessageView::Request(q)) => on_request(s, q, fresh),
        EventView::NoReply => on_no_reply(s),
    }
}

/// Whether the event makes the session number a new request.
pub open spec fn bumps_cseq(s: SessionView, ev: EventView) -> bool {
    match ev {
        EventView::Establish => true,
        EventView::Keepalive => true,
        EventView::Teardown => s.state == SessionState::Streaming,
        EventView::Sent => s.phase == Phase::SendingM2Reply,
        EventView::Received(MessageView::Response(r)) => (s.phase == Phase::AwaitingM3Reply
            || s.phase == Phase::AwaitingM4Reply) && r.status_code == 200,
        _ => false,
    }
}

/// Each step numbers at most one new request, one past the last.
pub proof fn law_cseq_step(s: SessionView, ev: EventView, fresh: Seq<char>)
    requires
        bumps_cseq(s, ev) ==> s.cseq < u32::MAX,
    ensures
        transition(s, ev, fresh).0.cseq == if bumps_cseq(s, ev) {
            s.cseq + 1
        } else {
            s.cseq as int
        },
{
}

/// A failed step abandons the exchange in progress and changes nothing else.
pub proof fn law_failure_keeps_state(s: SessionView, ev: EventView, fresh: Seq<char>)
    ensures
        transition(s, ev, fresh).1 is Failed ==> transition(s, ev, fresh).0 == with_phase(
            s,
            Phase::Idle,
        ),
{
}

/// A session starts streaming only when its answer to the sink's PLAY has
/// been sent, and that step reports the session established.
pub proof fn law_streaming_after_play(s: SessionView, ev: EventView, fresh: Seq<char>)
    ensures
        transition(s, ev, fresh).0.state == SessionState::Streaming && s.state
            != SessionState::Streaming ==> ev == EventView::Sent && s.phase == Phase::SendingM7Reply
            && transition(s, ev, fresh).1 == ActionView::Established,
{
}

/// Tearing down a session that is not streaming changes nothing.
pub proof fn law_teardown_needs_streaming(s: SessionView, fresh: Seq<char>)
    ensures
        s.state != SessionState::Streaming ==> transition(s, EventView::Teardown, fresh) == (
            s,
            ActionView::Finished,
        ),
{
}

/// The session identifier changes only when the sink's SETUP is answered,
/// and then to the fresh identifier.
pub proof fn law_session_id_set_by_setup(s: SessionView, ev: EventView, fresh: Seq<char>)
    ensures
        transition(s, ev, fresh).0.negotiated.session_id != s.negotiated.session_id ==> {
            &&& s.phase == Phase::AwaitingM6
            &&& ev matches EventView::Received(MessageView::Request(q))
            &&& q.method == RtspMethod::Setup
            &&& transition(s, ev, fresh).0.negotiated.session_id == fresh
        },
{
}

/// While the answer to the teardown request is awaited, whatever comes (a
/// response of any status, a request, or no reply at all) ends the session:
/// its state becomes Done, its exchange ends, its receive buffer is emptied,
/// and the step reports Finished, never a failure. Nothing else changes.
pub proof fn law_teardown_reply_finishes(s: SessionView, ev: EventView, fresh: Seq<char>)
    requires
        s.phase == Phase::AwaitingTeardownReply,
        ev is Received || ev is NoReply,
    ensures
        transition(s, ev, fresh).0.state == SessionState::Done,
        transition(s, ev, fresh).0.phase == Phase::Idle,
        transition(s, ev, fresh).0.recv_buffer.len() == 0,
        transition(s, ev, fresh).0.cseq == s.cseq,
        transition(s, ev, fresh).0.negotiated == s.negotiated,
        transition(s, ev, fresh).0.config == s.config,
        transition(s, ev, fresh).1 == ActionView::Finished,
{
}

/// Tearing down a streaming session always completes: the teardown request
/// is sent, its answer is awaited as optional, and whatever comes next ends
/// the session in state Done with the step reporting Finished.
pub proof fn law_teardown_completes(s: SessionView, ev: EventView, fresh: Seq<char>)
    requires
        s.state == SessionState::Streaming,
        s.cseq < u32::MAX,
        ev is Received || ev is NoReply,
    ensures
        ({
            let (s1, a1) = transition(s, EventView::Teardown, fresh);
            let (s2, a2) = transition(s1, EventView::Sent, fresh);
            let (s3, a3) = transition(s2, ev, fresh);
            &&& a1 is Send
            &&& s1.state == SessionState::Teardown
            &&& s1.cseq == s.cseq + 1
            &&& a2 == ActionView::ReceiveOptional
            &&& s3.state == SessionState::Done
            &&& s3.recv_buffer.len() == 0
            &&& a3 == ActionView::Finished
        }),
{
    let (s1, a1) = transition(s, EventView::Teardown, fresh);
    let (s2, a2) = transition(s1, EventView::Sent, fresh);
    law_teardown_reply_finishes(s2, ev, fresh);
}

/// What reading the receive buffer gives: the first complete message, which
/// leaves the buffer; nothing yet; or an error, when the data is invalid or
/// the buffer is full without a complete message.
pub open spec fn buffered_message(s: SessionView) -> (
    SessionView,
    Result<Option<MessageView>, SessionErrorView>,
) {
    match try_parse_spec(s.recv_buffer) {
        Err(e) => (s, Err(SessionErrorView::Parse(e))),
        Ok(Some((m, n))) => (
            SessionView { recv_buffer: s.recv_buffer.subrange(n, s.recv_buffer.len() as int), ..s },
            Ok(Some(m)),
        ),
        Ok(None) => if s.recv_buffer.len() >= MAX_RECV_BUFFER {
            (s, Err(SessionErrorView::BufferOverflow))
        } else {
            (s, Ok(None))
        },
    }
}

/// A buffer read result with its message and error as views.
pub open spec fn buffered_result(r: Result<Option<ParsedMessage>, SessionError>) -> Result<
    Option<MessageView>,
    SessionErrorView,
> {
    match r {
        Ok(Some(m)) => Ok(Some(m@)),
        Ok(None) => Ok(None),
        Err(e) => Err(e@),
    }
}

/// An RTSP/WFD session with a Miracast sink, in the source role.
pub struct RtspSession {
    config: SessionConfig,
    state: SessionState,
    phase: Phase,
    cseq: u32,
    recv_buffer: Vec<u8>,
    pub negotiated: NegotiatedParams,
}

impl View for RtspSession {
    type V = SessionView;

    closed spec fn view(&self) -> SessionView {
        SessionView {
            config: ConfigView {
                peer_ip: self.config.peer_ip@,
                control_port: self.config.control_port,
                local_ip: self.config.local_ip@,
            },
            state: self.state,
            phase: self.phase,
            cseq: self.cseq,
            recv_buffer: self.recv_buffer@,
            negotiated: self.negotiated@,
        }
    }
}

impl RtspSession {
    /// A session in state `Init` with the given configuration.
    pub fn new(config: SessionConfig) -> (s: Self)
        ensures
            s@ == (SessionView {
                config: ConfigView {
                    peer_ip: config.peer_ip@,
                    control_port: config.control_port,
                    local_ip: config.local_ip@,
                },
                state: SessionState::Init,
                phase: Phase::Idle,
                cseq: 0,
                recv_buffer: Seq::empty(),
                negotiated: NegotiatedView {
                    sink_capabilities: None,
                    rtp_port: 0,
                    session_id: Seq::empty(),
                    selected_width: 0,
                    selected_height: 0,
                    selected_fps: 0,
                },
            }),
    {
        RtspSession {
            config,
            state: SessionState::Init,
            phase: Phase::Idle,
            cseq: 0,
            recv_buffer: Vec::with_capacity(4096),
            negotiated: NegotiatedParams::default(),
        }
    }

    /// Current session state.
    pub fn state(&self) -> (st: SessionState)
        ensures
            st == self@.state,
    {
        self.state
    }

    /// The exchange in progress.
    pub fn phase(&self) -> (p: Phase)
        ensures
            p == self@.phase,
    {
        self.phase
    }

    /// Sequence number of the last request sent.
    pub fn cseq(&self) -> (c: u32)
        ensures
            c == self@.cseq,
    {
        self.cseq
    }

    /// The session's configuration.
    pub fn config(&self) -> (c: &SessionConfig)
        ensures
            c.peer_ip@ == self@.config.peer_ip,
            c.control_port == self@.config.control_port,
            c.local_ip@ == self@.config.local_ip,
    {
        &self.config
    }

    /// Whether the session is actively streaming.
    pub fn is_established(&self) -> (b: bool)
        ensures
            b == (self@.state == SessionState::Streaming),
    {
        self.state == SessionState::Streaming
    }

    /// The URL of the presentation that the source offers.
    fn presentation_url(&self) -> (u: String)
        ensures
            u@ == presentation_url_of(self@.config.local_ip),
    {
        let mut u = String::new();
        u.append("rtsp://");
        u.append(self.config.local_ip.as_str());
        u.append("/wfd1.0/streamid=0");
        u
    }

    /// Numbers the next request.
    fn next_cseq(&mut self) -> (c: u32)
        requires
            old(self)@.cseq < u32::MAX,
        ensures
            c == next_cseq(old(self)@),
            final(self)@ == (SessionView { cseq: c, ..old(self)@ }),
    {
        self.cseq = self.cseq + 1;
        self.cseq
    }

    /// Abandons the exchange in progress with error `e`.
    fn fail(&mut self, e: SessionError) -> (a: SessionAction)
        ensures
            (final(self)@, a@) == failed(old(self)@, e@),
    {
        self.phase = Phase::Idle;
        SessionAction::Failed(e)
    }

    fn establish_step(&mut self) -> (a: SessionAction)
        requires
            old(self)@.cseq < u32::MAX,
        ensures
            (final(self)@, a@) == on_establish(old(self)@),
    {
        let c = self.next_cseq();
        self.phase = Phase::SendingM1;
        SessionAction::Send(m1_bytes(c))
    }

    fn teardown_step(&mut self) -> (a: SessionAction)
        requires
            old(self)@.state == SessionState::Streaming ==> old(self)@.cseq < u32::MAX,
        ensures
            (final(self)@, a@) == on_teardown(old(self)@),
    {
        if self.state != SessionState::Streaming {
            return SessionAction::Finished;
        }
        self.state = SessionState::Teardown;
        let c = self.next_cseq();
        self.phase = Phase::SendingTeardown;
        let url = self.presentation_url();
        SessionAction::Send(teardown_bytes(c, &url, &self.negotiated.session_id))
    }

    fn keepalive_step(&mut self) -> (a: SessionAction)
        requires
            old(self)@.cseq < u32::MAX,
        ensures
            (final(self)@, a@) == on_keepalive(old(self)@),
    {
        let c = self.next_cseq();
        self.phase = Phase::SendingKeepalive;
        let url = self.presentation_url();
        SessionAction::Send(keepalive_bytes(c, &url, &self.negotiated.session_id))
    }

    fn finish_teardown_step(&mut self) -> (a: SessionAction)
        ensures
            (final(self)@, a@) == finish_teardown(old(self)@),
    {
        self.state = SessionState::Done;
        self.phase = Phase::Idle;
        self.recv_buffer.clear();
        SessionAction::Finished
    }

    fn sent_step(&mut self) -> (a: SessionAction)
        requires
            old(self)@.phase == Phase::SendingM2Reply ==> old(self)@.cseq < u32::MAX,
        ensures
            (final(self)@, a@) == on_sent(old(self)@),
    {
        match self.phase {
            Phase::SendingM1 => {
                self.state = SessionState::M1Sent;
                self.phase = Phase::AwaitingM1Reply;
                SessionAction::Receive
            },
            Phase::SendingM2Reply => {
                self.state = SessionState::M2Received;
                let c = self.next_cseq();
                self.phase = Phase::SendingM3;
                SessionAction::Send(m3_bytes(c))
            },
            Phase::SendingM3 => {
                self.state = SessionState::M3Sent;
                self.phase = Phase::AwaitingM3Reply;
                SessionAction::Receive
            },
            Phase::SendingM4 => {
                self.state = SessionState::M4Sent;
                self.phase = Phase::AwaitingM4Reply;
                SessionAction::Receive
            },
            Phase::SendingM5 => {
                self.state = SessionState::M5Sent;
                self.phase = Phase::AwaitingM5Reply;
                SessionAction::Receive
            },
            Phase::SendingM6Reply => {
                self.state = SessionState::M6Received;
                self.phase = Phase::AwaitingM7;
                SessionAction::Receive
            },
            Phase::SendingM7Reply => {
                self.state = SessionState::Streaming;
                self.phase = Phase::Idle;
                SessionAction::Established
            },
            Phase::SendingTeardown => {
                self.phase = Phase::AwaitingTeardownReply;
                SessionAction::ReceiveOptional
            },
            Phase::SendingKeepalive => {
                self.phase = Phase::AwaitingKeepaliveReply;
                SessionAction::Receive
            },
            _ => self.fail(SessionError::OutOfOrder),
        }
    }

    fn reply_step(&mut self, r: RtspResponse) -> (a: SessionAction)
        requires
            (old(self)@.phase == Phase::AwaitingM3Reply || old(self)@.phase
                == Phase::AwaitingM4Reply) && r@.status_code == 200 ==> old(self)@.cseq
                < u32::MAX,
        ensures
            (final(self)@, a@) == on_reply(old(self)@, r@),
    {
        match self.phase {
            Phase::AwaitingM1Reply => {
                if r.status_code != 200 {
                    return self.fail(
                        SessionError::Rejected {
                            exchange: Exchange::M1Options,
                            status_code: r.status_code,
                            reason: r.reason,
                        },
                    );
                }
                self.phase = Phase::AwaitingM2;
                SessionAction::Receive
            },
            Phase::AwaitingM3Reply => {
                if r.status_code != 200 {
                    return self.fail(
                        SessionError::Rejected {
                            exchange: Exchange::M3GetParameter,
                            status_code: r.status_code,
                            reason: r.reason,
                        },
                    );
                }
                let caps = WfdParameters::parse_body(r.body.as_str());
                let port = match caps.client_rtp_port {
                    Some(p) => p,
                    None => DEFAULT_RTP_PORT,
                };
                self.negotiated.sink_capabilities = Some(caps);
                let c = self.next_cseq();
                self.phase = Phase::SendingM4;
                let url = self.presentation_url();
                SessionAction::Send(m4_bytes(c, port, &url))
            },
            Phase::AwaitingM4Reply => {
                if r.status_code != 200 {
                    return self.fail(
                        SessionError::Rejected {
                            exchange: Exchange::M4SetParameter,
                            status_code: r.status_code,
                            reason: r.reason,
                        },
                    );
                }
                let c = self.next_cseq();
                self.phase = Phase::SendingM5;
                SessionAction::Send(m5_bytes(c))
            },
            Phase::AwaitingM5Reply => {
                if r.status_code != 200 {
                    return self.fail(
                        SessionError::Rejected {
                            exchange: Exchange::M5TriggerSetup,
                            status_code: r.status_code,
                            reason: r.reason,
                        },
                    );
                }
                self.phase = Phase::AwaitingM6;
                SessionAction::Receive
            },
            Phase::AwaitingTeardownReply => self.finish_teardown_step(),
            Phase::AwaitingKeepaliveReply => {
                self.phase = Phase::Idle;
                SessionAction::KeepaliveAnswered(r.status_code)
            },
            Phase::AwaitingM2 | Phase::AwaitingM6 | Phase::AwaitingM7 => self.fail(
                SessionError::ExpectedRequest(r.status_code),
            ),
            _ => self.fail(SessionError::OutOfOrder),
        }
    }

    fn request_step(&mut self, q: RtspRequest) -> (a: SessionAction)
        ensures
            (final(self)@, a@) == on_request(old(self)@, q@, final(self)@.negotiated.session_id),
            final(self)@.negotiated.session_id != old(self)@.negotiated.session_id
                ==> is_session_token(final(self)@.negotiated.session_id),
            old(self)@.phase == Phase::AwaitingM6 && q@.method == RtspMethod::Setup
                ==> is_session_token(final(self)@.negotiated.session_id),
    {
        match self.phase {
            Phase::AwaitingM2 => {
                if q.method != RtspMethod::Options {
                    return self.fail(
                        SessionError::UnexpectedMethod {
                            expected: RtspMethod::Options,
                            got: q.method,
                        },
                    );
                }
                let c = match q.cseq() {
                    Some(n) => n,
                    None => 0,
                };
                self.phase = Phase::SendingM2Reply;
                SessionAction::Send(m2_reply_bytes(c))
            },
            Phase::AwaitingM6 => {
                if q.method != RtspMethod::Setup {
                    return self.fail(
                        SessionError::UnexpectedMethod {
                            expected: RtspMethod::Setup,
                            got: q.method,
                        },
                    );
                }
                let port = match q.headers.get("Transport") {
                    Some(t) => parse_transport_port(t.as_str()),
                    None => {
                        proof {
                            reveal_strlit("");
                            assert(""@ =~= Seq::<char>::empty());
                        }
                        parse_transport_port("")
                    },
                };
                let id = fresh_session_id();
                let c = match q.cseq() {
                    Some(n) => n,
                    None => 0,
                };
                self.negotiated.rtp_port = port;
                let bytes = m6_reply_bytes(c, &id, port);
                self.negotiated.session_id = id;
                self.phase = Phase::SendingM6Reply;
                SessionAction::Send(bytes)
            },
            Phase::AwaitingM7 => {
                if q.method != RtspMethod::Play {
                    return self.fail(
                        SessionError::UnexpectedMethod { expected: RtspMethod::Play, got: q.method },
                    );
                }
                let c = match q.cseq() {
                    Some(n) => n,
                    None => 0,
                };
                self.phase = Phase::SendingM7Reply;
                SessionAction::Send(m7_reply_bytes(c, &self.negotiated.session_id))
            },
            Phase::AwaitingTeardownReply => self.finish_teardown_step(),
            Phase::AwaitingM1Reply | Phase::AwaitingM3Reply | Phase::AwaitingM4Reply
            | Phase::AwaitingM5Reply | Phase::AwaitingKeepaliveReply => self.fail(
                SessionError::ExpectedResponse(q.method),
            ),
            _ => self.fail(SessionError::OutOfOrder),
        }
    }

    /// The next state and the action to perform for `event`.
    pub fn step(&mut self, event: SessionEvent) -> (a: SessionAction)
        requires
            bumps_cseq(old(self)@, event@) ==> old(self)@.cseq < u32::MAX,
        ensures
            (final(self)@, a@) == transition(
                old(self)@,
                event@,
                final(self)@.negotiated.session_id,
            ),
            final(self)@.negotiated.session_id != old(self)@.negotiated.session_id
                ==> is_session_token(final(self)@.negotiated.session_id),
            old(self)@.phase == Phase::AwaitingM6 && (event@ matches EventView::Received(
                MessageView::Request(q),
            ) && q.method == RtspMethod::Setup) ==> is_session_token(
                final(self)@.negotiated.session_id,
            ),
    {
        match event {
            SessionEvent::Establish => self.establish_step(),
            SessionEvent::Teardown => self.teardown_step(),
            SessionEvent::Keepalive => self.keepalive_step(),
            SessionEvent::Sent => self.sent_step(),
            SessionEvent::Received(ParsedMessage::Response(r)) => self.reply_step(r),
            SessionEvent::Received(ParsedMessage::Request(q)) => self.request_step(q),
            SessionEvent::NoReply => {
                if self.phase == Phase::AwaitingTeardownReply {
                    self.finish_teardown_step()
                } else {
                    self.fail(SessionError::OutOfOrder)
                }
            },
        }
    }

    /// Whether `event` makes the session number a new request, so that the
    /// sequence number must be below `u32::MAX` before `step`.
    pub fn numbers_request(&self, event: &SessionEvent) -> (b: bool)
        ensures
            b == bumps_cseq(self@, event@),
    {
        match event {
            SessionEvent::Establish => true,
            SessionEvent::Keepalive => true,
            SessionEvent::Teardown => self.state == SessionState::Streaming,
            SessionEvent::Sent => self.phase == Phase::SendingM2Reply,
            SessionEvent::Received(ParsedMessage::Response(r)) => (self.phase
                == Phase::AwaitingM3Reply || self.phase == Phase::AwaitingM4Reply)
                && r.status_code == 200,
            _ => false,
        }
    }

    /// Appends bytes read from the connection to the receive buffer: one read
    /// of at most `RECV_CHUNK` bytes, taken only while the buffer is below
    /// `MAX_RECV_BUFFER`, so the buffer stays within one read of that bound.
    pub fn feed(&mut self, data: &[u8])
        requires
            old(self)@.recv_buffer.len() < MAX_RECV_BUFFER,
            data@.len() <= RECV_CHUNK,
        ensures
            final(self)@ == (SessionView {
                recv_buffer: old(self)@.recv_buffer + data@,
                ..old(self)@
            }),
    {
        let mut i: usize = 0;
        while i < data.len()
            invariant
                0 <= i <= data@.len(),
                self@ == (SessionView {
                    recv_buffer: old(self)@.recv_buffer + data@.subrange(0, i as int),
                    ..old(self)@
                }),
            decreases data@.len() - i,
        {
            self.recv_buffer.push(data[i]);
            assert(self.recv_buffer@ =~= old(self)@.recv_buffer + data@.subrange(0, i + 1));
            i = i + 1;
        }
        assert(data@.subrange(0, i as int) =~= data@);
    }

    /// Number of bytes waiting in the receive buffer.
    pub fn buffered(&self) -> (n: usize)
        ensures
            n == self@.recv_buffer.len(),
    {
        self.recv_buffer.len()
    }

    /// Takes the first complete message out of the receive buffer.
    pub fn next_message(&mut self) -> (r: Result<Option<ParsedMessage>, SessionError>)
        ensures
            (final(self)@, buffered_result(r)) == buffered_message(old(self)@),
    {
        match try_parse_message(&self.recv_buffer) {
            Err(e) => Err(SessionError::Parse(e)),
            Ok(Some((m, n))) => {
                let rest = self.recv_buffer.split_off(n);
                self.recv_buffer = rest;
                Ok(Some(m))
            },
            Ok(None) => {
                if self.recv_buffer.len() >= MAX_RECV_BUFFER {
                    Err(SessionError::BufferOverflow)
                } else {
                    Ok(None)
                }
            },
        }
    }
}

} // verus!
