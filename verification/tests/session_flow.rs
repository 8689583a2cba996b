use miracast_client::rtsp::messages::{
    try_parse_message, ParsedMessage, RtspMethod, RtspRequest, RtspResponse,
};
use miracast_client::rtsp::session::{
    Exchange, Phase, RtspSession, SessionAction, SessionConfig, SessionError, SessionEvent,
    SessionState,
};

fn config() -> SessionConfig {
    SessionConfig {
        peer_ip: "192.168.49.1".to_string(),
        control_port: 7236,
        local_ip: "192.168.49.10".to_string(),
    }
}

fn sent_request(a: SessionAction) -> RtspRequest {
    match a {
        SessionAction::Send(bytes) => match try_parse_message(&bytes).unwrap() {
            Some((ParsedMessage::Request(r), n)) => {
                assert_eq!(n, bytes.len());
                r
            }
            _ => panic!("expected a request"),
        },
        other => panic!("expected a send, got {:?}", other),
    }
}

fn sent_response(a: SessionAction) -> RtspResponse {
    match a {
        SessionAction::Send(bytes) => match try_parse_message(&bytes).unwrap() {
            Some((ParsedMessage::Response(r), n)) => {
                assert_eq!(n, bytes.len());
                r
            }
            _ => panic!("expected a response"),
        },
        other => panic!("expected a send, got {:?}", other),
    }
}

fn receive(s: &mut RtspSession, raw: &[u8]) -> SessionAction {
    s.feed(raw);
    let m = s.next_message().unwrap().unwrap();
    s.step(SessionEvent::Received(m))
}

fn with_body(head: &str, body: &str) -> Vec<u8> {
    format!("{}Content-Length: {}\r\n\r\n{}", head, body.len(), body).into_bytes()
}

#[test]
fn session_establishes_streams_and_tears_down() {
    let mut s = RtspSession::new(config());
    assert_eq!(s.state(), SessionState::Init);
    assert_eq!(s.cseq(), 0);

    let m1 = sent_request(s.step(SessionEvent::Establish));
    assert_eq!(m1.method, RtspMethod::Options);
    assert_eq!(m1.uri, "*");
    assert_eq!(m1.cseq(), Some(1));
    assert_eq!(m1.headers.get("Require").unwrap(), "org.wfa.wfd1.0");
    assert!(matches!(s.step(SessionEvent::Sent), SessionAction::Receive));
    assert_eq!(s.state(), SessionState::M1Sent);

    let a = receive(&mut s, b"RTSP/1.0 200 OK\r\nCSeq: 1\r\nPublic: org.wfa.wfd1.0, SETUP, PLAY\r\n\r\n");
    assert!(matches!(a, SessionAction::Receive));
    assert_eq!(s.phase(), Phase::AwaitingM2);

    let m2 = sent_response(receive(
        &mut s,
        b"OPTIONS * RTSP/1.0\r\nCSeq: 1\r\nRequire: org.wfa.wfd1.0\r\n\r\n",
    ));
    assert_eq!(m2.status_code, 200);
    assert_eq!(m2.cseq(), Some(1));
    assert_eq!(
        m2.headers.get("Public").unwrap(),
        "org.wfa.wfd1.0, GET_PARAMETER, SET_PARAMETER"
    );

    let m3 = sent_request(s.step(SessionEvent::Sent));
    assert_eq!(s.state(), SessionState::M2Received);
    assert_eq!(m3.method, RtspMethod::GetParameter);
    assert_eq!(m3.uri, "rtsp://localhost/wfd1.0");
    assert_eq!(m3.cseq(), Some(2));
    assert!(m3.body.contains("wfd_client_rtp_ports"));
    assert!(matches!(s.step(SessionEvent::Sent), SessionAction::Receive));
    assert_eq!(s.state(), SessionState::M3Sent);

    let caps = "wfd_video_formats: 00 00 02 04 0001DEFF 053C7FFF 00000FFF 00 0000 0000 00 none none\r\n\
                wfd_audio_codecs: LPCM 00000002 00\r\n\
                wfd_client_rtp_ports: RTP/AVP/UDP;unicast 1028 0 mode=play\r\n\
                wfd_content_protection: none";
    let m4 = sent_request(receive(
        &mut s,
        &with_body("RTSP/1.0 200 OK\r\nCSeq: 2\r\nContent-Type: text/parameters\r\n", caps),
    ));
    let sink = s.negotiated.sink_capabilities.as_ref().unwrap();
    assert_eq!(sink.client_rtp_port, Some(1028));
    assert_eq!(sink.content_protection.as_deref(), Some("none"));
    assert_eq!(m4.method, RtspMethod::SetParameter);
    assert_eq!(m4.cseq(), Some(3));
    assert!(m4.body.contains("wfd_client_rtp_ports: RTP/AVP/UDP;unicast 1028 0 mode=play"));
    assert!(m4
        .body
        .contains("wfd_presentation_URL: rtsp://192.168.49.10/wfd1.0/streamid=0 none"));
    assert!(matches!(s.step(SessionEvent::Sent), SessionAction::Receive));
    assert_eq!(s.state(), SessionState::M4Sent);

    let m5 = sent_request(receive(&mut s, b"RTSP/1.0 200 OK\r\nCSeq: 3\r\n\r\n"));
    assert_eq!(m5.method, RtspMethod::SetParameter);
    assert_eq!(m5.cseq(), Some(4));
    assert_eq!(m5.body, "wfd_trigger_method: SETUP");
    assert!(matches!(s.step(SessionEvent::Sent), SessionAction::Receive));
    assert_eq!(s.state(), SessionState::M5Sent);

    let a = receive(&mut s, b"RTSP/1.0 200 OK\r\nCSeq: 4\r\n\r\n");
    assert!(matches!(a, SessionAction::Receive));
    assert_eq!(s.phase(), Phase::AwaitingM6);

    let m6 = sent_response(receive(
        &mut s,
        b"SETUP rtsp://192.168.49.10/wfd1.0/streamid=0 RTSP/1.0\r\nCSeq: 2\r\nTransport: RTP/AVP/UDP;unicast;client_port=1028\r\n\r\n",
    ));
    let id = s.negotiated.session_id.clone();
    assert_eq!(id.len(), 16);
    assert_eq!(s.negotiated.rtp_port, 1028);
    assert_eq!(m6.status_code, 200);
    assert_eq!(m6.cseq(), Some(2));
    assert_eq!(m6.session_id(), Some(id.as_str()));
    assert_eq!(
        m6.headers.get("Session").unwrap(),
        &format!("{};timeout=30", id)
    );
    assert_eq!(
        m6.headers.get("Transport").unwrap(),
        "RTP/AVP/UDP;unicast;client_port=1028;server_port=1028"
    );
    assert!(matches!(s.step(SessionEvent::Sent), SessionAction::Receive));
    assert_eq!(s.state(), SessionState::M6Received);

    let play = format!(
        "PLAY rtsp://192.168.49.10/wfd1.0/streamid=0 RTSP/1.0\r\nCSeq: 3\r\nSession: {}\r\n\r\n",
        id
    );
    let m7 = sent_response(receive(&mut s, play.as_bytes()));
    assert_eq!(m7.cseq(), Some(3));
    assert_eq!(m7.session_id(), Some(id.as_str()));
    assert!(!s.is_established());
    assert!(matches!(s.step(SessionEvent::Sent), SessionAction::Established));
    assert!(s.is_established());
    assert_eq!(s.state(), SessionState::Streaming);

    let ka = sent_request(s.step(SessionEvent::Keepalive));
    assert_eq!(ka.method, RtspMethod::GetParameter);
    assert_eq!(ka.uri, "rtsp://192.168.49.10/wfd1.0/streamid=0");
    assert_eq!(ka.cseq(), Some(5));
    assert_eq!(ka.session_id(), Some(id.as_str()));
    assert!(ka.body.is_empty());
    assert!(matches!(s.step(SessionEvent::Sent), SessionAction::Receive));
    let a = receive(&mut s, b"RTSP/1.0 200 OK\r\nCSeq: 5\r\n\r\n");
    assert!(matches!(a, SessionAction::KeepaliveAnswered(200)));
    assert_eq!(s.state(), SessionState::Streaming);

    let m8 = sent_request(s.step(SessionEvent::Teardown));
    assert_eq!(s.state(), SessionState::Teardown);
    assert_eq!(m8.method, RtspMethod::SetParameter);
    assert_eq!(m8.cseq(), Some(6));
    assert_eq!(m8.session_id(), Some(id.as_str()));
    assert_eq!(m8.body, "wfd_trigger_method: TEARDOWN");
    assert!(matches!(s.step(SessionEvent::Sent), SessionAction::ReceiveOptional));
    assert!(matches!(s.step(SessionEvent::NoReply), SessionAction::Finished));
    assert_eq!(s.state(), SessionState::Done);
    assert!(!s.is_established());
}

#[test]
fn session_reports_a_rejected_options() {
    let mut s = RtspSession::new(config());
    sent_request(s.step(SessionEvent::Establish));
    s.step(SessionEvent::Sent);
    match receive(&mut s, b"RTSP/1.0 406 Not Acceptable\r\nCSeq: 1\r\n\r\n") {
        SessionAction::Failed(SessionError::Rejected { exchange, status_code, reason }) => {
            assert_eq!(exchange, Exchange::M1Options);
            assert_eq!(status_code, 406);
            assert_eq!(reason, "Not Acceptable");
        }
        other => panic!("expected a rejection, got {:?}", other),
    }
    assert_eq!(s.phase(), Phase::Idle);
    assert_eq!(s.state(), SessionState::M1Sent);
}

#[test]
fn session_rejects_unexpected_method() {
    let mut s = RtspSession::new(config());
    sent_request(s.step(SessionEvent::Establish));
    s.step(SessionEvent::Sent);
    receive(&mut s, b"RTSP/1.0 200 OK\r\nCSeq: 1\r\n\r\n");
    match receive(&mut s, b"PLAY * RTSP/1.0\r\nCSeq: 1\r\n\r\n") {
        SessionAction::Failed(SessionError::UnexpectedMethod { expected, got }) => {
            assert_eq!(expected, RtspMethod::Options);
            assert_eq!(got, RtspMethod::Play);
        }
        other => panic!("expected an unexpected method, got {:?}", other),
    }
}

#[test]
fn session_expects_a_response_after_a_request() {
    let mut s = RtspSession::new(config());
    sent_request(s.step(SessionEvent::Establish));
    s.step(SessionEvent::Sent);
    match receive(&mut s, b"OPTIONS * RTSP/1.0\r\nCSeq: 1\r\n\r\n") {
        SessionAction::Failed(SessionError::ExpectedResponse(m)) => {
            assert_eq!(m, RtspMethod::Options)
        }
        other => panic!("expected ExpectedResponse, got {:?}", other),
    }
}

#[test]
fn session_expects_a_request_from_the_sink() {
    let mut s = RtspSession::new(config());
    sent_request(s.step(SessionEvent::Establish));
    s.step(SessionEvent::Sent);
    receive(&mut s, b"RTSP/1.0 200 OK\r\nCSeq: 1\r\n\r\n");
    match receive(&mut s, b"RTSP/1.0 200 OK\r\nCSeq: 9\r\n\r\n") {
        SessionAction::Failed(SessionError::ExpectedRequest(code)) => assert_eq!(code, 200),
        other => panic!("expected ExpectedRequest, got {:?}", other),
    }
}

#[test]
fn session_out_of_order_events_fail() {
    let mut s = RtspSession::new(config());
    assert!(matches!(
        s.step(SessionEvent::Sent),
        SessionAction::Failed(SessionError::OutOfOrder)
    ));
    assert!(matches!(
        s.step(SessionEvent::NoReply),
        SessionAction::Failed(SessionError::OutOfOrder)
    ));
    assert_eq!(s.cseq(), 0);
    assert_eq!(s.state(), SessionState::Init);
}

#[test]
fn session_teardown_when_not_streaming_finishes_at_once() {
    let mut s = RtspSession::new(config());
    assert!(matches!(s.step(SessionEvent::Teardown), SessionAction::Finished));
    assert_eq!(s.state(), SessionState::Init);
    assert_eq!(s.cseq(), 0);
}

#[test]
fn session_keeps_partial_messages_buffered() {
    let mut s = RtspSession::new(config());
    s.feed(b"RTSP/1.0 200 OK\r\nCSeq: 1\r\n");
    assert!(s.next_message().unwrap().is_none());
    s.feed(b"\r\nRTSP/1.0 200 OK\r\nCSeq: 2\r\n\r\n");
    match s.next_message().unwrap() {
        Some(ParsedMessage::Response(r)) => assert_eq!(r.cseq(), Some(1)),
        _ => panic!("expected the first response"),
    }
    match s.next_message().unwrap() {
        Some(ParsedMessage::Response(r)) => assert_eq!(r.cseq(), Some(2)),
        _ => panic!("expected the second response"),
    }
    assert!(s.next_message().unwrap().is_none());
}

#[test]
fn session_reports_a_full_buffer() {
    let mut s = RtspSession::new(config());
    let junk = vec![b'a'; 4096];
    for _ in 0..16 {
        assert!(s.next_message().unwrap().is_none());
        s.feed(&junk);
    }
    assert_eq!(s.buffered(), 65536);
    assert!(matches!(s.next_message(), Err(SessionError::BufferOverflow)));
}

#[test]
fn session_id_is_uuid_prefix() {
    let mut s = RtspSession::new(config());
    sent_request(s.step(SessionEvent::Establish));
    s.step(SessionEvent::Sent);
    receive(&mut s, b"RTSP/1.0 200 OK\r\nCSeq: 1\r\n\r\n");
    sent_response(receive(&mut s, b"OPTIONS * RTSP/1.0\r\nCSeq: 1\r\n\r\n"));
    sent_request(s.step(SessionEvent::Sent));
    s.step(SessionEvent::Sent);
    sent_request(receive(&mut s, b"RTSP/1.0 200 OK\r\nCSeq: 2\r\n\r\n"));
    s.step(SessionEvent::Sent);
    sent_request(receive(&mut s, b"RTSP/1.0 200 OK\r\nCSeq: 3\r\n\r\n"));
    s.step(SessionEvent::Sent);
    receive(&mut s, b"RTSP/1.0 200 OK\r\nCSeq: 4\r\n\r\n");
    let m6 = sent_response(receive(&mut s, b"SETUP rtsp://x/wfd1.0/streamid=0 RTSP/1.0\r\nCSeq: 2\r\n\r\n"));
    assert_eq!(s.negotiated.rtp_port, 19000);
    let id = s.negotiated.session_id.clone();
    let b = id.as_bytes();
    assert_eq!(b.len(), 16);
    assert_eq!(b[8], b'-');
    assert_eq!(b[13], b'-');
    assert_eq!(b[14], b'4');
    for (i, c) in b.iter().enumerate() {
        if i != 8 && i != 13 {
            assert!(c.is_ascii_digit() || (b'a'..=b'f').contains(c));
        }
    }
    assert_eq!(m6.session_id(), Some(id.as_str()));
}

#[test]
fn session_tells_which_events_number_a_request() {
    let mut s = RtspSession::new(config());
    assert!(s.numbers_request(&SessionEvent::Establish));
    assert!(s.numbers_request(&SessionEvent::Keepalive));
    assert!(!s.numbers_request(&SessionEvent::Teardown));
    assert!(!s.numbers_request(&SessionEvent::Sent));
    sent_request(s.step(SessionEvent::Establish));
    s.step(SessionEvent::Sent);
    receive(&mut s, b"RTSP/1.0 200 OK\r\nCSeq: 1\r\n\r\n");
    sent_response(receive(&mut s, b"OPTIONS * RTSP/1.0\r\nCSeq: 1\r\n\r\n"));
    assert!(s.numbers_request(&SessionEvent::Sent));
}
