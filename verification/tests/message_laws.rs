use miracast_client::rtsp::messages::{
    content_length, is_response, status_reason, try_parse_message, ParseError, ParsedMessage,
    RtspMethod, RtspRequest, RtspResponse, MAX_CONTENT_LENGTH, MAX_MESSAGE_SIZE,
};

fn chars(s: &str) -> Vec<char> {
    s.chars().collect()
}

#[test]
fn method_names_read_back() {
    let all = [
        RtspMethod::Options,
        RtspMethod::GetParameter,
        RtspMethod::SetParameter,
        RtspMethod::Setup,
        RtspMethod::Play,
        RtspMethod::Pause,
        RtspMethod::Teardown,
    ];
    for m in all {
        assert_eq!(RtspMethod::from_str(m.as_str()).unwrap(), m);
    }
    assert_eq!(RtspMethod::GetParameter.as_str(), "GET_PARAMETER");
    assert_eq!(RtspMethod::Teardown.as_str(), "TEARDOWN");
}

#[test]
fn unknown_method_name_is_refused() {
    match RtspMethod::from_str("options") {
        Err(ParseError::UnknownMethod(m)) => assert_eq!(m, "options"),
        other => panic!("expected UnknownMethod, got {:?}", other),
    }
}

#[test]
fn reason_phrases() {
    assert_eq!(status_reason(200), "OK");
    assert_eq!(status_reason(404), "Not Found");
    assert_eq!(status_reason(455), "Method Not Valid in This State");
    assert_eq!(status_reason(503), "Service Unavailable");
    assert_eq!(status_reason(299), "Unknown");
}

#[test]
fn request_serializes_exactly() {
    let req = RtspRequest::new(RtspMethod::Options, "*").with_cseq(1);
    assert_eq!(req.serialize(), b"OPTIONS * RTSP/1.0\r\nCSeq: 1\r\n\r\n".to_vec());
}

#[test]
fn body_sets_length_and_type() {
    let req = RtspRequest::new(RtspMethod::SetParameter, "rtsp://localhost/wfd1.0")
        .with_cseq(4)
        .with_body("wfd_trigger_method: SETUP");
    assert_eq!(
        String::from_utf8(req.serialize()).unwrap(),
        "SET_PARAMETER rtsp://localhost/wfd1.0 RTSP/1.0\r\nCSeq: 4\r\nContent-Length: 25\r\nContent-Type: text/parameters\r\n\r\nwfd_trigger_method: SETUP"
    );
}

#[test]
fn body_keeps_a_given_content_type() {
    let resp = RtspResponse::ok(2)
        .with_header("Content-Type", "text/plain")
        .with_body("é");
    assert_eq!(
        String::from_utf8(resp.serialize()).unwrap(),
        "RTSP/1.0 200 OK\r\nCSeq: 2\r\nContent-Type: text/plain\r\nContent-Length: 2\r\n\r\né"
    );
}

#[test]
fn setting_a_field_twice_keeps_its_place() {
    let req = RtspRequest::new(RtspMethod::Play, "rtsp://x/")
        .with_cseq(1)
        .with_header("Session", "a")
        .with_cseq(2);
    assert_eq!(
        req.serialize(),
        b"PLAY rtsp://x/ RTSP/1.0\r\nCSeq: 2\r\nSession: a\r\n\r\n".to_vec()
    );
}

#[test]
fn error_response_uses_reason_phrase() {
    let r = RtspResponse::error(454, 7);
    assert_eq!(r.status_code, 454);
    assert_eq!(r.reason, "Session Not Found");
    assert_eq!(r.cseq(), Some(7));
    assert_eq!(
        r.serialize(),
        b"RTSP/1.0 454 Session Not Found\r\nCSeq: 7\r\n\r\n".to_vec()
    );
}

#[test]
fn serialized_message_is_framed_whatever_follows() {
    let req = RtspRequest::new(RtspMethod::SetParameter, "rtsp://localhost/wfd1.0")
        .with_cseq(3)
        .with_header("Session", "0123abcd")
        .with_body("wfd_trigger_method: TEARDOWN");
    let bytes = req.serialize();
    let mut buf = bytes.clone();
    buf.extend_from_slice(b"RTSP/1.0 200 OK\r\n");
    let (m, n) = try_parse_message(&buf).unwrap().unwrap();
    assert_eq!(n, bytes.len());
    match m {
        ParsedMessage::Request(r) => {
            assert_eq!(r.method, RtspMethod::SetParameter);
            assert_eq!(r.uri, "rtsp://localhost/wfd1.0");
            assert_eq!(r.body, "wfd_trigger_method: TEARDOWN");
            assert_eq!(r.cseq(), Some(3));
            assert_eq!(r.session_id(), Some("0123abcd"));
            assert_eq!(r.headers.get("Content-Length").unwrap(), "28");
            assert_eq!(r.headers.get("Content-Type").unwrap(), "text/parameters");
        }
        _ => panic!("expected a request"),
    }
}

#[test]
fn serialized_response_reads_back() {
    let resp = RtspResponse::error(406, 9).with_header("Public", "SETUP, PLAY");
    let parsed = RtspResponse::parse(&resp.serialize()).unwrap();
    assert_eq!(parsed.status_code, 406);
    assert_eq!(parsed.reason, "Not Acceptable");
    assert_eq!(parsed.cseq(), Some(9));
    assert_eq!(parsed.headers.get("Public").unwrap(), "SETUP, PLAY");
    assert!(parsed.body.is_empty());
}

#[test]
fn two_messages_in_one_buffer() {
    let buf = b"RTSP/1.0 200 OK\r\nCSeq: 1\r\n\r\nOPTIONS * RTSP/1.0\r\nCSeq: 1\r\n\r\n";
    let (m, n) = try_parse_message(buf).unwrap().unwrap();
    assert_eq!(n, 28);
    assert!(matches!(m, ParsedMessage::Response(_)));
    let (m, n) = try_parse_message(&buf[28..]).unwrap().unwrap();
    assert_eq!(n, buf.len() - 28);
    assert!(matches!(m, ParsedMessage::Request(_)));
}

#[test]
fn body_not_yet_complete() {
    let buf = b"SET_PARAMETER * RTSP/1.0\r\nCSeq: 1\r\nContent-Length: 10\r\n\r\nabc";
    assert!(try_parse_message(buf).unwrap().is_none());
}

#[test]
fn content_length_in_any_case() {
    let buf = b"SET_PARAMETER * RTSP/1.0\r\ncontent-LENGTH:  3 \r\n\r\nabcdef";
    let (m, n) = try_parse_message(buf).unwrap().unwrap();
    assert_eq!(n, buf.len() - 3);
    match m {
        ParsedMessage::Request(r) => assert_eq!(r.body, "abc"),
        _ => panic!("expected a request"),
    }
}

#[test]
fn line_feed_only_framing() {
    let buf = b"OPTIONS * RTSP/1.0\nCSeq: 5\n\n";
    let (m, n) = try_parse_message(buf).unwrap().unwrap();
    assert_eq!(n, buf.len());
    match m {
        ParsedMessage::Request(r) => assert_eq!(r.cseq(), Some(5)),
        _ => panic!("expected a request"),
    }
}

#[test]
fn oversized_buffer_is_refused() {
    let buf = vec![b'x'; MAX_MESSAGE_SIZE + 1];
    match try_parse_message(&buf) {
        Err(ParseError::MessageTooLarge(n)) => assert_eq!(n, MAX_MESSAGE_SIZE + 1),
        other => panic!("expected MessageTooLarge, got {:?}", other),
    }
    match RtspRequest::parse(&buf) {
        Err(ParseError::MessageTooLarge(n)) => assert_eq!(n, MAX_MESSAGE_SIZE + 1),
        other => panic!("expected MessageTooLarge, got {:?}", other),
    }
}

#[test]
fn announced_length_over_limit_is_refused() {
    let buf = b"SET_PARAMETER * RTSP/1.0\r\nContent-Length: 20000\r\n\r\n";
    match try_parse_message(buf) {
        Err(ParseError::ContentLengthExceeded(n)) => {
            assert_eq!(n, 20000);
            assert!(n > MAX_CONTENT_LENGTH);
        }
        other => panic!("expected ContentLengthExceeded, got {:?}", other),
    }
}

#[test]
fn empty_input_is_refused() {
    assert!(matches!(RtspRequest::parse(b""), Err(ParseError::Empty)));
    assert!(matches!(RtspResponse::parse(b""), Err(ParseError::Empty)));
}

#[test]
fn short_request_line_is_refused() {
    match RtspRequest::parse(b"OPTIONS *\r\n\r\n") {
        Err(ParseError::InvalidRequestLine(l)) => assert_eq!(l, "OPTIONS *"),
        other => panic!("expected InvalidRequestLine, got {:?}", other),
    }
}

#[test]
fn short_status_line_is_refused() {
    match RtspResponse::parse(b"RTSP/1.0\r\n\r\n") {
        Err(ParseError::InvalidStatusLine(l)) => assert_eq!(l, "RTSP/1.0"),
        other => panic!("expected InvalidStatusLine, got {:?}", other),
    }
}

#[test]
fn bad_status_code_is_refused() {
    match RtspResponse::parse(b"RTSP/1.0 abc OK\r\n\r\n") {
        Err(ParseError::InvalidStatusCode(c)) => assert_eq!(c, "abc"),
        other => panic!("expected InvalidStatusCode, got {:?}", other),
    }
    assert!(matches!(
        RtspResponse::parse(b"RTSP/1.0 70000 OK\r\n\r\n"),
        Err(ParseError::InvalidStatusCode(_))
    ));
}

#[test]
fn response_version_is_checked() {
    match RtspResponse::parse(b"HTTP/1.1 200 OK\r\n\r\n") {
        Err(ParseError::UnsupportedVersion(v)) => assert_eq!(v, "HTTP/1.1"),
        other => panic!("expected UnsupportedVersion, got {:?}", other),
    }
}

#[test]
fn missing_reason_takes_the_standard_phrase() {
    let r = RtspResponse::parse(b"RTSP/1.0 404\r\nCSeq: 2\r\n\r\n").unwrap();
    assert_eq!(r.status_code, 404);
    assert_eq!(r.reason, "Not Found");
}

#[test]
fn invalid_utf8_is_replaced() {
    let r = RtspRequest::parse(b"SET_PARAMETER * RTSP/1.0\r\nCSeq: 1\r\n\r\nab\xffcd").unwrap();
    assert_eq!(r.body, "ab\u{FFFD}cd");
}

#[test]
fn body_is_trimmed() {
    let r = RtspRequest::parse(b"SET_PARAMETER * RTSP/1.0\r\nCSeq: 1\r\n\r\n  x y \r\n").unwrap();
    assert_eq!(r.body, "x y");
}

#[test]
fn header_lines_without_colon_are_skipped() {
    let r = RtspRequest::parse(b"OPTIONS * RTSP/1.0\r\nnonsense\r\nCSeq:  12 \r\n\r\n").unwrap();
    assert_eq!(r.cseq(), Some(12));
    assert_eq!(r.headers.len(), 1);
}

#[test]
fn session_id_without_timeout() {
    let r = RtspRequest::parse(b"PLAY * RTSP/1.0\r\nSession: abc\r\n\r\n").unwrap();
    assert_eq!(r.session_id(), Some("abc"));
    let r = RtspRequest::parse(b"PLAY * RTSP/1.0\r\nCSeq: x\r\n\r\n").unwrap();
    assert_eq!(r.session_id(), None);
    assert_eq!(r.cseq(), None);
}

#[test]
fn announced_length_of_a_header_section() {
    assert_eq!(content_length(&chars("GET_PARAMETER * RTSP/1.0\r\nContent-Length: 42")), 42);
    assert_eq!(content_length(&chars("GET_PARAMETER * RTSP/1.0\r\nContent-Length: x")), 0);
    assert_eq!(content_length(&chars("GET_PARAMETER * RTSP/1.0\r\nCSeq: 1")), 0);
}

#[test]
fn response_or_request() {
    assert!(is_response(&chars("  RTSP/1.0 200 OK")));
    assert!(!is_response(&chars("OPTIONS * RTSP/1.0")));
}

#[test]
fn every_cut_of_a_message_is_incomplete() {
    let buf = b"SET_PARAMETER * RTSP/1.0\r\nCSeq: 3\r\nContent-Length: 4\r\n\r\nabcd";
    let (_, n) = try_parse_message(buf).unwrap().unwrap();
    assert_eq!(n, buf.len());
    for k in 0..n {
        assert!(try_parse_message(&buf[..k]).unwrap().is_none(), "cut at {}", k);
    }
}

#[test]
fn bytes_after_a_message_change_nothing() {
    let buf = b"RTSP/1.0 200 OK\r\nCSeq: 4\r\nContent-Length: 2\r\n\r\nok";
    let mut longer = buf.to_vec();
    longer.extend_from_slice(b"GET_PARAMETER * RTSP/1.0\r\n\r\n\n\n");
    let (m1, n1) = try_parse_message(buf).unwrap().unwrap();
    let (m2, n2) = try_parse_message(&longer).unwrap().unwrap();
    assert_eq!(n1, n2);
    match (m1, m2) {
        (ParsedMessage::Response(a), ParsedMessage::Response(b)) => {
            assert_eq!(a.status_code, b.status_code);
            assert_eq!(a.body, b.body);
            assert_eq!(a.cseq(), b.cseq());
        }
        _ => panic!("expected two responses"),
    }
}
