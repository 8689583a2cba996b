use miracast_client::rtsp::messages::{
    try_parse_message, ParseError, ParsedMessage, RtspMethod, RtspRequest, RtspResponse,
};

#[test]
fn test_parse_options_request() {
    let raw = b"OPTIONS * RTSP/1.0\r\nCSeq: 1\r\nRequire: org.wfa.wfd1.0\r\n\r\n";
    let req = RtspRequest::parse(raw).unwrap();
    assert_eq!(req.method, RtspMethod::Options);
    assert_eq!(req.uri, "*");
    assert_eq!(req.cseq(), Some(1));
    assert_eq!(req.headers.get("Require").unwrap(), "org.wfa.wfd1.0");
    assert!(req.body.is_empty());
}

#[test]
fn test_parse_request_with_body() {
    let raw = b"SET_PARAMETER rtsp://localhost/wfd1.0 RTSP/1.0\r\n\
                CSeq: 5\r\n\
                Content-Length: 25\r\n\r\n\
                wfd_trigger_method: SETUP";
    let req = RtspRequest::parse(raw).unwrap();
    assert_eq!(req.method, RtspMethod::SetParameter);
    assert!(req.body.contains("wfd_trigger_method: SETUP"));
}

#[test]
fn test_parse_200_ok_response() {
    let raw = b"RTSP/1.0 200 OK\r\n\
                CSeq: 1\r\n\
                Public: GET_PARAMETER, SET_PARAMETER\r\n\r\n";
    let resp = RtspResponse::parse(raw).unwrap();
    assert_eq!(resp.status_code, 200);
    assert_eq!(resp.reason, "OK");
    assert_eq!(resp.cseq(), Some(1));
}

#[test]
fn test_serialize_request_roundtrip() {
    let req = RtspRequest::new(RtspMethod::Options, "*")
        .with_cseq(1)
        .with_header("Require", "org.wfa.wfd1.0");
    let data = req.serialize();
    let parsed = RtspRequest::parse(&data).unwrap();
    assert_eq!(parsed.method, RtspMethod::Options);
    assert_eq!(parsed.cseq(), Some(1));
}

#[test]
fn test_serialize_response_roundtrip() {
    let resp = RtspResponse::ok(3).with_body("wfd_video_formats: 00 00 01 02");
    let data = resp.serialize();
    let parsed = RtspResponse::parse(&data).unwrap();
    assert_eq!(parsed.status_code, 200);
    assert_eq!(parsed.cseq(), Some(3));
    assert!(parsed.body.contains("wfd_video_formats"));
}

#[test]
fn test_unknown_method_error() {
    let raw = b"INVALID * RTSP/1.0\r\nCSeq: 1\r\n\r\n";
    assert!(matches!(
        RtspRequest::parse(raw),
        Err(ParseError::UnknownMethod(_))
    ));
}

#[test]
fn test_invalid_version_error() {
    let raw = b"OPTIONS * RTSP/2.0\r\nCSeq: 1\r\n\r\n";
    assert!(matches!(
        RtspRequest::parse(raw),
        Err(ParseError::UnsupportedVersion(_))
    ));
}

#[test]
fn test_try_parse_incomplete() {
    let buf = b"OPTIONS * RTSP/1.0\r\nCSeq: 1\r\n";
    assert!(try_parse_message(buf).unwrap().is_none());
}

#[test]
fn test_try_parse_complete_request() {
    let buf = b"OPTIONS * RTSP/1.0\r\nCSeq: 1\r\n\r\n";
    let result = try_parse_message(buf).unwrap().unwrap();
    assert_eq!(result.1, buf.len());
    assert!(matches!(result.0, ParsedMessage::Request(_)));
}

#[test]
fn test_try_parse_complete_response() {
    let buf = b"RTSP/1.0 200 OK\r\nCSeq: 1\r\n\r\n";
    let result = try_parse_message(buf).unwrap().unwrap();
    assert!(matches!(result.0, ParsedMessage::Response(_)));
}

#[test]
fn test_session_id_with_timeout() {
    let raw =
        b"PLAY rtsp://x/wfd1.0 RTSP/1.0\r\nCSeq: 1\r\nSession: deadbeef;timeout=30\r\n\r\n";
    let req = RtspRequest::parse(raw).unwrap();
    assert_eq!(req.session_id(), Some("deadbeef"));
}
