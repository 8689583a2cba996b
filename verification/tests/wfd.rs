use miracast_client::wfd::WfdParameters;

#[test]
fn test_parse_m3_response_body() {
    let body = "wfd_video_formats: 00 00 01 02 000000A1 00000000 00000000 00 0000 0000 00 none none\r\n\
                wfd_audio_codecs: LPCM 00000003 00\r\n\
                wfd_client_rtp_ports: RTP/AVP/UDP;unicast 19000 0 mode=play\r\n\
                wfd_content_protection: none";
    let params = WfdParameters::parse_body(body);
    assert!(params.video_formats.is_some());
    assert!(params.audio_codecs.is_some());
    assert_eq!(params.client_rtp_port, Some(19000));
    assert_eq!(params.content_protection.as_deref(), Some("none"));
}

#[test]
fn test_parse_trigger_method() {
    let body = "wfd_trigger_method: SETUP";
    let params = WfdParameters::parse_body(body);
    assert_eq!(params.trigger_method.as_deref(), Some("SETUP"));
}

#[test]
fn test_parse_empty_body() {
    let params = WfdParameters::parse_body("");
    assert!(params.video_formats.is_none());
    assert!(params.client_rtp_port.is_none());
}
