use miracast_client::rtsp::session::{parse_transport_port, SessionConfig, WFD_DEFAULT_CONTROL_PORT};

#[test]
fn test_parse_transport_port() {
    assert_eq!(
        parse_transport_port("RTP/AVP/UDP;unicast;client_port=19000"),
        19000
    );
    assert_eq!(
        parse_transport_port("RTP/AVP/UDP;unicast;client_port=5004-5005"),
        5004
    );
    assert_eq!(parse_transport_port("RTP/AVP/UDP;unicast"), 19000);
}

#[test]
fn test_session_config_default() {
    let config = SessionConfig::default();
    assert_eq!(config.control_port, WFD_DEFAULT_CONTROL_PORT);
}
