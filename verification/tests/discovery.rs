use miracast_client::discovery::{parse_wfd_subelements, Discovery, DiscoveryError, MiracastDevice, WfdDeviceType};

#[test]
fn test_parse_wfd_source() {
    // ID=00, Length=0006, DeviceInfo=0010 (Source, session avail), Port=1C44 (7236), Throughput=0032
    let (dtype, port) = parse_wfd_subelements("000006001000001C440032").unwrap();
    assert_eq!(dtype, WfdDeviceType::Source);
    assert_eq!(port, 0x1C44); // 7236
}

#[test]
fn test_parse_wfd_primary_sink() {
    // DeviceInfo=0011 (PrimarySink), Port=0000 defaults to 7236
    let (dtype, port) = parse_wfd_subelements("000006001100000032").unwrap();
    assert_eq!(dtype, WfdDeviceType::PrimarySink);
    assert_eq!(port, 7236);
}

#[test]
fn test_parse_wfd_invalid_short() {
    assert!(parse_wfd_subelements("0006").is_none());
}

#[test]
fn test_parse_wfd_invalid_chars() {
    assert!(parse_wfd_subelements("ZZZZZZZZZZZZZZZZZZ").is_none());
}

#[test]
fn test_parse_wfd_wrong_subelement_id() {
    // ID=01 (not Device Information)
    assert!(parse_wfd_subelements("010006001000001C440032").is_none());
}

#[test]
fn test_parse_wfd_port_zero_defaults() {
    // Port field = 0000, should default to 7236
    let (_, port) = parse_wfd_subelements("000006001100000000").unwrap();
    assert_eq!(port, 7236);
}

#[test]
fn test_miracast_device_is_sink() {
    let device = MiracastDevice {
        id: "test".to_string(),
        name: "TV".to_string(),
        address: "aa:bb:cc:dd:ee:ff".to_string(),
        model: "Test".to_string(),
        signal_strength: -50,
        wfd_type: Some(WfdDeviceType::PrimarySink),
        rtsp_port: 7236,
    };
    assert!(device.is_sink());
}

#[test]
fn test_miracast_device_source_not_sink() {
    let device = MiracastDevice {
        id: "test".to_string(),
        name: "Phone".to_string(),
        address: "aa:bb:cc:dd:ee:ff".to_string(),
        model: "Test".to_string(),
        signal_strength: -50,
        wfd_type: Some(WfdDeviceType::Source),
        rtsp_port: 7236,
    };
    assert!(!device.is_sink());
}

#[test]
fn discovery_needs_a_connection() {
    let mut d = Discovery::new();
    assert!(d.get_all_devices().is_empty());
    assert_eq!(d.start(), Err(DiscoveryError::NotConnected));
    assert!(!d.is_running());
    d.set_connected();
    assert_eq!(d.start(), Ok(()));
    assert!(d.is_running());
    assert_eq!(d.stop(), Ok(()));
    assert_eq!(d.stop(), Ok(()));
    assert!(!d.is_running());
    assert!(d.get_sinks().is_empty());
}
