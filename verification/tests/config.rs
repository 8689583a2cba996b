use miracast_client::config::AppConfig;

#[test]
fn test_default_config() {
    let config = AppConfig::default();
    assert_eq!(config.streaming.frame_rate, 30);
    assert_eq!(config.streaming.video_quality, "High");
    assert!(config.streaming.audio_enabled);
    assert_eq!(config.advanced.discovery_timeout_secs, 10);
}
