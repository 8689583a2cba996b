//! Application configuration: its sections, their defaults, and the manager
//! that holds the configuration with the path it is stored at.

use vstd::prelude::*;

verus! {

/// A file-system path, carried as it is.
#[verifier::external_type_specification]
#[verifier::external_body]
pub struct ExPathBuf(std::path::PathBuf);

/// Application configuration.
#[derive(Debug, Clone)]
pub struct AppConfig {
    pub general: GeneralConfig,
    pub streaming: StreamingConfig,
    pub advanced: AdvancedConfig,
}

/// General preferences.
#[derive(Debug, Clone)]
pub struct GeneralConfig {
    pub minimize_to_tray: bool,
    pub start_minimized: bool,
    pub log_level: String,
}

/// Streaming preferences.
#[derive(Debug, Clone)]
pub struct StreamingConfig {
    pub video_quality: String,
    pub frame_rate: u32,
    pub audio_enabled: bool,
}

/// Advanced preferences.
#[derive(Debug, Clone)]
pub struct AdvancedConfig {
    pub discovery_timeout_secs: u64,
    pub connection_timeout_secs: u64,
}

/// The default general preferences.
pub open spec fn is_default_general(g: GeneralConfig) -> bool {
    &&& g.minimize_to_tray
    &&& !g.start_minimized
    &&& g.log_level@ == "info"@
}

/// The default streaming preferences.
pub open spec fn is_default_streaming(s: StreamingConfig) -> bool {
    &&& s.video_quality@ == "High"@
    &&& s.frame_rate == 30
    &&& s.audio_enabled
}

/// The default advanced preferences.
pub open spec fn is_default_advanced(a: AdvancedConfig) -> bool {
    &&& a.discovery_timeout_secs == 10
    &&& a.connection_timeout_secs == 15
}

impl Default for GeneralConfig {
    fn default() -> (g: Self)
        ensures
            is_default_general(g),
    {
        GeneralConfig {
            minimize_to_tray: true,
            start_minimized: false,
            log_level: "info".to_owned(),
        }
    }
}

impl Default for StreamingConfig {
    fn default() -> (s: Self)
        ensures
            is_default_streaming(s),
    {
        StreamingConfig { video_quality: "High".to_owned(), frame_rate: 30, audio_enabled: true }
    }
}

impl Default for AdvancedConfig {
    fn default() -> (a: Self)
        ensures
            is_default_advanced(a),
    {
        AdvancedConfig { discovery_timeout_secs: 10, connection_timeout_secs: 15 }
    }
}

impl Default for AppConfig {
    fn default() -> (c: Self)
        ensures
            is_default_general(c.general),
            is_default_streaming(c.streaming),
            is_default_advanced(c.advanced),
    {
        AppConfig {
            general: GeneralConfig::default(),
            streaming: StreamingConfig::default(),
            advanced: AdvancedConfig::default(),
        }
    }
}

/// The configuration with the path of the file it is stored in.
pub struct ConfigManager {
    config: AppConfig,
    config_path: std::path::PathBuf,
}

impl ConfigManager {
    /// The configuration held.
    pub closed spec fn spec_config(&self) -> AppConfig {
        self.config
    }

    /// The path it is stored at.
    pub closed spec fn spec_path(&self) -> std::path::PathBuf {
        self.config_path
    }

    /// A manager for `config`, stored at `config_path`.
    pub fn new(config: AppConfig, config_path: std::path::PathBuf) -> (m: Self)
        ensures
            m.spec_config() == config,
            m.spec_path() == config_path,
    {
        ConfigManager { config, config_path }
    }

    /// The current configuration.
    pub fn config(&self) -> (c: &AppConfig)
        ensures
            *c == self.spec_config(),
    {
        &self.config
    }

    /// The current configuration, to change it.
    pub fn config_mut(&mut self) -> (c: &mut AppConfig)
        ensures
            *c == old(self).spec_config(),
            final(self).spec_config() == *final(c),
            final(self).spec_path() == old(self).spec_path(),
    {
        &mut self.config
    }

    /// The path the configuration is stored at.
    pub fn config_path(&self) -> (p: &std::path::PathBuf)
        ensures
            *p == self.spec_path(),
    {
        &self.config_path
    }
}

} // verus!
