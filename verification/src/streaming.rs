//! Streaming settings: quality presets and the encoder settings they give.

use vstd::prelude::*;

verus! {

/// Streaming quality presets.
#[derive(Debug, Clone, Copy, PartialEq, Eq, Structural)]
pub enum Quality {
    Low,
    Medium,
    High,
    VeryHigh,
}

/// The bitrate of a preset, in kbit/s.
pub open spec fn bitrate_of(q: Quality) -> u32 {
    match q {
        Quality::Low => 2000,
        Quality::Medium => 5000,
        Quality::High => 10000,
        Quality::VeryHigh => 20000,
    }
}

impl Quality {
    /// Bitrate in kbps for this quality level.
    pub fn bitrate_kbps(self) -> (b: u32)
        ensures
            b == bitrate_of(self),
    {
        match self {
            Quality::Low => 2000,
            Quality::Medium => 5000,
            Quality::High => 10000,
            Quality::VeryHigh => 20000,
        }
    }
}

/// Configuration for the streaming pipeline.
#[derive(Debug, Clone)]
pub struct StreamConfig {
    pub target_ip: String,
    pub target_port: u16,
    pub quality: Quality,
    pub framerate: u32,
    pub width: u32,
    pub height: u32,
}

impl Default for StreamConfig {
    fn default() -> (c: Self)
        ensures
            c.target_ip@ == Seq::<char>::empty(),
            c.target_port == 19000,
            c.quality == Quality::High,
            c.framerate == 30,
            c.width == 1920,
            c.height == 1080,
    {
        StreamConfig {
            target_ip: String::new(),
            target_port: 19000,
            quality: Quality::High,
            framerate: 30,
            width: 1920,
            height: 1080,
        }
    }
}

/// The H.264 encoder's settings for a stream.
#[derive(Debug, Clone, Copy, PartialEq, Eq, Structural)]
pub struct EncoderSettings {
    /// Target bitrate in kbit/s.
    pub bitrate_kbps: u32,
    /// Largest distance between key frames, in frames: two seconds of video.
    pub key_int_max: u32,
}

impl StreamConfig {
    /// The encoder settings for this stream.
    pub fn encoder_settings(&self) -> (e: EncoderSettings)
        requires
            self.framerate <= u32::MAX / 2,
        ensures
            e.bitrate_kbps == bitrate_of(self.quality),
            e.key_int_max == self.framerate * 2,
    {
        EncoderSettings {
            bitrate_kbps: self.quality.bitrate_kbps(),
            key_int_max: self.framerate * 2,
        }
    }
}

/// The presets' bitrates, in kbit/s: 2000, 5000, 10000 and 20000, each
/// preset strictly above the one below it.
pub proof fn law_bitrate_presets()
    ensures
        bitrate_of(Quality::Low) == 2000,
        bitrate_of(Quality::Medium) == 5000,
        bitrate_of(Quality::High) == 10000,
        bitrate_of(Quality::VeryHigh) == 20000,
        bitrate_of(Quality::Low) < bitrate_of(Quality::Medium),
        bitrate_of(Quality::Medium) < bitrate_of(Quality::High),
        bitrate_of(Quality::High) < bitrate_of(Quality::VeryHigh),
{
}

/// Different presets have different bitrates.
pub proof fn law_bitrate_distinct(a: Quality, b: Quality)
    ensures
        a != b ==> bitrate_of(a) != bitrate_of(b),
{
}

} // verus!
