//! RTSP 1.0 as Wi-Fi Display uses it: messages and the source's session.

pub mod headers;
pub mod messages;
pub mod session;
pub mod roundtrip;
pub mod framing;
