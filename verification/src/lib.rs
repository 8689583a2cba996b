//! Miracast source-side protocol library: RTSP 1.0 message parsing and
//! building, the WFD session state machine, WFD parameter and subelement
//! parsing, and the plain configuration and streaming settings.

pub mod text;
pub mod chars;
pub mod rtsp;
pub mod wfd;
pub mod discovery;
pub mod config;
pub mod streaming;
