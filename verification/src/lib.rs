//! Verified core of the Lumiere remote-support agent: stream tuning, H.264
//! framing, frame conversion, privacy blurring, the file-transfer and
//! assistant-action protocols, the session's decisions, and the parsers of
//! the signaling and configuration texts.
use vstd::prelude::*;

pub mod adaptive;
pub mod ai;
pub mod autostart;
pub mod encoder;
pub mod file_channel;
pub mod file_transfer;
pub mod frame;
pub mod h264;
pub mod hardware;
pub mod ice;
pub mod input;
pub mod json;
pub mod network;
pub mod privacy;
pub mod scan;
pub mod session;
pub mod signaling;
pub mod text;
