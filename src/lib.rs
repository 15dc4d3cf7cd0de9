//! The relay core of a cockpit-display streamer: the layout of the streamed
//! displays and the capture-link framing, the latest-frame registry, I420
//! conversion, the DCS-BIOS telemetry decoder with its control definitions,
//! and the controls-stream session rules.

pub mod display;
pub mod yuv;
pub mod latest;
pub mod frames;
pub mod names;
pub mod controls;
pub mod control_definitions;
pub mod stream;
pub mod session;
pub mod capture;
pub mod buffers;
pub mod api_error;
pub mod webrtc;
