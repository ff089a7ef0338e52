//! Driver core for a multi-button USB HID display surface.
//!
//! The library holds the device-independent logic: the wire codec that
//! builds reset, brightness and image-chunk reports, the page/button
//! configuration model with its validity rules, the dispatch engine that
//! turns button presses into actions, and the decoding of raw input
//! reports into button indices. The surrounding program performs the
//! actual HID transfers, file reads and process launches and feeds plain
//! values into these functions.

pub mod codec;
pub mod config;
pub mod dispatch;
pub mod input;
