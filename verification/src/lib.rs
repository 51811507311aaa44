//! Support library for enabling the infrared emitter of UVC cameras.
//!
//! The library holds the logic of the tool: the model of a vendor
//! extension-unit (XU) control, the guided search that increments control
//! values until an emitter reacts, the statistical analyzer that decides
//! whether a greyscale stream is blinking, and the per-device configuration
//! store with its on-disk text format.  All device, file and terminal I/O
//! stays outside, in thin callers that feed plain values into these
//! functions and carry their results back out.

pub mod analyzer;
pub mod bytes;
pub mod codec;
pub mod config;
pub mod configuration;
pub mod control;
pub mod enabler;
pub mod error;
pub mod frame;
pub mod helper;
pub mod ir_control;
pub mod run;
pub mod stream;
pub mod uvc;
pub mod xu_control;
