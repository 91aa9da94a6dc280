//! Report framing for the Model I2 Wireless mouse.
//!
//! A configuration command (lighting, DPI profile, inactivity timeout) is
//! encoded as a batch of 16-byte HID feature reports. This crate holds the
//! colour model, the report builder and the per-feature encoders, each with a
//! machine-checked contract; opening the device and writing the reports is left
//! to the caller.

pub mod decimal;
pub mod dpi;
pub mod dump;
pub mod hex;
pub mod layout;
pub mod lighting;
pub mod lighting_mode;
pub mod message;
pub mod report;
pub mod rgb;
pub mod timeout;
pub mod transfer;
