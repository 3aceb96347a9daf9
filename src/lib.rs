//! Capture analysis and command codec for a half-duplex desk-lift bus.
//!
//! - [`text`]: the decimal time and hexadecimal byte fields of capture rows.
//! - [`capture`]: rows to frames, frames to sentinel-delimited packets per
//!   device, the two devices merged into one timeline and cut into segments.
//! - [`codec`]: a packet's bytes, its fixed fields and its XOR checksum.
//! - [`command`]: the commands, their wire layout, encoding and decoding.
//! - [`error`]: what can go wrong.
use vstd::prelude::*;

pub mod error;
pub mod text;
pub mod capture;
pub mod codec;
pub mod command;

verus! {

} // verus!
