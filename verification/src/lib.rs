//! Encoder for Hanover flip-dot displays.
//!
//! A [`HanoverFlipdot`] holds a monochrome pixel grid and turns it into the
//! ASCII-hex framed message that the display controller reads from its serial
//! line.

pub mod hex;
pub mod packing;
pub mod storage;
pub mod frame;
pub mod flipdot;

pub use flipdot::FlipdotError;
pub use flipdot::HanoverFlipdot;
pub use frame::Dot;
pub use hex::byte_to_hex;
