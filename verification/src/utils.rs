//! Arithmetic and byte-buffer helpers shared by the channel code.

pub mod clock;
pub mod payload;
pub mod wrapping_id;
