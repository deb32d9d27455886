//! What travels in a packet.

pub mod message;
