//! The sending half of a channel.

pub mod fragment_sender;
pub mod reliable;
pub mod unacked;
pub mod unreliable;
