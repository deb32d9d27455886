//! The receiving half of a channel.

pub mod fragment_receiver;
pub mod unordered_unreliable;
pub mod sequenced_unreliable;
pub mod ordered_reliable;
pub mod unordered_reliable;
