//! Senders and receivers, one pair per delivery mode.

pub mod container;
pub mod settings;
pub mod receivers;
pub mod senders;
pub mod round_trip;
