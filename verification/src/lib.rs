//! Message channels over an unreliable datagram transport: wrapping message
//! ids, payload fragmentation and reassembly, the four delivery modes, and
//! acknowledgement-driven resending.
//!
//! Every function carries a contract, and Verus proves each contract of its
//! function's body. What is taken on trust is kept in two small modules:
//! [`utils::payload`] states what the buffer operations of the `bytes` crate
//! do, and [`utils::clock`] what `Duration::as_nanos` returns.
//!
//! Nothing here reads a clock or touches the network. Time reaches a channel
//! through its `update` function, and bytes through `buffer_send` and
//! `buffer_recv`.

pub mod utils;
pub mod packet;
pub mod channel;
pub mod interpolation;
pub mod registry;
pub mod tick;
