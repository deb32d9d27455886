//! What the two ends of a connection agree on for each channel.

use crate::packet::message::ChannelError;
use vstd::prelude::*;

verus! {

/// One end of a connection.
#[derive(Clone, Copy, Debug, PartialEq, Eq, Structural)]
pub enum Endpoint {
    Client,
    Server,
}

/// Who may send on a channel.
#[derive(Clone, Copy, Debug, PartialEq, Eq, Structural)]
pub enum ChannelDirection {
    ClientToServer,
    ServerToClient,
    Bidirectional,
}

/// How a channel delivers.
#[derive(Clone, Copy, Debug, PartialEq, Eq, Structural)]
pub enum ChannelMode {
    /// Best effort: no ids, no ordering, nothing sent twice.
    UnorderedUnreliable,
    /// What arrives after a newer message is dropped; nothing is sent twice.
    SequencedUnreliable,
    /// Every message arrives at least once, in any order.
    UnorderedReliable,
    /// Every message is delivered once, in the order of sending.
    OrderedReliable,
}

impl ChannelDirection {
    /// Whether `from` may send: the client on a channel towards the server,
    /// the server on one towards the client, both on a bidirectional one.
    pub open spec fn allows(self, from: Endpoint) -> bool {
        match self {
            ChannelDirection::ClientToServer => from == Endpoint::Client,
            ChannelDirection::ServerToClient => from == Endpoint::Server,
            ChannelDirection::Bidirectional => true,
        }
    }

    /// Whether `from` may send on a channel of this direction.
    pub fn may_send(self, from: Endpoint) -> (allowed: bool)
        ensures
            allowed == self.allows(from),
    {
        match self {
            ChannelDirection::ClientToServer => match from {
                Endpoint::Client => true,
                Endpoint::Server => false,
            },
            ChannelDirection::ServerToClient => match from {
                Endpoint::Client => false,
                Endpoint::Server => true,
            },
            ChannelDirection::Bidirectional => true,
        }
    }
}

impl ChannelMode {
    /// Whether messages are sent again until they are acknowledged.
    pub open spec fn reliable(self) -> bool {
        self == ChannelMode::UnorderedReliable || self == ChannelMode::OrderedReliable
    }

    /// Whether messages carry an id: on every channel but the unordered
    /// unreliable one.
    pub open spec fn numbered(self) -> bool {
        self != ChannelMode::UnorderedUnreliable
    }

    /// Whether messages are sent again until they are acknowledged.
    pub fn is_reliable(self) -> (reliable: bool)
        ensures
            reliable == self.reliable(),
    {
        match self {
            ChannelMode::UnorderedReliable => true,
            ChannelMode::OrderedReliable => true,
            _ => false,
        }
    }

    /// Whether messages carry an id.
    pub fn has_message_ids(self) -> (numbered: bool)
        ensures
            numbered == self.numbered(),
    {
        match self {
            ChannelMode::UnorderedUnreliable => false,
            _ => true,
        }
    }
}

/// The settings of one channel.
#[derive(Clone, Copy, Debug, PartialEq, Eq, Structural)]
pub struct ChannelSettings {
    pub mode: ChannelMode,
    pub direction: ChannelDirection,
}

impl ChannelSettings {
    /// Says whether `from` may send on this channel, and refuses with a
    /// direction violation if not.
    pub fn check_send(&self, from: Endpoint) -> (result: Result<(), ChannelError>)
        ensures
            result is Ok <==> self.direction.allows(from),
            result is Err ==> result == Err::<(), ChannelError>(ChannelError::DirectionViolation),
    {
        if self.direction.may_send(from) {
            Ok(())
        } else {
            Err(ChannelError::DirectionViolation)
        }
    }
}

} // verus!
