//! Message ids and the two shapes a message takes on the wire.

use crate::utils::payload::payload;
use crate::utils::wrapping_id::{cyclic_add, cyclic_diff, wrapping_diff};
use bytes::Bytes;
use std::cmp::Ordering;
use vstd::prelude::*;
use vstd::std_specs::cmp::PartialOrdSpecImpl;
use vstd::std_specs::convert::FromSpecImpl;

verus! {

/// Identifies a message on one channel. Wraps around at 65536; ids are
/// ordered by their signed distance on the circle, not by their raw value.
#[derive(Clone, Copy, Debug, Eq, Hash, PartialEq, Structural)]
pub struct MessageId(pub u16);

/// How `a` stands to `b` on the circle: `Less` when `b` follows `a`, `Greater`
/// when `b` precedes it or lies exactly opposite.
pub open spec fn cyclic_order(a: u16, b: u16) -> Ordering {
    if cyclic_diff(a, b) == 0 {
        Ordering::Equal
    } else if cyclic_diff(a, b) > 0 {
        Ordering::Less
    } else {
        Ordering::Greater
    }
}

/// Away from the pair of opposite points the order is antisymmetric: one id
/// is less than another exactly when the other is greater than it.
pub proof fn lemma_cyclic_order_antisymmetric(a: u16, b: u16)
    requires
        cyclic_diff(a, b) != -32768,
    ensures
        cyclic_order(a, b) == Ordering::Less <==> cyclic_order(b, a) == Ordering::Greater,
        cyclic_order(a, b) == Ordering::Equal <==> cyclic_order(b, a) == Ordering::Equal,
        cyclic_order(a, b) == Ordering::Equal <==> a == b,
{
}

/// Each of two opposite points counts as greater than the other.
pub proof fn lemma_cyclic_order_opposite(a: u16, b: u16)
    requires
        cyclic_diff(a, b) == -32768,
    ensures
        cyclic_order(a, b) == Ordering::Greater,
        cyclic_order(b, a) == Ordering::Greater,
{
}

impl PartialOrd for MessageId {
    fn partial_cmp(&self, other: &Self) -> (r: Option<Ordering>) {
        let d: i16 = wrapping_diff(self.0, other.0);
        if d == 0 {
            Some(Ordering::Equal)
        } else if d > 0 {
            Some(Ordering::Less)
        } else {
            Some(Ordering::Greater)
        }
    }
}

impl PartialOrdSpecImpl for MessageId {
    open spec fn obeys_partial_cmp_spec() -> bool {
        true
    }

    open spec fn partial_cmp_spec(&self, other: &Self) -> Option<Ordering> {
        Some(cyclic_order(self.0, other.0))
    }
}

impl Default for MessageId {
    fn default() -> (id: Self)
        ensures
            id.0 == 0,
    {
        MessageId(0)
    }
}

impl MessageId {
    /// The id `steps` places further round the circle.
    pub fn wrapping_add(self, steps: u16) -> (next: Self)
        ensures
            next.0 as int == cyclic_add(self.0, steps as int),
    {
        MessageId(self.0.wrapping_add(steps))
    }

    /// The signed distance from `earlier` to this id: `self - earlier`.
    pub fn distance_from(self, earlier: Self) -> (d: i16)
        ensures
            d as int == cyclic_diff(earlier.0, self.0),
    {
        wrapping_diff(earlier.0, self.0)
    }

    /// Whether this id comes strictly after `other` on the circle. The id
    /// exactly opposite counts as after.
    pub fn is_after(self, other: Self) -> (after: bool)
        ensures
            after == (cyclic_diff(self.0, other.0) < 0),
    {
        wrapping_diff(self.0, other.0) < 0
    }
}

/// A complete message that fits one packet.
#[derive(Clone, Debug, PartialEq, Eq)]
pub struct SingleData {
    /// Present on channels that order or acknowledge their messages.
    pub id: Option<MessageId>,
    pub bytes: Bytes,
}

/// What a [`SingleData`] holds.
pub struct SingleDataView {
    pub id: Option<MessageId>,
    pub bytes: Seq<u8>,
}

impl View for SingleData {
    type V = SingleDataView;

    open spec fn view(&self) -> SingleDataView {
        SingleDataView { id: self.id, bytes: payload(self.bytes) }
    }
}

impl SingleData {
    pub fn new(id: Option<MessageId>, bytes: Bytes) -> (data: Self)
        ensures
            data.id == id,
            data.bytes == bytes,
    {
        SingleData { id, bytes }
    }

    /// A second handle on the same message.
    pub fn duplicate(&self) -> (copy: Self)
        ensures
            copy@ == self@,
    {
        SingleData { id: self.id, bytes: self.bytes.clone() }
    }
}

/// One slice of a message that was too large for one packet.
#[derive(Clone, Debug, PartialEq, Eq)]
pub struct FragmentData {
    /// Shared by all the fragments of one message.
    pub message_id: MessageId,
    /// Position of this slice in the message, counted from zero.
    pub fragment_id: u8,
    /// How many fragments the message was split into.
    pub num_fragments: u8,
    pub bytes: Bytes,
}

/// What a [`FragmentData`] holds.
pub struct FragmentDataView {
    pub message_id: MessageId,
    pub fragment_id: u8,
    pub num_fragments: u8,
    pub bytes: Seq<u8>,
}

impl View for FragmentData {
    type V = FragmentDataView;

    open spec fn view(&self) -> FragmentDataView {
        FragmentDataView {
            message_id: self.message_id,
            fragment_id: self.fragment_id,
            num_fragments: self.num_fragments,
            bytes: payload(self.bytes),
        }
    }
}

impl FragmentData {
    /// A second handle on the same fragment.
    pub fn duplicate(&self) -> (copy: Self)
        ensures
            copy@ == self@,
    {
        FragmentData {
            message_id: self.message_id,
            fragment_id: self.fragment_id,
            num_fragments: self.num_fragments,
            bytes: self.bytes.clone(),
        }
    }
}

/// The views of a run of single messages.
pub open spec fn single_views(messages: Seq<SingleData>) -> Seq<SingleDataView> {
    messages.map_values(|m: SingleData| m@)
}

/// The views of a run of fragments.
pub open spec fn fragment_views(fragments: Seq<FragmentData>) -> Seq<FragmentDataView> {
    fragments.map_values(|f: FragmentData| f@)
}

/// Either shape of message, as a receiver takes it in.
#[derive(Clone, Debug, PartialEq, Eq)]
pub enum MessageContainer {
    Single(SingleData),
    Fragment(FragmentData),
}

impl From<SingleData> for MessageContainer {
    fn from(data: SingleData) -> (container: Self) {
        MessageContainer::Single(data)
    }
}

impl FromSpecImpl<SingleData> for MessageContainer {
    open spec fn obeys_from_spec() -> bool {
        true
    }

    open spec fn from_spec(data: SingleData) -> Self {
        MessageContainer::Single(data)
    }
}

impl From<FragmentData> for MessageContainer {
    fn from(data: FragmentData) -> (container: Self) {
        MessageContainer::Fragment(data)
    }
}

impl FromSpecImpl<FragmentData> for MessageContainer {
    open spec fn obeys_from_spec() -> bool {
        true
    }

    open spec fn from_spec(data: FragmentData) -> Self {
        MessageContainer::Fragment(data)
    }
}

/// Names what a delivery notification acknowledges: a whole single message
/// (`fragment_id` is `None`) or one fragment of a fragmented one.
#[derive(Clone, Copy, Debug, PartialEq, Eq, Hash, Structural)]
pub struct MessageAck {
    pub message_id: MessageId,
    pub fragment_id: Option<u8>,
}

/// Why a channel refused an operation.
#[derive(Clone, Copy, Debug, PartialEq, Eq, Structural)]
pub enum ChannelError {
    /// The payload needs more than 255 fragments.
    MessageTooLarge,
    /// A delivery notification does not fit the shape of the stored message.
    AckMismatch,
    /// A fragment's position is not below its message's fragment count, or
    /// the count differs from that of the fragments already received.
    InvalidFragment,
    /// A message without an id arrived on a channel that goes by ids.
    MissingId,
    /// This end of the connection may not send on the channel.
    DirectionViolation,
}

} // verus!
