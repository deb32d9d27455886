//! A channel as one connection holds it: its settings, a sender and a
//! receiver of the kind that its mode calls for.

use crate::channel::receivers::fragment_receiver::ReassemblyView;
use crate::channel::receivers::ordered_reliable::OrderedReliableReceiver;
use crate::channel::receivers::sequenced_unreliable::SequencedUnreliableReceiver;
use crate::channel::receivers::unordered_reliable::UnorderedReliableReceiver;
use crate::channel::receivers::unordered_unreliable::UnorderedUnreliableReceiver;
use crate::channel::senders::reliable::ReliableSender;
use crate::channel::senders::unacked::UnackedEntryView;
use crate::channel::senders::unreliable::{SequencedUnreliableSender, UnorderedUnreliableSender};
use crate::channel::settings::{ChannelMode, ChannelSettings};
use crate::packet::message::{FragmentDataView, MessageId, SingleDataView};
use crate::registry::ChannelRegistry;
use vstd::prelude::*;

verus! {

/// The sending half of a channel. Both reliable modes send alike.
pub enum ChannelSender {
    UnorderedUnreliable(UnorderedUnreliableSender),
    SequencedUnreliable(SequencedUnreliableSender),
    Reliable(ReliableSender),
}

/// The receiving half of a channel.
pub enum ChannelReceiver {
    UnorderedUnreliable(UnorderedUnreliableReceiver),
    SequencedUnreliable(SequencedUnreliableReceiver),
    UnorderedReliable(UnorderedReliableReceiver),
    OrderedReliable(OrderedReliableReceiver),
}

impl ChannelSender {
    pub open spec fn wf(&self) -> bool {
        match self {
            ChannelSender::UnorderedUnreliable(sender) => sender.wf(),
            ChannelSender::SequencedUnreliable(sender) => sender.wf(),
            ChannelSender::Reliable(sender) => sender.wf(),
        }
    }

    /// Whether this is the kind of sender that `mode` calls for.
    pub open spec fn serves(&self, mode: ChannelMode) -> bool {
        match self {
            ChannelSender::UnorderedUnreliable(_) => mode == ChannelMode::UnorderedUnreliable,
            ChannelSender::SequencedUnreliable(_) => mode == ChannelMode::SequencedUnreliable,
            ChannelSender::Reliable(_) => mode.reliable(),
        }
    }

    /// Whether nothing has been sent yet: nothing is queued or remembered,
    /// and the first id to give out is 0.
    pub open spec fn is_fresh(&self) -> bool {
        match self {
            ChannelSender::UnorderedUnreliable(sender) => {
                &&& sender.queued().singles == Seq::<SingleDataView>::empty()
                &&& sender.queued().fragments == Seq::<FragmentDataView>::empty()
                &&& sender.next_fragmented_id() == MessageId(0)
            },
            ChannelSender::SequencedUnreliable(sender) => {
                &&& sender.queued().singles == Seq::<SingleDataView>::empty()
                &&& sender.queued().fragments == Seq::<FragmentDataView>::empty()
                &&& sender.next_id() == MessageId(0)
            },
            ChannelSender::Reliable(sender) => {
                &&& sender.unacked() == Seq::<UnackedEntryView>::empty()
                &&& sender.singles_to_send() == Seq::<SingleDataView>::empty()
                &&& sender.fragments_to_send() == Seq::<FragmentDataView>::empty()
                &&& sender.next_id() == MessageId(0)
                &&& sender.now() == 0
            },
        }
    }

    /// A fresh sender of the kind that `mode` calls for.
    pub fn new(mode: ChannelMode) -> (sender: Self)
        ensures
            sender.wf(),
            sender.serves(mode),
            sender.is_fresh(),
    {
        match mode {
            ChannelMode::UnorderedUnreliable => ChannelSender::UnorderedUnreliable(
                UnorderedUnreliableSender::new(),
            ),
            ChannelMode::SequencedUnreliable => ChannelSender::SequencedUnreliable(
                SequencedUnreliableSender::new(),
            ),
            ChannelMode::UnorderedReliable => ChannelSender::Reliable(ReliableSender::new()),
            ChannelMode::OrderedReliable => ChannelSender::Reliable(ReliableSender::new()),
        }
    }
}

impl ChannelReceiver {
    pub open spec fn wf(&self) -> bool {
        match self {
            ChannelReceiver::UnorderedUnreliable(receiver) => receiver.wf(),
            ChannelReceiver::SequencedUnreliable(receiver) => receiver.wf(),
            ChannelReceiver::UnorderedReliable(receiver) => receiver.wf(),
            ChannelReceiver::OrderedReliable(receiver) => receiver.wf(),
        }
    }

    /// Whether this is the kind of receiver that `mode` calls for.
    pub open spec fn serves(&self, mode: ChannelMode) -> bool {
        match self {
            ChannelReceiver::UnorderedUnreliable(_) => mode == ChannelMode::UnorderedUnreliable,
            ChannelReceiver::SequencedUnreliable(_) => mode == ChannelMode::SequencedUnreliable,
            ChannelReceiver::UnorderedReliable(_) => mode == ChannelMode::UnorderedReliable,
            ChannelReceiver::OrderedReliable(_) => mode == ChannelMode::OrderedReliable,
        }
    }

    /// Whether nothing has been received yet: nothing waits to be read or to
    /// be completed, and nothing counts as seen.
    pub open spec fn is_fresh(&self) -> bool {
        match self {
            ChannelReceiver::UnorderedUnreliable(receiver) => {
                &&& receiver.buffered() == Seq::<SingleDataView>::empty()
                &&& receiver.pending() == Map::<u16, ReassemblyView>::empty()
                &&& receiver.now() == 0
            },
            ChannelReceiver::SequencedUnreliable(receiver) => {
                &&& receiver@.buffered == Seq::<SingleDataView>::empty()
                &&& receiver@.most_recent == None::<MessageId>
                &&& receiver.pending() == Map::<u16, ReassemblyView>::empty()
                &&& receiver.now() == 0
            },
            ChannelReceiver::UnorderedReliable(receiver) => {
                &&& receiver@.buffered == Seq::<SingleDataView>::empty()
                &&& receiver@.delivered == Set::<u16>::empty()
                &&& receiver.pending() == Map::<u16, ReassemblyView>::empty()
                &&& receiver.now() == 0
            },
            ChannelReceiver::OrderedReliable(receiver) => {
                &&& receiver@.buffered == Seq::<SingleDataView>::empty()
                &&& receiver@.next_expected == MessageId(0)
                &&& receiver@.waiting == Map::<u16, SingleDataView>::empty()
                &&& receiver.pending() == Map::<u16, ReassemblyView>::empty()
                &&& receiver.now() == 0
            },
        }
    }

    /// A fresh receiver of the kind that `mode` calls for.
    pub fn new(mode: ChannelMode) -> (receiver: Self)
        ensures
            receiver.wf(),
            receiver.serves(mode),
            receiver.is_fresh(),
    {
        match mode {
            ChannelMode::UnorderedUnreliable => ChannelReceiver::UnorderedUnreliable(
                UnorderedUnreliableReceiver::new(),
            ),
            ChannelMode::SequencedUnreliable => ChannelReceiver::SequencedUnreliable(
                SequencedUnreliableReceiver::new(),
            ),
            ChannelMode::UnorderedReliable => ChannelReceiver::UnorderedReliable(
                UnorderedReliableReceiver::new(),
            ),
            ChannelMode::OrderedReliable => ChannelReceiver::OrderedReliable(
                OrderedReliableReceiver::new(),
            ),
        }
    }
}

/// One channel of one connection.
pub struct ChannelContainer {
    pub settings: ChannelSettings,
    pub sender: ChannelSender,
    pub receiver: ChannelReceiver,
}

impl ChannelContainer {
    /// Both halves are well formed and of the kind that the mode calls for.
    pub open spec fn wf(&self) -> bool {
        &&& self.sender.wf()
        &&& self.receiver.wf()
        &&& self.sender.serves(self.settings.mode)
        &&& self.receiver.serves(self.settings.mode)
    }

    /// Whether nothing has gone through the channel yet.
    pub open spec fn is_fresh(&self) -> bool {
        self.sender.is_fresh() && self.receiver.is_fresh()
    }

    /// A fresh channel with these settings.
    pub fn new(settings: ChannelSettings) -> (channel: Self)
        ensures
            channel.wf(),
            channel.is_fresh(),
            channel.settings == settings,
    {
        ChannelContainer {
            settings,
            sender: ChannelSender::new(settings.mode),
            receiver: ChannelReceiver::new(settings.mode),
        }
    }
}

/// The channels of a new connection: one fresh channel for each declared
/// one, in the order of declaration, so that a channel stands at the place
/// that is its number on the wire.
pub fn channels_for_connection(registry: &ChannelRegistry) -> (channels: Vec<ChannelContainer>)
    ensures
        channels.len() == registry@.len(),
        forall|i: int|
            0 <= i < channels.len() ==> (#[trigger] channels[i]).wf() && channels[i].is_fresh()
                && channels[i].settings == registry@[i].settings,
{
    let mut channels: Vec<ChannelContainer> = Vec::new();
    let mut i: usize = 0;
    while i < registry.len()
        invariant
            i <= registry@.len(),
            channels.len() == i,
            forall|j: int|
                0 <= j < i ==> (#[trigger] channels[j]).wf() && channels[j].is_fresh()
                    && channels[j].settings == registry@[j].settings,
        decreases registry@.len() - i,
    {
        let entry = registry.entry_at(i);
        channels.push(ChannelContainer::new(entry.settings));
        i = i + 1;
    }
    channels
}

} // verus!
