//! Receiver for channels that drop what arrives late.

use crate::channel::receivers::fragment_receiver::{
    after_message, discard_horizon, without_stale, FragmentReceiver, ReassemblyView, DISCARD_AFTER,
};
use crate::packet::message::{ChannelError, MessageContainer, MessageId, SingleData, SingleDataView};
use crate::utils::clock::{advance, advanced, duration_nanos};
use crate::utils::wrapping_id::cyclic_diff;
use std::collections::VecDeque;
use std::time::Duration;
use vstd::prelude::*;

verus! {

/// Whether a message with this id is let through after `most_recent`: the
/// first message always, a later one only if its id comes strictly after on
/// the circle.
pub open spec fn is_newer(id: MessageId, most_recent: Option<MessageId>) -> bool {
    match most_recent {
        None => true,
        Some(seen) => cyclic_diff(id.0, seen.0) < 0,
    }
}

/// What a sequenced receiver holds.
pub struct SequencedView {
    /// The messages that wait to be read, oldest first.
    pub buffered: Seq<SingleDataView>,
    /// The id of the newest message let through so far.
    pub most_recent: Option<MessageId>,
}

/// The receiver after a whole message has come out of intake, and what the
/// intake reports: a message without an id is refused, one that is not newer
/// than the newest seen is dropped in silence, any other is queued.
pub open spec fn sequenced(before: SequencedView, message: SingleDataView) -> (SequencedView, Result<
    (),
    ChannelError,
>) {
    match message.id {
        None => (before, Err(ChannelError::MissingId)),
        Some(id) => if is_newer(id, before.most_recent) {
            (
                SequencedView { buffered: before.buffered.push(message), most_recent: Some(id) },
                Ok(()),
            )
        } else {
            (before, Ok(()))
        },
    }
}

/// Hands out messages in the order of their ids and drops those that arrive
/// after a newer one.
pub struct SequencedUnreliableReceiver {
    recv_message_buffer: VecDeque<SingleData>,
    most_recent_message_id: Option<MessageId>,
    fragment_receiver: FragmentReceiver,
    current_time: u128,
}

impl View for SequencedUnreliableReceiver {
    type V = SequencedView;

    closed spec fn view(&self) -> SequencedView {
        SequencedView {
            buffered: self.recv_message_buffer@.map_values(|data: SingleData| data@),
            most_recent: self.most_recent_message_id,
        }
    }
}

impl SequencedUnreliableReceiver {
    /// The partly received messages, by raw message id.
    pub closed spec fn pending(&self) -> Map<u16, ReassemblyView> {
        self.fragment_receiver@
    }

    /// Nanoseconds that the receiver's clock has been advanced by.
    pub closed spec fn now(&self) -> u128 {
        self.current_time
    }

    pub closed spec fn wf(&self) -> bool {
        self.fragment_receiver.wf()
    }

    /// A receiver that has seen nothing, whose clock stands at zero.
    pub fn new() -> (receiver: Self)
        ensures
            receiver.wf(),
            receiver@.buffered == Seq::<SingleDataView>::empty(),
            receiver@.most_recent == None::<MessageId>,
            receiver.pending() == Map::<u16, ReassemblyView>::empty(),
            receiver.now() == 0,
    {
        let receiver = SequencedUnreliableReceiver {
            recv_message_buffer: VecDeque::new(),
            most_recent_message_id: None,
            fragment_receiver: FragmentReceiver::new(),
            current_time: 0,
        };
        assert(receiver@.buffered =~= Seq::<SingleDataView>::empty());
        receiver
    }

    /// Advances the clock by `delta` and forgets the partly received messages
    /// that got no new fragment within the last [`DISCARD_AFTER`] nanoseconds.
    pub fn update(&mut self, delta: Duration)
        requires
            old(self).wf(),
        ensures
            final(self).wf(),
            final(self).now() == advanced(old(self).now(), duration_nanos(delta)),
            final(self).pending() == without_stale(
                old(self).pending(),
                discard_horizon(final(self).now()),
            ),
            final(self)@ == old(self)@,
    {
        self.current_time = advance(self.current_time, delta);
        let horizon: u128 = if self.current_time >= DISCARD_AFTER {
            self.current_time - DISCARD_AFTER
        } else {
            0
        };
        self.fragment_receiver.cleanup(horizon);
    }

    /// Takes in one message from a packet. A fragment goes to reassembly
    /// first; the whole message, once there is one, is queued if it is newer
    /// than every message queued before, and dropped otherwise.
    pub fn buffer_recv(&mut self, message: MessageContainer) -> (result: Result<(), ChannelError>)
        requires
            old(self).wf(),
        ensures
            final(self).wf(),
            final(self).now() == old(self).now(),
            final(self).pending() == after_message(
                old(self).pending(),
                message,
                old(self).now(),
            ).state,
            match after_message(old(self).pending(), message, old(self).now()).result {
                Ok(Some(whole)) => (final(self)@, result) == sequenced(old(self)@, whole),
                Ok(None) => final(self)@ == old(self)@ && result is Ok,
                Err(e) => final(self)@ == old(self)@ && result == Err::<(), ChannelError>(e),
            },
    {
        let ghost before = self@;
        let whole = match self.fragment_receiver.receive(message, self.current_time) {
            Ok(Some(whole)) => whole,
            Ok(None) => {
                return Ok(());
            },
            Err(e) => {
                return Err(e);
            },
        };
        let id = match whole.id {
            Some(id) => id,
            None => {
                return Err(ChannelError::MissingId);
            },
        };
        let newer = match self.most_recent_message_id {
            None => true,
            Some(seen) => id.is_after(seen),
        };
        if newer {
            self.most_recent_message_id = Some(id);
            self.recv_message_buffer.push_back(whole);
            assert(self@.buffered =~= before.buffered.push(whole@));
        }
        Ok(())
    }

    /// Takes the oldest waiting message, if there is one.
    pub fn read_message(&mut self) -> (message: Option<SingleData>)
        requires
            old(self).wf(),
        ensures
            final(self).wf(),
            final(self).now() == old(self).now(),
            final(self).pending() == old(self).pending(),
            final(self)@.most_recent == old(self)@.most_recent,
            old(self)@.buffered.len() == 0 ==> message is None && final(self)@ == old(self)@,
            old(self)@.buffered.len() > 0 ==> message is Some,
            old(self)@.buffered.len() > 0 ==> message->0@ == old(self)@.buffered[0],
            old(self)@.buffered.len() > 0 ==> final(self)@.buffered == old(self)@.buffered.drop_first(),
    {
        let ghost before = self@.buffered;
        let message = self.recv_message_buffer.pop_front();
        proof {
            if before.len() > 0 {
                assert(self@.buffered =~= before.drop_first());
            } else {
                assert(self@.buffered =~= before);
            }
        }
        message
    }

    /// How many messages wait to be read.
    pub fn num_buffered(&self) -> (n: usize)
        ensures
            n == self@.buffered.len(),
    {
        self.recv_message_buffer.len()
    }
}

} // verus!
