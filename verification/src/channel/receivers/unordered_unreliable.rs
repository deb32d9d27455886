//! Receiver for channels that neither order nor acknowledge.

use crate::channel::receivers::fragment_receiver::{
    after_message, discard_horizon, without_stale, FragmentReceiver, ReassemblyView, DISCARD_AFTER,
};
use crate::packet::message::{ChannelError, MessageContainer, SingleData, SingleDataView};
use crate::utils::clock::{advance, advanced, duration_nanos};
use std::collections::VecDeque;
use std::time::Duration;
use vstd::prelude::*;

verus! {

/// Hands messages to the reader in the order in which they arrived, or, for
/// a fragmented message, in which its last fragment arrived. Ids are carried
/// along but never looked at: nothing is dropped or reordered.
pub struct UnorderedUnreliableReceiver {
    recv_message_buffer: VecDeque<SingleData>,
    fragment_receiver: FragmentReceiver,
    current_time: u128,
}

impl UnorderedUnreliableReceiver {
    /// The messages that wait to be read, oldest first.
    pub closed spec fn buffered(&self) -> Seq<SingleDataView> {
        self.recv_message_buffer@.map_values(|data: SingleData| data@)
    }

    /// The partly received messages, by raw message id.
    pub closed spec fn pending(&self) -> Map<u16, ReassemblyView> {
        self.fragment_receiver@
    }

    /// Nanoseconds that the receiver's clock has been advanced by.
    pub closed spec fn now(&self) -> u128 {
        self.current_time
    }

    pub closed spec fn wf(&self) -> bool {
        self.fragment_receiver.wf()
    }

    /// A receiver with nothing buffered, whose clock stands at zero.
    pub fn new() -> (receiver: Self)
        ensures
            receiver.wf(),
            receiver.buffered() == Seq::<SingleDataView>::empty(),
            receiver.pending() == Map::<u16, ReassemblyView>::empty(),
            receiver.now() == 0,
    {
        let receiver = UnorderedUnreliableReceiver {
            recv_message_buffer: VecDeque::new(),
            fragment_receiver: FragmentReceiver::new(),
            current_time: 0,
        };
        assert(receiver.buffered() =~= Seq::<SingleDataView>::empty());
        receiver
    }

    /// Advances the clock by `delta` and forgets the partly received messages
    /// that got no new fragment within the last [`DISCARD_AFTER`] nanoseconds.
    pub fn update(&mut self, delta: Duration)
        requires
            old(self).wf(),
        ensures
            final(self).wf(),
            final(self).now() == advanced(old(self).now(), duration_nanos(delta)),
            final(self).pending() == without_stale(
                old(self).pending(),
                discard_horizon(final(self).now()),
            ),
            final(self).buffered() == old(self).buffered(),
    {
        self.current_time = advance(self.current_time, delta);
        let horizon: u128 = if self.current_time >= DISCARD_AFTER {
            self.current_time - DISCARD_AFTER
        } else {
            0
        };
        self.fragment_receiver.cleanup(horizon);
    }

    /// Takes in one message from a packet. A single message is queued as it
    /// is; a fragment goes to reassembly, and the message it completes, if
    /// any, is queued. Fails exactly when the fragment is refused.
    pub fn buffer_recv(&mut self, message: MessageContainer) -> (result: Result<(), ChannelError>)
        requires
            old(self).wf(),
        ensures
            final(self).wf(),
            final(self).now() == old(self).now(),
            final(self).pending() == after_message(
                old(self).pending(),
                message,
                old(self).now(),
            ).state,
            match after_message(old(self).pending(), message, old(self).now()).result {
                Ok(Some(whole)) => final(self).buffered() == old(self).buffered().push(whole)
                    && result is Ok,
                Ok(None) => final(self).buffered() == old(self).buffered() && result is Ok,
                Err(e) => final(self).buffered() == old(self).buffered() && result == Err::<
                    (),
                    ChannelError,
                >(e),
            },
    {
        let ghost before = self.buffered();
        match self.fragment_receiver.receive(message, self.current_time) {
            Ok(Some(whole)) => {
                self.recv_message_buffer.push_back(whole);
                assert(self.buffered() =~= before.push(whole@));
                Ok(())
            },
            Ok(None) => Ok(()),
            Err(e) => Err(e),
        }
    }

    /// Takes the oldest waiting message, if there is one.
    pub fn read_message(&mut self) -> (message: Option<SingleData>)
        requires
            old(self).wf(),
        ensures
            final(self).wf(),
            final(self).now() == old(self).now(),
            final(self).pending() == old(self).pending(),
            old(self).buffered().len() == 0 ==> message is None,
            old(self).buffered().len() == 0 ==> final(self).buffered() == old(self).buffered(),
            old(self).buffered().len() > 0 ==> message is Some,
            old(self).buffered().len() > 0 ==> message->0@ == old(self).buffered()[0],
            old(self).buffered().len() > 0 ==> final(self).buffered() == old(self).buffered().drop_first(),
    {
        let ghost before = self.buffered();
        let message = self.recv_message_buffer.pop_front();
        proof {
            if before.len() > 0 {
                assert(self.buffered() =~= before.drop_first());
            } else {
                assert(self.buffered() =~= before);
            }
        }
        message
    }

    /// How many messages are partly received.
    pub fn num_pending(&self) -> (n: usize)
        ensures
            n == self.pending().dom().len(),
    {
        self.fragment_receiver.num_pending()
    }

    /// How many messages wait to be read.
    pub fn num_buffered(&self) -> (n: usize)
        ensures
            n == self.buffered().len(),
    {
        self.recv_message_buffer.len()
    }
}

} // verus!
