//! Receiver for channels that deliver every message once and in order.

use crate::channel::receivers::fragment_receiver::{
    after_message, discard_horizon, without_stale, FragmentReceiver, ReassemblyView, DISCARD_AFTER,
};
use crate::packet::message::{ChannelError, MessageContainer, MessageId, SingleData, SingleDataView};
use crate::utils::clock::{advance, advanced, duration_nanos};
use crate::utils::wrapping_id::{cyclic_add, cyclic_diff, wrapping_diff};
use std::collections::HashMap;
use std::collections::VecDeque;
use std::time::Duration;
use vstd::prelude::*;
use vstd::std_specs::hash::*;

verus! {

broadcast use vstd::std_specs::hash::group_hash_axioms;

/// What an ordered receiver holds.
pub struct OrderedView {
    /// The messages that wait to be read, in the order of their ids.
    pub buffered: Seq<SingleDataView>,
    /// The id of the next message to deliver.
    pub next_expected: MessageId,
    /// The messages that arrived ahead of their turn, by raw id.
    pub waiting: Map<u16, SingleDataView>,
}

impl OrderedView {
    /// Finitely many messages wait, each under its own id, and none of them
    /// is the next to deliver.
    pub open spec fn wf(self) -> bool {
        &&& self.waiting.dom().finite()
        &&& !self.waiting.contains_key(self.next_expected.0)
        &&& forall|key: u16| #[trigger]
            self.waiting.contains_key(key) ==> self.waiting[key].id == Some(MessageId(key))
    }

    /// The receiver after the next expected message, `message`, has been
    /// queued for reading.
    pub open spec fn delivered(self, message: SingleDataView) -> Self {
        OrderedView {
            buffered: self.buffered.push(message),
            next_expected: MessageId(cyclic_add(self.next_expected.0, 1) as u16),
            waiting: self.waiting.remove(self.next_expected.0),
        }
    }

    /// The receiver after every waiting message whose turn has come has been
    /// queued for reading: the next expected one, then the one after it, and
    /// so on up to the first id that is not waiting.
    pub open spec fn drained(self) -> Self
        decreases self.waiting.dom().len(),
        when self.waiting.dom().finite()
    {
        if self.waiting.contains_key(self.next_expected.0) {
            self.delivered(self.waiting[self.next_expected.0]).drained()
        } else {
            self
        }
    }
}

/// The receiver after a whole message has come out of intake, and what the
/// intake reports.
///
/// A message without an id is refused. The next expected message is queued
/// for reading, followed by the waiting messages that come right after it. A
/// message before the next expected one is a duplicate and is dropped; one
/// after it waits for its turn, unless one with its id waits already.
pub open spec fn ordered(before: OrderedView, message: SingleDataView) -> (OrderedView, Result<
    (),
    ChannelError,
>) {
    match message.id {
        None => (before, Err(ChannelError::MissingId)),
        Some(id) => {
            let distance = cyclic_diff(id.0, before.next_expected.0);
            if distance == 0 {
                (before.delivered(message).drained(), Ok(()))
            } else if distance > 0 || before.waiting.contains_key(id.0) {
                (before, Ok(()))
            } else {
                (
                    OrderedView {
                        buffered: before.buffered,
                        next_expected: before.next_expected,
                        waiting: before.waiting.insert(id.0, message),
                    },
                    Ok(()),
                )
            }
        },
    }
}

/// The ids of the messages `from`, `from + 1`, ... in a run of messages.
pub open spec fn ids_run_from(messages: Seq<SingleDataView>, from: u16) -> bool {
    forall|k: int|
        0 <= k < messages.len() ==> (#[trigger] messages[k]).id == Some(
            MessageId(cyclic_add(from, k) as u16),
        )
}

/// Draining only appends to what waits to be read, and what it appends has
/// consecutive ids that start at the id expected next: nothing is skipped
/// and nothing comes out of turn.
pub proof fn lemma_drained_in_order(view: OrderedView)
    requires
        view.waiting.dom().finite(),
        forall|key: u16| #[trigger]
            view.waiting.contains_key(key) ==> view.waiting[key].id == Some(MessageId(key)),
    ensures
        view.drained().wf(),
        view.drained().buffered.len() >= view.buffered.len(),
        view.drained().buffered.take(view.buffered.len() as int) == view.buffered,
        ids_run_from(
            view.drained().buffered.skip(view.buffered.len() as int),
            view.next_expected.0,
        ),
        view.drained().next_expected.0 as int == cyclic_add(
            view.next_expected.0,
            view.drained().buffered.len() - view.buffered.len(),
        ),
    decreases view.waiting.dom().len(),
{
    let key = view.next_expected.0;
    let n = view.buffered.len() as int;
    if view.waiting.contains_key(key) {
        let step = view.delivered(view.waiting[key]);
        lemma_drained_in_order(step);
        let end = step.drained();
        assert(end == view.drained());
        assert(end.buffered.take(n) =~= step.buffered.take(n));
        assert(step.buffered.take(n) =~= view.buffered);
        let tail = end.buffered.skip(n);
        let rest = end.buffered.skip(n + 1);
        assert forall|k: int| 0 <= k < tail.len() implies (#[trigger] tail[k]).id == Some(
            MessageId(cyclic_add(key, k) as u16),
        ) by {
            if k == 0 {
                assert(tail[0] == end.buffered.take(n + 1)[n]);
                assert(tail[0] == view.waiting[key]);
            } else {
                assert(tail[k] == rest[k - 1]);
                assert(cyclic_add(step.next_expected.0, k - 1) == cyclic_add(key, k));
            }
        }
        assert(cyclic_add(step.next_expected.0, end.buffered.len() - step.buffered.len())
            == cyclic_add(key, end.buffered.len() - n));
    } else {
        assert(view.buffered.take(n) =~= view.buffered);
        assert(view.buffered.skip(n) =~= Seq::<SingleDataView>::empty());
    }
}

/// Delivers every message exactly once, in the order of the ids, holding
/// back what arrives early until the messages before it have arrived.
pub struct OrderedReliableReceiver {
    recv_message_buffer: VecDeque<SingleData>,
    pending_recv_message_id: MessageId,
    waiting: HashMap<u16, SingleData>,
    fragment_receiver: FragmentReceiver,
    current_time: u128,
}

impl View for OrderedReliableReceiver {
    type V = OrderedView;

    closed spec fn view(&self) -> OrderedView {
        OrderedView {
            buffered: self.recv_message_buffer@.map_values(|data: SingleData| data@),
            next_expected: self.pending_recv_message_id,
            waiting: self.waiting@.map_values(|data: SingleData| data@),
        }
    }
}

impl OrderedReliableReceiver {
    /// The partly received messages, by raw message id.
    pub closed spec fn pending(&self) -> Map<u16, ReassemblyView> {
        self.fragment_receiver@
    }

    /// Nanoseconds that the receiver's clock has been advanced by.
    pub closed spec fn now(&self) -> u128 {
        self.current_time
    }

    pub closed spec fn wf(&self) -> bool {
        &&& self.fragment_receiver.wf()
        &&& self@.wf()
    }

    /// A receiver that expects message 0, whose clock stands at zero.
    pub fn new() -> (receiver: Self)
        ensures
            receiver.wf(),
            receiver@.buffered == Seq::<SingleDataView>::empty(),
            receiver@.next_expected == MessageId(0),
            receiver@.waiting == Map::<u16, SingleDataView>::empty(),
            receiver.pending() == Map::<u16, ReassemblyView>::empty(),
            receiver.now() == 0,
    {
        let receiver = OrderedReliableReceiver {
            recv_message_buffer: VecDeque::new(),
            pending_recv_message_id: MessageId(0),
            waiting: HashMap::new(),
            fragment_receiver: FragmentReceiver::new(),
            current_time: 0,
        };
        assert(receiver@.buffered =~= Seq::<SingleDataView>::empty());
        assert(receiver@.waiting =~= Map::<u16, SingleDataView>::empty());
        receiver
    }

    /// Advances the clock by `delta` and forgets the partly received messages
    /// that got no new fragment within the last [`DISCARD_AFTER`] nanoseconds.
    pub fn update(&mut self, delta: Duration)
        requires
            old(self).wf(),
        ensures
            final(self).wf(),
            final(self).now() == advanced(old(self).now(), duration_nanos(delta)),
            final(self).pending() == without_stale(
                old(self).pending(),
                discard_horizon(final(self).now()),
            ),
            final(self)@ == old(self)@,
    {
        self.current_time = advance(self.current_time, delta);
        let horizon: u128 = if self.current_time >= DISCARD_AFTER {
            self.current_time - DISCARD_AFTER
        } else {
            0
        };
        self.fragment_receiver.cleanup(horizon);
    }

    /// Takes in one message from a packet. A fragment goes to reassembly
    /// first; the whole message, once there is one, is delivered, held back
    /// or dropped according to its id.
    pub fn buffer_recv(&mut self, message: MessageContainer) -> (result: Result<(), ChannelError>)
        requires
            old(self).wf(),
        ensures
            final(self).wf(),
            final(self).now() == old(self).now(),
            final(self).pending() == after_message(
                old(self).pending(),
                message,
                old(self).now(),
            ).state,
            match after_message(old(self).pending(), message, old(self).now()).result {
                Ok(Some(whole)) => (final(self)@, result) == ordered(old(self)@, whole),
                Ok(None) => final(self)@ == old(self)@ && result is Ok,
                Err(e) => final(self)@ == old(self)@ && result == Err::<(), ChannelError>(e),
            },
    {
        let ghost before = self@;
        let whole = match self.fragment_receiver.receive(message, self.current_time) {
            Ok(Some(whole)) => whole,
            Ok(None) => {
                return Ok(());
            },
            Err(e) => {
                return Err(e);
            },
        };
        let id = match whole.id {
            Some(id) => id,
            None => {
                return Err(ChannelError::MissingId);
            },
        };
        let distance: i16 = wrapping_diff(id.0, self.pending_recv_message_id.0);
        if distance == 0 {
            self.recv_message_buffer.push_back(whole);
            self.pending_recv_message_id = self.pending_recv_message_id.wrapping_add(1);
            proof {
                assert(before.waiting.remove(before.next_expected.0) =~= before.waiting);
                assert(self@.buffered =~= before.buffered.push(whole@));
                assert(self@ == before.delivered(whole@));
            }
            let ghost target = self@.drained();
            let ghost reassembly = self.fragment_receiver;
            while self.waiting.contains_key(&self.pending_recv_message_id.0)
                invariant
                    self.fragment_receiver == reassembly,
                    self.current_time == old(self).current_time,
                    self@.waiting.dom().finite(),
                    forall|key: u16| #[trigger]
                        self@.waiting.contains_key(key) ==> self@.waiting[key].id == Some(
                            MessageId(key),
                        ),
                    self@.drained() == target,
                decreases self@.waiting.dom().len(),
            {
                let ghost step = self@;
                let key: u16 = self.pending_recv_message_id.0;
                assert(step.waiting.contains_key(key));
                match self.waiting.remove(&key) {
                    Some(next) => {
                        self.recv_message_buffer.push_back(next);
                        self.pending_recv_message_id = self.pending_recv_message_id.wrapping_add(1);
                        proof {
                            assert(self@.waiting =~= step.waiting.remove(key));
                            assert(self@.buffered =~= step.buffered.push(step.waiting[key]));
                            assert(self@ == step.delivered(step.waiting[key]));
                        }
                    },
                    None => {},
                }
            }
            proof {
                assert(!self@.waiting.contains_key(self@.next_expected.0));
                assert(self@ == target);
            }
        } else if distance < 0 && !self.waiting.contains_key(&id.0) {
            let ghost held = whole@;
            self.waiting.insert(id.0, whole);
            proof {
                assert(self@.waiting =~= before.waiting.insert(id.0, held));
                assert(self@.buffered =~= before.buffered);
            }
        }
        Ok(())
    }

    /// Takes the oldest waiting message, if there is one.
    pub fn read_message(&mut self) -> (message: Option<SingleData>)
        requires
            old(self).wf(),
        ensures
            final(self).wf(),
            final(self).now() == old(self).now(),
            final(self).pending() == old(self).pending(),
            final(self)@.next_expected == old(self)@.next_expected,
            final(self)@.waiting == old(self)@.waiting,
            old(self)@.buffered.len() == 0 ==> message is None && final(self)@ == old(self)@,
            old(self)@.buffered.len() > 0 ==> message is Some,
            old(self)@.buffered.len() > 0 ==> message->0@ == old(self)@.buffered[0],
            old(self)@.buffered.len() > 0 ==> final(self)@.buffered == old(self)@.buffered.drop_first(),
    {
        let ghost before = self@.buffered;
        let message = self.recv_message_buffer.pop_front();
        proof {
            if before.len() > 0 {
                assert(self@.buffered =~= before.drop_first());
            } else {
                assert(self@.buffered =~= before);
            }
        }
        message
    }

    /// How many messages wait to be read.
    pub fn num_buffered(&self) -> (n: usize)
        ensures
            n == self@.buffered.len(),
    {
        self.recv_message_buffer.len()
    }

    /// How many messages are held back until their turn comes.
    pub fn num_waiting(&self) -> (n: usize)
        ensures
            n == self@.waiting.dom().len(),
    {
        assert(self@.waiting.dom() =~= self.waiting@.dom());
        self.waiting.len()
    }
}

} // verus!
