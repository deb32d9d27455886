//! Senders that keep nothing once a message has been handed out.

use crate::channel::senders::fragment_sender::{
    fragment_count, fragment_of, lemma_fragment_count_limit, FragmentSender, FRAGMENT_SIZE,
};
use crate::packet::message::{
    fragment_views, single_views, ChannelError, FragmentData, FragmentDataView, MessageAck,
    MessageId, SingleData, SingleDataView,
};
use crate::utils::payload::{payload, payload_len};
use crate::utils::wrapping_id::cyclic_add;
use bytes::Bytes;
use std::collections::VecDeque;
use std::time::Duration;
use vstd::prelude::*;

verus! {

/// The fragments of a payload, in order.
pub open spec fn split_views(id: MessageId, content: Seq<u8>, fragment_size: nat) -> Seq<
    FragmentDataView,
> {
    Seq::new(
        fragment_count(content.len(), fragment_size),
        |k: int| fragment_of(id, content, fragment_size, k as nat),
    )
}

/// What is queued for the next packet.
pub struct QueuesView {
    pub singles: Seq<SingleDataView>,
    pub fragments: Seq<FragmentDataView>,
}

/// The queues after a payload has been queued: in one piece under
/// `single_id` if it fits one fragment, else split into fragments that carry
/// `fragments_id`.
pub open spec fn enqueued(
    before: QueuesView,
    single_id: Option<MessageId>,
    fragments_id: MessageId,
    content: Seq<u8>,
    fragment_size: nat,
) -> QueuesView {
    if content.len() > fragment_size {
        QueuesView {
            singles: before.singles,
            fragments: before.fragments + split_views(fragments_id, content, fragment_size),
        }
    } else {
        QueuesView {
            singles: before.singles.push(SingleDataView { id: single_id, bytes: content }),
            fragments: before.fragments,
        }
    }
}

/// The two queues that `send_packet` hands out, and the splitter that fills
/// the second.
pub struct SendQueues {
    single_messages_to_send: VecDeque<SingleData>,
    fragmented_messages_to_send: VecDeque<FragmentData>,
    fragment_sender: FragmentSender,
}

impl View for SendQueues {
    type V = QueuesView;

    closed spec fn view(&self) -> QueuesView {
        QueuesView {
            singles: single_views(self.single_messages_to_send@),
            fragments: fragment_views(self.fragmented_messages_to_send@),
        }
    }
}

impl SendQueues {
    /// Most bytes that go into one fragment.
    pub closed spec fn fragment_size(&self) -> usize {
        self.fragment_sender.fragment_size
    }

    pub closed spec fn wf(&self) -> bool {
        self.fragment_sender.wf()
    }

    /// Empty queues that fragment at `fragment_size` bytes.
    pub fn new(fragment_size: usize) -> (queues: Self)
        requires
            fragment_size > 0,
        ensures
            queues.wf(),
            queues.fragment_size() == fragment_size,
            queues@.singles == Seq::<SingleDataView>::empty(),
            queues@.fragments == Seq::<FragmentDataView>::empty(),
    {
        let queues = SendQueues {
            single_messages_to_send: VecDeque::new(),
            fragmented_messages_to_send: VecDeque::new(),
            fragment_sender: FragmentSender::with_fragment_size(fragment_size),
        };
        assert(queues@.singles =~= Seq::<SingleDataView>::empty());
        assert(queues@.fragments =~= Seq::<FragmentDataView>::empty());
        queues
    }

    /// Queues a payload, whole or in fragments. Says whether it was
    /// fragmented; a payload of more than 255 fragments is refused and
    /// changes nothing.
    pub fn enqueue(
        &mut self,
        single_id: Option<MessageId>,
        fragments_id: MessageId,
        message: Bytes,
    ) -> (result: Result<bool, ChannelError>)
        requires
            old(self).wf(),
        ensures
            final(self).wf(),
            final(self).fragment_size() == old(self).fragment_size(),
            result is Err <==> payload(message).len() > 255 * old(self).fragment_size(),
            result is Err ==> result == Err::<bool, ChannelError>(ChannelError::MessageTooLarge)
                && final(self)@ == old(self)@,
            result is Ok ==> result->Ok_0 == (payload(message).len() > old(self).fragment_size())
                && final(self)@ == enqueued(
                old(self)@,
                single_id,
                fragments_id,
                payload(message),
                old(self).fragment_size() as nat,
            ),
    {
        let size: usize = self.fragment_sender.fragment_size;
        let ghost content = payload(message);
        let ghost before = self@;
        proof {
            lemma_fragment_count_limit(content.len(), size as nat);
            assert(size <= 255 * size) by (nonlinear_arith)
                requires
                    size > 0,
            ;
        }
        if payload_len(&message) > size {
            let fragments = match self.fragment_sender.build_fragments(fragments_id, message) {
                Ok(fragments) => fragments,
                Err(e) => {
                    return Err(e);
                },
            };
            let ghost split = fragment_views(fragments@);
            let ghost target = split_views(fragments_id, content, size as nat);
            assert(split =~= target);
            let mut k: usize = 0;
            assert(before.fragments + split.take(0) =~= before.fragments);
            while k < fragments.len()
                invariant
                    k <= fragments.len(),
                    split == fragment_views(fragments@),
                    self.fragment_sender == old(self).fragment_sender,
                    self@.singles == before.singles,
                    self@.fragments == before.fragments + split.take(k as int),
                decreases fragments.len() - k,
            {
                let ghost queued = self@.fragments;
                self.fragmented_messages_to_send.push_back(fragments[k].duplicate());
                assert(self@.fragments =~= queued.push(split[k as int]));
                assert(split.take(k + 1) =~= split.take(k as int).push(split[k as int]));
                assert(self@.fragments =~= before.fragments + split.take(k + 1));
                k = k + 1;
            }
            assert(split.take(k as int) =~= split);
            Ok(true)
        } else {
            let data = SingleData::new(single_id, message);
            self.single_messages_to_send.push_back(data);
            assert(self@.singles =~= before.singles.push(data@));
            Ok(false)
        }
    }

    /// Hands out both queues and leaves them empty.
    pub fn take(&mut self) -> (queues: (VecDeque<SingleData>, VecDeque<FragmentData>))
        ensures
            final(self).wf() == old(self).wf(),
            final(self).fragment_size() == old(self).fragment_size(),
            single_views(queues.0@) == old(self)@.singles,
            fragment_views(queues.1@) == old(self)@.fragments,
            final(self)@.singles == Seq::<SingleDataView>::empty(),
            final(self)@.fragments == Seq::<FragmentDataView>::empty(),
    {
        let mut singles: VecDeque<SingleData> = VecDeque::new();
        let mut fragments: VecDeque<FragmentData> = VecDeque::new();
        std::mem::swap(&mut self.single_messages_to_send, &mut singles);
        std::mem::swap(&mut self.fragmented_messages_to_send, &mut fragments);
        assert(self@.singles =~= Seq::<SingleDataView>::empty());
        assert(self@.fragments =~= Seq::<FragmentDataView>::empty());
        (singles, fragments)
    }

    /// Whether anything is queued.
    pub fn is_empty(&self) -> (empty: bool)
        ensures
            empty == (self@.singles.len() == 0 && self@.fragments.len() == 0),
    {
        self.single_messages_to_send.len() == 0 && self.fragmented_messages_to_send.len() == 0
    }
}

/// A sender for channels that neither order nor acknowledge. Single messages
/// go out without an id; the fragments of a large message carry an id that
/// serves only to tell them from those of other messages.
pub struct UnorderedUnreliableSender {
    queues: SendQueues,
    next_send_fragmented_message_id: MessageId,
}

impl UnorderedUnreliableSender {
    /// What is queued for the next packet.
    pub closed spec fn queued(&self) -> QueuesView {
        self.queues@
    }

    /// The id that the fragments of the next large message carry.
    pub closed spec fn next_fragmented_id(&self) -> MessageId {
        self.next_send_fragmented_message_id
    }

    /// Most bytes that go into one fragment.
    pub closed spec fn fragment_size(&self) -> usize {
        self.queues.fragment_size()
    }

    pub closed spec fn wf(&self) -> bool {
        self.queues.wf()
    }

    /// A sender with empty queues that fragments at `fragment_size` bytes.
    pub fn with_fragment_size(fragment_size: usize) -> (sender: Self)
        requires
            fragment_size > 0,
        ensures
            sender.wf(),
            sender.fragment_size() == fragment_size,
            sender.next_fragmented_id() == MessageId(0),
            sender.queued().singles == Seq::<SingleDataView>::empty(),
            sender.queued().fragments == Seq::<FragmentDataView>::empty(),
    {
        UnorderedUnreliableSender {
            queues: SendQueues::new(fragment_size),
            next_send_fragmented_message_id: MessageId(0),
        }
    }

    /// A sender with empty queues that fragments at [`FRAGMENT_SIZE`] bytes.
    pub fn new() -> (sender: Self)
        ensures
            sender.wf(),
            sender.fragment_size() == FRAGMENT_SIZE,
            sender.next_fragmented_id() == MessageId(0),
            sender.queued().singles == Seq::<SingleDataView>::empty(),
            sender.queued().fragments == Seq::<FragmentDataView>::empty(),
    {
        Self::with_fragment_size(FRAGMENT_SIZE)
    }

    /// Queues a message for the next packet. A message that fits one
    /// fragment goes out whole and without an id; a larger one goes out in
    /// fragments under the next fragment-grouping id.
    pub fn buffer_send(&mut self, message: Bytes) -> (result: Result<(), ChannelError>)
        requires
            old(self).wf(),
        ensures
            final(self).wf(),
            final(self).fragment_size() == old(self).fragment_size(),
            result is Err <==> payload(message).len() > 255 * old(self).fragment_size(),
            result is Err ==> result == Err::<(), ChannelError>(ChannelError::MessageTooLarge)
                && final(self).queued() == old(self).queued() && final(self).next_fragmented_id()
                == old(self).next_fragmented_id(),
            result is Ok ==> final(self).queued() == enqueued(
                old(self).queued(),
                None,
                old(self).next_fragmented_id(),
                payload(message),
                old(self).fragment_size() as nat,
            ),
            result is Ok ==> final(self).next_fragmented_id().0 as int == if payload(message).len()
                > old(self).fragment_size() {
                cyclic_add(old(self).next_fragmented_id().0, 1)
            } else {
                old(self).next_fragmented_id().0 as int
            },
    {
        match self.queues.enqueue(None, self.next_send_fragmented_message_id, message) {
            Ok(fragmented) => {
                if fragmented {
                    self.next_send_fragmented_message_id =
                    self.next_send_fragmented_message_id.wrapping_add(1);
                }
                Ok(())
            },
            Err(e) => Err(e),
        }
    }

    /// Nothing is ever sent again: there is nothing to collect.
    pub fn collect_messages_to_send(&mut self)
        ensures
            *final(self) == *old(self),
    {
    }

    /// Deliveries are not tracked: a notification changes nothing.
    pub fn notify_message_delivered(&mut self, message_ack: &MessageAck)
        ensures
            *final(self) == *old(self),
    {
    }

    /// The sender keeps no time: the passing of `delta` changes nothing.
    pub fn update(&mut self, delta: Duration)
        ensures
            *final(self) == *old(self),
    {
    }

    /// Hands out what is queued, single messages and fragments, each oldest
    /// first. The queues are empty afterwards.
    pub fn send_packet(&mut self) -> (queues: (VecDeque<SingleData>, VecDeque<FragmentData>))
        ensures
            final(self).wf() == old(self).wf(),
            final(self).fragment_size() == old(self).fragment_size(),
            final(self).next_fragmented_id() == old(self).next_fragmented_id(),
            single_views(queues.0@) == old(self).queued().singles,
            fragment_views(queues.1@) == old(self).queued().fragments,
            final(self).queued().singles == Seq::<SingleDataView>::empty(),
            final(self).queued().fragments == Seq::<FragmentDataView>::empty(),
    {
        self.queues.take()
    }

    /// Whether anything is queued for the next packet.
    pub fn has_messages_to_send(&self) -> (any: bool)
        ensures
            any == (self.queued().singles.len() > 0 || self.queued().fragments.len() > 0),
    {
        !self.queues.is_empty()
    }
}

/// A sender for channels that drop what arrives late. Every message, whole
/// or fragmented, goes out under the next message id.
pub struct SequencedUnreliableSender {
    queues: SendQueues,
    next_send_message_id: MessageId,
}

impl SequencedUnreliableSender {
    /// What is queued for the next packet.
    pub closed spec fn queued(&self) -> QueuesView {
        self.queues@
    }

    /// The id that the next message gets.
    pub closed spec fn next_id(&self) -> MessageId {
        self.next_send_message_id
    }

    /// Most bytes that go into one fragment.
    pub closed spec fn fragment_size(&self) -> usize {
        self.queues.fragment_size()
    }

    pub closed spec fn wf(&self) -> bool {
        self.queues.wf()
    }

    /// A sender with empty queues that fragments at `fragment_size` bytes.
    pub fn with_fragment_size(fragment_size: usize) -> (sender: Self)
        requires
            fragment_size > 0,
        ensures
            sender.wf(),
            sender.fragment_size() == fragment_size,
            sender.next_id() == MessageId(0),
            sender.queued().singles == Seq::<SingleDataView>::empty(),
            sender.queued().fragments == Seq::<FragmentDataView>::empty(),
    {
        SequencedUnreliableSender {
            queues: SendQueues::new(fragment_size),
            next_send_message_id: MessageId(0),
        }
    }

    /// A sender with empty queues that fragments at [`FRAGMENT_SIZE`] bytes.
    pub fn new() -> (sender: Self)
        ensures
            sender.wf(),
            sender.fragment_size() == FRAGMENT_SIZE,
            sender.next_id() == MessageId(0),
            sender.queued().singles == Seq::<SingleDataView>::empty(),
            sender.queued().fragments == Seq::<FragmentDataView>::empty(),
    {
        Self::with_fragment_size(FRAGMENT_SIZE)
    }

    /// Queues a message for the next packet under the next message id,
    /// whole if it fits one fragment and in fragments otherwise.
    pub fn buffer_send(&mut self, message: Bytes) -> (result: Result<(), ChannelError>)
        requires
            old(self).wf(),
        ensures
            final(self).wf(),
            final(self).fragment_size() == old(self).fragment_size(),
            result is Err <==> payload(message).len() > 255 * old(self).fragment_size(),
            result is Err ==> result == Err::<(), ChannelError>(ChannelError::MessageTooLarge),
            result is Err ==> final(self).queued() == old(self).queued(),
            result is Err ==> final(self).next_id() == old(self).next_id(),
            result is Ok ==> final(self).queued() == enqueued(
                old(self).queued(),
                Some(old(self).next_id()),
                old(self).next_id(),
                payload(message),
                old(self).fragment_size() as nat,
            ),
            result is Ok ==> final(self).next_id().0 as int == cyclic_add(old(self).next_id().0, 1),
    {
        let id = self.next_send_message_id;
        match self.queues.enqueue(Some(id), id, message) {
            Ok(_) => {
                self.next_send_message_id = id.wrapping_add(1);
                Ok(())
            },
            Err(e) => Err(e),
        }
    }

    /// Nothing is ever sent again: there is nothing to collect.
    pub fn collect_messages_to_send(&mut self)
        ensures
            *final(self) == *old(self),
    {
    }

    /// Deliveries are not tracked: a notification changes nothing.
    pub fn notify_message_delivered(&mut self, message_ack: &MessageAck)
        ensures
            *final(self) == *old(self),
    {
    }

    /// The sender keeps no time: the passing of `delta` changes nothing.
    pub fn update(&mut self, delta: Duration)
        ensures
            *final(self) == *old(self),
    {
    }

    /// Hands out what is queued, single messages and fragments, each oldest
    /// first. The queues are empty afterwards.
    pub fn send_packet(&mut self) -> (queues: (VecDeque<SingleData>, VecDeque<FragmentData>))
        ensures
            final(self).wf() == old(self).wf(),
            final(self).fragment_size() == old(self).fragment_size(),
            final(self).next_id() == old(self).next_id(),
            single_views(queues.0@) == old(self).queued().singles,
            fragment_views(queues.1@) == old(self).queued().fragments,
            final(self).queued().singles == Seq::<SingleDataView>::empty(),
            final(self).queued().fragments == Seq::<FragmentDataView>::empty(),
    {
        self.queues.take()
    }

    /// Whether anything is queued for the next packet.
    pub fn has_messages_to_send(&self) -> (any: bool)
        ensures
            any == (self.queued().singles.len() > 0 || self.queued().fragments.len() > 0),
    {
        !self.queues.is_empty()
    }
}

} // verus!
