//! A sender that sends each message again until the peer acknowledges it.

use crate::channel::senders::fragment_sender::{
    fragment_count, fragment_of, is_split_of, lemma_fragment_count_limit, FragmentSender,
    FRAGMENT_SIZE,
};
use crate::channel::senders::unacked::{
    all_acked, entries_wf, fragment_ack_views, fragments_collected, fragments_going_out, is_due,
    lacks_id, lemma_without_absent_id, lemma_without_present_id, singles_collected, without_id,
    AckOutcome, FragmentAck, FragmentAckView, UnackedEntryView, UnackedMessage, UnackedView,
};
use crate::packet::message::{
    fragment_views, single_views, ChannelError, FragmentData, FragmentDataView, MessageAck,
    MessageId, SingleData, SingleDataView,
};
use crate::utils::clock::{advance, advanced, duration_nanos};
use crate::utils::payload::{payload, payload_len};
use crate::utils::wrapping_id::cyclic_add;
use bytes::Bytes;
use std::collections::VecDeque;
use std::time::Duration;
use vstd::prelude::*;

verus! {

/// Nanoseconds in a millisecond.
pub const NANOS_PER_MILLI: u128 = 1_000_000;

/// The entry under which a freshly buffered payload is remembered: split
/// into fragments if it is longer than one fragment, and never sent so far.
pub open spec fn buffered_entry(id: MessageId, content: Seq<u8>, fragment_size: nat) -> UnackedEntryView {
    if content.len() > fragment_size {
        UnackedEntryView {
            id,
            message: UnackedView::Fragmented(
                Seq::new(
                    fragment_count(content.len(), fragment_size),
                    |k: int|
                        FragmentAckView {
                            data: fragment_of(id, content, fragment_size, k as nat),
                            acked: false,
                            last_sent: None,
                        },
                ),
            ),
        }
    } else {
        UnackedEntryView { id, message: UnackedView::Single { bytes: content, last_sent: None } }
    }
}

/// Removing an entry keeps the rest well formed and leaves none with its id.
pub proof fn lemma_remove_keeps_wf(entries: Seq<UnackedEntryView>, i: int)
    requires
        entries_wf(entries),
        0 <= i < entries.len(),
    ensures
        entries_wf(entries.remove(i)),
        lacks_id(entries.remove(i), entries[i].id),
{
    let rest = entries.remove(i);
    assert forall|j: int| 0 <= j < rest.len() implies (#[trigger] rest[j]).wf() && rest[j].id
        != entries[i].id by {
        if j < i {
            assert(rest[j] == entries[j]);
        } else {
            assert(rest[j] == entries[j + 1]);
        }
    }
    assert forall|j: int, k: int| 0 <= j < k < rest.len() implies (#[trigger] rest[j]).id != (
    #[trigger] rest[k]).id by {
        let j0 = if j < i { j } else { j + 1 };
        let k0 = if k < i { k } else { k + 1 };
        assert(rest[j] == entries[j0]);
        assert(rest[k] == entries[k0]);
    }
}

/// Adding an entry whose id is new keeps the entries well formed.
pub proof fn lemma_push_keeps_wf(entries: Seq<UnackedEntryView>, entry: UnackedEntryView)
    requires
        entries_wf(entries),
        lacks_id(entries, entry.id),
        entry.wf(),
    ensures
        entries_wf(entries.push(entry)),
{
    let more = entries.push(entry);
    assert forall|j: int| 0 <= j < more.len() implies (#[trigger] more[j]).wf() by {
        if j < entries.len() {
            assert(more[j] == entries[j]);
        }
    }
    assert forall|j: int, k: int| 0 <= j < k < more.len() implies (#[trigger] more[j]).id != (
    #[trigger] more[k]).id by {
        assert(more[j] == entries[j]);
        if k < entries.len() {
            assert(more[k] == entries[k]);
        }
    }
}

/// Replacing an entry by a well-formed one with the same id keeps the
/// entries well formed.
pub proof fn lemma_update_keeps_wf(entries: Seq<UnackedEntryView>, i: int, entry: UnackedEntryView)
    requires
        entries_wf(entries),
        0 <= i < entries.len(),
        entry.id == entries[i].id,
        entry.wf(),
    ensures
        entries_wf(entries.update(i, entry)),
{
    let next = entries.update(i, entry);
    assert forall|j: int| 0 <= j < next.len() implies (#[trigger] next[j]).wf() by {
        if j != i {
            assert(next[j] == entries[j]);
        }
    }
    assert forall|j: int, k: int| 0 <= j < k < next.len() implies (#[trigger] next[j]).id != (
    #[trigger] next[k]).id by {
        assert(next[j].id == entries[j].id);
        assert(next[k].id == entries[k].id);
    }
}

/// A collection pass keeps every entry well formed.
pub proof fn lemma_collected_wf(entry: UnackedEntryView, now: u128, delay: u128)
    requires
        entry.wf(),
    ensures
        entry.collected(now, delay).wf(),
        entry.collected(now, delay).id == entry.id,
{
    match entry.message {
        UnackedView::Single { .. } => {},
        UnackedView::Fragmented(fragments) => {
            let after = fragments.map_values(|f: FragmentAckView| f.collected(now, delay));
            assert forall|k: int| 0 <= k < after.len() implies (#[trigger] after[k]).data.message_id
                == entry.id && after[k].data.fragment_id == k by {
                assert(after[k] == fragments[k].collected(now, delay));
            }
        },
    }
}

/// Whether something last sent at `last_sent` is to be sent at `now`.
pub fn should_send(last_sent: Option<u128>, now: u128, delay: u128) -> (due: bool)
    ensures
        due == is_due(last_sent, now, delay),
{
    match last_sent {
        None => true,
        Some(sent) => now > sent && now - sent > delay,
    }
}

/// Puts fresh fragments under watch: none confirmed, none sent.
pub fn watch_fragments(fragments: Vec<FragmentData>) -> (watched: Vec<FragmentAck>)
    ensures
        watched.len() == fragments.len(),
        forall|k: int|
            0 <= k < watched.len() ==> (#[trigger] watched@[k])@ == (FragmentAckView {
                data: fragments@[k]@,
                acked: false,
                last_sent: None,
            }),
{
    let mut watched: Vec<FragmentAck> = Vec::new();
    let mut k: usize = 0;
    while k < fragments.len()
        invariant
            k <= fragments.len(),
            watched.len() == k,
            forall|j: int|
                0 <= j < k ==> (#[trigger] watched@[j])@ == (FragmentAckView {
                    data: fragments@[j]@,
                    acked: false,
                    last_sent: None,
                }),
        decreases fragments.len() - k,
    {
        watched.push(FragmentAck { data: fragments[k].duplicate(), acked: false, last_sent: None });
        k = k + 1;
    }
    watched
}

/// One collection pass over the fragments of a message: each fragment that
/// is unconfirmed and due is queued on `out` and marked as sent at `now`.
pub fn collect_fragments(
    fragments: &Vec<FragmentAck>,
    now: u128,
    delay: u128,
    out: &mut VecDeque<FragmentData>,
) -> (after: Vec<FragmentAck>)
    ensures
        fragment_ack_views(after@) == fragment_ack_views(fragments@).map_values(
            |f: FragmentAckView| f.collected(now, delay),
        ),
        fragment_views(final(out)@) == fragment_views(old(out)@) + fragments_going_out(
            fragment_ack_views(fragments@),
            now,
            delay,
        ),
{
    let ghost views = fragment_ack_views(fragments@);
    let ghost queued = fragment_views(out@);
    let mut after: Vec<FragmentAck> = Vec::new();
    let mut k: usize = 0;
    assert(fragment_views(out@) =~= queued + fragments_going_out(views.take(0), now, delay));
    while k < fragments.len()
        invariant
            k <= fragments.len(),
            views == fragment_ack_views(fragments@),
            after.len() == k,
            forall|j: int| 0 <= j < k ==> (#[trigger] after@[j])@ == views[j].collected(now, delay),
            fragment_views(out@) == queued + fragments_going_out(views.take(k as int), now, delay),
        decreases fragments.len() - k,
    {
        let fragment = &fragments[k];
        proof {
            let next = views.take(k + 1);
            assert(next.drop_last() == views.take(k as int));
            assert(next.last() == fragment@);
        }
        let ghost queue_before = out@;
        if !fragment.acked && should_send(fragment.last_sent, now, delay) {
            let data = fragment.data.duplicate();
            out.push_back(fragment.data.duplicate());
            after.push(FragmentAck { data, acked: fragment.acked, last_sent: Some(now) });
            assert(fragment_views(out@) =~= fragment_views(queue_before).push(fragment@.data));
        } else {
            after.push(
                FragmentAck {
                    data: fragment.data.duplicate(),
                    acked: fragment.acked,
                    last_sent: fragment.last_sent,
                },
            );
        }
        assert(fragment_views(out@) =~= queued + fragments_going_out(
            views.take(k + 1),
            now,
            delay,
        ));
        k = k + 1;
    }
    assert(views.take(k as int) == views);
    assert(fragment_ack_views(after@) =~= views.map_values(
        |f: FragmentAckView| f.collected(now, delay),
    ));
    after
}

/// Whether the peer has confirmed every fragment.
pub fn every_fragment_acked(fragments: &Vec<FragmentAck>) -> (all: bool)
    ensures
        all == all_acked(fragment_ack_views(fragments@)),
{
    let mut k: usize = 0;
    while k < fragments.len()
        invariant
            k <= fragments.len(),
            forall|j: int| 0 <= j < k ==> (#[trigger] fragment_ack_views(fragments@)[j]).acked,
        decreases fragments.len() - k,
    {
        if !fragments[k].acked {
            assert(!fragment_ack_views(fragments@)[k as int].acked);
            return false;
        }
        k = k + 1;
    }
    true
}

/// An unacknowledged message under its id.
struct UnackedEntry {
    message_id: MessageId,
    message: UnackedMessage,
}

impl View for UnackedEntry {
    type V = UnackedEntryView;

    closed spec fn view(&self) -> UnackedEntryView {
        UnackedEntryView { id: self.message_id, message: self.message@ }
    }
}

/// One collection pass over one remembered message: what is due is queued
/// and marked as sent at `now`.
fn collect_entry(
    entry: &UnackedEntry,
    now: u128,
    delay: u128,
    singles: &mut VecDeque<SingleData>,
    fragments: &mut VecDeque<FragmentData>,
) -> (after: UnackedEntry)
    ensures
        after@ == entry@.collected(now, delay),
        single_views(final(singles)@) == single_views(old(singles)@) + entry@.singles_out(
            now,
            delay,
        ),
        fragment_views(final(fragments)@) == fragment_views(old(fragments)@)
            + entry@.fragments_out(now, delay),
{
    let ghost singles_before = single_views(singles@);
    let ghost fragments_before = fragment_views(fragments@);
    match &entry.message {
        UnackedMessage::Single { bytes, last_sent } => {
            assert(fragments_before + Seq::<FragmentDataView>::empty() =~= fragments_before);
            if should_send(*last_sent, now, delay) {
                let message = SingleData::new(Some(entry.message_id), bytes.clone());
                singles.push_back(message);
                assert(single_views(singles@) =~= singles_before + seq![message@]);
                UnackedEntry {
                    message_id: entry.message_id,
                    message: UnackedMessage::Single { bytes: bytes.clone(), last_sent: Some(now) },
                }
            } else {
                assert(singles_before + Seq::<SingleDataView>::empty() =~= singles_before);
                UnackedEntry {
                    message_id: entry.message_id,
                    message: UnackedMessage::Single { bytes: bytes.clone(), last_sent: *last_sent },
                }
            }
        },
        UnackedMessage::Fragmented(watched) => {
            assert(singles_before + Seq::<SingleDataView>::empty() =~= singles_before);
            let after = collect_fragments(watched, now, delay, fragments);
            UnackedEntry { message_id: entry.message_id, message: UnackedMessage::Fragmented(after) }
        },
    }
}

/// A sender that makes sure to resend messages until it receives an ack.
///
/// Messages are remembered in the order in which they were buffered, which
/// is the order of their ids on the circle.
pub struct ReliableSender {
    /// The messages that haven't been acked yet, oldest first.
    unacked_messages: Vec<UnackedEntry>,
    /// Message id to use for the next message to be sent.
    next_send_message_id: MessageId,
    /// Single messages handed out by the next `send_packet`.
    single_messages_to_send: VecDeque<SingleData>,
    /// Fragments handed out by the next `send_packet`.
    fragmented_messages_to_send: VecDeque<FragmentData>,
    /// Splits a message into fragments if it is too big.
    fragment_sender: FragmentSender,
    /// Nanoseconds to wait before sending an unacknowledged message again.
    resend_delay: u128,
    /// Nanoseconds that the clock has been advanced by.
    current_time: u128,
}

impl ReliableSender {
    /// The messages that haven't been acked yet, oldest first.
    pub closed spec fn unacked(&self) -> Seq<UnackedEntryView> {
        self.unacked_messages@.map_values(|e: UnackedEntry| e@)
    }

    /// The id that the next buffered message gets.
    pub closed spec fn next_id(&self) -> MessageId {
        self.next_send_message_id
    }

    /// The single messages queued for the next packet.
    pub closed spec fn singles_to_send(&self) -> Seq<SingleDataView> {
        single_views(self.single_messages_to_send@)
    }

    /// The fragments queued for the next packet.
    pub closed spec fn fragments_to_send(&self) -> Seq<FragmentDataView> {
        fragment_views(self.fragmented_messages_to_send@)
    }

    /// Nanoseconds that the sender's clock has been advanced by.
    pub closed spec fn now(&self) -> u128 {
        self.current_time
    }

    /// Nanoseconds to wait before sending an unacknowledged message again.
    pub closed spec fn resend_delay(&self) -> u128 {
        self.resend_delay
    }

    /// Most bytes that go into one fragment.
    pub closed spec fn fragment_size(&self) -> usize {
        self.fragment_sender.fragment_size
    }

    /// The fragment size is positive, no id is remembered twice, and the
    /// fragments of each message carry its id and their own position.
    pub closed spec fn wf(&self) -> bool {
        &&& self.fragment_sender.wf()
        &&& entries_wf(self.unacked())
    }

    /// Whether only the queues differ between `self` and `other`.
    pub open spec fn same_but_queues(&self, other: &Self) -> bool {
        &&& self.unacked() == other.unacked()
        &&& self.next_id() == other.next_id()
        &&& self.now() == other.now()
        &&& self.resend_delay() == other.resend_delay()
        &&& self.fragment_size() == other.fragment_size()
    }

    /// Whether only the unacknowledged messages differ between `self` and `other`.
    pub open spec fn same_but_unacked(&self, other: &Self) -> bool {
        &&& self.singles_to_send() == other.singles_to_send()
        &&& self.fragments_to_send() == other.fragments_to_send()
        &&& self.next_id() == other.next_id()
        &&& self.now() == other.now()
        &&& self.resend_delay() == other.resend_delay()
        &&& self.fragment_size() == other.fragment_size()
    }

    /// A sender with nothing buffered that fragments at `fragment_size`
    /// bytes. Its clock stands at zero and its resend delay is zero.
    pub fn with_fragment_size(fragment_size: usize) -> (sender: Self)
        requires
            fragment_size > 0,
        ensures
            sender.wf(),
            sender.unacked() == Seq::<UnackedEntryView>::empty(),
            sender.next_id() == MessageId(0),
            sender.singles_to_send() == Seq::<SingleDataView>::empty(),
            sender.fragments_to_send() == Seq::<FragmentDataView>::empty(),
            sender.now() == 0,
            sender.resend_delay() == 0,
            sender.fragment_size() == fragment_size,
    {
        let sender = ReliableSender {
            unacked_messages: Vec::new(),
            next_send_message_id: MessageId(0),
            single_messages_to_send: VecDeque::new(),
            fragmented_messages_to_send: VecDeque::new(),
            fragment_sender: FragmentSender::with_fragment_size(fragment_size),
            resend_delay: 0,
            current_time: 0,
        };
        assert(sender.unacked() =~= Seq::<UnackedEntryView>::empty());
        assert(sender.singles_to_send() =~= Seq::<SingleDataView>::empty());
        assert(sender.fragments_to_send() =~= Seq::<FragmentDataView>::empty());
        sender
    }

    /// A sender with nothing buffered that fragments at [`FRAGMENT_SIZE`] bytes.
    pub fn new() -> (sender: Self)
        ensures
            sender.wf(),
            sender.unacked() == Seq::<UnackedEntryView>::empty(),
            sender.next_id() == MessageId(0),
            sender.singles_to_send() == Seq::<SingleDataView>::empty(),
            sender.fragments_to_send() == Seq::<FragmentDataView>::empty(),
            sender.now() == 0,
            sender.resend_delay() == 0,
            sender.fragment_size() == FRAGMENT_SIZE,
    {
        Self::with_fragment_size(FRAGMENT_SIZE)
    }

    /// Sets the time to wait before an unacknowledged message is sent again.
    pub fn set_resend_delay_millis(&mut self, millis: u64)
        ensures
            final(self).wf() == old(self).wf(),
            final(self).resend_delay() == millis * NANOS_PER_MILLI,
            final(self).unacked() == old(self).unacked(),
            final(self).singles_to_send() == old(self).singles_to_send(),
            final(self).fragments_to_send() == old(self).fragments_to_send(),
            final(self).next_id() == old(self).next_id(),
            final(self).now() == old(self).now(),
            final(self).fragment_size() == old(self).fragment_size(),
    {
        let millis_wide: u128 = millis as u128;
        self.resend_delay = millis_wide * NANOS_PER_MILLI;
    }

    /// Advances the clock by `delta`.
    pub fn update(&mut self, delta: Duration)
        ensures
            final(self).wf() == old(self).wf(),
            final(self).now() == advanced(old(self).now(), duration_nanos(delta)),
            final(self).unacked() == old(self).unacked(),
            final(self).singles_to_send() == old(self).singles_to_send(),
            final(self).fragments_to_send() == old(self).fragments_to_send(),
            final(self).next_id() == old(self).next_id(),
            final(self).resend_delay() == old(self).resend_delay(),
            final(self).fragment_size() == old(self).fragment_size(),
    {
        self.current_time = advance(self.current_time, delta);
    }

    /// Where the message `id` is remembered, if it is.
    fn position_of(&self, id: MessageId) -> (found: Option<usize>)
        ensures
            match found {
                Some(i) => i < self.unacked().len() && self.unacked()[i as int].id == id,
                None => lacks_id(self.unacked(), id),
            },
    {
        let mut i: usize = 0;
        while i < self.unacked_messages.len()
            invariant
                i <= self.unacked_messages.len(),
                forall|j: int| 0 <= j < i ==> (#[trigger] self.unacked()[j]).id != id,
            decreases self.unacked_messages.len() - i,
        {
            if self.unacked_messages[i].message_id.0 == id.0 {
                return Some(i);
            }
            i = i + 1;
        }
        None
    }

    /// Forgets the message `message_id`, whatever its shape, once the peer
    /// has it. An id that is not remembered changes nothing.
    pub fn process_message_ack(&mut self, message_id: MessageId)
        requires
            old(self).wf(),
        ensures
            final(self).wf(),
            final(self).same_but_unacked(old(self)),
            final(self).unacked() == without_id(old(self).unacked(), message_id),
            lacks_id(final(self).unacked(), message_id),
    {
        let ghost before = self.unacked();
        match self.position_of(message_id) {
            Some(i) => {
                let _ = self.unacked_messages.remove(i);
                proof {
                    assert(self.unacked() =~= before.remove(i as int));
                    lemma_remove_keeps_wf(before, i as int);
                    lemma_without_present_id(before, i as int);
                }
            },
            None => {
                proof {
                    lemma_without_absent_id(before, message_id);
                }
            },
        }
    }

    /// Whether anything is queued for the next packet.
    pub fn has_messages_to_send(&self) -> (any: bool)
        ensures
            any == (self.singles_to_send().len() > 0 || self.fragments_to_send().len() > 0),
    {
        self.single_messages_to_send.len() > 0 || self.fragmented_messages_to_send.len() > 0
    }

    /// How many messages haven't been acked yet.
    pub fn num_unacked(&self) -> (n: usize)
        ensures
            n == self.unacked().len(),
    {
        self.unacked_messages.len()
    }

    /// The id that the next buffered message gets.
    pub fn next_send_message_id(&self) -> (id: MessageId)
        ensures
            id == self.next_id(),
    {
        self.next_send_message_id
    }

    /// How many single messages are queued for the next packet.
    pub fn num_singles_to_send(&self) -> (n: usize)
        ensures
            n == self.singles_to_send().len(),
    {
        self.single_messages_to_send.len()
    }

    /// How many fragments are queued for the next packet.
    pub fn num_fragments_to_send(&self) -> (n: usize)
        ensures
            n == self.fragments_to_send().len(),
    {
        self.fragmented_messages_to_send.len()
    }

    /// The queued single message at `index`, counted from the oldest.
    pub fn single_to_send(&self, index: usize) -> (message: Option<SingleData>)
        ensures
            index < self.singles_to_send().len() ==> message is Some && message->0@
                == self.singles_to_send()[index as int],
            index >= self.singles_to_send().len() ==> message is None,
    {
        if index < self.single_messages_to_send.len() {
            Some(self.single_messages_to_send[index].duplicate())
        } else {
            None
        }
    }

    /// Hands out what is queued for the next packet, single messages and
    /// fragments, each oldest first. The queues are empty afterwards; what is
    /// remembered as unacknowledged stays.
    pub fn send_packet(&mut self) -> (queues: (VecDeque<SingleData>, VecDeque<FragmentData>))
        ensures
            final(self).wf() == old(self).wf(),
            final(self).same_but_queues(old(self)),
            single_views(queues.0@) == old(self).singles_to_send(),
            fragment_views(queues.1@) == old(self).fragments_to_send(),
            final(self).singles_to_send() == Seq::<SingleDataView>::empty(),
            final(self).fragments_to_send() == Seq::<FragmentDataView>::empty(),
    {
        let mut singles: VecDeque<SingleData> = VecDeque::new();
        let mut fragments: VecDeque<FragmentData> = VecDeque::new();
        std::mem::swap(&mut self.single_messages_to_send, &mut singles);
        std::mem::swap(&mut self.fragmented_messages_to_send, &mut fragments);
        assert(self.singles_to_send() =~= Seq::<SingleDataView>::empty());
        assert(self.fragments_to_send() =~= Seq::<FragmentDataView>::empty());
        (singles, fragments)
    }

    /// Add a new message to the buffer of messages to be sent.
    ///
    /// The message gets the next id and is remembered as never sent, as one
    /// piece if it fits one fragment and split into fragments otherwise; an
    /// older message that still holds that id gives way to it. A payload of
    /// more than 255 fragments is refused and changes nothing.
    pub fn buffer_send(&mut self, message: Bytes) -> (result: Result<(), ChannelError>)
        requires
            old(self).wf(),
        ensures
            final(self).wf(),
            final(self).singles_to_send() == old(self).singles_to_send(),
            final(self).fragments_to_send() == old(self).fragments_to_send(),
            final(self).now() == old(self).now(),
            final(self).resend_delay() == old(self).resend_delay(),
            final(self).fragment_size() == old(self).fragment_size(),
            result is Err <==> payload(message).len() > 255 * old(self).fragment_size(),
            result is Err ==> result == Err::<(), ChannelError>(ChannelError::MessageTooLarge),
            result is Err ==> final(self).unacked() == old(self).unacked(),
            result is Err ==> final(self).next_id() == old(self).next_id(),
            result is Ok ==> final(self).next_id().0 as int == cyclic_add(old(self).next_id().0, 1),
            result is Ok ==> final(self).unacked() == without_id(
                old(self).unacked(),
                old(self).next_id(),
            ).push(
                buffered_entry(
                    old(self).next_id(),
                    payload(message),
                    old(self).fragment_size() as nat,
                ),
            ),
    {
        let id = self.next_send_message_id;
        let size: usize = self.fragment_sender.fragment_size;
        let ghost content = payload(message);
        let ghost before = self.unacked();
        let ghost expected = buffered_entry(id, content, size as nat);
        proof {
            lemma_fragment_count_limit(content.len(), size as nat);
            assert(size <= 255 * size) by (nonlinear_arith)
                requires
                    size > 0,
            ;
        }
        let unacked = if payload_len(&message) > size {
            match self.fragment_sender.build_fragments(id, message) {
                Err(e) => {
                    return Err(e);
                },
                Ok(fragments) => {
                    let watched = watch_fragments(fragments);
                    proof {
                        let views = fragment_ack_views(watched@);
                        let split = fragment_views(fragments@);
                        assert(is_split_of(split, id, content, size as nat));
                        assert forall|k: int| 0 <= k < views.len() implies #[trigger] views[k] == (
                        FragmentAckView {
                            data: fragment_of(id, content, size as nat, k as nat),
                            acked: false,
                            last_sent: None,
                        }) by {
                            assert(views[k] == watched@[k]@);
                            assert(split[k] == fragments@[k]@);
                        }
                        let target = Seq::new(
                            fragment_count(content.len(), size as nat),
                            |k: int|
                                FragmentAckView {
                                    data: fragment_of(id, content, size as nat, k as nat),
                                    acked: false,
                                    last_sent: None,
                                },
                        );
                        assert(split.len() == fragments@.len());
                        assert(views.len() == target.len());
                        assert(views =~= target);
                        assert(content.len() > size);
                    }
                    UnackedMessage::Fragmented(watched)
                },
            }
        } else {
            UnackedMessage::Single { bytes: message, last_sent: None }
        };
        assert(unacked@ == expected.message);
        proof {
            match expected.message {
                UnackedView::Single { .. } => {},
                UnackedView::Fragmented(views) => {
                    assert forall|k: int| 0 <= k < views.len() implies (#[trigger] views[k]).data.message_id
                        == id && views[k].data.fragment_id == k by {}
                },
            }
            assert(expected.wf());
        }
        match self.position_of(id) {
            Some(i) => {
                let _ = self.unacked_messages.remove(i);
                proof {
                    assert(self.unacked() =~= before.remove(i as int));
                    lemma_remove_keeps_wf(before, i as int);
                    lemma_without_present_id(before, i as int);
                }
            },
            None => {
                proof {
                    lemma_without_absent_id(before, id);
                }
            },
        }
        let ghost cleared = self.unacked();
        self.unacked_messages.push(UnackedEntry { message_id: id, message: unacked });
        proof {
            assert(self.unacked() =~= cleared.push(expected));
            lemma_push_keeps_wf(cleared, expected);
        }
        self.next_send_message_id = id.wrapping_add(1);
        Ok(())
    }

    /// Collect the list of messages that need to be sent, either because
    /// they have never been sent or because they need to be resent.
    ///
    /// Goes through the unacknowledged messages, oldest first. Each single
    /// message, and each unconfirmed fragment, that was never sent or was
    /// last sent more than the resend delay ago is queued for the next
    /// packet and marked as sent now. Within one pass nothing is queued
    /// twice: ids are remembered once, and so is each fragment of a message.
    pub fn collect_messages_to_send(&mut self)
        requires
            old(self).wf(),
        ensures
            final(self).wf(),
            final(self).next_id() == old(self).next_id(),
            final(self).now() == old(self).now(),
            final(self).resend_delay() == old(self).resend_delay(),
            final(self).fragment_size() == old(self).fragment_size(),
            final(self).unacked() == old(self).unacked().map_values(
                |e: UnackedEntryView| e.collected(old(self).now(), old(self).resend_delay()),
            ),
            final(self).singles_to_send() == old(self).singles_to_send() + singles_collected(
                old(self).unacked(),
                old(self).now(),
                old(self).resend_delay(),
            ),
            final(self).fragments_to_send() == old(self).fragments_to_send() + fragments_collected(
                old(self).unacked(),
                old(self).now(),
                old(self).resend_delay(),
            ),
    {
        let now: u128 = self.current_time;
        let delay: u128 = self.resend_delay;
        let ghost before = self.unacked();
        let ghost singles_before = self.singles_to_send();
        let ghost fragments_before = self.fragments_to_send();
        let ghost next = self.next_send_message_id;
        let ghost splitter = self.fragment_sender;
        let mut i: usize = 0;
        assert(singles_before + singles_collected(before.take(0), now, delay) =~= singles_before);
        assert(fragments_before + fragments_collected(before.take(0), now, delay)
            =~= fragments_before);
        while i < self.unacked_messages.len()
            invariant
                i <= self.unacked_messages.len(),
                self.unacked_messages.len() == before.len(),
                self.current_time == now,
                self.resend_delay == delay,
                self.next_send_message_id == next,
                self.fragment_sender == splitter,
                entries_wf(before),
                forall|j: int|
                    0 <= j < i ==> (#[trigger] self.unacked()[j]) == before[j].collected(
                        now,
                        delay,
                    ),
                forall|j: int|
                    i <= j < before.len() ==> (#[trigger] self.unacked()[j]) == before[j],
                self.singles_to_send() == singles_before + singles_collected(
                    before.take(i as int),
                    now,
                    delay,
                ),
                self.fragments_to_send() == fragments_before + fragments_collected(
                    before.take(i as int),
                    now,
                    delay,
                ),
            decreases self.unacked_messages.len() - i,
        {
            let ghost entries = self.unacked();
            assert(entries[i as int] == before[i as int]);
            let after = collect_entry(
                &self.unacked_messages[i],
                now,
                delay,
                &mut self.single_messages_to_send,
                &mut self.fragmented_messages_to_send,
            );
            self.unacked_messages.set(i, after);
            proof {
                assert(self.unacked() =~= entries.update(i as int, after@));
                let done = before.take(i + 1);
                assert(done.drop_last() == before.take(i as int));
                assert(done.last() == before[i as int]);
                assert(self.singles_to_send() =~= singles_before + singles_collected(
                    done,
                    now,
                    delay,
                ));
                assert(self.fragments_to_send() =~= fragments_before + fragments_collected(
                    done,
                    now,
                    delay,
                ));
            }
            i = i + 1;
        }
        proof {
            assert(before.take(i as int) == before);
            let expected = before.map_values(|e: UnackedEntryView| e.collected(now, delay));
            assert(self.unacked() =~= expected);
            assert forall|j: int| 0 <= j < expected.len() implies (#[trigger] expected[j]).wf() by {
                lemma_collected_wf(before[j], now, delay);
            }
            assert forall|j: int, k: int| 0 <= j < k < expected.len() implies (
            #[trigger] expected[j]).id != (#[trigger] expected[k]).id by {
                lemma_collected_wf(before[j], now, delay);
                lemma_collected_wf(before[k], now, delay);
                assert(before[j].id != before[k].id);
            }
        }
    }

    /// Takes note that the peer has received what `message_ack` names.
    ///
    /// A single message is forgotten. In a fragmented message the named
    /// fragment is marked as confirmed, and the message is forgotten once
    /// that was its last unconfirmed fragment. A notification that does not
    /// fit the shape of the message is refused; one for a message that is
    /// not remembered, or for a fragment already confirmed, changes nothing.
    pub fn notify_message_delivered(&mut self, message_ack: &MessageAck) -> (result: Result<
        (),
        ChannelError,
    >)
        requires
            old(self).wf(),
        ensures
            final(self).wf(),
            final(self).same_but_unacked(old(self)),
            lacks_id(old(self).unacked(), message_ack.message_id) ==> result is Ok,
            lacks_id(old(self).unacked(), message_ack.message_id) ==> final(self).unacked()
                == old(self).unacked(),
            forall|i: int|
                0 <= i < old(self).unacked().len() && (#[trigger] old(self).unacked()[i]).id
                    == message_ack.message_id ==> match old(self).unacked()[i].acked(
                    message_ack.fragment_id,
                ) {
                    AckOutcome::Forget => {
                        &&& result is Ok
                        &&& final(self).unacked() == old(self).unacked().remove(i)
                    },
                    AckOutcome::Keep(entry) => {
                        &&& result is Ok
                        &&& final(self).unacked() == old(self).unacked().update(i, entry)
                    },
                    AckOutcome::Refuse(e) => {
                        &&& result == Err::<(), ChannelError>(e)
                        &&& final(self).unacked() == old(self).unacked()
                    },
                },
    {
        let ghost before = self.unacked();
        let id = message_ack.message_id;
        let i: usize = match self.position_of(id) {
            Some(i) => i,
            None => {
                return Ok(());
            },
        };
        proof {
            assert forall|j: int| 0 <= j < before.len() && (#[trigger] before[j]).id == id implies j
                == i by {
                if j < i {
                    assert(before[j].id != before[i as int].id);
                } else if j > i {
                    assert(before[i as int].id != before[j].id);
                }
            }
            lemma_remove_keeps_wf(before, i as int);
        }
        let ghost outcome = before[i as int].acked(message_ack.fragment_id);
        let entry = self.unacked_messages.remove(i);
        assert(self.unacked() =~= before.remove(i as int));
        assert(entry@ == before[i as int]);
        let ghost rest = self.unacked();
        match entry.message {
            UnackedMessage::Single { bytes, last_sent } => {
                match message_ack.fragment_id {
                    Some(_) => {
                        self.unacked_messages.insert(
                            i,
                            UnackedEntry {
                                message_id: entry.message_id,
                                message: UnackedMessage::Single { bytes, last_sent },
                            },
                        );
                        assert(self.unacked() =~= before);
                        Err(ChannelError::AckMismatch)
                    },
                    None => Ok(()),
                }
            },
            UnackedMessage::Fragmented(mut watched) => {
                let ghost views = fragment_ack_views(watched@);
                match message_ack.fragment_id {
                    None => {
                        self.unacked_messages.insert(
                            i,
                            UnackedEntry {
                                message_id: entry.message_id,
                                message: UnackedMessage::Fragmented(watched),
                            },
                        );
                        assert(self.unacked() =~= before);
                        Err(ChannelError::AckMismatch)
                    },
                    Some(fragment_id) => {
                        let k: usize = fragment_id as usize;
                        if k >= watched.len() {
                            self.unacked_messages.insert(
                                i,
                                UnackedEntry {
                                    message_id: entry.message_id,
                                    message: UnackedMessage::Fragmented(watched),
                                },
                            );
                            assert(self.unacked() =~= before);
                            Err(ChannelError::InvalidFragment)
                        } else if watched[k].acked {
                            assert(views[k as int].acked);
                            self.unacked_messages.insert(
                                i,
                                UnackedEntry {
                                    message_id: entry.message_id,
                                    message: UnackedMessage::Fragmented(watched),
                                },
                            );
                            assert(self.unacked() =~= before);
                            assert(before =~= before.update(i as int, before[i as int]));
                            Ok(())
                        } else {
                            assert(!views[k as int].acked);
                            let marked = FragmentAck {
                                data: watched[k].data.duplicate(),
                                acked: true,
                                last_sent: watched[k].last_sent,
                            };
                            watched.set(k, marked);
                            let ghost marked_views = views.update(k as int, views[k as int].confirmed());
                            assert(fragment_ack_views(watched@) =~= marked_views);
                            if every_fragment_acked(&watched) {
                                Ok(())
                            } else {
                                let kept = UnackedEntry {
                                    message_id: entry.message_id,
                                    message: UnackedMessage::Fragmented(watched),
                                };
                                proof {
                                    assert forall|q: int| 0 <= q < marked_views.len() implies (
                                    #[trigger] marked_views[q]).data.message_id == id
                                        && marked_views[q].data.fragment_id == q by {
                                        assert(marked_views[q].data == views[q].data);
                                    }
                                    lemma_update_keeps_wf(before, i as int, kept@);
                                }
                                self.unacked_messages.insert(i, kept);
                                assert(self.unacked() =~= before.update(i as int, kept@));
                                Ok(())
                            }
                        }
                    },
                }
            },
        }
    }
}

} // verus!
