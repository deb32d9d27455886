//! What a reliable sender remembers of a message until it is acknowledged,
//! and the rules by which such a message is sent again.

use crate::packet::message::{ChannelError, FragmentData, FragmentDataView, MessageId, SingleDataView};
use crate::utils::payload::payload;
use bytes::Bytes;
use vstd::prelude::*;

verus! {

/// Whether something last sent at `last_sent` is to be sent at `now`: it was
/// never sent, or more than `delay` has passed since. Times are nanoseconds
/// on the sender's clock.
pub open spec fn is_due(last_sent: Option<u128>, now: u128, delay: u128) -> bool {
    match last_sent {
        None => true,
        Some(sent) => now - sent > delay,
    }
}

/// One fragment of an unacknowledged message.
#[derive(Clone, Debug)]
pub struct FragmentAck {
    pub data: FragmentData,
    /// Whether the peer has confirmed this fragment.
    pub acked: bool,
    /// When the fragment was last handed out for sending, if ever.
    pub last_sent: Option<u128>,
}

/// What a [`FragmentAck`] holds.
pub struct FragmentAckView {
    pub data: FragmentDataView,
    pub acked: bool,
    pub last_sent: Option<u128>,
}

impl View for FragmentAck {
    type V = FragmentAckView;

    open spec fn view(&self) -> FragmentAckView {
        FragmentAckView { data: self.data@, acked: self.acked, last_sent: self.last_sent }
    }
}

impl FragmentAckView {
    /// Whether a collection pass at `now` hands this fragment out.
    pub open spec fn goes_out(self, now: u128, delay: u128) -> bool {
        !self.acked && is_due(self.last_sent, now, delay)
    }

    /// The fragment after a collection pass at `now`.
    pub open spec fn collected(self, now: u128, delay: u128) -> Self {
        if self.goes_out(now, delay) {
            FragmentAckView { data: self.data, acked: self.acked, last_sent: Some(now) }
        } else {
            self
        }
    }

    /// The fragment once the peer has confirmed it.
    pub open spec fn confirmed(self) -> Self {
        FragmentAckView { data: self.data, acked: true, last_sent: self.last_sent }
    }
}

/// The views of a run of fragments.
pub open spec fn fragment_ack_views(fragments: Seq<FragmentAck>) -> Seq<FragmentAckView> {
    fragments.map_values(|f: FragmentAck| f@)
}

/// The fragments that a collection pass at `now` hands out, in order.
pub open spec fn fragments_going_out(fragments: Seq<FragmentAckView>, now: u128, delay: u128) -> Seq<
    FragmentDataView,
>
    decreases fragments.len(),
{
    if fragments.len() == 0 {
        Seq::<FragmentDataView>::empty()
    } else {
        let before = fragments_going_out(fragments.drop_last(), now, delay);
        if fragments.last().goes_out(now, delay) {
            before.push(fragments.last().data)
        } else {
            before
        }
    }
}

/// Whether the peer has confirmed every fragment.
pub open spec fn all_acked(fragments: Seq<FragmentAckView>) -> bool {
    forall|k: int| 0 <= k < fragments.len() ==> (#[trigger] fragments[k]).acked
}

/// A message that has not been acked yet.
#[derive(Clone, Debug)]
pub enum UnackedMessage {
    Single {
        bytes: Bytes,
        /// When the message was last handed out for sending, if ever.
        last_sent: Option<u128>,
    },
    Fragmented(Vec<FragmentAck>),
}

/// What an [`UnackedMessage`] holds.
pub enum UnackedView {
    Single { bytes: Seq<u8>, last_sent: Option<u128> },
    Fragmented(Seq<FragmentAckView>),
}

impl View for UnackedMessage {
    type V = UnackedView;

    open spec fn view(&self) -> UnackedView {
        match *self {
            UnackedMessage::Single { bytes, last_sent } => UnackedView::Single {
                bytes: payload(bytes),
                last_sent,
            },
            UnackedMessage::Fragmented(fragments) => UnackedView::Fragmented(
                fragment_ack_views(fragments@),
            ),
        }
    }
}

/// An unacknowledged message under its id.
pub struct UnackedEntryView {
    pub id: MessageId,
    pub message: UnackedView,
}

/// What a delivery notification does to the message it names.
pub enum AckOutcome {
    /// The message is fully acknowledged and forgotten.
    Forget,
    /// The message stays, in this state.
    Keep(UnackedEntryView),
    /// The notification does not fit the message; nothing changes.
    Refuse(ChannelError),
}

impl UnackedEntryView {
    /// The fragments of a fragmented message carry its id and are numbered
    /// by their position.
    pub open spec fn wf(self) -> bool {
        match self.message {
            UnackedView::Single { .. } => true,
            UnackedView::Fragmented(fragments) => {
                &&& fragments.len() <= 255
                &&& forall|k: int|
                    0 <= k < fragments.len() ==> (#[trigger] fragments[k]).data.message_id
                        == self.id && fragments[k].data.fragment_id == k
            },
        }
    }

    /// The entry after a collection pass at `now`: whatever the pass hands
    /// out is marked as sent at `now`.
    pub open spec fn collected(self, now: u128, delay: u128) -> Self {
        match self.message {
            UnackedView::Single { bytes, last_sent } => if is_due(last_sent, now, delay) {
                UnackedEntryView {
                    id: self.id,
                    message: UnackedView::Single { bytes, last_sent: Some(now) },
                }
            } else {
                self
            },
            UnackedView::Fragmented(fragments) => UnackedEntryView {
                id: self.id,
                message: UnackedView::Fragmented(
                    fragments.map_values(|f: FragmentAckView| f.collected(now, delay)),
                ),
            },
        }
    }

    /// The single messages that a collection pass at `now` hands out for
    /// this entry: the message itself if it is unfragmented and due.
    pub open spec fn singles_out(self, now: u128, delay: u128) -> Seq<SingleDataView> {
        match self.message {
            UnackedView::Single { bytes, last_sent } => if is_due(last_sent, now, delay) {
                seq![SingleDataView { id: Some(self.id), bytes }]
            } else {
                Seq::<SingleDataView>::empty()
            },
            UnackedView::Fragmented(_) => Seq::<SingleDataView>::empty(),
        }
    }

    /// The fragments that a collection pass at `now` hands out for this
    /// entry: those not yet confirmed and due.
    pub open spec fn fragments_out(self, now: u128, delay: u128) -> Seq<FragmentDataView> {
        match self.message {
            UnackedView::Single { .. } => Seq::<FragmentDataView>::empty(),
            UnackedView::Fragmented(fragments) => fragments_going_out(fragments, now, delay),
        }
    }

    /// What a delivery notification with this `fragment_id` does to the entry.
    ///
    /// A notification for a fragment of an unfragmented message, or for the
    /// whole of a fragmented one, is refused as a mismatch; one for a
    /// fragment that the message does not have, as an invalid fragment. A
    /// repeated notification changes nothing.
    pub open spec fn acked(self, fragment_id: Option<u8>) -> AckOutcome {
        match self.message {
            UnackedView::Single { .. } => match fragment_id {
                Some(_) => AckOutcome::Refuse(ChannelError::AckMismatch),
                None => AckOutcome::Forget,
            },
            UnackedView::Fragmented(fragments) => match fragment_id {
                None => AckOutcome::Refuse(ChannelError::AckMismatch),
                Some(k) => if k >= fragments.len() {
                    AckOutcome::Refuse(ChannelError::InvalidFragment)
                } else if fragments[k as int].acked {
                    AckOutcome::Keep(self)
                } else {
                    let marked = fragments.update(k as int, fragments[k as int].confirmed());
                    if all_acked(marked) {
                        AckOutcome::Forget
                    } else {
                        AckOutcome::Keep(
                            UnackedEntryView { id: self.id, message: UnackedView::Fragmented(marked) },
                        )
                    }
                },
            },
        }
    }
}

/// The single messages that a collection pass at `now` hands out, oldest
/// entry first.
pub open spec fn singles_collected(entries: Seq<UnackedEntryView>, now: u128, delay: u128) -> Seq<
    SingleDataView,
>
    decreases entries.len(),
{
    if entries.len() == 0 {
        Seq::<SingleDataView>::empty()
    } else {
        singles_collected(entries.drop_last(), now, delay) + entries.last().singles_out(now, delay)
    }
}

/// The fragments that a collection pass at `now` hands out, oldest entry first.
pub open spec fn fragments_collected(entries: Seq<UnackedEntryView>, now: u128, delay: u128) -> Seq<
    FragmentDataView,
>
    decreases entries.len(),
{
    if entries.len() == 0 {
        Seq::<FragmentDataView>::empty()
    } else {
        fragments_collected(entries.drop_last(), now, delay) + entries.last().fragments_out(
            now,
            delay,
        )
    }
}

/// Whether no entry has the id `id`.
pub open spec fn lacks_id(entries: Seq<UnackedEntryView>, id: MessageId) -> bool {
    forall|i: int| 0 <= i < entries.len() ==> (#[trigger] entries[i]).id != id
}

/// The entries without those that have the id `id`.
pub open spec fn without_id(entries: Seq<UnackedEntryView>, id: MessageId) -> Seq<UnackedEntryView>
    decreases entries.len(),
{
    if entries.len() == 0 {
        entries
    } else if entries.last().id == id {
        without_id(entries.drop_last(), id)
    } else {
        without_id(entries.drop_last(), id).push(entries.last())
    }
}

/// Every entry is well formed, and no id occurs twice.
pub open spec fn entries_wf(entries: Seq<UnackedEntryView>) -> bool {
    &&& forall|i: int| 0 <= i < entries.len() ==> (#[trigger] entries[i]).wf()
    &&& forall|i: int, j: int|
        0 <= i < j < entries.len() ==> (#[trigger] entries[i]).id != (#[trigger] entries[j]).id
}

/// Taking out an id that no entry has changes nothing.
pub proof fn lemma_without_absent_id(entries: Seq<UnackedEntryView>, id: MessageId)
    requires
        lacks_id(entries, id),
    ensures
        without_id(entries, id) == entries,
    decreases entries.len(),
{
    if entries.len() > 0 {
        let rest = entries.drop_last();
        assert forall|i: int| 0 <= i < rest.len() implies (#[trigger] rest[i]).id != id by {
            assert(rest[i] == entries[i]);
        }
        lemma_without_absent_id(rest, id);
        assert(entries.last() == entries[entries.len() - 1]);
        assert(rest.push(entries.last()) =~= entries);
    } else {
        assert(without_id(entries, id) =~= entries);
    }
}

/// Where no id occurs twice, taking out the id of an entry removes that
/// entry and no other.
pub proof fn lemma_without_present_id(entries: Seq<UnackedEntryView>, i: int)
    requires
        entries_wf(entries),
        0 <= i < entries.len(),
    ensures
        without_id(entries, entries[i].id) == entries.remove(i),
    decreases entries.len(),
{
    let id = entries[i].id;
    let rest = entries.drop_last();
    let last = entries.last();
    assert(last == entries[entries.len() - 1]);
    assert forall|j: int| 0 <= j < rest.len() implies (#[trigger] rest[j]) == entries[j] by {}
    if i == entries.len() - 1 {
        assert forall|j: int| 0 <= j < rest.len() implies (#[trigger] rest[j]).id != id by {
            assert(entries[j].id != entries[i].id);
        }
        lemma_without_absent_id(rest, id);
        assert(rest =~= entries.remove(i));
    } else {
        assert(entries[i].id != entries[entries.len() - 1].id);
        assert(entries_wf(rest)) by {
            assert forall|j: int| 0 <= j < rest.len() implies (#[trigger] rest[j]).wf() by {
                assert(entries[j].wf());
            }
            assert forall|j: int, k: int| 0 <= j < k < rest.len() implies (#[trigger] rest[j]).id
                != (#[trigger] rest[k]).id by {
                assert(entries[j].id != entries[k].id);
            }
        }
        assert(rest[i] == entries[i]);
        lemma_without_present_id(rest, i);
        assert(rest.remove(i).push(last) =~= entries.remove(i));
    }
}

/// What a collection pass at `now` makes of the entries.
pub open spec fn entries_collected(entries: Seq<UnackedEntryView>, now: u128, delay: u128) -> Seq<
    UnackedEntryView,
> {
    entries.map_values(|e: UnackedEntryView| e.collected(now, delay))
}

/// A second collection pass at the same instant finds no fragment to hand out.
pub proof fn lemma_fragments_rest_after_pass(fragments: Seq<FragmentAckView>, now: u128, delay: u128)
    ensures
        fragments_going_out(
            fragments.map_values(|f: FragmentAckView| f.collected(now, delay)),
            now,
            delay,
        ) == Seq::<FragmentDataView>::empty(),
    decreases fragments.len(),
{
    let after = fragments.map_values(|f: FragmentAckView| f.collected(now, delay));
    if fragments.len() > 0 {
        lemma_fragments_rest_after_pass(fragments.drop_last(), now, delay);
        assert(after.drop_last() =~= fragments.drop_last().map_values(
            |f: FragmentAckView| f.collected(now, delay),
        ));
        assert(after.last() == fragments.last().collected(now, delay));
    }
}

/// A second collection pass at the same instant hands out nothing: however
/// often messages are collected before time moves on, each goes out once.
pub proof fn lemma_second_pass_queues_nothing(entries: Seq<UnackedEntryView>, now: u128, delay: u128)
    ensures
        singles_collected(entries_collected(entries, now, delay), now, delay) == Seq::<
            SingleDataView,
        >::empty(),
        fragments_collected(entries_collected(entries, now, delay), now, delay) == Seq::<
            FragmentDataView,
        >::empty(),
    decreases entries.len(),
{
    let after = entries_collected(entries, now, delay);
    if entries.len() > 0 {
        lemma_second_pass_queues_nothing(entries.drop_last(), now, delay);
        assert(after.drop_last() =~= entries_collected(entries.drop_last(), now, delay));
        assert(after.last() == entries.last().collected(now, delay));
        match entries.last().message {
            UnackedView::Single { .. } => {},
            UnackedView::Fragmented(fragments) => {
                lemma_fragments_rest_after_pass(fragments, now, delay);
            },
        }
        assert(singles_collected(after, now, delay) =~= Seq::<SingleDataView>::empty());
        assert(fragments_collected(after, now, delay) =~= Seq::<FragmentDataView>::empty());
    }
}

/// What a collection pass at `now` hands out is not handed out again by a
/// pass at `later` unless more than `delay` has passed in between.
pub proof fn lemma_sent_rests_within_delay(
    entry: UnackedEntryView,
    fragment: FragmentAckView,
    now: u128,
    delay: u128,
    later: u128,
)
    requires
        now <= later,
        later - now <= delay,
    ensures
        entry.singles_out(now, delay).len() > 0 ==> entry.collected(now, delay).singles_out(
            later,
            delay,
        ) == Seq::<SingleDataView>::empty(),
        fragment.goes_out(now, delay) ==> !fragment.collected(now, delay).goes_out(later, delay),
{
}

/// An unfragmented message that stays unacknowledged is handed out again by
/// the first pass that comes more than `delay` after `now`, provided it was
/// not marked as sent after `now`.
pub proof fn lemma_single_due_after_delay(
    entry: UnackedEntryView,
    now: u128,
    delay: u128,
    later: u128,
)
    requires
        entry.message is Single,
        entry.message->Single_last_sent is Some ==> entry.message->Single_last_sent->0 <= now,
        later - now > delay,
    ensures
        entry.collected(now, delay).singles_out(later, delay) == seq![
            SingleDataView { id: Some(entry.id), bytes: entry.message->Single_bytes },
        ],
{
}

/// A collection pass changes neither the number of unacknowledged messages
/// nor their ids: a message leaves only when it is acknowledged.
pub proof fn lemma_collected_keeps_ids(entries: Seq<UnackedEntryView>, now: u128, delay: u128)
    ensures
        entries_collected(entries, now, delay).len() == entries.len(),
        forall|i: int|
            0 <= i < entries.len() ==> (#[trigger] entries_collected(entries, now, delay)[i]).id
                == entries[i].id,
{
}

/// Whether every message in `out` carries the id of one of `entries`.
pub open spec fn singles_come_from(out: Seq<SingleDataView>, entries: Seq<UnackedEntryView>) -> bool {
    forall|a: int|
        0 <= a < out.len() ==> exists|i: int|
            0 <= i < entries.len() && (#[trigger] out[a]).id == Some(#[trigger] entries[i].id)
}

/// Whether every fragment in `out` carries the id of one of `entries`.
pub open spec fn fragments_come_from(out: Seq<FragmentDataView>, entries: Seq<UnackedEntryView>) -> bool {
    forall|a: int|
        0 <= a < out.len() ==> exists|i: int|
            0 <= i < entries.len() && (#[trigger] out[a]).message_id == #[trigger] entries[i].id
}

/// The fragments that one pass hands out for one message come in the order
/// of their positions, so none of them comes twice.
pub proof fn lemma_fragments_go_out_once(
    entry: UnackedEntryView,
    fragments: Seq<FragmentAckView>,
    now: u128,
    delay: u128,
)
    requires
        forall|k: int|
            0 <= k < fragments.len() ==> (#[trigger] fragments[k]).data.message_id == entry.id
                && fragments[k].data.fragment_id == k,
    ensures
        forall|a: int|
            0 <= a < fragments_going_out(fragments, now, delay).len() ==> (
            #[trigger] fragments_going_out(fragments, now, delay)[a]).message_id == entry.id
                && fragments_going_out(fragments, now, delay)[a].fragment_id < fragments.len(),
        forall|a: int, b: int|
            0 <= a < b < fragments_going_out(fragments, now, delay).len() ==> (
            #[trigger] fragments_going_out(fragments, now, delay)[a]).fragment_id < (
            #[trigger] fragments_going_out(fragments, now, delay)[b]).fragment_id,
    decreases fragments.len(),
{
    if fragments.len() > 0 {
        let rest = fragments.drop_last();
        assert forall|k: int| 0 <= k < rest.len() implies (#[trigger] rest[k]).data.message_id
            == entry.id && rest[k].data.fragment_id == k by {
            assert(rest[k] == fragments[k]);
        }
        lemma_fragments_go_out_once(entry, rest, now, delay);
        let before = fragments_going_out(rest, now, delay);
        let out = fragments_going_out(fragments, now, delay);
        let last = fragments.last();
        assert(last == fragments[fragments.len() - 1]);
        assert forall|a: int| 0 <= a < out.len() implies (#[trigger] out[a]).message_id == entry.id
            && out[a].fragment_id < fragments.len() && (a < before.len() ==> out[a]
            == before[a] && out[a].fragment_id < rest.len()) && (a >= before.len()
            ==> out[a].fragment_id == rest.len()) by {
            if a < before.len() {
                assert(out[a] == before[a]);
            } else {
                assert(out[a] == last.data);
            }
        }
    }
}

/// Within one collection pass nothing is queued twice: the single messages
/// handed out carry different ids, and any two fragments handed out differ
/// in their message id or in their position.
pub proof fn lemma_pass_queues_nothing_twice(entries: Seq<UnackedEntryView>, now: u128, delay: u128)
    requires
        entries_wf(entries),
    ensures
        singles_come_from(singles_collected(entries, now, delay), entries),
        fragments_come_from(fragments_collected(entries, now, delay), entries),
        forall|a: int, b: int|
            0 <= a < b < singles_collected(entries, now, delay).len() ==> (
            #[trigger] singles_collected(entries, now, delay)[a]).id != (
            #[trigger] singles_collected(entries, now, delay)[b]).id,
        forall|a: int, b: int|
            0 <= a < b < fragments_collected(entries, now, delay).len() ==> {
                let x = #[trigger] fragments_collected(entries, now, delay)[a];
                let y = #[trigger] fragments_collected(entries, now, delay)[b];
                x.message_id != y.message_id || x.fragment_id != y.fragment_id
            },
    decreases entries.len(),
{
    if entries.len() > 0 {
        let rest = entries.drop_last();
        let last = entries.last();
        lemma_pass_queues_nothing_twice(rest, now, delay);
        let singles_rest = singles_collected(rest, now, delay);
        let singles = singles_collected(entries, now, delay);
        let fragments_rest = fragments_collected(rest, now, delay);
        let fragments = fragments_collected(entries, now, delay);
        let singles_last = last.singles_out(now, delay);
        let fragments_last = last.fragments_out(now, delay);
        assert(last.wf());
        match last.message {
            UnackedView::Single { .. } => {},
            UnackedView::Fragmented(parts) => {
                lemma_fragments_go_out_once(last, parts, now, delay);
            },
        }
        assert forall|a: int| 0 <= a < singles.len() implies exists|i: int|
            0 <= i < entries.len() && (#[trigger] singles[a]).id == Some(
                #[trigger] entries[i].id,
            ) by {
            if a < singles_rest.len() {
                let i = choose|i: int|
                    0 <= i < rest.len() && singles_rest[a].id == Some(#[trigger] rest[i].id);
                assert(entries[i] == rest[i]);
            } else {
                assert(singles[a] == singles_last[a - singles_rest.len()]);
                assert(singles[a].id == Some(entries[entries.len() - 1].id));
            }
        }
        assert forall|a: int| 0 <= a < fragments.len() implies exists|i: int|
            0 <= i < entries.len() && (#[trigger] fragments[a]).message_id
                == #[trigger] entries[i].id by {
            if a < fragments_rest.len() {
                let i = choose|i: int|
                    0 <= i < rest.len() && fragments_rest[a].message_id == #[trigger] rest[i].id;
                assert(entries[i] == rest[i]);
            } else {
                assert(fragments[a] == fragments_last[a - fragments_rest.len()]);
                assert(fragments[a].message_id == entries[entries.len() - 1].id);
            }
        }
        assert forall|a: int, b: int| 0 <= a < b < singles.len() implies (#[trigger] singles[a]).id
            != (#[trigger] singles[b]).id by {
            if b >= singles_rest.len() {
                assert(singles[b] == singles_last[b - singles_rest.len()]);
                assert(singles_last.len() == 1);
                assert(singles[a] == singles_rest[a]);
                let i = choose|i: int|
                    0 <= i < rest.len() && singles_rest[a].id == Some(#[trigger] rest[i].id);
                assert(entries[i] == rest[i]);
                assert(entries[i].id != entries[entries.len() - 1].id);
            } else {
                assert(singles[a] == singles_rest[a]);
                assert(singles[b] == singles_rest[b]);
            }
        }
        assert forall|a: int, b: int| 0 <= a < b < fragments.len() implies {
            let x = #[trigger] fragments[a];
            let y = #[trigger] fragments[b];
            x.message_id != y.message_id || x.fragment_id != y.fragment_id
        } by {
            let n = fragments_rest.len() as int;
            if a >= n {
                assert(fragments[a] == fragments_last[a - n]);
                assert(fragments[b] == fragments_last[b - n]);
            } else if b >= n {
                assert(fragments[a] == fragments_rest[a]);
                assert(fragments[b] == fragments_last[b - n]);
                let i = choose|i: int|
                    0 <= i < rest.len() && fragments_rest[a].message_id == #[trigger] rest[i].id;
                assert(entries[i] == rest[i]);
                assert(entries[i].id != entries[entries.len() - 1].id);
            } else {
                assert(fragments[a] == fragments_rest[a]);
                assert(fragments[b] == fragments_rest[b]);
            }
        }
    }
}

} // verus!
