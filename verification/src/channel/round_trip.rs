//! What holds between the two halves of a channel: a payload that the
//! fragment sender has split comes whole out of the fragment receiver, in
//! whatever order its fragments arrive.

use crate::channel::receivers::fragment_receiver::{
    after_fragment, joined_slots, ReassemblyView,
};
use crate::channel::senders::fragment_sender::{
    fragment_bytes, fragment_count, fragment_end, fragment_of, lemma_fragment_bounds,
    lemma_fragment_count_limit,
};
use crate::packet::message::{FragmentDataView, MessageId, SingleDataView};
use vstd::prelude::*;

verus! {

/// The reassembly states after a run of fragments has arrived, and the
/// messages that came out on the way.
pub struct ReceiveLog {
    pub state: Map<u16, ReassemblyView>,
    pub delivered: Seq<SingleDataView>,
}

/// The effect of a run of fragments that arrive one after the other, each
/// stamped with `time`.
pub open spec fn fed(
    state: Map<u16, ReassemblyView>,
    arrivals: Seq<FragmentDataView>,
    time: Option<u128>,
) -> ReceiveLog
    decreases arrivals.len(),
{
    if arrivals.len() == 0 {
        ReceiveLog { state, delivered: Seq::<SingleDataView>::empty() }
    } else {
        let before = fed(state, arrivals.drop_last(), time);
        let outcome = after_fragment(before.state, arrivals.last(), time);
        ReceiveLog {
            state: outcome.state,
            delivered: match outcome.result {
                Ok(Some(whole)) => before.delivered.push(whole),
                _ => before.delivered,
            },
        }
    }
}

/// Whether `order` lists each of the numbers below its length once, with
/// `position` saying where each number stands in it.
pub open spec fn is_permutation(order: Seq<int>, position: Seq<int>) -> bool {
    &&& order.len() == position.len()
    &&& forall|i: int|
        0 <= i < order.len() ==> 0 <= #[trigger] order[i] < order.len() && position[order[i]] == i
    &&& forall|j: int|
        0 <= j < position.len() ==> 0 <= #[trigger] position[j] < order.len()
            && order[position[j]] == j
}

/// The fragments of a payload in the order in which they arrive.
pub open spec fn arrivals_of(
    id: MessageId,
    content: Seq<u8>,
    fragment_size: nat,
    order: Seq<int>,
) -> Seq<FragmentDataView> {
    Seq::new(order.len(), |i: int| fragment_of(id, content, fragment_size, order[i] as nat))
}

/// The reassembly state of the payload once the first `k` arrivals are in.
pub open spec fn partly_received(
    content: Seq<u8>,
    fragment_size: nat,
    position: Seq<int>,
    time: Option<u128>,
    k: int,
) -> ReassemblyView {
    ReassemblyView {
        num_fragments: position.len() as u8,
        slots: Seq::new(
            position.len(),
            |j: int|
                if position[j] < k {
                    Some(fragment_bytes(content, fragment_size, j as nat))
                } else {
                    None
                },
        ),
        last_updated: if k == 0 {
            None
        } else {
            time
        },
    }
}

/// Slots that hold the first `k` fragments of a payload, in order, join to
/// the payload up to where fragment `k` starts.
pub proof fn lemma_slots_join(
    slots: Seq<Option<Seq<u8>>>,
    content: Seq<u8>,
    fragment_size: nat,
    k: nat,
)
    requires
        fragment_size > 0,
        k <= slots.len() <= fragment_count(content.len(), fragment_size),
        forall|j: int|
            0 <= j < slots.len() ==> #[trigger] slots[j] == Some(
                fragment_bytes(content, fragment_size, j as nat),
            ),
    ensures
        k == 0 ==> joined_slots(slots.take(k as int)) == Seq::<u8>::empty(),
        k > 0 ==> joined_slots(slots.take(k as int)) == content.subrange(
            0,
            fragment_end(content.len(), fragment_size, (k - 1) as nat) as int,
        ),
    decreases k,
{
    let prefix = slots.take(k as int);
    if k == 0 {
        assert(prefix.len() == 0);
    } else {
        let i = (k - 1) as nat;
        lemma_slots_join(slots, content, fragment_size, i);
        lemma_fragment_bounds(content.len(), fragment_size, i);
        assert(prefix.drop_last() == slots.take(i as int));
        assert(prefix.last() == slots[i as int]);
        let end = fragment_end(content.len(), fragment_size, i) as int;
        let begin = (i * fragment_size) as int;
        if i == 0 {
            assert(begin == 0) by (nonlinear_arith)
                requires
                    begin == i * fragment_size,
                    i == 0,
            ;
            assert(joined_slots(prefix) == content.subrange(0, end));
        } else {
            lemma_fragment_bounds(content.len(), fragment_size, (i - 1) as nat);
            assert(fragment_end(content.len(), fragment_size, (i - 1) as nat) == begin);
            assert(content.subrange(0, begin) + content.subrange(begin, end) == content.subrange(
                0,
                end,
            ));
        }
    }
}

/// As long as a fragment of the payload is missing, nothing comes out, and
/// the receiver holds exactly the fragments that have arrived.
pub proof fn lemma_partial_set_gives_nothing(
    state: Map<u16, ReassemblyView>,
    id: MessageId,
    content: Seq<u8>,
    fragment_size: nat,
    order: Seq<int>,
    position: Seq<int>,
    time: Option<u128>,
    k: int,
)
    requires
        fragment_size > 0,
        content.len() <= 255 * fragment_size,
        !state.contains_key(id.0),
        is_permutation(order, position),
        order.len() == fragment_count(content.len(), fragment_size),
        0 <= k < order.len(),
    ensures
        fed(state, arrivals_of(id, content, fragment_size, order).take(k), time).delivered == Seq::<
            SingleDataView,
        >::empty(),
        fed(state, arrivals_of(id, content, fragment_size, order).take(k), time).state == if k
            == 0 {
            state
        } else {
            state.insert(id.0, partly_received(content, fragment_size, position, time, k))
        },
    decreases k,
{
    let arrivals = arrivals_of(id, content, fragment_size, order);
    let n = order.len() as int;
    lemma_fragment_count_limit(content.len(), fragment_size);
    if k == 0 {
        assert(arrivals.take(0).len() == 0);
    } else {
        lemma_partial_set_gives_nothing(
            state,
            id,
            content,
            fragment_size,
            order,
            position,
            time,
            k - 1,
        );
        let prefix = arrivals.take(k);
        assert(prefix.drop_last() == arrivals.take(k - 1));
        assert(prefix.last() == arrivals[k - 1]);
        let before = fed(state, arrivals.take(k - 1), time);
        lemma_step(state, id, content, fragment_size, order, position, time, k - 1);
        let last = order[n - 1];
        let next = partly_received(content, fragment_size, position, time, k);
        assert(next.slots[last] is None);
        assert(!next.is_complete());
    }
}

/// What the arrival numbered `k` does to the state that the arrivals before
/// it have left: it fills its own slot and no other.
proof fn lemma_step(
    state: Map<u16, ReassemblyView>,
    id: MessageId,
    content: Seq<u8>,
    fragment_size: nat,
    order: Seq<int>,
    position: Seq<int>,
    time: Option<u128>,
    k: int,
)
    requires
        fragment_size > 0,
        content.len() <= 255 * fragment_size,
        !state.contains_key(id.0),
        is_permutation(order, position),
        order.len() == fragment_count(content.len(), fragment_size),
        0 <= k < order.len(),
    ensures
        ({
            let before = if k == 0 {
                state
            } else {
                state.insert(id.0, partly_received(content, fragment_size, position, time, k))
            };
            let base = if k == 0 {
                ReassemblyView::fresh(order.len() as u8)
            } else {
                partly_received(content, fragment_size, position, time, k)
            };
            let f = fragment_of(id, content, fragment_size, order[k] as nat);
            let next = partly_received(content, fragment_size, position, time, k + 1);
            &&& f.fragment_id < f.num_fragments
            &&& f.num_fragments == order.len()
            &&& f.message_id == id
            &&& base.with_fragment(f.fragment_id, f.bytes, time) == next
            &&& before.contains_key(id.0) ==> before[id.0] == base
            &&& before.remove(id.0) == state
            &&& before.insert(id.0, next) == state.insert(id.0, next)
        }),
{
    let n = order.len() as int;
    lemma_fragment_count_limit(content.len(), fragment_size);
    let before = if k == 0 {
        state
    } else {
        state.insert(id.0, partly_received(content, fragment_size, position, time, k))
    };
    let base = if k == 0 {
        ReassemblyView::fresh(n as u8)
    } else {
        partly_received(content, fragment_size, position, time, k)
    };
    let j = order[k];
    let f = fragment_of(id, content, fragment_size, j as nat);
    let next = partly_received(content, fragment_size, position, time, k + 1);
    assert(position[j] == k);
    assert(base.slots[j] is None);
    let filled = base.with_fragment(f.fragment_id, f.bytes, time);
    assert(filled.slots =~= next.slots) by {
        assert forall|q: int| 0 <= q < n implies filled.slots[q] == next.slots[q] by {
            assert(order[position[q]] == q);
        }
    }
    assert(before.remove(id.0) =~= state);
    assert(before.insert(id.0, next) =~= state.insert(id.0, next));
}

/// Fragment round trip: when the fragments of a payload arrive, each once
/// and in any order, exactly one message comes out, it carries the payload
/// and the message id, and the receiver keeps nothing of it.
pub proof fn lemma_round_trip(
    state: Map<u16, ReassemblyView>,
    id: MessageId,
    content: Seq<u8>,
    fragment_size: nat,
    order: Seq<int>,
    position: Seq<int>,
    time: Option<u128>,
)
    requires
        fragment_size > 0,
        0 < content.len() <= 255 * fragment_size,
        !state.contains_key(id.0),
        is_permutation(order, position),
        order.len() == fragment_count(content.len(), fragment_size),
    ensures
        fed(state, arrivals_of(id, content, fragment_size, order), time).delivered == seq![
            SingleDataView { id: Some(id), bytes: content },
        ],
        fed(state, arrivals_of(id, content, fragment_size, order), time).state == state,
{
    let arrivals = arrivals_of(id, content, fragment_size, order);
    let n = order.len() as int;
    lemma_fragment_count_limit(content.len(), fragment_size);
    lemma_partial_set_gives_nothing(state, id, content, fragment_size, order, position, time, n - 1);
    lemma_step(state, id, content, fragment_size, order, position, time, n - 1);
    assert(arrivals.drop_last() == arrivals.take(n - 1));
    assert(arrivals.last() == arrivals[n - 1]);
    let full = partly_received(content, fragment_size, position, time, n);
    assert(full.is_complete());
    lemma_slots_join(full.slots, content, fragment_size, n as nat);
    lemma_fragment_bounds(content.len(), fragment_size, (n - 1) as nat);
    assert(full.slots.take(n) == full.slots);
    assert(content.subrange(0, content.len() as int) == content);
    assert(joined_slots(full.slots) == content);
    let log = fed(state, arrivals, time);
    assert(log.delivered =~= seq![SingleDataView { id: Some(id), bytes: content }]);
}

} // verus!
