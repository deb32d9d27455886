//! Puts the fragments of a message back together.

use crate::packet::message::{
    ChannelError, FragmentData, FragmentDataView, MessageContainer, SingleData, SingleDataView,
};
use crate::utils::payload::{payload, payload_bytes, payload_from_vec};
use bytes::Bytes;
use std::collections::HashMap;
use vstd::prelude::*;
use vstd::std_specs::hash::*;
use vstd::std_specs::iter::IteratorSpec;

verus! {

broadcast use vstd::std_specs::hash::group_hash_axioms;

/// What is known of one message whose fragments are still arriving.
pub struct ReassemblyView {
    /// How many fragments the message has.
    pub num_fragments: u8,
    /// One slot per fragment, filled once that fragment has arrived.
    pub slots: Seq<Option<Seq<u8>>>,
    /// When a new fragment last arrived, in nanoseconds on the receiver's clock.
    pub last_updated: Option<u128>,
}

/// The bytes in the filled slots, in slot order.
pub open spec fn joined_slots(slots: Seq<Option<Seq<u8>>>) -> Seq<u8>
    decreases slots.len(),
{
    if slots.len() == 0 {
        Seq::<u8>::empty()
    } else {
        joined_slots(slots.drop_last()) + match slots.last() {
            Some(bytes) => bytes,
            None => Seq::<u8>::empty(),
        }
    }
}

impl ReassemblyView {
    pub open spec fn wf(self) -> bool {
        self.slots.len() == self.num_fragments
    }

    /// The state before any fragment has arrived.
    pub open spec fn fresh(num_fragments: u8) -> Self {
        ReassemblyView {
            num_fragments,
            slots: Seq::new(num_fragments as nat, |i: int| None::<Seq<u8>>),
            last_updated: None,
        }
    }

    /// The state after fragment `fragment_id` has arrived at `time`. A
    /// fragment whose slot is already filled changes nothing.
    pub open spec fn with_fragment(self, fragment_id: u8, bytes: Seq<u8>, time: Option<u128>) -> Self {
        if self.slots[fragment_id as int] is Some {
            self
        } else {
            ReassemblyView {
                num_fragments: self.num_fragments,
                slots: self.slots.update(fragment_id as int, Some(bytes)),
                last_updated: if time is Some {
                    time
                } else {
                    self.last_updated
                },
            }
        }
    }

    /// Whether every fragment has arrived.
    pub open spec fn is_complete(self) -> bool {
        forall|i: int| 0 <= i < self.slots.len() ==> (#[trigger] self.slots[i]) is Some
    }

    /// Whether the last new fragment arrived before `before`.
    pub open spec fn is_stale(self, before: u128) -> bool {
        self.last_updated is Some && self.last_updated->0 < before
    }
}

/// What a slot holds, as plain bytes.
pub open spec fn slot_view(slot: Option<Bytes>) -> Option<Seq<u8>> {
    match slot {
        Some(bytes) => Some(payload(bytes)),
        None => None,
    }
}

/// The fragments of one message that have arrived so far.
pub struct FragmentConstructor {
    num_fragments: u8,
    slots: Vec<Option<Bytes>>,
    last_updated: Option<u128>,
}

impl View for FragmentConstructor {
    type V = ReassemblyView;

    closed spec fn view(&self) -> ReassemblyView {
        ReassemblyView {
            num_fragments: self.num_fragments,
            slots: self.slots@.map_values(|slot: Option<Bytes>| slot_view(slot)),
            last_updated: self.last_updated,
        }
    }
}

impl FragmentConstructor {
    /// An empty state for a message of `num_fragments` fragments.
    pub fn new(num_fragments: u8) -> (constructor: Self)
        ensures
            constructor@ == ReassemblyView::fresh(num_fragments),
            constructor@.wf(),
    {
        let mut slots: Vec<Option<Bytes>> = Vec::new();
        let mut i: u8 = 0;
        while i < num_fragments
            invariant
                i <= num_fragments,
                slots.len() == i,
                forall|k: int| 0 <= k < i ==> (#[trigger] slots@[k]) is None,
            decreases num_fragments - i,
        {
            slots.push(None);
            i = i + 1;
        }
        let constructor = FragmentConstructor { num_fragments, slots, last_updated: None };
        assert(constructor@.slots =~= ReassemblyView::fresh(num_fragments).slots);
        constructor
    }

    /// Records that fragment `fragment_id` arrived at `time`.
    pub fn store(&mut self, fragment_id: u8, bytes: Bytes, time: Option<u128>)
        requires
            old(self)@.wf(),
            fragment_id < old(self)@.num_fragments,
        ensures
            final(self)@.wf(),
            final(self)@ == old(self)@.with_fragment(fragment_id, payload(bytes), time),
    {
        let index: usize = fragment_id as usize;
        if self.slots[index].is_none() {
            self.slots.set(index, Some(bytes));
            if time.is_some() {
                self.last_updated = time;
            }
            assert(final(self)@.slots =~= old(self)@.slots.update(
                fragment_id as int,
                Some(payload(bytes)),
            ));
        }
    }

    /// Whether every fragment has arrived.
    pub fn is_complete(&self) -> (complete: bool)
        ensures
            complete == self@.is_complete(),
    {
        let mut i: usize = 0;
        while i < self.slots.len()
            invariant
                i <= self.slots.len(),
                forall|k: int| 0 <= k < i ==> (#[trigger] self@.slots[k]) is Some,
            decreases self.slots.len() - i,
        {
            if self.slots[i].is_none() {
                assert(self@.slots[i as int] is None);
                return false;
            }
            i = i + 1;
        }
        true
    }

    /// The bytes of the fragments that have arrived, in fragment order.
    pub fn assemble(&self) -> (bytes: Bytes)
        ensures
            payload(bytes) == joined_slots(self@.slots),
    {
        let mut out: Vec<u8> = Vec::new();
        let mut i: usize = 0;
        while i < self.slots.len()
            invariant
                i <= self.slots.len(),
                out@ == joined_slots(self@.slots.take(i as int)),
            decreases self.slots.len() - i,
        {
            proof {
                let next = self@.slots.take(i + 1);
                assert(next.drop_last() == self@.slots.take(i as int));
                assert(next.last() == self@.slots[i as int]);
            }
            match &self.slots[i] {
                Some(part) => {
                    let ghost joined = out@;
                    out.extend_from_slice(payload_bytes(part));
                    assert(out@ =~= joined + payload(*part));
                },
                None => {
                    assert(out@ + Seq::<u8>::empty() == out@);
                },
            }
            i = i + 1;
        }
        assert(self@.slots.take(i as int) == self@.slots);
        payload_from_vec(out)
    }
}

/// What taking in one fragment leads to.
pub struct ReceiveOutcome {
    /// The reassembly states afterwards, by raw message id.
    pub state: Map<u16, ReassemblyView>,
    /// The completed message, if this fragment completed one.
    pub result: Result<Option<SingleDataView>, ChannelError>,
}

/// The effect of fragment `f`, arriving at `time`, on the reassembly states.
///
/// A fragment whose position is not below its fragment count, or whose count
/// differs from what was recorded for its message, is refused, and whatever
/// was recorded for that message is dropped. Otherwise the fragment fills its
/// slot; when that was the last empty slot, the message is handed out and its
/// state forgotten.
pub open spec fn after_fragment(
    state: Map<u16, ReassemblyView>,
    f: FragmentDataView,
    time: Option<u128>,
) -> ReceiveOutcome {
    let key = f.message_id.0;
    if f.fragment_id >= f.num_fragments || (state.contains_key(key) && state[key].num_fragments
        != f.num_fragments) {
        ReceiveOutcome { state: state.remove(key), result: Err(ChannelError::InvalidFragment) }
    } else {
        let base = if state.contains_key(key) {
            state[key]
        } else {
            ReassemblyView::fresh(f.num_fragments)
        };
        let entry = base.with_fragment(f.fragment_id, f.bytes, time);
        if entry.is_complete() {
            ReceiveOutcome {
                state: state.remove(key),
                result: Ok(
                    Some(SingleDataView { id: Some(f.message_id), bytes: joined_slots(entry.slots) }),
                ),
            }
        } else {
            ReceiveOutcome { state: state.insert(key, entry), result: Ok(None) }
        }
    }
}

/// The effect of `message`, arriving at `now`: a single message passes
/// through as it is, a fragment goes to reassembly.
pub open spec fn after_message(
    state: Map<u16, ReassemblyView>,
    message: MessageContainer,
    now: u128,
) -> ReceiveOutcome {
    match message {
        MessageContainer::Single(data) => ReceiveOutcome { state, result: Ok(Some(data@)) },
        MessageContainer::Fragment(fragment) => after_fragment(state, fragment@, Some(now)),
    }
}

/// Whether what a call returned is what `expected` describes.
pub open spec fn is_result(
    returned: Result<Option<SingleData>, ChannelError>,
    expected: Result<Option<SingleDataView>, ChannelError>,
) -> bool {
    match (returned, expected) {
        (Ok(Some(data)), Ok(Some(view))) => data@ == view,
        (Ok(None), Ok(None)) => true,
        (Err(e), Err(x)) => e == x,
        _ => false,
    }
}

/// How long a partly received message is kept after its last new fragment,
/// in nanoseconds: three seconds.
pub const DISCARD_AFTER: u128 = 3_000_000_000;

/// The time before which a partly received message counts as abandoned.
pub open spec fn discard_horizon(now: u128) -> u128 {
    if now >= DISCARD_AFTER {
        (now - DISCARD_AFTER) as u128
    } else {
        0
    }
}

/// The reassembly states that `cleanup(before)` keeps.
pub open spec fn without_stale(state: Map<u16, ReassemblyView>, before: u128) -> Map<
    u16,
    ReassemblyView,
> {
    state.restrict(Set::new(|key: u16| state.contains_key(key) && !state[key].is_stale(before)))
}

/// Collects fragments by message id until a message is complete.
pub struct FragmentReceiver {
    fragment_messages: HashMap<u16, FragmentConstructor>,
}

impl View for FragmentReceiver {
    type V = Map<u16, ReassemblyView>;

    closed spec fn view(&self) -> Map<u16, ReassemblyView> {
        self.fragment_messages@.map_values(|c: FragmentConstructor| c@)
    }
}

impl FragmentReceiver {
    /// Every recorded state has one slot per fragment.
    pub open spec fn wf(&self) -> bool {
        forall|key: u16| #[trigger] self@.contains_key(key) ==> self@[key].wf()
    }

    /// A receiver that has seen no fragment.
    pub fn new() -> (receiver: Self)
        ensures
            receiver.wf(),
            receiver@ == Map::<u16, ReassemblyView>::empty(),
    {
        let receiver = FragmentReceiver { fragment_messages: HashMap::new() };
        assert(receiver@ =~= Map::<u16, ReassemblyView>::empty());
        receiver
    }

    /// How many messages are partly received.
    pub fn num_pending(&self) -> (n: usize)
        ensures
            n == self@.dom().len(),
    {
        assert(self@.dom() =~= self.fragment_messages@.dom());
        self.fragment_messages.len()
    }

    /// Takes in one fragment that arrived at `received_time`. Returns the
    /// whole message once its last missing fragment has arrived.
    pub fn receive_fragment(&mut self, fragment: FragmentData, received_time: Option<u128>) -> (result:
        Result<Option<SingleData>, ChannelError>)
        requires
            old(self).wf(),
        ensures
            final(self).wf(),
            final(self)@ == after_fragment(old(self)@, fragment@, received_time).state,
            is_result(result, after_fragment(old(self)@, fragment@, received_time).result),
    {
        let key: u16 = fragment.message_id.0;
        let ghost before = self@;
        let existing = self.fragment_messages.remove(&key);
        assert(self@ =~= before.remove(key));
        if fragment.fragment_id >= fragment.num_fragments {
            return Err(ChannelError::InvalidFragment);
        }
        let mut entry = match existing {
            Some(found) => {
                assert(before.contains_key(key) && before[key] == found@);
                if found.num_fragments != fragment.num_fragments {
                    return Err(ChannelError::InvalidFragment);
                }
                found
            },
            None => FragmentConstructor::new(fragment.num_fragments),
        };
        entry.store(fragment.fragment_id, fragment.bytes, received_time);
        if entry.is_complete() {
            let bytes = entry.assemble();
            Ok(Some(SingleData::new(Some(fragment.message_id), bytes)))
        } else {
            self.fragment_messages.insert(key, entry);
            assert(self@ =~= before.insert(key, entry@));
            Ok(None)
        }
    }

    /// Takes in one message of either shape at `now`: a single message is
    /// handed back as it is, a fragment goes to reassembly and hands back the
    /// message it completes, if any.
    pub fn receive(&mut self, message: MessageContainer, now: u128) -> (result: Result<
        Option<SingleData>,
        ChannelError,
    >)
        requires
            old(self).wf(),
        ensures
            final(self).wf(),
            final(self)@ == after_message(old(self)@, message, now).state,
            is_result(result, after_message(old(self)@, message, now).result),
    {
        match message {
            MessageContainer::Single(data) => Ok(Some(data)),
            MessageContainer::Fragment(fragment) => self.receive_fragment(fragment, Some(now)),
        }
    }

    /// Forgets every message whose last new fragment arrived before `before`.
    pub fn cleanup(&mut self, before: u128)
        requires
            old(self).wf(),
        ensures
            final(self).wf(),
            final(self)@ == without_stale(old(self)@, before),
    {
        let ghost start = self@;
        let ghost keys = spec_keys_iter(&self.fragment_messages).remaining();
        let ghost mut done: int = 0;
        let mut stale: Vec<u16> = Vec::new();
        for key in it: self.fragment_messages.keys()
            invariant
                self@ == start,
                it.seq() == keys,
                done == it.index(),
                forall|j: int|
                    0 <= j < stale.len() ==> start.contains_key(#[trigger] stale@[j])
                        && start[stale@[j]].is_stale(before),
                forall|i: int|
                    0 <= i < it.index() && start.contains_key(*keys[i]) && start[*keys[i]].is_stale(
                        before,
                    ) ==> stale@.contains(*#[trigger] keys[i]),
        {
            let ghost earlier = stale@;
            assert(key == keys[it.index()]);
            match self.fragment_messages.get(key) {
                Some(entry) => {
                    assert(start.contains_key(*key) && start[*key] == entry@);
                    match entry.last_updated {
                        Some(time) => {
                            if time < before {
                                stale.push(*key);
                                assert(stale@.last() == *key);
                            }
                        },
                        None => {},
                    }
                },
                None => {
                    assert(!start.contains_key(*key));
                },
            }
            proof {
                assert forall|x: u16| earlier.contains(x) implies stale@.contains(x) by {
                    let j = choose|j: int| 0 <= j < earlier.len() && earlier[j] == x;
                    assert(stale@[j] == x);
                }
                done = done + 1;
            }
        }
        assert(done == keys.len());
        assert forall|key: u16|
            start.contains_key(key) && start[key].is_stale(before) implies stale@.contains(
            key,
        ) by {
            assert(self.fragment_messages@.dom().contains(key));
            assert(keys.unref().to_set().contains(key));
            let i = choose|i: int| 0 <= i < keys.unref().len() && keys.unref()[i] == key;
            assert(*keys[i] == key);
        }
        let mut n: usize = 0;
        while n < stale.len()
            invariant
                n <= stale.len(),
                self.wf(),
                forall|key: u16|
                    self@.contains_key(key) <==> start.contains_key(key) && !stale@.take(
                        n as int,
                    ).contains(key),
                forall|key: u16| self@.contains_key(key) ==> self@[key] == start[key],
            decreases stale.len() - n,
        {
            let ghost prev = self@;
            let ghost gone = stale@[n as int];
            let _ = self.fragment_messages.remove(&stale[n]);
            assert(self@ =~= prev.remove(gone));
            proof {
                let shorter = stale@.take(n as int);
                let longer = stale@.take(n as int + 1);
                assert(longer == shorter.push(gone));
                assert forall|key: u16| self@.contains_key(key) <==> start.contains_key(key)
                    && !longer.contains(key) by {
                    assert(self@.contains_key(key) == (key != gone && prev.contains_key(key)));
                    assert(prev.contains_key(key) == (start.contains_key(key)
                        && !shorter.contains(key)));
                    if shorter.contains(key) {
                        let j = choose|j: int| 0 <= j < shorter.len() && shorter[j] == key;
                        assert(longer[j] == key);
                    }
                    if key == gone {
                        assert(longer[n as int] == key);
                    }
                    if longer.contains(key) {
                        let j = choose|j: int| 0 <= j < longer.len() && longer[j] == key;
                        if j < n {
                            assert(shorter[j] == key);
                        } else {
                            assert(key == gone);
                        }
                    }
                }
            }
            n = n + 1;
        }
        proof {
            assert(stale@.take(n as int) == stale@);
            assert forall|key: u16|
                start.contains_key(key) && stale@.contains(key) implies start[key].is_stale(
                before,
            ) by {
                let j = choose|j: int| 0 <= j < stale@.len() && stale@[j] == key;
            }
            assert(self@ =~= without_stale(start, before));
        }
    }
}

} // verus!
