//! The channels that both ends of a connection have declared.

use crate::channel::settings::ChannelSettings;
use vstd::prelude::*;

verus! {

/// The key under which the application declares a channel.
#[derive(Clone, Copy, Debug, PartialEq, Eq, Hash, Structural)]
pub struct ChannelKind(pub u64);

/// A declared channel.
#[derive(Clone, Copy, Debug, PartialEq, Eq, Structural)]
pub struct ChannelEntry {
    pub kind: ChannelKind,
    pub settings: ChannelSettings,
}

/// The most channels a registry holds: each gets a 16-bit number.
pub const MAX_CHANNELS: usize = 65536;

/// Whether no entry has the key `kind`.
pub open spec fn lacks_kind(entries: Seq<ChannelEntry>, kind: ChannelKind) -> bool {
    forall|i: int| 0 <= i < entries.len() ==> (#[trigger] entries[i]).kind != kind
}

/// The declared channels in the order of their declaration. A channel is
/// known on the wire by its place in that order, so both ends must declare
/// the same channels in the same order.
pub struct ChannelRegistry {
    entries: Vec<ChannelEntry>,
}

impl View for ChannelRegistry {
    type V = Seq<ChannelEntry>;

    closed spec fn view(&self) -> Seq<ChannelEntry> {
        self.entries@
    }
}

impl ChannelRegistry {
    /// No key is declared twice, and every place fits 16 bits.
    pub open spec fn wf(&self) -> bool {
        &&& self@.len() <= MAX_CHANNELS
        &&& forall|i: int, j: int|
            0 <= i < j < self@.len() ==> (#[trigger] self@[i]).kind != (#[trigger] self@[j]).kind
    }

    /// A registry without channels.
    pub fn new() -> (registry: Self)
        ensures
            registry.wf(),
            registry@ == Seq::<ChannelEntry>::empty(),
    {
        ChannelRegistry { entries: Vec::new() }
    }

    /// How many channels are declared.
    pub fn len(&self) -> (n: usize)
        ensures
            n == self@.len(),
    {
        self.entries.len()
    }

    /// The number on the wire of the channel declared under `kind`.
    pub fn net_id(&self, kind: ChannelKind) -> (id: Option<u16>)
        requires
            self.wf(),
        ensures
            match id {
                Some(id) => id < self@.len() && self@[id as int].kind == kind,
                None => lacks_kind(self@, kind),
            },
    {
        let mut i: usize = 0;
        while i < self.entries.len()
            invariant
                self.wf(),
                i <= self.entries.len(),
                forall|j: int| 0 <= j < i ==> (#[trigger] self@[j]).kind != kind,
            decreases self.entries.len() - i,
        {
            if self.entries[i].kind.0 == kind.0 {
                return Some(i as u16);
            }
            i = i + 1;
        }
        None
    }

    /// The channel with the number `id` on the wire.
    pub fn get(&self, id: u16) -> (entry: Option<ChannelEntry>)
        ensures
            id < self@.len() ==> entry == Some(self@[id as int]),
            id >= self@.len() ==> entry is None,
    {
        let index: usize = id as usize;
        if index < self.entries.len() {
            Some(self.entries[index])
        } else {
            None
        }
    }

    /// The channel declared at place `index`.
    pub fn entry_at(&self, index: usize) -> (entry: ChannelEntry)
        requires
            index < self@.len(),
        ensures
            entry == self@[index as int],
    {
        self.entries[index]
    }

    /// Declares a channel. It gets the next free number, which is returned;
    /// a key that is declared already, or a full registry, changes nothing.
    pub fn add(&mut self, kind: ChannelKind, settings: ChannelSettings) -> (id: Option<u16>)
        requires
            old(self).wf(),
        ensures
            final(self).wf(),
            id is Some <==> lacks_kind(old(self)@, kind) && old(self)@.len() < MAX_CHANNELS,
            id is Some ==> id->0 == old(self)@.len() && final(self)@ == old(self)@.push(
                ChannelEntry { kind, settings },
            ),
            id is None ==> final(self)@ == old(self)@,
    {
        if self.entries.len() >= MAX_CHANNELS {
            return None;
        }
        match self.net_id(kind) {
            Some(taken) => {
                assert(self@[taken as int].kind == kind);
                None
            },
            None => {
                let id: u16 = self.entries.len() as u16;
                self.entries.push(ChannelEntry { kind, settings });
                Some(id)
            },
        }
    }
}

} // verus!
