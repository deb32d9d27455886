//! The tick: the count of steps of the fixed-timestep loop.

use crate::utils::wrapping_id::cyclic_add;
use vstd::prelude::*;

verus! {

/// Something that counts ticks. The count wraps round at 65536.
pub trait TickManaged {
    /// The current tick.
    spec fn current(&self) -> u16;

    /// Moves on to the next tick.
    fn increment_tick(&mut self)
        ensures
            final(self).current() as int == cyclic_add(old(self).current(), 1),
    ;
}

/// A plain tick counter.
#[derive(Clone, Copy, Debug)]
pub struct TickManager {
    tick: u16,
}

impl TickManager {
    /// A counter that stands at tick 0.
    pub fn new() -> (manager: Self)
        ensures
            manager.current() == 0,
    {
        TickManager { tick: 0 }
    }

    /// The current tick.
    pub fn current_tick(&self) -> (tick: u16)
        ensures
            tick == self.current(),
    {
        self.tick
    }
}

impl TickManaged for TickManager {
    closed spec fn current(&self) -> u16 {
        self.tick
    }

    fn increment_tick(&mut self) {
        self.tick = self.tick.wrapping_add(1);
    }
}

/// Moves `service` on to the next tick.
pub fn increment_tick<T: TickManaged>(service: &mut T)
    ensures
        final(service).current() as int == cyclic_add(old(service).current(), 1),
{
    service.increment_tick();
}

} // verus!
