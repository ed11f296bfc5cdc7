use vstd::prelude::*;

verus! {

/// The default number of shards processed at once.
pub const DEFAULT_CONCURRENCY: usize = 10;

/// A counting limiter: at most `capacity` holders of a slot at any time.
///
/// A task takes a slot before it starts decoding its shard and gives it back
/// on every way out. A task that finds no free slot waits until another gives
/// one back; the order in which waiting tasks get in is left open.
pub struct Limiter {
    capacity: usize,
    active: usize,
}

impl Limiter {
    pub closed spec fn capacity_view(&self) -> nat {
        self.capacity as nat
    }

    pub closed spec fn active_view(&self) -> nat {
        self.active as nat
    }

    /// A limiter with `capacity` free slots.
    pub fn new(capacity: usize) -> (r: Limiter)
        ensures
            r.capacity_view() == capacity,
            r.active_view() == 0,
    {
        Limiter { capacity, active: 0 }
    }

    /// The number of slots.
    pub fn capacity(&self) -> (r: usize)
        ensures
            r == self.capacity_view(),
    {
        self.capacity
    }

    /// The number of slots held now.
    pub fn active(&self) -> (r: usize)
        ensures
            r == self.active_view(),
    {
        self.active
    }

    /// Takes a slot if one is free. The number of slots held never passes
    /// the capacity.
    pub fn try_acquire(&mut self) -> (r: bool)
        requires
            old(self).active_view() <= old(self).capacity_view(),
        ensures
            r == (old(self).active_view() < old(self).capacity_view()),
            r ==> final(self).active_view() == old(self).active_view() + 1,
            !r ==> final(self).active_view() == old(self).active_view(),
            final(self).capacity_view() == old(self).capacity_view(),
            final(self).active_view() <= final(self).capacity_view(),
    {
        if self.active < self.capacity {
            self.active = self.active + 1;
            true
        } else {
            false
        }
    }

    /// Gives back a slot that was taken.
    pub fn release(&mut self)
        requires
            old(self).active_view() <= old(self).capacity_view(),
            old(self).active_view() > 0,
        ensures
            final(self).active_view() == old(self).active_view() - 1,
            final(self).capacity_view() == old(self).capacity_view(),
            final(self).active_view() < final(self).capacity_view(),
    {
        self.active = self.active - 1;
    }
}

} // verus!
