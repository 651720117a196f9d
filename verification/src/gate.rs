use vstd::prelude::*;

verus! {

/// Counting admission control for chunk operations: at most `capacity`
/// operations hold a slot at any instant. The asynchronous driver acquires a
/// slot before scheduling each chunk, in ascending range order, and returns
/// it when that chunk's work finishes, successful or not.
pub struct Gate {
    capacity: usize,
    active: usize,
}

impl Gate {
    /// Upper bound on simultaneously admitted chunk operations.
    pub closed spec fn capacity_spec(self) -> nat {
        self.capacity as nat
    }

    /// The number of chunk operations currently holding a slot.
    pub closed spec fn active_spec(self) -> nat {
        self.active as nat
    }

    /// Well-formedness: at least one slot, and never more holders than slots.
    pub open spec fn wf(self) -> bool {
        1 <= self.capacity_spec() && self.active_spec() <= self.capacity_spec()
    }

    /// A fresh gate with `capacity` free slots and no active operation.
    pub fn new(capacity: usize) -> (g: Gate)
        requires
            1 <= capacity,
        ensures
            g.wf(),
            g.capacity_spec() == capacity,
            g.active_spec() == 0,
    {
        Gate { capacity, active: 0 }
    }

    /// Admit one chunk operation exactly when a slot is free. Admission never
    /// pushes the number of active operations past the capacity.
    pub fn try_acquire(&mut self) -> (admitted: bool)
        requires
            old(self).wf(),
        ensures
            final(self).wf(),
            final(self).capacity_spec() == old(self).capacity_spec(),
            admitted <==> old(self).active_spec() < old(self).capacity_spec(),
            admitted ==> final(self).active_spec() == old(self).active_spec() + 1,
            !admitted ==> final(self).active_spec() == old(self).active_spec(),
            final(self).active_spec() <= final(self).capacity_spec(),
    {
        if self.active < self.capacity {
            self.active = self.active + 1;
            true
        } else {
            false
        }
    }

    /// Return a slot when a chunk operation's work finishes, whatever its
    /// outcome.
    pub fn release(&mut self)
        requires
            old(self).wf(),
            1 <= old(self).active_spec(),
        ensures
            final(self).wf(),
            final(self).capacity_spec() == old(self).capacity_spec(),
            final(self).active_spec() == old(self).active_spec() - 1,
    {
        self.active = self.active - 1;
    }

    /// How many chunk operations currently hold a slot.
    pub fn active_count(&self) -> (n: usize)
        ensures
            n == self.active_spec(),
    {
        self.active
    }

    /// Upper bound on simultaneously admitted chunk operations, as a value.
    pub fn capacity(&self) -> (n: usize)
        ensures
            n == self.capacity_spec(),
    {
        self.capacity
    }
}

/// Bounded concurrency: in every well-formed state the count of slot holders
/// stays at or below the total slot count, whatever `max_concurrency` the
/// gate holds, and `try_acquire` refuses once no slot is free.
pub proof fn lemma_gate_bounded(g: Gate)
    requires
        g.wf(),
    ensures
        g.active_spec() <= g.capacity_spec(),
{
}

} // verus!
