//! The counting rule of a barrier: every participant arrives once, and all
//! of them may go on once the last one has arrived.

use vstd::prelude::*;

verus! {

/// The abstract state of a barrier: how many participants have arrived,
/// out of how many.
pub ghost struct BarrierView {
    pub arrived: nat,
    pub total: nat,
}

impl BarrierView {
    /// A barrier for `total` participants that none has reached yet.
    pub open spec fn fresh(total: nat) -> BarrierView {
        BarrierView { arrived: 0, total }
    }

    /// Whether every participant has arrived.
    pub open spec fn complete(self) -> bool {
        self.arrived == self.total
    }

    /// One more arrival: whether it is the last one, and the state after it.
    pub open spec fn arrive(self) -> (bool, BarrierView) {
        let next = BarrierView { arrived: self.arrived + 1, total: self.total };
        (next.complete(), next)
    }

    /// The state after `k` more arrivals.
    pub open spec fn after_arrivals(self, k: nat) -> BarrierView
        decreases k,
    {
        if k == 0 {
            self
        } else {
            self.after_arrivals((k - 1) as nat).arrive().1
        }
    }
}

/// The count behind a barrier; the lock and the condition variable that
/// guard it belong to the caller.
pub struct BarrierState {
    arrived: usize,
    total: usize,
}

impl View for BarrierState {
    type V = BarrierView;

    closed spec fn view(&self) -> BarrierView {
        BarrierView { arrived: self.arrived as nat, total: self.total as nat }
    }
}

impl BarrierState {
    #[verifier::type_invariant]
    spec fn inv(self) -> bool {
        self.arrived <= self.total
    }

    /// The barrier of a pool with `worker_count` workers: every worker and
    /// the thread that asked for the barrier take part.
    pub fn for_pool(worker_count: usize) -> (b: Self)
        requires
            worker_count < usize::MAX,
        ensures
            b@ == BarrierView::fresh((worker_count + 1) as nat),
    {
        BarrierState { arrived: 0, total: worker_count + 1 }
    }

    /// Whether every participant has arrived.
    pub fn is_complete(&self) -> (b: bool)
        ensures
            b == self@.complete(),
    {
        self.arrived == self.total
    }

    /// Records one arrival and tells whether it was the last one, on which
    /// the waiting participants are to be woken.
    pub fn arrive(&mut self) -> (last: bool)
        requires
            !old(self)@.complete(),
        ensures
            (last, final(self)@) == old(self)@.arrive(),
    {
        proof {
            use_type_invariant(&*self);
        }
        *self = BarrierState { arrived: self.arrived + 1, total: self.total };
        self.arrived == self.total
    }
}

/// On a fresh barrier for `total` participants, after `k` of them have
/// arrived exactly `k` are counted; the barrier is complete only once all
/// have arrived, and only the arrival of the last one is reported as last.
pub proof fn lemma_barrier_counts(total: nat, k: nat)
    requires
        k <= total,
    ensures
        BarrierView::fresh(total).after_arrivals(k) == (BarrierView { arrived: k, total }),
        BarrierView::fresh(total).after_arrivals(k).complete() <==> k == total,
        k < total ==> (BarrierView::fresh(total).after_arrivals(k).arrive().0 <==> k + 1 == total),
    decreases k,
{
    if k > 0 {
        lemma_barrier_counts(total, (k - 1) as nat);
    }
}

} // verus!
