//! The distributor: route each frame to exactly one recognition worker,
//! round robin by frame index, so that per-worker delivery order follows
//! frame order and no worker is re-created per frame.

use vstd::arithmetic::div_mod::{
    lemma_div_pos_is_pos, lemma_fundamental_div_mod, lemma_mod_bound, lemma_mod_multiples_vanish,
    lemma_small_mod,
};
use vstd::prelude::*;

verus! {

/// The worker a frame is routed to: its index modulo the worker count.
pub open spec fn worker_of(frame_index: int, worker_count: int) -> int
    recommends
        worker_count >= 1,
{
    frame_index % worker_count
}

/// The distributor's explicit state: the index the next frame will carry
/// and the fixed size of the worker pool.
pub struct Distributor {
    pub next_index: usize,
    pub worker_count: usize,
}

impl Distributor {
    /// The pool the distributor feeds is not empty.
    pub open spec fn wf(&self) -> bool {
        self.worker_count >= 1
    }

    /// A fresh distributor over a pool of `worker_count` workers, about to
    /// route the frame with index zero.
    pub fn new(worker_count: usize) -> (d: Distributor)
        requires
            worker_count >= 1,
        ensures
            d.wf(),
            d.next_index == 0,
            d.worker_count == worker_count,
    {
        Distributor { next_index: 0, worker_count }
    }

    /// Route the next frame: returns the worker that must receive it and
    /// advances the frame index by one.
    pub fn assign_next(&mut self) -> (w: usize)
        requires
            old(self).wf(),
            old(self).next_index < usize::MAX,
        ensures
            final(self).wf(),
            final(self).worker_count == old(self).worker_count,
            final(self).next_index == old(self).next_index + 1,
            w == worker_of(old(self).next_index as int, old(self).worker_count as int),
            w < old(self).worker_count,
    {
        let w: usize = self.next_index % self.worker_count;
        self.next_index = self.next_index + 1;
        w
    }
}

/// Round-robin correctness: for a fixed worker count `k`, the frames routed
/// to worker `w` are exactly `w, w + k, w + 2k, ...` — the `n`-th frame that
/// worker `w` receives is frame `w + n * k`, and conversely every frame
/// routed to `w` is of that form. Since `w + n * k` grows with `n`, frames
/// with the same worker reach it in increasing index order.
pub proof fn lemma_round_robin(k: int, w: int)
    requires
        k >= 1,
        0 <= w < k,
    ensures
        forall|n: int| n >= 0 ==> #[trigger] worker_of(w + n * k, k) == w,
        forall|i: int|
            i >= 0 && #[trigger] worker_of(i, k) == w ==> i == w + (i / k) * k && i / k >= 0,
{
    assert forall|n: int| n >= 0 implies #[trigger] worker_of(w + n * k, k) == w by {
        lemma_mod_multiples_vanish(n, w, k);
        lemma_small_mod(w as nat, k as nat);
        assert(w + n * k == k * n + w) by (nonlinear_arith);
    }
    assert forall|i: int|
        i >= 0 && #[trigger] worker_of(i, k) == w implies i == w + (i / k) * k && i / k >= 0 by {
        lemma_fundamental_div_mod(i, k);
        lemma_div_pos_is_pos(i, k);
    }
}

/// The routing target is always a valid worker of the pool.
pub proof fn lemma_worker_in_pool(i: int, k: int)
    requires
        k >= 1,
        i >= 0,
    ensures
        0 <= worker_of(i, k) < k,
{
    lemma_mod_bound(i, k);
}

} // verus!
