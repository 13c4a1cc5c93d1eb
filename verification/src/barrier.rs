//! The barrier the harts of a tile meet at, and the memory they share.
//! The decisions live here; blocking until a decision lets a hart go is
//! left to the caller.

use vstd::prelude::*;

verus! {

/// What a hart arriving at the barrier is told.
#[derive(Clone, Copy, Debug, PartialEq, Eq, Structural)]
pub enum BarrierArrival {
    /// The barrier was aborted: leave at once.
    Aborted,
    /// This hart was the last one: the barrier opened for everyone.
    Released,
    /// Wait until the epoch moves on from `epoch` or the barrier aborts.
    Wait { epoch: u64 },
}

/// A reusable barrier for `core_count` harts.
#[derive(Debug)]
pub struct TileBarrier {
    pub core_count: usize,
    pub epoch: u64,
    pub arrived: Vec<usize>,
    pub aborted: bool,
}

/// `epoch + 1`, wrapping at `u64::MAX`.
pub open spec fn next_epoch(epoch: u64) -> u64 {
    if epoch == u64::MAX {
        0
    } else {
        (epoch + 1) as u64
    }
}

/// What hart `hart_id` arriving at barrier `pre` is told (`r`) and leaves
/// behind (`post`): an aborted barrier answers `Aborted` and stays as it
/// was; otherwise the arrival that completes the count of distinct harts
/// opens the barrier and starts the next epoch, and any other arrival adds
/// the hart to the waiting set and is told to wait in the current epoch.
pub open spec fn arrive_post(pre: TileBarrier, post: TileBarrier, hart_id: usize, r: BarrierArrival) -> bool {
    &&& post.core_count == pre.core_count
    &&& post.aborted == pre.aborted
    &&& pre.aborted ==> r == BarrierArrival::Aborted && post == pre
    &&& !pre.aborted && pre.waiting().insert(hart_id).len() == pre.core_count ==> r == BarrierArrival::Released
        && post.epoch == next_epoch(pre.epoch) && post.arrived@.len() == 0
    &&& !pre.aborted && pre.waiting().insert(hart_id).len() != pre.core_count ==> r == (BarrierArrival::Wait {
        epoch: pre.epoch,
    }) && post.epoch == pre.epoch && post.waiting() == pre.waiting().insert(hart_id)
}

impl TileBarrier {
    /// Each hart is listed once, and never all of them.
    pub open spec fn wf(&self) -> bool {
        &&& self.arrived@.no_duplicates()
        &&& (self.core_count == 0 || self.arrived@.len() < self.core_count)
    }

    /// The harts waiting in the current epoch.
    pub open spec fn waiting(&self) -> Set<usize> {
        self.arrived@.to_set()
    }

    /// An open barrier for `core_count` harts, in epoch 0.
    pub fn new(core_count: usize) -> (r: TileBarrier)
        ensures
            r.wf(),
            r.core_count == core_count,
            r.epoch == 0,
            r.arrived@.len() == 0,
            !r.aborted,
    {
        TileBarrier { core_count, epoch: 0, arrived: Vec::new(), aborted: false }
    }

    /// Hart `hart_id` arrives. A hart that arrives twice in one epoch is
    /// counted once; the arrival that completes the count opens the
    /// barrier and starts the next epoch.
    pub fn arrive(&mut self, hart_id: usize) -> (r: BarrierArrival)
        requires
            old(self).wf(),
        ensures
            final(self).wf(),
            arrive_post(*old(self), *final(self), hart_id, r),
    {
        if self.aborted {
            return BarrierArrival::Aborted;
        }
        proof {
            self.arrived@.unique_seq_to_set();
        }
        let mut present = false;
        let mut i: usize = 0;
        while i < self.arrived.len()
            invariant
                i <= self.arrived@.len(),
                present == (exists|j: int| 0 <= j < i && self.arrived@[j] == hart_id),
            decreases self.arrived@.len() - i,
        {
            if self.arrived[i] == hart_id {
                present = true;
            }
            i = i + 1;
        }
        let ghost before = self.arrived@;
        if !present {
            self.arrived.push(hart_id);
            proof {
                assert(self.arrived@.no_duplicates()) by {
                    assert forall|a: int, b: int| 0 <= a < b < self.arrived@.len() implies self.arrived@[a]
                        != self.arrived@[b] by {
                        if b == before.len() {
                            assert(before[a] != hart_id);
                        } else {
                            assert(before[a] != before[b]);
                        }
                    }
                }
                assert(self.arrived@.to_set() =~= before.to_set().insert(hart_id)) by {
                    assert forall|x: usize| #[trigger] self.arrived@.to_set().contains(x) <==> before.to_set().insert(
                        hart_id,
                    ).contains(x) by {
                        if x != hart_id && self.arrived@.contains(x) {
                            let j = choose|j: int| 0 <= j < self.arrived@.len() && self.arrived@[j] == x;
                            assert(before[j] == x);
                        }
                        if before.contains(x) {
                            let j = choose|j: int| 0 <= j < before.len() && before[j] == x;
                            assert(self.arrived@[j] == x);
                        }
                        if x == hart_id {
                            assert(self.arrived@[before.len() as int] == x);
                        }
                    }
                }
            }
        } else {
            proof {
                let j = choose|j: int| 0 <= j < before.len() && before[j] == hart_id;
                assert(before.to_set().contains(hart_id));
                assert(before.to_set().insert(hart_id) =~= before.to_set());
            }
        }
        proof {
            self.arrived@.unique_seq_to_set();
        }
        if self.arrived.len() == self.core_count {
            self.epoch = if self.epoch == u64::MAX {
                0
            } else {
                self.epoch + 1
            };
            self.arrived.clear();
            return BarrierArrival::Released;
        }
        BarrierArrival::Wait { epoch: self.epoch }
    }

    /// Whether a hart that was told to wait in `epoch` may now leave: the
    /// epoch moved on, or the barrier was aborted.
    pub fn may_leave(&self, epoch: u64) -> (r: bool)
        ensures
            r == (self.epoch != epoch || self.aborted),
    {
        self.epoch != epoch || self.aborted
    }

    /// Aborts the barrier: every waiting hart, and every later arrival,
    /// leaves at once.
    pub fn abort(&mut self)
        requires
            old(self).wf(),
        ensures
            final(self).wf(),
            final(self).aborted,
            final(self).epoch == old(self).epoch,
            final(self).core_count == old(self).core_count,
            final(self).arrived@ == old(self).arrived@,
            forall|e: u64| final(self).may_leave_spec(e),
    {
        self.aborted = true;
    }

    /// Whether a hart waiting in epoch `e` may leave.
    pub open spec fn may_leave_spec(&self, e: u64) -> bool {
        self.epoch != e || self.aborted
    }
}

/// Guest memory shared by the harts of a tile, and their barrier.
#[derive(Debug)]
pub struct SharedMemory {
    pub data: Vec<u8>,
    pub barrier: TileBarrier,
}

impl SharedMemory {
    /// `size` zeroed bytes and an open barrier for `core_count` harts.
    pub fn new(size: usize, core_count: usize) -> (r: SharedMemory)
        ensures
            r.data@ == Seq::new(size as nat, |i: int| 0u8),
            r.barrier.wf(),
            r.barrier.core_count == core_count,
            r.barrier.epoch == 0,
            r.barrier.arrived@.len() == 0,
            !r.barrier.aborted,
    {
        let mut data: Vec<u8> = Vec::new();
        let mut i: usize = 0;
        while i < size
            invariant
                i <= size,
                data@ == Seq::new(i as nat, |j: int| 0u8),
            decreases size - i,
        {
            data.push(0u8);
            i = i + 1;
            assert(data@ =~= Seq::new(i as nat, |j: int| 0u8));
        }
        SharedMemory { data, barrier: TileBarrier::new(core_count) }
    }

    /// Hart `hart_id` arrives at the tile barrier.
    pub fn wait_barrier(&mut self, hart_id: usize) -> (r: BarrierArrival)
        requires
            old(self).barrier.wf(),
        ensures
            final(self).data@ == old(self).data@,
            final(self).barrier.wf(),
            arrive_post(old(self).barrier, final(self).barrier, hart_id, r),
    {
        self.barrier.arrive(hart_id)
    }

    /// Aborts the tile barrier.
    pub fn abort_barrier(&mut self)
        requires
            old(self).barrier.wf(),
        ensures
            final(self).data@ == old(self).data@,
            final(self).barrier.wf(),
            final(self).barrier.aborted,
            final(self).barrier.epoch == old(self).barrier.epoch,
    {
        self.barrier.abort();
    }
}

/// The first `i` arrivals of distinct harts at an open, empty barrier for
/// more than `i` harts leave exactly those harts waiting, in the same
/// epoch, each told to wait.
proof fn lemma_arrivals_wait(
    states: Seq<TileBarrier>,
    harts: Seq<usize>,
    answers: Seq<BarrierArrival>,
    i: int,
)
    requires
        states.len() == harts.len() + 1,
        answers.len() == harts.len(),
        harts.len() == states[0].core_count,
        states[0].arrived@.len() == 0,
        !states[0].aborted,
        harts.no_duplicates(),
        forall|k: int| 0 <= k < harts.len() ==> arrive_post(states[k], states[k + 1], harts[k], #[trigger] answers[k]),
        0 <= i < harts.len(),
    ensures
        states[i].waiting() == harts.take(i).to_set(),
        states[i].epoch == states[0].epoch,
        !states[i].aborted,
        states[i].core_count == states[0].core_count,
        forall|k: int| 0 <= k < i ==> answers[k] == (BarrierArrival::Wait { epoch: states[0].epoch }),
    decreases i,
{
    if i == 0 {
        assert(states[0].arrived@ =~= Seq::<usize>::empty());
        assert(harts.take(0) =~= Seq::<usize>::empty());
        assert(states[0].waiting() =~= harts.take(0).to_set());
    } else {
        lemma_arrivals_wait(states, harts, answers, i - 1);
        let pre = states[i - 1];
        let h = harts[i - 1];
        assert(arrive_post(pre, states[(i - 1) + 1], h, answers[i - 1]));
        assert(harts.take(i) =~= harts.take(i - 1).push(h));
        assert(harts.take(i).to_set() =~= harts.take(i - 1).to_set().insert(h)) by {
            harts.take(i - 1).lemma_push_to_set_commute(h);
        }
        assert(harts.take(i).no_duplicates()) by {
            assert forall|a: int, b: int| 0 <= a < b < harts.take(i).len() implies harts.take(i)[a] != harts.take(i)[b] by {
                assert(harts.take(i)[a] == harts[a] && harts.take(i)[b] == harts[b]);
            }
        }
        harts.take(i).unique_seq_to_set();
        assert(pre.waiting().insert(h).len() == i);
    }
}

/// A barrier for `n` harts opens exactly at the `n`-th arrival of distinct
/// harts: starting open, empty and not aborted, the first `n - 1` distinct
/// harts are told to wait in the current epoch, and the `n`-th releases
/// everyone, starts the next epoch and leaves nobody waiting.
pub proof fn law_barrier_opens_after_all_harts_arrive(
    states: Seq<TileBarrier>,
    harts: Seq<usize>,
    answers: Seq<BarrierArrival>,
)
    requires
        states.len() == harts.len() + 1,
        answers.len() == harts.len(),
        harts.len() == states[0].core_count,
        harts.len() >= 1,
        states[0].arrived@.len() == 0,
        !states[0].aborted,
        harts.no_duplicates(),
        forall|k: int| 0 <= k < harts.len() ==> arrive_post(states[k], states[k + 1], harts[k], #[trigger] answers[k]),
    ensures
        forall|k: int| 0 <= k < harts.len() - 1 ==> answers[k] == (BarrierArrival::Wait { epoch: states[0].epoch }),
        answers[harts.len() - 1] == BarrierArrival::Released,
        states[harts.len() as int].epoch == next_epoch(states[0].epoch),
        states[harts.len() as int].arrived@.len() == 0,
{
    let n = harts.len() as int;
    lemma_arrivals_wait(states, harts, answers, n - 1);
    let pre = states[n - 1];
    let h = harts[n - 1];
    assert(arrive_post(pre, states[(n - 1) + 1], h, answers[n - 1]));
    assert(harts =~= harts.take(n - 1).push(h));
    harts.take(n - 1).lemma_push_to_set_commute(h);
    harts.unique_seq_to_set();
    assert(pre.waiting().insert(h) =~= harts.to_set());
}

} // verus!
