//! Host-time accounting for emulator runs. Durations are counted in
//! nanoseconds.

use vstd::prelude::*;
use std::time::{Duration, Instant};

verus! {

/// Number of funct7 values.
pub const FUNCT7_COUNT: usize = 128;

#[verifier::external_type_specification]
#[verifier::external_body]
pub struct ExInstant(Instant);

/// `std::time::Instant::now`: the current time; nothing is known of it.
#[verifier::external_body]
fn instant_now() -> Instant {
    Instant::now()
}

/// `std::time::Instant::elapsed`: the time passed since `started`; nothing
/// is known of it.
#[verifier::external_body]
fn instant_elapsed(started: &Instant) -> Duration {
    started.elapsed()
}

/// `std::time::Duration::as_nanos`: the duration in whole nanoseconds; as
/// the duration comes from the clock, nothing is stated of it.
#[verifier::external_body]
fn duration_as_nanos(d: &Duration) -> u128 {
    d.as_nanos()
}

/// Calls and host time spent on one funct7.
#[derive(Clone, Copy, Debug, PartialEq, Eq, Structural)]
pub struct OperationCounter {
    pub calls: u64,
    pub elapsed: u128,
}

/// One line of a profile report.
#[derive(Clone, Copy, Debug, PartialEq, Eq, Structural)]
pub struct OperationProfile {
    pub funct7: u8,
    pub calls: u64,
    pub elapsed: u128,
}

/// A finished profile: total wall time, time inside guest stepping, time in
/// the NPU model, and the operations that ran, slowest first.
#[derive(Clone, Debug)]
pub struct BemuProfileReport {
    pub total: u128,
    pub spike_step: u128,
    pub npu: u128,
    pub operations: Vec<OperationProfile>,
}

/// `a - b`, or zero when `b` exceeds `a`.
pub open spec fn sat_sub(a: u128, b: u128) -> u128 {
    if a >= b {
        (a - b) as u128
    } else {
        0
    }
}

/// `a + b`, or the largest value when that overflows.
pub open spec fn sat_add(a: u128, b: u128) -> u128 {
    if a + b > u128::MAX {
        u128::MAX
    } else {
        (a + b) as u128
    }
}

/// The smaller of `a` and `b`.
pub open spec fn min_u128(a: u128, b: u128) -> u128 {
    if a <= b {
        a
    } else {
        b
    }
}

impl BemuProfileReport {
    /// Total wall time of the run.
    pub fn total(&self) -> (r: u128)
        ensures
            r == self.total,
    {
        self.total
    }

    /// Time in the NPU functional model.
    pub fn npu(&self) -> (r: u128)
        ensures
            r == self.npu,
    {
        self.npu
    }

    /// Time stepping guest instructions outside the NPU model.
    pub fn spike_guest(&self) -> (r: u128)
        ensures
            r == sat_sub(self.spike_step, self.npu),
    {
        if self.spike_step >= self.npu {
            self.spike_step - self.npu
        } else {
            0
        }
    }

    /// Time outside guest stepping: wrapper, syscalls and the run loop.
    pub fn bemu_glue(&self) -> (r: u128)
        ensures
            r == sat_sub(self.total, self.spike_step),
    {
        if self.total >= self.spike_step {
            self.total - self.spike_step
        } else {
            0
        }
    }

    /// The operations that ran, slowest first.
    pub fn operations(&self) -> (r: &[OperationProfile])
        ensures
            r@ == self.operations@,
    {
        self.operations.as_slice()
    }
}

/// Per-funct7 host time of an emulator run.
pub struct BemuProfile {
    pub enabled: bool,
    pub npu: u128,
    pub operations: [OperationCounter; 128],
}

/// The profile lines of the funct7 values that ran, in funct7 order.
pub open spec fn ran_operations(ops: Seq<OperationCounter>) -> Seq<OperationProfile> {
    Seq::new(
        ops.len(),
        |i: int| OperationProfile { funct7: i as u8, calls: ops[i].calls, elapsed: ops[i].elapsed },
    ).filter(|p: OperationProfile| p.calls != 0)
}

/// `ops` is ordered slowest first.
pub open spec fn slowest_first(ops: Seq<OperationProfile>) -> bool {
    forall|i: int, j: int| 0 <= i <= j < ops.len() ==> ops[i].elapsed >= ops[j].elapsed
}

/// Every line of `ops` is a funct7 that ran, and no funct7 has two lines.
pub open spec fn distinct_ran_lines(ops: Seq<OperationProfile>) -> bool {
    &&& forall|i: int| 0 <= i < ops.len() ==> (#[trigger] ops[i]).calls >= 1 && ops[i].funct7 < FUNCT7_COUNT
    &&& forall|i: int, j: int| 0 <= i < j < ops.len() ==> (#[trigger] ops[i]).funct7 != (#[trigger] ops[j]).funct7
}

/// Orders `ops` slowest first, keeping its elements.
fn sort_slowest_first(ops: &mut Vec<OperationProfile>)
    ensures
        final(ops)@.to_multiset() == old(ops)@.to_multiset(),
        slowest_first(final(ops)@),
        final(ops)@.len() == old(ops)@.len(),
        distinct_ran_lines(old(ops)@) ==> distinct_ran_lines(final(ops)@),
{
    broadcast use vstd::multiset::group_multiset_axioms;

    let n = ops.len();
    let mut i: usize = 0;
    while i < n
        invariant
            i <= n,
            n == ops@.len(),
            ops@.to_multiset() == old(ops)@.to_multiset(),
            distinct_ran_lines(old(ops)@) ==> distinct_ran_lines(ops@),
            forall|a: int, b: int| 0 <= a <= b < i ==> ops@[a].elapsed >= ops@[b].elapsed,
            forall|a: int, b: int| 0 <= a < i <= b < n ==> ops@[a].elapsed >= ops@[b].elapsed,
        decreases n - i,
    {
        let mut best = i;
        let mut j = i + 1;
        while j < n
            invariant
                i < n,
                i <= best < n,
                best < j <= n,
                n == ops@.len(),
                forall|k: int| i <= k < j ==> ops@[best as int].elapsed >= ops@[k].elapsed,
            decreases n - j,
        {
            if ops[j].elapsed > ops[best].elapsed {
                best = j;
            }
            j = j + 1;
        }
        let a = ops[i];
        let b = ops[best];
        let ghost before = ops@;
        ops.set(i, b);
        ops.set(best, a);
        proof {
            let mid = before.update(i as int, b);
            assert(ops@ == mid.update(best as int, a));
            vstd::seq_lib::to_multiset_update(before, i as int, b);
            vstd::seq_lib::to_multiset_update(mid, best as int, a);
            assert(mid[best as int] == b);
            assert(before.to_multiset().count(a) > 0) by {
                vstd::seq_lib::to_multiset_contains(before, a);
                assert(before[i as int] == a);
            }
            assert(ops@.to_multiset() =~= before.to_multiset());
            if distinct_ran_lines(before) {
                let sw = |k: int| if k == i { best as int } else if k == best { i as int } else { k };
                assert forall|k: int| 0 <= k < n implies ops@[k] == before[sw(k)] by {}
                assert forall|x: int, y: int| 0 <= x < y < ops@.len() implies (#[trigger] ops@[x]).funct7 != (#[trigger] ops@[y]).funct7 by {
                    assert(ops@[x] == before[sw(x)] && ops@[y] == before[sw(y)]);
                    if sw(x) < sw(y) {
                        assert(before[sw(x)].funct7 != before[sw(y)].funct7);
                    } else {
                        assert(before[sw(y)].funct7 != before[sw(x)].funct7);
                    }
                }
                assert forall|k: int| 0 <= k < ops@.len() implies (#[trigger] ops@[k]).calls >= 1 && ops@[k].funct7 < FUNCT7_COUNT by {
                    assert(ops@[k] == before[sw(k)]);
                }
            }
        }
        i = i + 1;
    }
}

impl BemuProfile {
    /// A profile with nothing recorded; it records only when `enabled`.
    pub fn new(enabled: bool) -> (r: BemuProfile)
        ensures
            r.enabled == enabled,
            r.npu == 0,
            r.operations@ == Seq::new(
                FUNCT7_COUNT as nat,
                |i: int| OperationCounter { calls: 0, elapsed: 0 },
            ),
    {
        let operations = [OperationCounter { calls: 0, elapsed: 0 }; 128];
        assert(operations@ =~= Seq::new(
            FUNCT7_COUNT as nat,
            |i: int| OperationCounter { calls: 0, elapsed: 0 },
        ));
        BemuProfile { enabled, npu: 0, operations }
    }

    /// The start of an NPU operation, when profiling is enabled.
    pub fn begin_npu(&self) -> (r: Option<Instant>)
        ensures
            r is Some == self.enabled,
    {
        if self.enabled {
            Some(instant_now())
        } else {
            None
        }
    }

    /// Adds `elapsed` nanoseconds to the NPU total and to funct7 `funct7`,
    /// with one more call; every sum saturates.
    pub fn record_npu(&mut self, funct7: u8, elapsed: u128)
        requires
            funct7 < FUNCT7_COUNT,
        ensures
            final(self).enabled == old(self).enabled,
            final(self).npu == sat_add(old(self).npu, elapsed),
            final(self).operations@ == old(self).operations@.update(
                funct7 as int,
                OperationCounter {
                    calls: if old(self).operations@[funct7 as int].calls == u64::MAX {
                        u64::MAX
                    } else {
                        (old(self).operations@[funct7 as int].calls + 1) as u64
                    },
                    elapsed: sat_add(old(self).operations@[funct7 as int].elapsed, elapsed),
                },
            ),
    {
        self.npu = self.npu.saturating_add(elapsed);
        let i = funct7 as usize;
        let c = self.operations[i];
        let calls = c.calls.saturating_add(1);
        let total = c.elapsed.saturating_add(elapsed);
        self.operations[i] = OperationCounter { calls, elapsed: total };
    }

    /// Ends an NPU operation begun at `started`; nothing is recorded when it
    /// was not timed. The time passed comes from the clock, so only its shape
    /// is stated.
    pub fn end_npu(&mut self, funct7: u8, started: Option<Instant>)
        requires
            started is Some ==> funct7 < FUNCT7_COUNT,
        ensures
            final(self).enabled == old(self).enabled,
            final(self).operations@.len() == old(self).operations@.len(),
            started is None ==> final(self).npu == old(self).npu && final(self).operations@ == old(
                self,
            ).operations@,
            started is Some ==> exists|e: u128|
                final(self).npu == sat_add(old(self).npu, e) && #[trigger] final(self).operations@
                    == old(self).operations@.update(
                    funct7 as int,
                    OperationCounter {
                        calls: if old(self).operations@[funct7 as int].calls == u64::MAX {
                            u64::MAX
                        } else {
                            (old(self).operations@[funct7 as int].calls + 1) as u64
                        },
                        elapsed: sat_add(old(self).operations@[funct7 as int].elapsed, e),
                    },
                ),
    {
        match started {
            None => {},
            Some(s) => {
                let d = instant_elapsed(&s);
                let e = duration_as_nanos(&d);
                self.record_npu(funct7, e);
            },
        }
    }

    /// The report of a run that took `total` in all and `spike_step` in
    /// guest stepping; `None` when profiling is disabled. Guest stepping is
    /// capped at `total` and NPU time at guest stepping.
    pub fn report(&self, total: u128, spike_step: u128) -> (r: Option<BemuProfileReport>)
        ensures
            r is None == !self.enabled,
            r matches Some(rep) ==> {
                &&& distinct_ran_lines(rep.operations@)
                &&& rep.operations@.len() <= FUNCT7_COUNT
                &&& rep.total == total
                &&& rep.spike_step == min_u128(spike_step, total)
                &&& rep.npu == min_u128(self.npu, min_u128(spike_step, total))
                &&& rep.operations@.to_multiset() == ran_operations(self.operations@).to_multiset()
                &&& slowest_first(rep.operations@)
            },
    {
        if !self.enabled {
            return None;
        }
        let mut operations: Vec<OperationProfile> = Vec::new();
        let n = self.operations.len();
        let ghost all = Seq::new(
            self.operations@.len(),
            |i: int|
                OperationProfile {
                    funct7: i as u8,
                    calls: self.operations@[i].calls,
                    elapsed: self.operations@[i].elapsed,
                },
        );
        let mut i: usize = 0;
        while i < n
            invariant
                i <= n,
                n == self.operations@.len(),
                all.len() == n,
                all == Seq::new(
                    self.operations@.len(),
                    |i: int|
                        OperationProfile {
                            funct7: i as u8,
                            calls: self.operations@[i].calls,
                            elapsed: self.operations@[i].elapsed,
                        },
                ),
                operations@ == all.take(i as int).filter(|p: OperationProfile| p.calls != 0),
                n == FUNCT7_COUNT,
                operations@.len() <= i,
                forall|k: int| 0 <= k < operations@.len() ==> (#[trigger] operations@[k]).calls >= 1 && operations@[k].funct7 < i,
                forall|a: int, b: int| 0 <= a < b < operations@.len() ==> (#[trigger] operations@[a]).funct7 < (#[trigger] operations@[b]).funct7,
            decreases n - i,
        {
            let c = self.operations[i];
            let p = OperationProfile { funct7: i as u8, calls: c.calls, elapsed: c.elapsed };
            assert(all[i as int] == p);
            assert(all.take(i + 1) =~= all.take(i as int).push(p));
            if c.calls != 0 {
                operations.push(p);
            }
            proof {
                all.take(i as int).lemma_filter_push(p, |p: OperationProfile| p.calls != 0);
            }
            i = i + 1;
        }
        assert(all.take(n as int) =~= all);
        sort_slowest_first(&mut operations);
        let spike_step = if spike_step <= total {
            spike_step
        } else {
            total
        };
        let npu = if self.npu <= spike_step {
            self.npu
        } else {
            spike_step
        };
        Some(BemuProfileReport { total, spike_step, npu, operations })
    }
}

} // verus!
