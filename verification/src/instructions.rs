//! The instructions of the NPU functional model.

use vstd::prelude::*;
use crate::bank::{unallocated, BankConfig, BankMap};
use crate::bank_alloc::{alloc_groups, bind_groups, deleted};
use crate::config::{bank_num, configured, sizes_fit, spec_bank_num, EmuConfig};
use crate::inst::{
    cols_fit, rs1_b0, spec_rs1_b0, spec_xs2_mset, xs2_mset, ExecContext, ExecError, TrackedBanks,
};
use crate::trace::MTraceEvent;

verus! {

/// What an instruction hands back: its result register value and the
/// memory-trace events of its transfers.
pub struct InstOutcome {
    pub value: u64,
    pub mtrace: Vec<MTraceEvent>,
}

/// Every part of the context other than the banks, the bank map and the
/// configuration table is unchanged.
pub open spec fn others_unchanged(a: &ExecContext, b: &ExecContext) -> bool {
    &&& a.memory == b.memory
    &&& a.deferred_bank_frees == b.deferred_bank_frees
    &&& a.mmio_banks == b.mmio_banks
    &&& a.mmio_region_table == b.mmio_region_table
    &&& a.barrier_hit == b.barrier_hit
    &&& a.guest_maps == b.guest_maps
}

/// The context is unchanged.
pub open spec fn ctx_unchanged(a: &ExecContext, b: &ExecContext) -> bool {
    &&& others_unchanged(a, b)
    &&& a.banks == b.banks
    &&& a.cfgs == b.cfgs
    &&& a.bank_map == b.bank_map
}

/// The common shape of an instruction.
pub trait Instruction {
    /// The instruction's funct7.
    fn funct() -> u32;

    /// Runs the instruction against `ctx`.
    fn exec(xs1: u64, xs2: u64, ctx: &mut ExecContext, cfg: &EmuConfig) -> (r: Result<
        InstOutcome,
        ExecError,
    >)
        requires
            configured(cfg),
            sizes_fit(cfg),
            cols_fit(old(ctx).cfgs@),
            old(ctx).banks.wf(),
        ensures
            final(ctx).banks.wf(),
            cols_fit(final(ctx).cfgs@),
    ;

    /// Cycles from issue to completion.
    fn latency(xs1: u64, xs2: u64) -> u64;
}

/// Stops the issuing hart at the tile barrier.
pub struct Barrier;

impl Instruction for Barrier {
    fn funct() -> (r: u32)
        ensures
            r == 1,
    {
        1
    }

    fn exec(xs1: u64, xs2: u64, ctx: &mut ExecContext, cfg: &EmuConfig) -> (r: Result<
        InstOutcome,
        ExecError,
    >)
        ensures
            r matches Ok(o) && o.value == 0 && o.mtrace@.len() == 0,
            final(ctx).barrier_hit,
            final(ctx).memory == old(ctx).memory,
            final(ctx).banks == old(ctx).banks,
            final(ctx).cfgs == old(ctx).cfgs,
            final(ctx).bank_map == old(ctx).bank_map,
            final(ctx).deferred_bank_frees == old(ctx).deferred_bank_frees,
            final(ctx).mmio_banks == old(ctx).mmio_banks,
            final(ctx).mmio_region_table == old(ctx).mmio_region_table,
    {
        ctx.barrier_hit = true;
        Ok(InstOutcome { value: 0, mtrace: Vec::new() })
    }

    fn latency(xs1: u64, xs2: u64) -> (r: u64)
        ensures
            r == 1,
    {
        1
    }
}

/// Orders the NPU instructions issued before it; the functional model
/// completes every instruction at issue, so nothing is left to wait for.
pub struct Fence;

impl Instruction for Fence {
    fn funct() -> (r: u32)
        ensures
            r == 0,
    {
        0
    }

    fn exec(xs1: u64, xs2: u64, ctx: &mut ExecContext, cfg: &EmuConfig) -> (r: Result<
        InstOutcome,
        ExecError,
    >)
        ensures
            r matches Ok(o) && o.value == 0 && o.mtrace@.len() == 0,
            *final(ctx) == *old(ctx),
    {
        Ok(InstOutcome { value: 0, mtrace: Vec::new() })
    }

    fn latency(xs1: u64, xs2: u64) -> (r: u64)
        ensures
            r == 1,
    {
        1
    }
}

/// Allocates or frees a virtual bank.
pub struct Mset;

/// Groups of a bank with `col` columns: at least one.
pub open spec fn groups_of(col: u64) -> u64 {
    if col >= 1 {
        col
    } else {
        1
    }
}

/// What a bank allocation does, given the state before and after and its
/// result.
pub open spec fn mset_post(
    pre: &ExecContext,
    post: &ExecContext,
    cfg: &EmuConfig,
    xs1: u64,
    xs2: u64,
    r: Result<u64, ExecError>,
) -> bool {
    let bank_id = spec_rs1_b0(xs1);
    let col = spec_xs2_mset(xs2).1;
    let alloc = spec_xs2_mset(xs2).2;
    let v = bank_id as u32;
    let i = bank_id as int;
    if bank_id >= spec_bank_num(cfg) {
        r == Err::<u64, ExecError>(ExecError::InvalidBank) && ctx_unchanged(pre, post)
    } else if i >= pre.cfgs@.len() {
        r == Err::<u64, ExecError>(ExecError::ConfigOutOfRange) && ctx_unchanged(pre, post)
    } else if alloc == 1 {
        match alloc_groups(deleted(pre.bank_map.slots@, v), v, groups_of(col) as nat) {
            None => r == Err::<u64, ExecError>(ExecError::NoFreeBank) && ctx_unchanged(pre, post),
            Some(res) => if exists|k: int|
                0 <= k < res.1.len() && #[trigger] res.1[k] >= pre.banks.banks@.len() {
                r == Err::<u64, ExecError>(ExecError::BankStorage) && ctx_unchanged(pre, post)
            } else {
                &&& r == Ok::<u64, ExecError>(0)
                &&& others_unchanged(pre, post)
                &&& post.bank_map.slots@ == res.0
                &&& post.cfgs@ == pre.cfgs@.update(
                    i,
                    BankConfig { allocated: true, cols: col, valid_rows: 0 },
                )
                &&& post.banks.scoreboard == pre.banks.scoreboard
                &&& post.banks.instruction_id == pre.banks.instruction_id
                &&& post.banks.banks@.len() == pre.banks.banks@.len()
                &&& forall|k: int|
                    0 <= k < pre.banks.banks@.len() ==> (#[trigger] post.banks.banks@[k])@ == if res.1.contains(k) {
                        Seq::new(pre.banks.banks@[k]@.len(), |o: int| 0u8)
                    } else {
                        pre.banks.banks@[k]@
                    }
            },
        }
    } else {
        &&& r == Ok::<u64, ExecError>(0)
        &&& others_unchanged(pre, post)
        &&& post.banks == pre.banks
        &&& post.bank_map.slots@ == deleted(pre.bank_map.slots@, v)
        &&& post.cfgs@ == pre.cfgs@.update(i, unallocated())
    }
}

impl Mset {
    /// Allocates (`alloc == 1`) or frees virtual bank `xs1[9:0]`. An
    /// allocation first unbinds the bank, then binds each of its groups to
    /// the first free slot and clears that slot's storage.
    #[verifier::loop_isolation(false)]
    pub fn run(xs1: u64, xs2: u64, ctx: &mut ExecContext, cfg: &EmuConfig) -> (r: Result<
        u64,
        ExecError,
    >)
        requires
            configured(cfg),
            old(ctx).banks.wf(),
        ensures
            final(ctx).banks.wf(),
            mset_post(old(ctx), final(ctx), cfg, xs1, xs2, r),
    {
        let bank_id = rs1_b0(xs1);
        let (_rows, col, alloc) = xs2_mset(xs2);
        if bank_id >= bank_num(cfg) as u64 {
            return Err(ExecError::InvalidBank);
        }
        let v = bank_id as u32;
        let i = bank_id as usize;
        if i >= ctx.cfgs.len() {
            return Err(ExecError::ConfigOutOfRange);
        }
        let groups = if col >= 1 {
            col
        } else {
            1
        };
        let mut map = BankMap { slots: ctx.bank_map.slots.clone() };
        assert(map.slots@ =~= ctx.bank_map.slots@);
        map.delete_vbank(v);
        assert(map.slots@ =~= deleted(ctx.bank_map.slots@, v));
        if alloc == 1 {
            let bound = bind_groups(&mut map, v, groups);
            match bound {
                None => Err(ExecError::NoFreeBank),
                Some(ps) => {
                    let ghost res = alloc_groups(deleted(old(ctx).bank_map.slots@, v), v, groups as nat).unwrap();
                    let n = ps.len();
                    let nb = ctx.banks.banks.len();
                    let mut k: usize = 0;
                    while k < n
                        invariant
                            k <= n,
                            n == ps@.len(),
                            nb == ctx.banks.banks@.len(),
                            forall|j: int| 0 <= j < k ==> (#[trigger] ps@[j]) < nb,
                        decreases n - k,
                    {
                        if ps[k] >= nb {
                            assert(res.1[k as int] >= old(ctx).banks.banks@.len());
                            return Err(ExecError::BankStorage);
                        }
                        k = k + 1;
                    }
                    let ghost banks0 = ctx.banks.banks@;
                    let mut k: usize = 0;
                    while k < n
                        invariant
                            k <= n,
                            n == ps@.len(),
                            forall|j: int| 0 <= j < n ==> (#[trigger] ps@[j]) < banks0.len(),
                            ctx.banks.banks@.len() == banks0.len(),
                            banks0 == old(ctx).banks.banks@,
                            ctx.cfgs == old(ctx).cfgs,
                            ctx.bank_map == old(ctx).bank_map,
                            others_unchanged(old(ctx), ctx),
                            ctx.banks.scoreboard == old(ctx).banks.scoreboard,
                            ctx.banks.instruction_id == old(ctx).banks.instruction_id,
                            forall|b: int|
                                0 <= b < banks0.len() ==> (#[trigger] ctx.banks.banks@[b])@ == if exists|w: int| 0 <= w < k && ps@[w] as int == b {
                                    Seq::new(banks0[b]@.len(), |o: int| 0u8)
                                } else {
                                    banks0[b]@
                                },
                        decreases n - k,
                    {
                        let p = ps[k];
                        ctx.banks.initialize(p, 0);
                        proof {
                            assert forall|b: int| 0 <= b < banks0.len() implies (#[trigger] ctx.banks.banks@[b])@
                                == if exists|w: int| 0 <= w < k + 1 && ps@[w] as int == b {
                                Seq::new(banks0[b]@.len(), |o: int| 0u8)
                            } else {
                                banks0[b]@
                            } by {
                                if b == p as int {
                                    assert(ps@[k as int] as int == b);
                                } else {
                                    if exists|w: int| 0 <= w < k + 1 && ps@[w] as int == b {
                                        let w = choose|w: int| 0 <= w < k + 1 && ps@[w] as int == b;
                                        assert(w < k);
                                    }
                                }
                            }
                        }
                        k = k + 1;
                    }
                    ctx.bank_map = map;
                    ctx.cfgs.set(i, BankConfig { allocated: true, cols: col, valid_rows: 0 });
                    proof {
                        assert forall|b: int| 0 <= b < banks0.len() implies (#[trigger] ctx.banks.banks@[b])@
                            == if res.1.contains(b) {
                            Seq::new(banks0[b]@.len(), |o: int| 0u8)
                        } else {
                            banks0[b]@
                        } by {
                            if res.1.contains(b) {
                                let w = choose|w: int| 0 <= w < res.1.len() && res.1[w] == b;
                                assert(ps@[w] as int == b);
                            }
                            if exists|w: int| 0 <= w < n && ps@[w] as int == b {
                                let w = choose|w: int| 0 <= w < n && ps@[w] as int == b;
                                assert(res.1[w] == b);
                            }
                        }
                        assert(!exists|k: int| 0 <= k < res.1.len() && #[trigger] res.1[k] >= old(ctx).banks.banks@.len()) by {
                            assert forall|k: int| 0 <= k < res.1.len() implies !(#[trigger] res.1[k] >= old(ctx).banks.banks@.len()) by {
                                assert(ps@[k] < banks0.len());
                            }
                        }
                    }
                    Ok(0)
                },
            }
        } else {
            ctx.bank_map = map;
            ctx.cfgs.set(i, BankConfig::default());
            Ok(0)
        }
    }
}

impl Instruction for Mset {
    fn funct() -> (r: u32)
        ensures
            r == 32,
    {
        32
    }

    fn exec(xs1: u64, xs2: u64, ctx: &mut ExecContext, cfg: &EmuConfig) -> (r: Result<
        InstOutcome,
        ExecError,
    >)
        ensures
            ({
                let v = match r {
                    Ok(o) => Ok::<u64, ExecError>(o.value),
                    Err(e) => Err::<u64, ExecError>(e),
                };
                mset_post(old(ctx), final(ctx), cfg, xs1, xs2, v)
            }),
            r matches Ok(o) ==> o.mtrace@.len() == 0,
    {
        let r = Mset::run(xs1, xs2, ctx, cfg);
        proof {
            let col = spec_xs2_mset(xs2).1;
            assert(col < 32);
            assert forall|k: int| 0 <= k < ctx.cfgs@.len() implies (#[trigger] ctx.cfgs@[k]).cols
                <= 0xffff_ffff by {
                if k != spec_rs1_b0(xs1) as int {
                    assert(ctx.cfgs@[k] == old(ctx).cfgs@[k]);
                }
            }
        }
        match r {
            Ok(value) => Ok(InstOutcome { value, mtrace: Vec::new() }),
            Err(e) => Err(e),
        }
    }

    fn latency(xs1: u64, xs2: u64) -> (r: u64)
        ensures
            r == 1,
    {
        1
    }
}

} // verus!
