//! Decoding an instruction's funct7 into one of the model's instructions.

use vstd::prelude::*;
use crate::config::{configured, sizes_fit, EmuConfig};
use crate::inst::{cols_fit, ExecContext, ExecError};
use crate::instructions::{mset_post, Barrier, Fence, InstOutcome, Instruction, Mset};
use crate::mmio_load::{mmio_load_done, mmio_load_error, mmio_load_latency, MvinMmio};
use crate::transfer::{
    guest_span_base, law_mvout_stores_what_mvin_loaded, mvin_done, mvout_done, transfer_error, transfer_latency, xfer_addr,
    xfer_events, Mvin, Mvout,
};
use crate::inst::{spec_rs1_b0, spec_rs1_iter, spec_xs2_mem_addr, spec_xs2_stride};
use crate::instructions::groups_of;
use crate::bank::byte_base;

verus! {

/// The funct7 values the model executes.
pub open spec fn known_funct(funct7: u32) -> bool {
    funct7 == 0 || funct7 == 1 || funct7 == 16 || funct7 == 32 || funct7 == 33 || funct7 == 35
}

/// Cycles that an instruction adds once issued; zero for an unknown funct7.
pub open spec fn spec_cycles_after_issue(funct7: u32, xs1: u64) -> u64 {
    if funct7 == 0 || funct7 == 1 || funct7 == 32 {
        1
    } else if funct7 == 16 || funct7 == 33 {
        transfer_latency(xs1)
    } else if funct7 == 35 {
        mmio_load_latency(xs1)
    } else {
        0
    }
}

/// Cycles that the instruction `funct7` adds once issued.
pub fn cycles_after_issue(funct7: u32, xs1: u64, xs2: u64) -> (r: u64)
    ensures
        r == spec_cycles_after_issue(funct7, xs1),
{
    if funct7 == 0 {
        Fence::latency(xs1, xs2)
    } else if funct7 == 1 {
        Barrier::latency(xs1, xs2)
    } else if funct7 == 16 {
        Mvout::latency(xs1, xs2)
    } else if funct7 == 32 {
        Mset::latency(xs1, xs2)
    } else if funct7 == 33 {
        Mvin::latency(xs1, xs2)
    } else if funct7 == 35 {
        MvinMmio::latency(xs1, xs2)
    } else {
        0
    }
}

/// Fences and barriers do not take an NPU instruction id.
pub fn consumes_npu_instruction_id(funct7: u32) -> (r: bool)
    ensures
        r == !(funct7 == 0 || funct7 == 1),
{
    !(funct7 == 0 || funct7 == 1)
}

/// What the instruction `funct7` does to `pre`, leaving `post` and
/// answering `r`.
pub open spec fn execute_post(
    pre: &ExecContext,
    post: &ExecContext,
    cfg: &EmuConfig,
    funct7: u32,
    xs1: u64,
    xs2: u64,
    r: Result<InstOutcome, ExecError>,
) -> bool {
    if funct7 == 0 {
        r matches Ok(o) && o.value == 0 && o.mtrace@.len() == 0 && *post == *pre
    } else if funct7 == 1 {
        &&& r matches Ok(o) && o.value == 0 && o.mtrace@.len() == 0
        &&& post.barrier_hit
        &&& post.memory == pre.memory
        &&& post.banks == pre.banks
        &&& post.cfgs == pre.cfgs
        &&& post.bank_map == pre.bank_map
        &&& post.deferred_bank_frees == pre.deferred_bank_frees
        &&& post.mmio_banks == pre.mmio_banks
        &&& post.mmio_region_table == pre.mmio_region_table
    } else if funct7 == 16 {
        match r {
            Ok(o) => o.value == 0 && transfer_error(pre, cfg, xs1, xs2) is None && mvout_done(
                pre,
                post,
                xs1,
                xs2,
                o.mtrace@,
            ),
            Err(e) => transfer_error(pre, cfg, xs1, xs2) == Some(e) && *post == *pre,
        }
    } else if funct7 == 32 {
        &&& mset_post(
            pre,
            post,
            cfg,
            xs1,
            xs2,
            match r {
                Ok(o) => Ok::<u64, ExecError>(o.value),
                Err(e) => Err::<u64, ExecError>(e),
            },
        )
        &&& r matches Ok(o) ==> o.mtrace@.len() == 0
    } else if funct7 == 33 {
        match r {
            Ok(o) => o.value == 0 && transfer_error(pre, cfg, xs1, xs2) is None && mvin_done(
                pre,
                post,
                xs1,
                xs2,
            ) && o.mtrace@ == xfer_events(
                false,
                pre.bank_map.slots@,
                spec_rs1_b0(xs1),
                spec_rs1_iter(xs1),
                spec_xs2_mem_addr(xs2),
                groups_of(pre.cfgs@[spec_rs1_b0(xs1) as int].cols),
                spec_xs2_stride(xs2),
            ),
            Err(e) => transfer_error(pre, cfg, xs1, xs2) == Some(e) && *post == *pre,
        }
    } else {
        match r {
            Ok(o) => o.value == 0 && o.mtrace@.len() == 0 && mmio_load_error(pre, cfg, xs1, xs2) is None
                && mmio_load_done(pre, post, cfg, xs1, xs2),
            Err(e) => mmio_load_error(pre, cfg, xs1, xs2) == Some(e) && *post == *pre,
        }
    }
}

/// Runs the instruction `funct7`; `None`, with nothing changed, when no
/// instruction has that funct7.
pub fn execute_known(funct7: u32, xs1: u64, xs2: u64, ctx: &mut ExecContext, cfg: &EmuConfig) -> (r:
    Option<Result<InstOutcome, ExecError>>)
    requires
        configured(cfg),
        sizes_fit(cfg),
        cols_fit(old(ctx).cfgs@),
        old(ctx).banks.wf(),
    ensures
        final(ctx).banks.wf(),
        cols_fit(final(ctx).cfgs@),
        match r {
            None => !known_funct(funct7) && *final(ctx) == *old(ctx),
            Some(res) => known_funct(funct7) && execute_post(old(ctx), final(ctx), cfg, funct7, xs1, xs2, res),
        },
{
    if funct7 == 0 {
        Some(Fence::exec(xs1, xs2, ctx, cfg))
    } else if funct7 == 1 {
        Some(Barrier::exec(xs1, xs2, ctx, cfg))
    } else if funct7 == 16 {
        Some(Mvout::exec(xs1, xs2, ctx, cfg))
    } else if funct7 == 32 {
        Some(Mset::exec(xs1, xs2, ctx, cfg))
    } else if funct7 == 33 {
        Some(Mvin::exec(xs1, xs2, ctx, cfg))
    } else if funct7 == 35 {
        Some(MvinMmio::exec(xs1, xs2, ctx, cfg))
    } else {
        None
    }
}

/// A move in followed by a move out of the same rows copies guest memory:
/// when instruction 33 (`mvin`) and then instruction 16 (`mvout`) succeed
/// on the same bank, depth and stride, and one guest mapping (or none)
/// holds every address the move out writes, every byte the move out stores
/// is the byte the move in loaded.
pub proof fn law_mvin_then_mvout_copies(
    c0: &ExecContext,
    c1: &ExecContext,
    c2: &ExecContext,
    cfg: &EmuConfig,
    xs1: u64,
    xs2_in: u64,
    xs2_out: u64,
    o1: InstOutcome,
    o2: InstOutcome,
    r: int,
    g: int,
    j: int,
)
    requires
        execute_post(c0, c1, cfg, 33, xs1, xs2_in, Ok(o1)),
        execute_post(c1, c2, cfg, 16, xs1, xs2_out, Ok(o2)),
        spec_rs1_b0(xs1) < c0.cfgs@.len(),
        spec_xs2_stride(xs2_in) == spec_xs2_stride(xs2_out),
        guest_span_base(c1, xs1, spec_xs2_mem_addr(xs2_out) as int, spec_xs2_stride(xs2_out) as int) is Some,
        0 <= r < spec_rs1_iter(xs1),
        0 <= g < groups_of(c0.cfgs@[spec_rs1_b0(xs1) as int].cols),
        0 <= j < 16,
    ensures
        ({
            let gs = groups_of(c0.cfgs@[spec_rs1_b0(xs1) as int].cols) as int;
            let s = spec_xs2_stride(xs2_in) as int;
            let a_in = xfer_addr(spec_xs2_mem_addr(xs2_in) as int, gs, s, r, g, j);
            let a_out = xfer_addr(spec_xs2_mem_addr(xs2_out) as int, gs, s, r, g, j);
            c2.memory@[a_out - byte_base(c0.guest_maps@, a_out)] == c0.memory@[a_in - byte_base(c0.guest_maps@, a_in)]
        }),
{
    assert(spec_xs2_stride(xs2_in) >= 1);
    law_mvout_stores_what_mvin_loaded(c0, c1, c2, xs1, xs2_in, xs2_out, o2.mtrace@, r, g, j);
}

} // verus!
