//! DMA of metadata rows from guest DRAM into the MMIO banks.

use vstd::prelude::*;
use crate::bank::{dram_offset, spec_dram_offset};
use crate::pk::GuestMap;
use crate::config::{
    bank_row_bytes, configured, mmio_access_ok, mmio_bank_num, mmio_enable, mmio_location,
    mmio_total_size, mmio_write_byte, sizes_fit, spec_mmio_bank_size, spec_mmio_total_size, topo,
    EmuConfig,
};
use crate::inst::{ExecContext, ExecError};
use crate::instructions::{InstOutcome, Instruction};

verus! {

/// DRAM address `xs2[38:0]`, MMIO byte address `xs2[55:39]`, valid bytes
/// per row `xs2[63:56]`, and the row count `xs1[63:30]` cut to 32 bits.
pub open spec fn spec_mmio_operands(xs1: u64, xs2: u64) -> (u64, u64, u64, u64) {
    (
        xs2 % 0x80_0000_0000,
        (xs2 / 0x80_0000_0000) % 0x2_0000,
        xs2 / 0x100_0000_0000_0000,
        (xs1 / 0x4000_0000) % 0x1_0000_0000,
    )
}

/// Decodes the operands of an MMIO load.
pub fn mmio_operands(xs1: u64, xs2: u64) -> (r: (u64, u64, u64, u64))
    ensures
        r == spec_mmio_operands(xs1, xs2),
{
    let dram_addr = xs2 & 0x7f_ffff_ffff;
    let mmio_addr = (xs2 >> 39) & 0x1_ffff;
    let col = (xs2 >> 56) & 0xff;
    let row = (xs1 >> 30) & 0xffff_ffff;
    assert(dram_addr == xs2 % 0x80_0000_0000 && mmio_addr == (xs2 / 0x80_0000_0000) % 0x2_0000
        && col == xs2 / 0x100_0000_0000_0000 && row == (xs1 / 0x4000_0000) % 0x1_0000_0000)
        by (bit_vector)
        requires
            dram_addr == xs2 & 0x7f_ffff_ffff,
            mmio_addr == (xs2 >> 39) & 0x1_ffff,
            col == (xs2 >> 56) & 0xff,
            row == (xs1 >> 30) & 0xffff_ffff,
    ;
    (dram_addr, mmio_addr, col, row)
}

/// The valid-bytes-per-row operand of an MMIO load is the whole top byte of
/// `xs2` (bits 63..56), and every row byte below it is read from DRAM: when
/// it reaches the row width `bpr`, each row is read in full.
pub proof fn law_mmio_col_is_the_top_byte(xs1: u64, xs2: u64, bpr: int)
    ensures
        ({
            let col = spec_mmio_operands(xs1, xs2).2 as int;
            &&& 0 <= col < 256
            &&& col * 0x100_0000_0000_0000 <= xs2 < (col + 1) * 0x100_0000_0000_0000
            &&& bpr >= 1 && col >= bpr ==> forall|t: int| 0 <= t ==> #[trigger] mmio_reads(bpr, col, t)
        }),
{
    let col = spec_mmio_operands(xs1, xs2).2 as int;
    let x = xs2 as int;
    let d = 0x100_0000_0000_0000int;
    vstd::arithmetic::div_mod::lemma_fundamental_div_mod(x, d);
    assert(col == x / d);
    assert(0 <= x % d < d);
    assert(col * d <= x < (col + 1) * d) by (nonlinear_arith)
        requires
            x == d * col + x % d,
            0 <= x % d < d,
    ;
    assert(0 <= col < 256) by (nonlinear_arith)
        requires
            col * d <= x < (col + 1) * d,
            0 <= x < 0x1_0000_0000_0000_0000,
            d == 0x100_0000_0000_0000,
    ;
    if bpr >= 1 && col >= bpr {
        assert forall|t: int| 0 <= t implies #[trigger] mmio_reads(bpr, col, t) by {
            vstd::arithmetic::div_mod::lemma_mod_bound(t, bpr);
        }
    }
}

/// The byte that lands at offset `t` of the loaded block: the DRAM byte
/// (through the guest mappings `maps`) when its column is below `col`, else
/// zero.
pub open spec fn mmio_value(mem: Seq<u8>, maps: Seq<GuestMap>, dram_addr: int, bpr: int, col: int, t: int) -> u8 {
    if t % bpr < col {
        mem[spec_dram_offset(maps, mem.len(), dram_addr + t)->Some_0]
    } else {
        0
    }
}

/// Offset `t` of the loaded block is read from DRAM.
pub open spec fn mmio_reads(bpr: int, col: int, t: int) -> bool {
    t % bpr < col
}

/// The bank slot of offset `t` of a block at MMIO address `mmio_addr`.
pub open spec fn mmio_slot(cfg: &EmuConfig, mmio_addr: int, t: int) -> (int, int) {
    mmio_location(cfg, mmio_addr + t)
}

/// Bank slot `(k, o)` receives a byte of a block of `count` bytes at MMIO
/// address `mmio_addr`.
pub open spec fn mmio_written(cfg: &EmuConfig, mmio_addr: int, count: int, k: int, o: int) -> bool {
    exists|t: int| 0 <= t < count && #[trigger] mmio_slot(cfg, mmio_addr, t) == (k, o)
}

/// Why an MMIO load cannot run, checked in this order; `None` when it can.
pub open spec fn mmio_load_error(ctx: &ExecContext, cfg: &EmuConfig, xs1: u64, xs2: u64) -> Option<
    ExecError,
> {
    let (da, ma, col, row) = spec_mmio_operands(xs1, xs2);
    let bpr = topo(cfg).mem_config.bank_width / 8;
    let count = row * bpr;
    if !topo(cfg).mem_config.mmio_enable {
        Some(ExecError::MmioDisabled)
    } else if row > 0 && ma + count > spec_mmio_total_size(cfg) {
        Some(ExecError::MmioOutOfRange)
    } else if exists|t: int|
        0 <= t < count && !#[trigger] mmio_access_ok(cfg, ctx.mmio_banks@, ma + t) {
        Some(ExecError::MmioOutOfRange)
    } else if exists|t: int|
        0 <= t < count && #[trigger] mmio_reads(bpr as int, col as int, t) && (da + t > u64::MAX
            || spec_dram_offset(ctx.guest_maps@, ctx.memory@.len(), da + t) is None) {
        Some(ExecError::MemoryOutOfRange)
    } else {
        None
    }
}

/// What an MMIO load leaves behind: the block's bytes in the MMIO banks,
/// everything else as it was.
pub open spec fn mmio_load_done(
    pre: &ExecContext,
    post: &ExecContext,
    cfg: &EmuConfig,
    xs1: u64,
    xs2: u64,
) -> bool {
    let (da, ma, col, row) = spec_mmio_operands(xs1, xs2);
    let bpr = topo(cfg).mem_config.bank_width / 8;
    let count = row * bpr;
    &&& post.memory == pre.memory
    &&& post.banks == pre.banks
    &&& post.cfgs == pre.cfgs
    &&& post.bank_map == pre.bank_map
    &&& post.deferred_bank_frees == pre.deferred_bank_frees
    &&& post.mmio_region_table == pre.mmio_region_table
    &&& post.barrier_hit == pre.barrier_hit
    &&& post.guest_maps == pre.guest_maps
    &&& post.mmio_banks@.len() == pre.mmio_banks@.len()
    &&& forall|k: int|
        0 <= k < pre.mmio_banks@.len() ==> (#[trigger] post.mmio_banks@[k])@.len()
            == pre.mmio_banks@[k]@.len()
    &&& forall|t: int|
        0 <= t < count ==> post.mmio_banks@[#[trigger] mmio_slot(cfg, ma as int, t).0]@[mmio_slot(
            cfg,
            ma as int,
            t,
        ).1] == mmio_value(pre.memory@, pre.guest_maps@, da as int, bpr as int, col as int, t)
    &&& forall|k: int, o: int|
        0 <= k < pre.mmio_banks@.len() && 0 <= o < pre.mmio_banks@[k]@.len() && !mmio_written(
            cfg,
            ma as int,
            count,
            k,
            o,
        ) ==> #[trigger] post.mmio_banks@[k]@[o] == pre.mmio_banks@[k]@[o]
}

/// Distinct MMIO addresses live in distinct bank slots.
pub proof fn lemma_mmio_location_injective(cfg: &EmuConfig, a1: int, a2: int)
    requires
        topo(cfg).mem_config.mmio_bank_num > 0,
        0 <= a1,
        0 <= a2,
        a1 != a2,
    ensures
        mmio_location(cfg, a1) != mmio_location(cfg, a2),
{
    let n = topo(cfg).mem_config.mmio_bank_num as int;
    vstd::arithmetic::div_mod::lemma_fundamental_div_mod(a1, n);
    vstd::arithmetic::div_mod::lemma_fundamental_div_mod(a2, n);
}

/// An accessible MMIO address implies at least one MMIO bank.
pub proof fn lemma_mmio_access_banks(cfg: &EmuConfig, banks: Seq<Vec<u8>>, a: int)
    requires
        mmio_access_ok(cfg, banks, a),
    ensures
        topo(cfg).mem_config.mmio_bank_num > 0,
        0 <= mmio_location(cfg, a).0 < banks.len(),
        0 <= mmio_location(cfg, a).1,
{
    let n = topo(cfg).mem_config.mmio_bank_num as int;
    let sz = spec_mmio_bank_size(cfg);
    assert(n > 0) by (nonlinear_arith)
        requires
            0 <= a < n * sz,
            n >= 0,
    ;
}

/// Loads rows of metadata from guest DRAM into the MMIO banks.
pub struct MvinMmio;

impl MvinMmio {
    /// Copies `row` rows of `bank_row_bytes` bytes from DRAM at `xs2[38:0]`
    /// to the MMIO address `xs2[55:39]`; in each row only the first
    /// `xs2[63:56]` bytes come from DRAM, the rest are zero. Nothing changes
    /// when the load is refused.
    #[verifier::loop_isolation(false)]
    pub fn run(xs1: u64, xs2: u64, ctx: &mut ExecContext, cfg: &EmuConfig) -> (r: Result<
        u64,
        ExecError,
    >)
        requires
            configured(cfg),
            sizes_fit(cfg),
        ensures
            match r {
                Ok(v) => v == 0 && mmio_load_error(old(ctx), cfg, xs1, xs2) is None
                    && mmio_load_done(old(ctx), final(ctx), cfg, xs1, xs2),
                Err(e) => mmio_load_error(old(ctx), cfg, xs1, xs2) == Some(e) && *final(ctx)
                    == *old(ctx),
            },
    {
        let (dram_addr, mmio_addr, col, row) = mmio_operands(xs1, xs2);
        if !mmio_enable(cfg) {
            return Err(ExecError::MmioDisabled);
        }
        let bpr = bank_row_bytes(cfg);
        let total = mmio_total_size(cfg);
        let ghost bpi = bpr as int;
        let ghost count = row * bpi;
        if row > 0 && (mmio_addr > total as u64 || bpr as u64 > (total as u64 - mmio_addr) / row) {
            proof {
                if mmio_addr <= total {
                    assert((row as int) * bpi > total - mmio_addr) by (nonlinear_arith)
                        requires
                            row > 0,
                            bpi > (total - mmio_addr) / (row as int),
                            total - mmio_addr >= 0,
                    ;
                }
            }
            return Err(ExecError::MmioOutOfRange);
        }
        proof {
            if row > 0 {
                assert((row as int) * bpi <= total - mmio_addr) by (nonlinear_arith)
                    requires
                        row > 0,
                        bpi <= (total - mmio_addr) / (row as int),
                        total - mmio_addr >= 0,
                ;
            }
        }
        let count_u: usize = (row as usize) * bpr;
        assert(count_u == count);
        let base = mmio_addr as usize;
        let mut t: usize = 0;
        while t < count_u
            invariant
                t <= count_u,
                count_u == count,
                count_u == 0 || base + count_u <= total,
                total == spec_mmio_total_size(cfg),
                forall|u: int| 0 <= u < t ==> #[trigger] mmio_access_ok(cfg, ctx.mmio_banks@, base + u),
            decreases count_u - t,
        {
            let n = mmio_bank_num(cfg);
            let a = base + t;
            assert(n > 0) by (nonlinear_arith)
                requires
                    a < total,
                    total == n * spec_mmio_bank_size(cfg),
                    0 <= spec_mmio_bank_size(cfg),
            ;
            let bank_idx = a % n;
            let bank_offset = a / n;
            if bank_idx >= ctx.mmio_banks.len() || bank_offset >= ctx.mmio_banks[bank_idx].len() {
                assert(!mmio_access_ok(cfg, ctx.mmio_banks@, base + t));
                return Err(ExecError::MmioOutOfRange);
            }
            t = t + 1;
        }
        let ml = ctx.memory.len();
        let mut t: usize = 0;
        while t < count_u
            invariant
                t <= count_u,
                count_u == count,
                ml == ctx.memory@.len(),
                bpr > 0 || count_u == 0,
                forall|u: int|
                    0 <= u < t && #[trigger] mmio_reads(bpi, col as int, u) ==> spec_dram_offset(
                        ctx.guest_maps@,
                        ml as nat,
                        dram_addr + u,
                    ) is Some && dram_addr + u <= u64::MAX,
            decreases count_u - t,
        {
            if t % bpr < col as usize {
                assert(mmio_reads(bpi, col as int, t as int));
                match dram_addr.checked_add(t as u64) {
                    None => {
                        return Err(ExecError::MemoryOutOfRange);
                    },
                    Some(src) => {
                        if dram_offset(&ctx.guest_maps, ml, src).is_none() {
                            return Err(ExecError::MemoryOutOfRange);
                        }
                    },
                }
            }
            t = t + 1;
        }
        assert(!(exists|u: int|
            0 <= u < count && #[trigger] mmio_reads(bpi, col as int, u) && (dram_addr + u > u64::MAX
                || spec_dram_offset(ctx.guest_maps@, ctx.memory@.len(), dram_addr + u) is None)));
        let ghost banks0 = ctx.mmio_banks@;
        let mut t: usize = 0;
        while t < count_u
            invariant
                t <= count_u,
                count_u == count,
                bpr > 0 || count_u == 0,
                ml == ctx.memory@.len(),
                ctx.memory == old(ctx).memory,
                ctx.banks == old(ctx).banks,
                ctx.cfgs == old(ctx).cfgs,
                ctx.bank_map == old(ctx).bank_map,
                ctx.deferred_bank_frees == old(ctx).deferred_bank_frees,
                ctx.mmio_region_table == old(ctx).mmio_region_table,
                ctx.barrier_hit == old(ctx).barrier_hit,
                ctx.guest_maps == old(ctx).guest_maps,
                banks0 == old(ctx).mmio_banks@,
                forall|u: int|
                    0 <= u < count && #[trigger] mmio_reads(bpi, col as int, u) ==> spec_dram_offset(
                        ctx.guest_maps@,
                        ml as nat,
                        dram_addr + u,
                    ) is Some && dram_addr + u <= u64::MAX,
                ctx.mmio_banks@.len() == banks0.len(),
                forall|k: int| 0 <= k < banks0.len() ==> (#[trigger] ctx.mmio_banks@[k])@.len() == banks0[k]@.len(),
                forall|u: int| 0 <= u < count ==> #[trigger] mmio_access_ok(cfg, banks0, base + u),
                forall|u: int|
                    0 <= u < t ==> ctx.mmio_banks@[#[trigger] mmio_slot(cfg, base as int, u).0]@[mmio_slot(
                        cfg,
                        base as int,
                        u,
                    ).1] == mmio_value(old(ctx).memory@, old(ctx).guest_maps@, dram_addr as int, bpi, col as int, u),
                forall|k: int, o: int|
                    0 <= k < banks0.len() && 0 <= o < banks0[k]@.len() && !mmio_written(cfg, base as int, t as int, k, o)
                        ==> #[trigger] ctx.mmio_banks@[k]@[o] == banks0[k]@[o],
            decreases count_u - t,
        {
            let a = base + t;
            let b = if t % bpr < col as usize {
                assert(mmio_reads(bpi, col as int, t as int));
                let src = dram_addr + t as u64;
                let off = dram_offset(&ctx.guest_maps, ctx.memory.len(), src);
                ctx.memory[off.unwrap()]
            } else {
                0u8
            };
            assert(mmio_access_ok(cfg, ctx.mmio_banks@, a as int)) by {
                assert(mmio_access_ok(cfg, banks0, base + t));
                lemma_mmio_access_banks(cfg, banks0, base + t);
                let bk = mmio_location(cfg, a as int).0;
                assert(ctx.mmio_banks@[bk]@.len() == banks0[bk]@.len());
            }
            let ghost before = ctx.mmio_banks@;
            mmio_write_byte(cfg, &mut ctx.mmio_banks, a, b);
            proof {
                let (bk, bo) = mmio_slot(cfg, base as int, t as int);
                lemma_mmio_access_banks(cfg, banks0, base + t);
                assert(ctx.mmio_banks@[bk]@[bo] == b);
                assert forall|u: int| 0 <= u < t + 1 implies ctx.mmio_banks@[#[trigger] mmio_slot(cfg, base as int, u).0]@[mmio_slot(
                    cfg,
                    base as int,
                    u,
                ).1] == mmio_value(old(ctx).memory@, old(ctx).guest_maps@, dram_addr as int, bpi, col as int, u) by {
                    if u < t {
                        let (uk, uo) = mmio_slot(cfg, base as int, u);
                        assert(mmio_access_ok(cfg, banks0, base + u));
                        lemma_mmio_access_banks(cfg, banks0, base + u);
                        lemma_mmio_location_injective(cfg, base + u, a as int);
                        assert(ctx.mmio_banks@[uk]@[uo] == before[uk]@[uo]);
                    }
                }
                assert forall|k: int, o: int|
                    0 <= k < banks0.len() && 0 <= o < banks0[k]@.len() && !mmio_written(cfg, base as int, t + 1, k, o)
                    implies #[trigger] ctx.mmio_banks@[k]@[o] == banks0[k]@[o] by {
                    if k == bk && o == bo {
                        assert(mmio_slot(cfg, base as int, t as int) == (k, o));
                    }
                    if mmio_written(cfg, base as int, t as int, k, o) {
                        let u = choose|u: int| 0 <= u < t && #[trigger] mmio_slot(cfg, base as int, u) == (k, o);
                        assert(mmio_slot(cfg, base as int, u) == (k, o));
                    }
                    assert(ctx.mmio_banks@[k]@[o] == before[k]@[o]);
                }
            }
            t = t + 1;
        }
        Ok(0)
    }

}

/// Cycles from issue to completion of an MMIO load: `xs1[63:30]`, at least
/// one.
pub open spec fn mmio_load_latency(xs1: u64) -> u64 {
    if xs1 / 0x4000_0000 >= 1 {
        xs1 / 0x4000_0000
    } else {
        1
    }
}

impl Instruction for MvinMmio {
    fn funct() -> (r: u32)
        ensures
            r == 35,
    {
        35
    }

    fn exec(xs1: u64, xs2: u64, ctx: &mut ExecContext, cfg: &EmuConfig) -> (r: Result<
        InstOutcome,
        ExecError,
    >)
        ensures
            match r {
                Ok(o) => o.value == 0 && o.mtrace@.len() == 0 && mmio_load_error(old(ctx), cfg, xs1, xs2) is None
                    && mmio_load_done(old(ctx), final(ctx), cfg, xs1, xs2),
                Err(e) => mmio_load_error(old(ctx), cfg, xs1, xs2) == Some(e) && *final(ctx)
                    == *old(ctx),
            },
    {
        match MvinMmio::run(xs1, xs2, ctx, cfg) {
            Ok(value) => Ok(InstOutcome { value, mtrace: Vec::new() }),
            Err(e) => Err(e),
        }
    }

    fn latency(xs1: u64, xs2: u64) -> (r: u64)
        ensures
            r == mmio_load_latency(xs1),
    {
        let row = (xs1 >> 30) & 0x3_ffff_ffff;
        assert(row == xs1 / 0x4000_0000) by (bit_vector)
            requires
                row == (xs1 >> 30) & 0x3_ffff_ffff,
        ;
        if row >= 1 {
            row
        } else {
            1
        }
    }
}

} // verus!
