//! Transfers between guest DRAM and the private banks.

use vstd::prelude::*;
use crate::bank::{
    byte_base, dram_offset, is_first_match, lemma_span_base_bytes, no_match, slot_matches, span_base, span_base_of,
    BankConfig, MapEntry,
};
use crate::config::{bank_num, bank_size, configured, sizes_fit, spec_bank_num, spec_bank_size, EmuConfig};
use crate::inst::{
    sb_view, with_write,
    cols_fit, rs1_b0, rs1_iter, spec_rs1_b0, spec_rs1_iter, spec_xs2_mem_addr, spec_xs2_stride,
    xs2_mem_stride, ExecContext, ExecError, TrackedBanks,
};
use crate::instructions::{groups_of, InstOutcome, Instruction};
use crate::trace::MTraceEvent;
use crate::pk::GuestMap;

verus! {

/// Distance in guest memory between two consecutive rows of a transfer.
pub open spec fn row_stride(groups: int, stride: int) -> int {
    groups * 16 * stride
}

/// Guest address of byte `j` of group `g` in row `r`.
pub open spec fn xfer_addr(mem_addr: int, groups: int, stride: int, r: int, g: int, j: int) -> int {
    mem_addr + r * row_stride(groups, stride) + g * 16 + j
}

/// The highest guest address a transfer touches.
pub open spec fn last_addr(mem_addr: int, depth: int, groups: int, stride: int) -> int {
    xfer_addr(mem_addr, groups, stride, depth - 1, groups - 1, 15)
}

/// Two different bytes of one transfer have different guest addresses.
pub proof fn lemma_xfer_addr_injective(
    m: int,
    gs: int,
    s: int,
    r1: int,
    g1: int,
    j1: int,
    r2: int,
    g2: int,
    j2: int,
)
    requires
        gs >= 1,
        s >= 1,
        0 <= g1 < gs,
        0 <= g2 < gs,
        0 <= j1 < 16,
        0 <= j2 < 16,
        0 <= r1,
        0 <= r2,
        r1 != r2 || g1 != g2 || j1 != j2,
    ensures
        xfer_addr(m, gs, s, r1, g1, j1) != xfer_addr(m, gs, s, r2, g2, j2),
{
    let x = row_stride(gs, s);
    assert(x >= gs * 16) by (nonlinear_arith)
        requires
            x == gs * 16 * s,
            s >= 1,
            gs >= 1,
    ;
    if r1 < r2 {
        assert(r1 * x + x <= r2 * x) by (nonlinear_arith)
            requires
                r1 < r2,
                x >= 0,
        ;
    } else if r2 < r1 {
        assert(r2 * x + x <= r1 * x) by (nonlinear_arith)
            requires
                r2 < r1,
                x >= 0,
        ;
    }
}

/// Every byte of a transfer lies between its first and its last address.
pub proof fn lemma_xfer_addr_bounds(m: int, depth: int, gs: int, s: int, r: int, g: int, j: int)
    requires
        gs >= 1,
        s >= 1,
        0 <= r < depth,
        0 <= g < gs,
        0 <= j < 16,
    ensures
        m <= xfer_addr(m, gs, s, r, g, j) <= last_addr(m, depth, gs, s),
{
    let x = row_stride(gs, s);
    assert(x >= 0) by (nonlinear_arith)
        requires
            x == gs * 16 * s,
            s >= 1,
            gs >= 1,
    ;
    assert(0 <= r * x <= (depth - 1) * x) by (nonlinear_arith)
        requires
            0 <= r <= depth - 1,
            x >= 0,
    ;
}

/// The guest address of the first byte of DRAM for the transfer of the
/// bank named by `xs1` from guest address `mem_addr` with `stride`, under
/// the context's guest mappings; `None` when a mapping covers only part of
/// the addresses the transfer touches, whose bytes are then translated one
/// by one.
pub open spec fn guest_span_base(ctx: &ExecContext, xs1: u64, mem_addr: int, stride: int) -> Option<int> {
    let bank = spec_rs1_b0(xs1);
    let groups = groups_of(ctx.cfgs@[bank as int].cols) as int;
    span_base(ctx.guest_maps@, mem_addr, last_addr(mem_addr, spec_rs1_iter(xs1) as int, groups, stride))
}

/// The guest address of the first byte of DRAM for the transfer named by
/// `xs1` and `xs2`.
pub open spec fn transfer_base(ctx: &ExecContext, xs1: u64, xs2: u64) -> int {
    guest_span_base(ctx, xs1, spec_xs2_mem_addr(xs2) as int, spec_xs2_stride(xs2) as int)->Some_0
}

/// The DRAM offset of guest address `a` under the guest mappings `maps`.
pub open spec fn guest_off(maps: Seq<GuestMap>, a: int) -> int {
    a - byte_base(maps, a)
}

/// Every byte a transfer from `m` with `gs` groups, stride `s` and `depth`
/// rows touches lies in a memory of `len` bytes under the guest mappings
/// `maps`.
pub open spec fn bytes_fit(maps: Seq<GuestMap>, m: int, depth: int, gs: int, s: int, len: int) -> bool {
    forall|r: int, g: int, j: int|
        0 <= r < depth && 0 <= g < gs && 0 <= j < 16 ==> 0 <= #[trigger] guest_off(maps, xfer_addr(m, gs, s, r, g, j))
            < len
}

/// The row of the `t`-th byte of a transfer with `gs` groups; bytes go
/// row by row, group by group.
pub open spec fn byte_row(gs: int, t: int) -> int {
    t / (gs * 16)
}

/// The group of the `t`-th byte of a transfer with `gs` groups.
pub open spec fn byte_group(gs: int, t: int) -> int {
    (t / 16) % gs
}

/// The guest address of the `t`-th byte of a transfer.
pub open spec fn byte_addr(m: int, gs: int, s: int, t: int) -> int {
    xfer_addr(m, gs, s, byte_row(gs, t), byte_group(gs, t), t % 16)
}

/// The `t`-th byte of a transfer is byte `j` of group `g` in row `r`.
pub proof fn lemma_byte_index(gs: int, depth: int, r: int, g: int, j: int)
    requires
        gs >= 1,
        0 <= r < depth,
        0 <= g < gs,
        0 <= j < 16,
    ensures
        ({
            let t = xfer_addr(0, gs, 1, r, g, j);
            &&& 0 <= t < depth * (gs * 16)
            &&& byte_row(gs, t) == r
            &&& byte_group(gs, t) == g
            &&& t % 16 == j
        }),
{
    let t = xfer_addr(0, gs, 1, r, g, j);
    assert(t == r * (gs * 16) + (g * 16 + j)) by (nonlinear_arith)
        requires
            t == 0 + r * (gs * 16 * 1) + g * 16 + j,
    ;
    vstd::arithmetic::div_mod::lemma_fundamental_div_mod_converse(t, gs * 16, r, g * 16 + j);
    assert(t == (r * gs + g) * 16 + j) by (nonlinear_arith)
        requires
            t == r * (gs * 16) + (g * 16 + j),
    ;
    vstd::arithmetic::div_mod::lemma_fundamental_div_mod_converse(t, 16, r * gs + g, j);
    vstd::arithmetic::div_mod::lemma_fundamental_div_mod_converse(r * gs + g, gs, r, g);
    assert(0 <= t < depth * (gs * 16)) by (nonlinear_arith)
        requires
            t == r * (gs * 16) + (g * 16 + j),
            0 <= r < depth,
            0 <= g < gs,
            0 <= j < 16,
    ;
}

/// The `t`-th byte of a transfer of `depth` rows lies in a row below `depth`.
pub proof fn lemma_byte_parts(gs: int, depth: int, t: int)
    requires
        gs >= 1,
        0 <= t < depth * (gs * 16),
    ensures
        0 <= byte_row(gs, t) < depth,
        0 <= byte_group(gs, t) < gs,
        0 <= t % 16 < 16,
{
    let d = gs * 16;
    vstd::arithmetic::div_mod::lemma_fundamental_div_mod(t, d);
    let q = t / d;
    assert(0 <= q < depth) by (nonlinear_arith)
        requires
            t == d * q + t % d,
            0 <= t % d < d,
            0 <= t < depth * d,
            d > 0,
    ;
    vstd::arithmetic::div_mod::lemma_div_pos_is_pos(t, 16);
    vstd::arithmetic::div_mod::lemma_mod_bound(t / 16, gs);
}

/// Why a transfer of the bank named by `xs1` cannot run against a memory of
/// `len` bytes whose first byte has address `base` (`None`: each byte is
/// translated on its own through the context's guest mappings), starting
/// at `mem_addr` with `stride`; checked in this order, `None` when it can.
pub open spec fn transfer_error_at(
    ctx: &ExecContext,
    cfg: &EmuConfig,
    xs1: u64,
    mem_addr: int,
    stride: int,
    base: Option<int>,
    len: int,
) -> Option<ExecError> {
    let bank = spec_rs1_b0(xs1);
    let depth = spec_rs1_iter(xs1) as int;
    let slots = ctx.bank_map.slots@;
    let v = bank as u32;
    if bank >= spec_bank_num(cfg) {
        Some(ExecError::InvalidBank)
    } else if bank >= ctx.cfgs@.len() {
        Some(ExecError::ConfigOutOfRange)
    } else if depth == 0 {
        Some(ExecError::ZeroDepth)
    } else if stride == 0 {
        Some(ExecError::ZeroStride)
    } else if !ctx.cfgs@[bank as int].allocated {
        Some(ExecError::NotAllocated)
    } else {
        let groups = groups_of(ctx.cfgs@[bank as int].cols) as int;
        if exists|g: int| 0 <= g < groups && #[trigger] no_match(slots, v, g as u32) {
            Some(ExecError::UnmappedBank)
        } else if depth * 16 > spec_bank_size(cfg) {
            Some(ExecError::BankRange)
        } else if exists|g: int, p: int|
            0 <= g < groups && #[trigger] is_first_match(slots, v, g as u32, p) && (p
                >= ctx.banks.banks@.len() || ctx.banks.banks@[p]@.len() < depth * 16) {
            Some(ExecError::BankStorage)
        } else if last_addr(mem_addr, depth, groups, stride) > u64::MAX {
            Some(ExecError::AddressOverflow)
        } else {
            match base {
                None => if !bytes_fit(ctx.guest_maps@, mem_addr, depth, groups, stride, len) {
                    Some(ExecError::MemoryOutOfRange)
                } else {
                    None
                },
                Some(b) => if mem_addr < b || last_addr(mem_addr, depth, groups, stride) >= b + len {
                    Some(ExecError::MemoryOutOfRange)
                } else {
                    None
                },
            }
        }
    }
}

/// Why a transfer named by `xs1` and `xs2` between a bank and guest memory
/// cannot run; `None` when it can.
pub open spec fn transfer_error(ctx: &ExecContext, cfg: &EmuConfig, xs1: u64, xs2: u64) -> Option<
    ExecError,
> {
    transfer_error_at(
        ctx,
        cfg,
        xs1,
        spec_xs2_mem_addr(xs2) as int,
        spec_xs2_stride(xs2) as int,
        guest_span_base(ctx, xs1, spec_xs2_mem_addr(xs2) as int, spec_xs2_stride(xs2) as int),
        ctx.memory@.len() as int,
    )
}

/// A validated transfer: its decoded operands and the slot of each group.
pub struct TransferPlan {
    pub bank_id: u64,
    pub depth: u64,
    pub mem_addr: u64,
    pub stride: u64,
    pub groups: u64,
    pub slots: Vec<usize>,
    /// The address of the memory's first byte, unless `split`.
    pub base: i128,
    /// The transfer's bytes are translated one by one.
    pub split: bool,
}

/// `plan` describes the transfer of the bank named by `xs1` from `mem_addr`
/// with `stride`, in a memory of `len` bytes at `base`.
pub open spec fn plan_matches_at(
    ctx: &ExecContext,
    cfg: &EmuConfig,
    xs1: u64,
    mem_addr: int,
    stride: int,
    base: Option<int>,
    len: int,
    plan: &TransferPlan,
) -> bool {
    &&& plan.bank_id == spec_rs1_b0(xs1)
    &&& plan.depth == spec_rs1_iter(xs1)
    &&& plan.mem_addr == mem_addr
    &&& plan.stride == stride
    &&& plan.bank_id < ctx.cfgs@.len()
    &&& plan.groups == groups_of(ctx.cfgs@[plan.bank_id as int].cols)
    &&& plan_slots_ok(ctx.bank_map.slots@, plan)
    &&& match base {
        Some(b) => !plan.split && b == plan.base as int && plan_fits(plan, ctx.banks.banks@, b, len),
        None => plan.split && plan_shape(plan, ctx.banks.banks@) && bytes_fit(
            ctx.guest_maps@,
            mem_addr,
            plan.depth as int,
            plan.groups as int,
            stride,
            len,
        ),
    }
}

/// Each slot of the plan is the first slot of its group.
pub open spec fn plan_slots_ok(slots: Seq<MapEntry>, plan: &TransferPlan) -> bool {
    forall|g: int|
        0 <= g < plan.groups ==> is_first_match(
            slots,
            plan.bank_id as u32,
            g as u32,
            #[trigger] plan.slots@[g] as int,
        )
}

/// The plan's bank slots hold its rows and its addresses lie in a memory
/// of `len` bytes at `base`.
pub open spec fn plan_fits(plan: &TransferPlan, banks: Seq<Vec<u8>>, base: int, len: int) -> bool {
    &&& plan_shape(plan, banks)
    &&& base <= plan.mem_addr
    &&& last_addr(plan.mem_addr as int, plan.depth as int, plan.groups as int, plan.stride as int) < base + len
}

/// The plan's operands are in range, its bank slots hold its rows, and its
/// last address fits in 64 bits.
pub open spec fn plan_shape(plan: &TransferPlan, banks: Seq<Vec<u8>>) -> bool {
    let depth = plan.depth as int;
    let groups = plan.groups as int;
    &&& plan.bank_id < 0x400
    &&& depth >= 1
    &&& depth < 0x4_0000_0000
    &&& plan.stride >= 1
    &&& plan.stride < 0x8_0000
    &&& 1 <= groups <= 0xffff_ffff
    &&& plan.slots@.len() == groups
    &&& forall|g: int|
        0 <= g < groups ==> (#[trigger] plan.slots@[g]) < banks.len() && banks[plan.slots@[g] as int]@.len()
            >= depth * 16
    &&& last_addr(plan.mem_addr as int, depth, groups, plan.stride as int) <= u64::MAX
}

/// Distinct groups of a plan use distinct slots.
pub proof fn lemma_plan_slots_distinct(slots: Seq<MapEntry>, v: u32, g1: int, g2: int, p1: int, p2: int)
    requires
        0 <= g1 <= 0xffff_ffff,
        0 <= g2 <= 0xffff_ffff,
        g1 != g2,
        is_first_match(slots, v, g1 as u32, p1),
        is_first_match(slots, v, g2 as u32, p2),
    ensures
        p1 != p2,
{
}

/// Whether every byte of a transfer from `mem_addr` lies in a memory of
/// `len` bytes under the guest mappings `maps`, each byte translated on its
/// own.
fn transfer_bytes_fit(maps: &Vec<GuestMap>, mem_addr: u64, depth: u64, groups: u64, stride: u64, len: usize) -> (r:
    bool)
    requires
        1 <= depth < 0x4_0000_0000,
        1 <= groups <= 0xffff_ffff,
        1 <= stride < 0x8_0000,
        last_addr(mem_addr as int, depth as int, groups as int, stride as int) <= u64::MAX,
    ensures
        r == bytes_fit(maps@, mem_addr as int, depth as int, groups as int, stride as int, len as int),
{
    let ghost mi = mem_addr as int;
    let ghost gi = groups as int;
    let ghost si = stride as int;
    let ghost di = depth as int;
    let gs16: u128 = (groups as u128) * 16;
    assert((depth as int) * (gs16 as int) < 0x1_0000_0000_0000_0000_0000 && (gs16 as int) * (stride as int)
        < 0x1_0000_0000_0000_0000_0000) by (nonlinear_arith)
        requires
            depth < 0x4_0000_0000,
            gs16 <= 0x10_0000_0000,
            stride < 0x8_0000,
    ;
    let n: u128 = (depth as u128) * gs16;
    let rs: u128 = gs16 * (stride as u128);
    assert(rs == row_stride(gi, si));
    let mut t: u128 = 0;
    while t < n
        invariant
            t <= n,
            mi == mem_addr,
            gi == groups,
            si == stride,
            di == depth,
            groups >= 1,
            n == di * (gi * 16),
            gs16 == gi * 16,
            rs == row_stride(gi, si),
            gi >= 1,
            si >= 1,
            last_addr(mi, di, gi, si) <= u64::MAX,
            forall|k: int| 0 <= k < t ==> 0 <= #[trigger] guest_off(maps@, byte_addr(mi, gi, si, k)) < len,
        decreases n - t,
    {
        proof {
            lemma_byte_parts(gi, di, t as int);
            lemma_xfer_addr_bounds(mi, di, gi, si, byte_row(gi, t as int), byte_group(gi, t as int), t as int % 16);
        }
        let r = t / gs16;
        let g = (t / 16) % (groups as u128);
        let j = t % 16;
        assert(r as int == byte_row(gi, t as int) && g as int == byte_group(gi, t as int) && j as int == t as int % 16);
        assert(0 <= (r as int) * (rs as int)) by (nonlinear_arith)
            requires
                r >= 0,
                rs >= 0,
        ;
        let addr = (mem_addr as u128 + r * rs + g * 16 + j) as u64;
        assert(addr as int == byte_addr(mi, gi, si, t as int));
        if dram_offset(maps, len, addr).is_none() {
            proof {
                let (rr, gg, jj) = (byte_row(gi, t as int), byte_group(gi, t as int), t as int % 16);
                assert(!(0 <= guest_off(maps@, xfer_addr(mi, gi, si, rr, gg, jj)) < len));
            }
            return false;
        }
        t = t + 1;
    }
    proof {
        assert forall|r: int, g: int, j: int|
            0 <= r < di && 0 <= g < gi && 0 <= j < 16 implies 0 <= #[trigger] guest_off(
            maps@,
            xfer_addr(mi, gi, si, r, g, j),
        ) < len by {
            lemma_byte_index(gi, di, r, g, j);
            let k = xfer_addr(0, gi, 1, r, g, j);
            assert(0 <= guest_off(maps@, byte_addr(mi, gi, si, k)) < len);
        }
    }
    true
}

/// Decodes and validates a transfer of the bank named by `xs1` from
/// `mem_addr` with `stride`, in a memory of `len` bytes: guest memory under
/// the context's guest mappings when `guest`, else a buffer whose first
/// byte has address 0. Changes nothing.
#[verifier::loop_isolation(false)]
pub fn plan_transfer_at(
    xs1: u64,
    mem_addr: u64,
    stride: u64,
    ctx: &ExecContext,
    cfg: &EmuConfig,
    guest: bool,
    len: usize,
) -> (r: Result<TransferPlan, ExecError>)
    requires
        configured(cfg),
        sizes_fit(cfg),
        cols_fit(ctx.cfgs@),
        mem_addr < 0x80_0000_0000,
        stride < 0x8_0000,
    ensures
        ({
            let base = if guest {
                guest_span_base(ctx, xs1, mem_addr as int, stride as int)
            } else {
                Some(0int)
            };
            match r {
                Ok(plan) => transfer_error_at(ctx, cfg, xs1, mem_addr as int, stride as int, base, len as int)
                    is None && plan_matches_at(ctx, cfg, xs1, mem_addr as int, stride as int, base, len as int, &plan),
                Err(e) => transfer_error_at(ctx, cfg, xs1, mem_addr as int, stride as int, base, len as int)
                    == Some(e),
            }
        }),
{
    let bank_id = rs1_b0(xs1);
    let depth = rs1_iter(xs1);
    if bank_id >= bank_num(cfg) as u64 {
        return Err(ExecError::InvalidBank);
    }
    let bi = bank_id as usize;
    if bi >= ctx.cfgs.len() {
        return Err(ExecError::ConfigOutOfRange);
    }
    if depth == 0 {
        return Err(ExecError::ZeroDepth);
    }
    if stride == 0 {
        return Err(ExecError::ZeroStride);
    }
    if !ctx.cfgs[bi].allocated {
        return Err(ExecError::NotAllocated);
    }
    let cols = ctx.cfgs[bi].cols;
    let groups: u64 = if cols >= 1 {
        cols
    } else {
        1
    };
    let v = bank_id as u32;
    let ghost slots = ctx.bank_map.slots@;
    let mut ps: Vec<usize> = Vec::new();
    let mut g: u64 = 0;
    while g < groups
        invariant
            g <= groups,
            groups <= 0xffff_ffff,
            slots == ctx.bank_map.slots@,
            ps@.len() == g,
            forall|k: int|
                0 <= k < g ==> is_first_match(slots, v, k as u32, #[trigger] ps@[k] as int),
        decreases groups - g,
    {
        match ctx.bank_map.resolve_group(v, g as u32) {
            None => {
                assert(no_match(slots, v, (g as int) as u32));
                return Err(ExecError::UnmappedBank);
            },
            Some(p) => {
                ps.push(p);
            },
        }
        g = g + 1;
    }
    proof {
        if exists|k: int| 0 <= k < groups && #[trigger] no_match(slots, v, k as u32) {
            let k = choose|k: int| 0 <= k < groups && #[trigger] no_match(slots, v, k as u32);
            assert(slot_matches(slots[ps@[k] as int], v, k as u32));
        }
    }
    let bsize = bank_size(cfg);
    if depth * 16 > bsize as u64 {
        return Err(ExecError::BankRange);
    }
    let need = (depth * 16) as usize;
    let nb = ctx.banks.banks.len();
    let mut k: usize = 0;
    while k < ps.len()
        invariant
            k <= ps@.len(),
            ps@.len() == groups,
            nb == ctx.banks.banks@.len(),
            need == depth * 16,
            forall|j: int|
                0 <= j < k ==> (#[trigger] ps@[j]) < nb && ctx.banks.banks@[ps@[j] as int]@.len()
                    >= need,
        decreases ps@.len() - k,
    {
        let p = ps[k];
        if p >= nb || ctx.banks.banks[p].len() < need {
            assert(is_first_match(slots, v, (k as int) as u32, ps@[k as int] as int));
            return Err(ExecError::BankStorage);
        }
        k = k + 1;
    }
    proof {
        if exists|g: int, p: int|
            0 <= g < groups && #[trigger] is_first_match(slots, v, g as u32, p) && (p
                >= ctx.banks.banks@.len() || ctx.banks.banks@[p]@.len() < depth * 16) {
            let (g, p) = choose|g: int, p: int|
                0 <= g < groups && #[trigger] is_first_match(slots, v, g as u32, p) && (p
                    >= ctx.banks.banks@.len() || ctx.banks.banks@[p]@.len() < depth * 16);
            assert(is_first_match(slots, v, g as u32, ps@[g] as int));
            if p < ps@[g] as int {
                assert(!slot_matches(slots[p], v, g as u32));
            } else if (ps@[g] as int) < p {
                assert(!slot_matches(slots[ps@[g] as int], v, g as u32));
            }
        }
    }
    assert((groups as u128) * 16 * (stride as u128) <= 0x10_0000_0000_0000_0000) by (nonlinear_arith)
        requires
            groups <= 0xffff_ffff,
            stride < 0x8_0000,
    ;
    let rs: u128 = (groups as u128) * 16 * (stride as u128);
    assert(((depth - 1) as u128) * rs <= 0x4_0000_0000 * 0x10_0000_0000_0000_0000) by (nonlinear_arith)
        requires
            1 <= depth < 0x4_0000_0000,
            rs <= 0x10_0000_0000_0000_0000,
    ;
    let last: u128 = (mem_addr as u128) + ((depth - 1) as u128) * rs + ((groups - 1) as u128) * 16 + 15;
    assert(rs == row_stride(groups as int, stride as int));
    if last > 0xffff_ffff_ffff_ffffu128 {
        return Err(ExecError::AddressOverflow);
    }
    assert(last == last_addr(mem_addr as int, depth as int, groups as int, stride as int));
    let base = if guest {
        match span_base_of(&ctx.guest_maps, mem_addr, last as u64) {
            Some(b) => b,
            None => {
                if !transfer_bytes_fit(&ctx.guest_maps, mem_addr, depth, groups, stride, len) {
                    return Err(ExecError::MemoryOutOfRange);
                }
                return Ok(TransferPlan { bank_id, depth, mem_addr, stride, groups, slots: ps, base: 0, split: true });
            },
        }
    } else {
        0i128
    };
    if (mem_addr as i128) < base || (last as i128) - base >= len as i128 {
        return Err(ExecError::MemoryOutOfRange);
    }
    Ok(TransferPlan { bank_id, depth, mem_addr, stride, groups, slots: ps, base, split: false })
}


/// The physical slot that group `g` of virtual bank `v` resolves to.
pub open spec fn group_slot(slots: Seq<MapEntry>, v: u32, g: int) -> int {
    choose|p: int| #[trigger] is_first_match(slots, v, g as u32, p)
}

/// A group has at most one first slot.
pub proof fn lemma_first_match_unique(slots: Seq<MapEntry>, v: u32, g: u32, p1: int, p2: int)
    requires
        is_first_match(slots, v, g, p1),
        is_first_match(slots, v, g, p2),
    ensures
        p1 == p2,
{
    if p1 < p2 {
        assert(!slot_matches(slots[p1], v, g));
    } else if p2 < p1 {
        assert(!slot_matches(slots[p2], v, g));
    }
}

/// Line `(r, g)` comes before line `(r0, g0)` in a transfer.
pub open spec fn line_before(r0: int, g0: int, r: int, g: int) -> bool {
    r < r0 || (r == r0 && g < g0)
}

/// Guest address `a` is a byte of a line of the transfer that comes before
/// line `(r0, g0)`.
pub open spec fn hit_before(m: int, gs: int, s: int, depth: int, r0: int, g0: int, a: int) -> bool {
    exists|r: int, g: int, j: int|
        0 <= r < depth && 0 <= g < gs && 0 <= j < 16 && line_before(r0, g0, r, g)
            && #[trigger] xfer_addr(m, gs, s, r, g, j) == a
}

/// Guest address `a` is a byte of the transfer.
pub open spec fn xfer_hits(m: int, gs: int, s: int, depth: int, a: int) -> bool {
    exists|r: int, g: int, j: int|
        0 <= r < depth && 0 <= g < gs && 0 <= j < 16 && #[trigger] xfer_addr(m, gs, s, r, g, j)
            == a
}

/// The trace event of group `g` of a transfer.
pub open spec fn xfer_event(
    is_write: bool,
    bank_id: u64,
    depth: u64,
    m: u64,
    gs: u64,
    s: u64,
    g: int,
    p: int,
) -> MTraceEvent {
    MTraceEvent {
        is_write,
        addr: (m + g * 16) as u64,
        rows: depth,
        line_bytes: 16,
        row_stride: row_stride(gs as int, s as int) as u64,
        vbank_id: bank_id as u32,
        pbank_id: p as u32,
        group_id: g as u32,
    }
}

/// The trace a transfer leaves: one event per group.
pub open spec fn xfer_events(
    is_write: bool,
    slots: Seq<MapEntry>,
    bank_id: u64,
    depth: u64,
    m: u64,
    gs: u64,
    s: u64,
) -> Seq<MTraceEvent> {
    Seq::new(
        gs as nat,
        |g: int| xfer_event(is_write, bank_id, depth, m, gs, s, g, group_slot(slots, bank_id as u32, g)),
    )
}

/// Copies 16 bytes of `src` at `soff` into `dst` at `off`.
fn copy_line(dst: &mut Vec<u8>, off: usize, src: &Vec<u8>, soff: usize)
    requires
        off + 16 <= old(dst)@.len(),
        soff + 16 <= src@.len(),
    ensures
        final(dst)@.len() == old(dst)@.len(),
        forall|o: int|
            0 <= o < old(dst)@.len() ==> #[trigger] final(dst)@[o] == if off <= o < off + 16 {
                src@[soff + o - off]
            } else {
                old(dst)@[o]
            },
{
    let dl = dst.len();
    let sl = src.len();
    let mut j: usize = 0;
    while j < 16
        invariant
            j <= 16,
            dl == old(dst)@.len(),
            sl == src@.len(),
            off + 16 <= old(dst)@.len(),
            soff + 16 <= src@.len(),
            dst@.len() == old(dst)@.len(),
            forall|o: int|
                0 <= o < old(dst)@.len() ==> #[trigger] dst@[o] == if off <= o < off + j {
                    src@[soff + o - off]
                } else {
                    old(dst)@[o]
                },
        decreases 16 - j,
    {
        let b = src[soff + j];
        dst.set(off + j, b);
        j = j + 1;
    }
}

/// The 16 bytes of `src` at `off`.
fn read_line(src: &Vec<u8>, off: usize) -> (r: Vec<u8>)
    requires
        off + 16 <= src@.len(),
    ensures
        r@ == src@.subrange(off as int, off + 16),
{
    let mut out: Vec<u8> = Vec::new();
    let sl = src.len();
    let mut j: usize = 0;
    while j < 16
        invariant
            j <= 16,
            sl == src@.len(),
            off + 16 <= src@.len(),
            out@ == src@.subrange(off as int, off + j),
        decreases 16 - j,
    {
        out.push(src[off + j]);
        j = j + 1;
        assert(out@ =~= src@.subrange(off as int, off + j));
    }
    out
}


/// Finishing the last group of a row is starting the next row.
pub proof fn lemma_hit_row_end(m: int, gs: int, s: int, depth: int, r: int, a: int)
    ensures
        hit_before(m, gs, s, depth, r, gs, a) == hit_before(m, gs, s, depth, r + 1, 0, a),
{
    if hit_before(m, gs, s, depth, r + 1, 0, a) {
        let (rr, gg, j) = choose|rr: int, gg: int, j: int|
            0 <= rr < depth && 0 <= gg < gs && 0 <= j < 16 && line_before(r + 1, 0, rr, gg)
                && #[trigger] xfer_addr(m, gs, s, rr, gg, j) == a;
        assert(line_before(r, gs, rr, gg));
    }
    if hit_before(m, gs, s, depth, r, gs, a) {
        let (rr, gg, j) = choose|rr: int, gg: int, j: int|
            0 <= rr < depth && 0 <= gg < gs && 0 <= j < 16 && line_before(r, gs, rr, gg)
                && #[trigger] xfer_addr(m, gs, s, rr, gg, j) == a;
        assert(line_before(r + 1, 0, rr, gg));
    }
}

/// Every line before row `depth` is every line of the transfer.
pub proof fn lemma_hit_all(m: int, gs: int, s: int, depth: int, a: int)
    ensures
        hit_before(m, gs, s, depth, depth, 0, a) == xfer_hits(m, gs, s, depth, a),
{
    if xfer_hits(m, gs, s, depth, a) {
        let (rr, gg, j) = choose|rr: int, gg: int, j: int|
            0 <= rr < depth && 0 <= gg < gs && 0 <= j < 16 && #[trigger] xfer_addr(m, gs, s, rr, gg, j)
                == a;
        assert(line_before(depth, 0, rr, gg));
    }
}

/// The plan's slot of each group is the group's slot in the bank map.
pub(crate) proof fn lemma_plan_group_slots(slots: Seq<MapEntry>, plan: &TransferPlan)
    requires
        plan_slots_ok(slots, plan),
    ensures
        forall|g: int|
            0 <= g < plan.groups ==> plan.slots@[g] as int == #[trigger] group_slot(
                slots,
                plan.bank_id as u32,
                g,
            ),
{
    assert forall|g: int| 0 <= g < plan.groups implies plan.slots@[g] as int == #[trigger] group_slot(
        slots,
        plan.bank_id as u32,
        g,
    ) by {
        let v = plan.bank_id as u32;
        assert(is_first_match(slots, v, g as u32, plan.slots@[g] as int));
        let q = group_slot(slots, v, g);
        assert(is_first_match(slots, v, g as u32, q));
        lemma_first_match_unique(slots, v, g as u32, plan.slots@[g] as int, q);
    }
}

/// Everything in the context but guest memory is unchanged.
pub open spec fn same_but_memory(a: &ExecContext, b: &ExecContext) -> bool {
    &&& a.banks == b.banks
    &&& a.cfgs == b.cfgs
    &&& a.bank_map == b.bank_map
    &&& a.deferred_bank_frees == b.deferred_bank_frees
    &&& a.mmio_banks == b.mmio_banks
    &&& a.mmio_region_table == b.mmio_region_table
    &&& a.barrier_hit == b.barrier_hit
    &&& a.guest_maps == b.guest_maps
}

/// What a transfer from a bank out to guest memory leaves behind.
pub open spec fn mvout_done(
    pre: &ExecContext,
    post: &ExecContext,
    xs1: u64,
    xs2: u64,
    events: Seq<MTraceEvent>,
) -> bool {
    let bank = spec_rs1_b0(xs1);
    let v = bank as u32;
    let depth = spec_rs1_iter(xs1);
    let m = spec_xs2_mem_addr(xs2);
    let s = spec_xs2_stride(xs2);
    let gs = groups_of(pre.cfgs@[bank as int].cols);
    let slots = pre.bank_map.slots@;
    &&& same_but_memory(pre, post)
    &&& match guest_span_base(pre, xs1, m as int, s as int) {
        Some(b) => rows_stored(
            pre.memory@,
            post.memory@,
            pre.banks.banks@,
            slots,
            v,
            gs as int,
            depth as int,
            m as int,
            s as int,
            b,
        ),
        None => post.memory@ == scattered(
            pre.memory@,
            pre.guest_maps@,
            pre.banks.banks@,
            slots,
            v,
            gs as int,
            m as int,
            s as int,
            depth * (gs * 16),
        ),
    }
    &&& events == xfer_events(true, slots, bank, depth, m, gs, s)
}

/// The trace events of a planned transfer.
fn plan_events(plan: &TransferPlan, is_write: bool, Ghost(slots): Ghost<Seq<MapEntry>>) -> (r: Vec<MTraceEvent>)
    requires
        plan.slots@.len() == plan.groups,
        plan.groups <= 0xffff_ffff,
        plan.groups * 16 + plan.mem_addr <= u64::MAX,
        plan.stride < 0x8_0000,
        forall|g: int|
            0 <= g < plan.groups ==> plan.slots@[g] as int == #[trigger] group_slot(
                slots,
                plan.bank_id as u32,
                g,
            ),
    ensures
        r@ == xfer_events(is_write, slots, plan.bank_id, plan.depth, plan.mem_addr, plan.groups, plan.stride),
{
    assert((plan.groups as int) * 16 * (plan.stride as int) <= 0x80_0000_0000_0000) by (nonlinear_arith)
        requires
            plan.groups <= 0xffff_ffff,
            plan.stride < 0x8_0000,
    ;
    let rs = plan.groups * 16 * plan.stride;
    let mut events: Vec<MTraceEvent> = Vec::new();
    let n = plan.slots.len();
    let mut k: usize = 0;
    while k < n
        invariant
            k <= n,
            n == plan.groups,
            plan.slots@.len() == plan.groups,
            plan.groups * 16 + plan.mem_addr <= u64::MAX,
            forall|g: int|
                0 <= g < plan.groups ==> plan.slots@[g] as int == #[trigger] group_slot(
                    slots,
                    plan.bank_id as u32,
                    g,
                ),
            rs == row_stride(plan.groups as int, plan.stride as int),
            events@ =~= xfer_events(is_write, slots, plan.bank_id, plan.depth, plan.mem_addr, plan.groups, plan.stride).take(k as int),
        decreases n - k,
    {
        let g = k as u64;
        let p = plan.slots[k];
        let ghost all = xfer_events(is_write, slots, plan.bank_id, plan.depth, plan.mem_addr, plan.groups, plan.stride);
        assert(p as int == group_slot(slots, plan.bank_id as u32, k as int));
        events.push(MTraceEvent {
            is_write,
            addr: plan.mem_addr + g * 16,
            rows: plan.depth,
            line_bytes: 16,
            row_stride: rs,
            vbank_id: plan.bank_id as u32,
            pbank_id: p as u32,
            group_id: g as u32,
        });
        assert(events@.last() == all[k as int]);
        assert(all.take(k + 1) =~= all.take(k as int).push(all[k as int]));
        k = k + 1;
    }
    events
}


/// Writes every byte of a planned transfer from the bank slots `banks` to
/// `dst`, in transfer order, each at the DRAM offset of its guest address
/// under the guest mappings `maps`.
fn scatter_out(
    plan: &TransferPlan,
    banks: &Vec<Vec<u8>>,
    dst: &mut Vec<u8>,
    maps: &Vec<GuestMap>,
    Ghost(slots): Ghost<Seq<MapEntry>>,
)
    requires
        plan_shape(plan, banks@),
        bytes_fit(
            maps@,
            plan.mem_addr as int,
            plan.depth as int,
            plan.groups as int,
            plan.stride as int,
            old(dst)@.len() as int,
        ),
        forall|g: int|
            0 <= g < plan.groups ==> plan.slots@[g] as int == #[trigger] group_slot(slots, plan.bank_id as u32, g),
    ensures
        final(dst)@ == scattered(
            old(dst)@,
            maps@,
            banks@,
            slots,
            plan.bank_id as u32,
            plan.groups as int,
            plan.mem_addr as int,
            plan.stride as int,
            plan.depth * (plan.groups * 16),
        ),
{
    let ghost mem0 = dst@;
    let ghost mi = plan.mem_addr as int;
    let ghost gi = plan.groups as int;
    let ghost si = plan.stride as int;
    let ghost di = plan.depth as int;
    let ghost v = plan.bank_id as u32;
    let groups = plan.groups;
    let gs16: u128 = (groups as u128) * 16;
    assert((plan.depth as int) * (gs16 as int) < 0x1_0000_0000_0000_0000_0000 && (gs16 as int) * (
    plan.stride as int) < 0x1_0000_0000_0000_0000_0000) by (nonlinear_arith)
        requires
            plan.depth < 0x4_0000_0000,
            gs16 <= 0x10_0000_0000,
            plan.stride < 0x8_0000,
    ;
    let n: u128 = (plan.depth as u128) * gs16;
    let rs: u128 = gs16 * (plan.stride as u128);
    assert(rs == row_stride(gi, si));
    let mut t: u128 = 0;
    while t < n
        invariant
            t <= n,
            n == di * (gi * 16),
            gs16 == gi * 16,
            rs == row_stride(gi, si),
            groups == plan.groups,
            plan_shape(plan, banks@),
            bytes_fit(maps@, mi, di, gi, si, mem0.len() as int),
            forall|g: int| 0 <= g < plan.groups ==> plan.slots@[g] as int == #[trigger] group_slot(slots, v, g),
            mi == plan.mem_addr,
            gi == plan.groups,
            si == plan.stride,
            di == plan.depth,
            v == plan.bank_id as u32,
            dst@ == scattered(mem0, maps@, banks@, slots, v, gi, mi, si, t as int),
            dst@.len() == mem0.len(),
        decreases n - t,
    {
        proof {
            lemma_byte_parts(gi, di, t as int);
            lemma_xfer_addr_bounds(mi, di, gi, si, byte_row(gi, t as int), byte_group(gi, t as int), t as int % 16);
        }
        let r = t / gs16;
        let g = (t / 16) % (groups as u128);
        let j = t % 16;
        assert(r as int == byte_row(gi, t as int) && g as int == byte_group(gi, t as int) && j as int == t as int % 16);
        assert(0 <= (r as int) * (rs as int)) by (nonlinear_arith)
            requires
                r >= 0,
                rs >= 0,
        ;
        let addr = (plan.mem_addr as u128 + r * rs + g * 16 + j) as u64;
        assert(addr as int == byte_addr(mi, gi, si, t as int));
        assert(0 <= guest_off(maps@, xfer_addr(mi, gi, si, r as int, g as int, j as int)) < mem0.len());
        let off = dram_offset(maps, dst.len(), addr).unwrap();
        let p = plan.slots[g as usize];
        assert(banks@[p as int]@.len() >= di * 16);
        let bl = banks[p].len();
        assert(r * 16 + j < bl);
        let bi = (r * 16 + j) as usize;
        let b = banks[p][bi];
        assert(p as int == group_slot(slots, v, g as int));
        assert(bi as int == byte_row(gi, t as int) * 16 + t as int % 16);
        assert(b == banks@[group_slot(slots, v, byte_group(gi, t as int))]@[byte_row(gi, t as int) * 16 + t as int % 16]);
        let ghost before = dst@;
        dst.set(off, b);
        proof {
            assert(off as int == guest_off(maps@, byte_addr(mi, gi, si, t as int)));
            assert(p as int == group_slot(slots, v, g as int));
            assert(scattered(mem0, maps@, banks@, slots, v, gi, mi, si, t as int + 1) == before.update(
                guest_off(maps@, byte_addr(mi, gi, si, t as int)),
                banks@[group_slot(slots, v, byte_group(gi, t as int))]@[byte_row(gi, t as int) * 16 + t as int % 16],
            ));
        }
        t = t + 1;
    }
}

/// The bytes of a planned transfer read from guest memory `src`, in
/// transfer order, each at the DRAM offset of its guest address under the
/// guest mappings `maps`.
fn gather_in(plan: &TransferPlan, src: &Vec<u8>, maps: &Vec<GuestMap>) -> (buf: Vec<u8>)
    requires
        1 <= plan.depth < 0x4_0000_0000,
        1 <= plan.groups <= 0xffff_ffff,
        1 <= plan.stride < 0x8_0000,
        last_addr(plan.mem_addr as int, plan.depth as int, plan.groups as int, plan.stride as int) <= u64::MAX,
        bytes_fit(
            maps@,
            plan.mem_addr as int,
            plan.depth as int,
            plan.groups as int,
            plan.stride as int,
            src@.len() as int,
        ),
    ensures
        buf@.len() == plan.depth * (plan.groups * 16),
        forall|t: int|
            0 <= t < buf@.len() ==> #[trigger] buf@[t] == src@[guest_off(
                maps@,
                byte_addr(plan.mem_addr as int, plan.groups as int, plan.stride as int, t),
            )],
{
    let ghost mi = plan.mem_addr as int;
    let ghost gi = plan.groups as int;
    let ghost si = plan.stride as int;
    let ghost di = plan.depth as int;
    let groups = plan.groups;
    let gs16: u128 = (groups as u128) * 16;
    assert((plan.depth as int) * (gs16 as int) < 0x1_0000_0000_0000_0000_0000 && (gs16 as int) * (
    plan.stride as int) < 0x1_0000_0000_0000_0000_0000) by (nonlinear_arith)
        requires
            plan.depth < 0x4_0000_0000,
            gs16 <= 0x10_0000_0000,
            plan.stride < 0x8_0000,
    ;
    let n: u128 = (plan.depth as u128) * gs16;
    let rs: u128 = gs16 * (plan.stride as u128);
    assert(rs == row_stride(gi, si));
    let mut buf: Vec<u8> = Vec::new();
    let mut t: u128 = 0;
    while t < n
        invariant
            t <= n,
            n == di * (gi * 16),
            gs16 == gi * 16,
            rs == row_stride(gi, si),
            groups == plan.groups,
            groups >= 1,
            si >= 1,
            last_addr(mi, di, gi, si) <= u64::MAX,
            bytes_fit(maps@, mi, di, gi, si, src@.len() as int),
            mi == plan.mem_addr,
            gi == plan.groups,
            si == plan.stride,
            di == plan.depth,
            buf@.len() == t,
            forall|k: int| 0 <= k < t ==> #[trigger] buf@[k] == src@[guest_off(maps@, byte_addr(mi, gi, si, k))],
        decreases n - t,
    {
        proof {
            lemma_byte_parts(gi, di, t as int);
            lemma_xfer_addr_bounds(mi, di, gi, si, byte_row(gi, t as int), byte_group(gi, t as int), t as int % 16);
        }
        let r = t / gs16;
        let g = (t / 16) % (groups as u128);
        let j = t % 16;
        assert(r as int == byte_row(gi, t as int) && g as int == byte_group(gi, t as int) && j as int == t as int % 16);
        assert(0 <= (r as int) * (rs as int)) by (nonlinear_arith)
            requires
                r >= 0,
                rs >= 0,
        ;
        let addr = (plan.mem_addr as u128 + r * rs + g * 16 + j) as u64;
        assert(addr as int == byte_addr(mi, gi, si, t as int));
        assert(0 <= guest_off(maps@, xfer_addr(mi, gi, si, r as int, g as int, j as int)) < src@.len());
        let off = dram_offset(maps, src.len(), addr).unwrap();
        buf.push(src[off]);
        t = t + 1;
    }
    buf
}

/// Loads through a gathered buffer are loads of each byte through the
/// guest mappings.
proof fn lemma_rows_loaded_gathered(
    b0: Seq<Vec<u8>>,
    b1: Seq<Vec<u8>>,
    slots: Seq<MapEntry>,
    v: u32,
    gs: int,
    depth: int,
    m: int,
    s: int,
    src: Seq<u8>,
    maps: Seq<GuestMap>,
    buf: Seq<u8>,
)
    requires
        gs >= 1,
        buf.len() == depth * (gs * 16),
        forall|t: int| 0 <= t < buf.len() ==> #[trigger] buf[t] == src[guest_off(maps, byte_addr(m, gs, s, t))],
        rows_loaded(b0, b1, slots, v, gs, depth, 0, 1, buf, 0),
    ensures
        rows_loaded_at(b0, b1, slots, v, gs, depth, m, s, src, maps),
{
    assert forall|r: int, g: int, j: int|
        0 <= r < depth && 0 <= g < gs && 0 <= j < 16 implies b1[group_slot(slots, v, g)]@[r * 16 + j]
            == src[guest_off(maps, #[trigger] xfer_addr(m, gs, s, r, g, j))] by {
        lemma_byte_index(gs, depth, r, g, j);
        let t = xfer_addr(0, gs, 1, r, g, j);
        assert(buf[t] == src[guest_off(maps, byte_addr(m, gs, s, t))]);
        assert(b1[group_slot(slots, v, g)]@[r * 16 + j] == buf[xfer_addr(0, gs, 1, r, g, j) - 0]);
    }
}

/// Moves rows of a bank out to guest memory.
pub struct Mvout;

impl Mvout {
    /// Writes rows `0..depth` of each group of bank `xs1[9:0]` to guest
    /// memory: byte `j` of row `r` of group `g` goes to
    /// `mem_addr + r * groups * 16 * stride + g * 16 + j`. Returns one
    /// trace event per group; nothing changes when the transfer is refused.
    #[verifier::loop_isolation(false)]
    pub fn run(xs1: u64, xs2: u64, ctx: &mut ExecContext, cfg: &EmuConfig) -> (r: Result<
        Vec<MTraceEvent>,
        ExecError,
    >)
        requires
            configured(cfg),
            sizes_fit(cfg),
            cols_fit(old(ctx).cfgs@),
        ensures
            match r {
                Ok(ev) => transfer_error(old(ctx), cfg, xs1, xs2) is None && mvout_done(
                    old(ctx),
                    final(ctx),
                    xs1,
                    xs2,
                    ev@,
                ),
                Err(e) => transfer_error(old(ctx), cfg, xs1, xs2) == Some(e) && *final(ctx) == *old(
                    ctx,
                ),
            },
    {
        let (mem_addr, stride) = xs2_mem_stride(xs2);
        let len = ctx.memory.len();
        let plan = match plan_transfer_at(xs1, mem_addr, stride, ctx, cfg, true, len) {
            Ok(plan) => plan,
            Err(e) => return Err(e),
        };
        let ghost slots = ctx.bank_map.slots@;
        proof {
            lemma_plan_group_slots(slots, &plan);
            lemma_xfer_addr_bounds(plan.mem_addr as int, plan.depth as int, plan.groups as int, plan.stride as int, 0, plan.groups - 1, 15);
        }
        if !plan.split {
            copy_out(&plan, &ctx.banks.banks, &mut ctx.memory, plan.base);
        } else {
            scatter_out(&plan, &ctx.banks.banks, &mut ctx.memory, &ctx.guest_maps, Ghost(slots));
        }
        let events = plan_events(&plan, true, Ghost(slots));
        Ok(events)
    }
}


/// Physical slot `b` holds a group of virtual bank `v` with `gs` groups.
pub open spec fn is_group_slot(slots: Seq<MapEntry>, v: u32, gs: int, b: int) -> bool {
    exists|g: int| 0 <= g < gs && #[trigger] is_first_match(slots, v, g as u32, b)
}

/// The slots of virtual bank `v` with `gs` groups.
pub open spec fn group_slot_set(slots: Seq<MapEntry>, v: u32, gs: int) -> Set<usize> {
    Set::new(|b: usize| is_group_slot(slots, v, gs, b as int))
}

/// The scoreboard contents after recording writes of the banks `ps` by
/// instruction `id`.
pub open spec fn with_writes(v: Option<Map<u64, Set<usize>>>, id: u64, ps: Set<usize>) -> Option<
    Map<u64, Set<usize>>,
> {
    match v {
        Some(m) => Some(m.insert(id, m[id].union(ps))),
        None => None,
    }
}

/// Recording one more write extends the recorded set.
pub proof fn lemma_with_writes_step(v: Option<Map<u64, Set<usize>>>, id: u64, ps: Set<usize>, p: usize)
    ensures
        with_write(with_writes(v, id, ps), id, p) == with_writes(v, id, ps.insert(p)),
{
    match v {
        Some(m) => {
            assert(m[id].union(ps).insert(p) =~= m[id].union(ps.insert(p)));
            assert(m.insert(id, m[id].union(ps)).insert(id, m[id].union(ps).insert(p)) =~= m.insert(
                id,
                m[id].union(ps.insert(p)),
            ));
        },
        None => {},
    }
}

/// Nothing recorded leaves the scoreboard as it was.
pub proof fn lemma_with_writes_empty(v: Option<Map<u64, Set<usize>>>, id: u64)
    requires
        v matches Some(m) ==> m.contains_key(id),
    ensures
        with_writes(v, id, Set::empty()) == v,
{
    match v {
        Some(m) => {
            assert(m[id].union(Set::empty()) =~= m[id]);
            assert(m.insert(id, m[id]) =~= m);
        },
        None => {},
    }
}

/// What a transfer from guest memory into a bank leaves behind.
pub open spec fn mvin_done(pre: &ExecContext, post: &ExecContext, xs1: u64, xs2: u64) -> bool {
    let bank = spec_rs1_b0(xs1);
    let v = bank as u32;
    let depth = spec_rs1_iter(xs1);
    let c = pre.cfgs@[bank as int];
    let gs = groups_of(c.cols);
    let slots = pre.bank_map.slots@;
    &&& post.memory == pre.memory
    &&& post.bank_map == pre.bank_map
    &&& post.cfgs@ == pre.cfgs@.update(
        bank as int,
        BankConfig { allocated: c.allocated, cols: c.cols, valid_rows: depth },
    )
    &&& post.deferred_bank_frees == pre.deferred_bank_frees
    &&& post.mmio_banks == pre.mmio_banks
    &&& post.mmio_region_table == pre.mmio_region_table
    &&& post.barrier_hit == pre.barrier_hit
    &&& post.guest_maps == pre.guest_maps
    &&& post.banks.instruction_id == pre.banks.instruction_id
    &&& sb_view(post.banks.scoreboard) == with_writes(
        sb_view(pre.banks.scoreboard),
        pre.banks.instruction_id,
        group_slot_set(slots, v, gs as int),
    )
    &&& rows_loaded_at(
        pre.banks.banks@,
        post.banks.banks@,
        slots,
        v,
        gs as int,
        depth as int,
        spec_xs2_mem_addr(xs2) as int,
        spec_xs2_stride(xs2) as int,
        pre.memory@,
        pre.guest_maps@,
    )
}

/// Banks `b1` are banks `b0` with rows `0..depth` of each of the `gs` groups
/// of virtual bank `v` loaded from guest memory `src` under the guest
/// mappings `maps`, each byte translated on its own, read from `m` with
/// stride `s`.
pub open spec fn rows_loaded_at(
    b0: Seq<Vec<u8>>,
    b1: Seq<Vec<u8>>,
    slots: Seq<MapEntry>,
    v: u32,
    gs: int,
    depth: int,
    m: int,
    s: int,
    src: Seq<u8>,
    maps: Seq<GuestMap>,
) -> bool {
    &&& b1.len() == b0.len()
    &&& forall|k: int| 0 <= k < b0.len() ==> (#[trigger] b1[k])@.len() == b0[k]@.len()
    &&& forall|r: int, g: int, j: int|
        0 <= r < depth && 0 <= g < gs && 0 <= j < 16 ==> b1[group_slot(slots, v, g)]@[r * 16 + j]
            == src[guest_off(maps, #[trigger] xfer_addr(m, gs, s, r, g, j))]
    &&& forall|k: int, o: int|
        0 <= k < b0.len() && 0 <= o < b0[k]@.len() && !(is_group_slot(slots, v, gs, k) && o < depth
            * 16) ==> #[trigger] b1[k]@[o] == b0[k]@[o]
}

/// Memory `mem` after the first `t` bytes of a transfer out of the `gs`
/// groups of virtual bank `v` to `m` with stride `s` are written, each byte
/// in turn at the DRAM offset of its guest address under `maps`; a later
/// byte overwrites an earlier one at the same offset.
pub open spec fn scattered(
    mem: Seq<u8>,
    maps: Seq<GuestMap>,
    banks: Seq<Vec<u8>>,
    slots: Seq<MapEntry>,
    v: u32,
    gs: int,
    m: int,
    s: int,
    t: int,
) -> Seq<u8>
    decreases t,
{
    if t <= 0 {
        mem
    } else {
        scattered(mem, maps, banks, slots, v, gs, m, s, t - 1).update(
            guest_off(maps, byte_addr(m, gs, s, t - 1)),
            banks[group_slot(slots, v, byte_group(gs, t - 1))]@[byte_row(gs, t - 1) * 16 + (t - 1) % 16],
        )
    }
}

/// Loads from memory at a single base are loads of each byte through the
/// guest mappings, when the mappings give every byte of the transfer that
/// base.
proof fn lemma_rows_loaded_at_base(
    b0: Seq<Vec<u8>>,
    b1: Seq<Vec<u8>>,
    slots: Seq<MapEntry>,
    v: u32,
    gs: int,
    depth: int,
    m: int,
    s: int,
    src: Seq<u8>,
    maps: Seq<GuestMap>,
    base: int,
)
    requires
        gs >= 1,
        s >= 1,
        span_base(maps, m, last_addr(m, depth, gs, s)) == Some(base),
        rows_loaded(b0, b1, slots, v, gs, depth, m, s, src, base),
    ensures
        rows_loaded_at(b0, b1, slots, v, gs, depth, m, s, src, maps),
{
    assert forall|r: int, g: int, j: int|
        0 <= r < depth && 0 <= g < gs && 0 <= j < 16 implies b1[group_slot(slots, v, g)]@[r * 16 + j]
            == src[guest_off(maps, #[trigger] xfer_addr(m, gs, s, r, g, j))] by {
        lemma_xfer_addr_bounds(m, depth, gs, s, r, g, j);
        lemma_span_base_bytes(maps, m, last_addr(m, depth, gs, s), xfer_addr(m, gs, s, r, g, j));
    }
}

/// Banks `b1` are banks `b0` with rows `0..depth` of each of the `gs` groups
/// of virtual bank `v` loaded from `src`, a memory at address `base`, read
/// from `m` with stride `s`.
pub open spec fn rows_loaded(
    b0: Seq<Vec<u8>>,
    b1: Seq<Vec<u8>>,
    slots: Seq<MapEntry>,
    v: u32,
    gs: int,
    depth: int,
    m: int,
    s: int,
    src: Seq<u8>,
    base: int,
) -> bool {
    &&& b1.len() == b0.len()
    &&& forall|k: int| 0 <= k < b0.len() ==> (#[trigger] b1[k])@.len() == b0[k]@.len()
    &&& forall|r: int, g: int, j: int|
        0 <= r < depth && 0 <= g < gs && 0 <= j < 16 ==> b1[group_slot(slots, v, g)]@[r * 16 + j]
            == src[#[trigger] xfer_addr(m, gs, s, r, g, j) - base]
    &&& forall|k: int, o: int|
        0 <= k < b0.len() && 0 <= o < b0[k]@.len() && !(is_group_slot(slots, v, gs, k) && o < depth
            * 16) ==> #[trigger] b1[k]@[o] == b0[k]@[o]
}

/// Memory `mem1`, at address `base`, is `mem0` with rows `0..depth` of each
/// of the `gs` groups of virtual bank `v` stored from `banks` at `m` with
/// stride `s`.
pub open spec fn rows_stored(
    mem0: Seq<u8>,
    mem1: Seq<u8>,
    banks: Seq<Vec<u8>>,
    slots: Seq<MapEntry>,
    v: u32,
    gs: int,
    depth: int,
    m: int,
    s: int,
    base: int,
) -> bool {
    &&& mem1.len() == mem0.len()
    &&& forall|r: int, g: int, j: int|
        0 <= r < depth && 0 <= g < gs && 0 <= j < 16 ==> mem1[#[trigger] xfer_addr(m, gs, s, r, g, j)
            - base] == banks[group_slot(slots, v, g)]@[r * 16 + j]
    &&& forall|o: int|
        0 <= o < mem0.len() && !xfer_hits(m, gs, s, depth, o + base) ==> #[trigger] mem1[o] == mem0[o]
}

/// Rows of group `g` already moved when line `(r, k)` is next.
pub open spec fn rows_done(r: int, k: int, g: int) -> int {
    if g < k {
        r + 1
    } else {
        r
    }
}

/// The slots of the first `c` groups of a plan.
pub open spec fn first_slots(ps: Seq<usize>, c: int) -> Set<usize> {
    Set::new(|b: usize| exists|g: int| 0 <= g < c && #[trigger] ps[g] == b)
}

/// Moves rows of guest memory into a bank.
pub struct Mvin;

impl Mvin {
    /// Reads rows `0..depth` of each group of bank `xs1[9:0]` from guest
    /// memory (the same addresses as a move out) and records `depth` as the
    /// bank's valid rows. Each written bank is reported to the scoreboard.
    /// Returns one trace event per group; nothing changes when the transfer
    /// is refused.
    #[verifier::loop_isolation(false)]
    #[verifier::rlimit(50)]
    pub fn run(xs1: u64, xs2: u64, ctx: &mut ExecContext, cfg: &EmuConfig) -> (r: Result<
        Vec<MTraceEvent>,
        ExecError,
    >)
        requires
            configured(cfg),
            sizes_fit(cfg),
            cols_fit(old(ctx).cfgs@),
            old(ctx).banks.wf(),
        ensures
            final(ctx).banks.wf(),
            match r {
                Ok(ev) => transfer_error(old(ctx), cfg, xs1, xs2) is None && mvin_done(
                    old(ctx),
                    final(ctx),
                    xs1,
                    xs2,
                ) && ev@ == xfer_events(
                    false,
                    old(ctx).bank_map.slots@,
                    spec_rs1_b0(xs1),
                    spec_rs1_iter(xs1),
                    spec_xs2_mem_addr(xs2),
                    groups_of(old(ctx).cfgs@[spec_rs1_b0(xs1) as int].cols),
                    spec_xs2_stride(xs2),
                ),
                Err(e) => transfer_error(old(ctx), cfg, xs1, xs2) == Some(e) && *final(ctx) == *old(
                    ctx,
                ),
            },
    {
        let (mem_addr, stride) = xs2_mem_stride(xs2);
        let len = ctx.memory.len();
        let plan = match plan_transfer_at(xs1, mem_addr, stride, ctx, cfg, true, len) {
            Ok(plan) => plan,
            Err(e) => return Err(e),
        };
        let ghost slots = ctx.bank_map.slots@;
        let ghost banks0 = ctx.banks.banks@;
        let ghost ps = plan.slots@;
        let ghost gi = plan.groups as int;
        let ghost di = plan.depth as int;
        let ghost v = plan.bank_id as u32;
        proof {
            lemma_plan_group_slots(slots, &plan);
            assert forall|g1: int, g2: int| 0 <= g1 < gi && 0 <= g2 < gi && g1 != g2 implies ps[g1] != ps[g2] by {
                lemma_plan_slots_distinct(slots, v, g1, g2, ps[g1] as int, ps[g2] as int);
            }
        }
        let ghost sb0 = sb_view(ctx.banks.scoreboard);
        let events = plan_events(&plan, false, Ghost(slots));
        let bi = plan.bank_id as usize;
        let depth = plan.depth;
        let ghost mi = plan.mem_addr as int;
        let ghost si = plan.stride as int;
        if !plan.split {
            copy_in(&plan, &ctx.memory, &mut ctx.banks, plan.base);
            proof {
                lemma_rows_loaded(&plan, slots, banks0, ctx.banks.banks@, ctx.memory@, plan.base as int);
                lemma_rows_loaded_at_base(
                    banks0,
                    ctx.banks.banks@,
                    slots,
                    v,
                    gi,
                    di,
                    mi,
                    si,
                    ctx.memory@,
                    ctx.guest_maps@,
                    plan.base as int,
                );
                lemma_first_slots_group_set(&plan, slots);
            }
        } else {
            let buf = gather_in(&plan, &ctx.memory, &ctx.guest_maps);
            let plan2 = TransferPlan {
                bank_id: plan.bank_id,
                depth: plan.depth,
                mem_addr: 0,
                stride: 1,
                groups: plan.groups,
                slots: plan.slots,
                base: 0,
                split: false,
            };
            assert(last_addr(0, di, gi, 1) == di * (gi * 16) - 1 && last_addr(0, di, gi, 1) <= last_addr(mi, di, gi, si))
                by (nonlinear_arith)
                requires
                    last_addr(0, di, gi, 1) == 0 + (di - 1) * (gi * 16 * 1) + (gi - 1) * 16 + 15,
                    last_addr(mi, di, gi, si) == mi + (di - 1) * (gi * 16 * si) + (gi - 1) * 16 + 15,
                    di >= 1,
                    gi >= 1,
                    si >= 1,
                    mi >= 0,
            ;
            copy_in(&plan2, &buf, &mut ctx.banks, 0);
            proof {
                lemma_rows_loaded(&plan2, slots, banks0, ctx.banks.banks@, buf@, 0);
                lemma_rows_loaded_gathered(
                    banks0,
                    ctx.banks.banks@,
                    slots,
                    v,
                    gi,
                    di,
                    mi,
                    si,
                    ctx.memory@,
                    ctx.guest_maps@,
                    buf@,
                );
                lemma_first_slots_group_set(&plan2, slots);
            }
        }
        let c = ctx.cfgs[bi];
        ctx.cfgs.set(bi, BankConfig { allocated: c.allocated, cols: c.cols, valid_rows: depth });
        Ok(events)
    }
}


/// Cycles from issue to completion of a transfer: its row count, at least
/// one.
pub open spec fn transfer_latency(xs1: u64) -> u64 {
    if spec_rs1_iter(xs1) >= 1 {
        spec_rs1_iter(xs1)
    } else {
        1
    }
}

impl Instruction for Mvout {
    fn funct() -> (r: u32)
        ensures
            r == 16,
    {
        16
    }

    fn exec(xs1: u64, xs2: u64, ctx: &mut ExecContext, cfg: &EmuConfig) -> (r: Result<
        InstOutcome,
        ExecError,
    >)
        ensures
            match r {
                Ok(o) => o.value == 0 && transfer_error(old(ctx), cfg, xs1, xs2) is None && mvout_done(
                    old(ctx),
                    final(ctx),
                    xs1,
                    xs2,
                    o.mtrace@,
                ),
                Err(e) => transfer_error(old(ctx), cfg, xs1, xs2) == Some(e) && *final(ctx) == *old(
                    ctx,
                ),
            },
    {
        match Mvout::run(xs1, xs2, ctx, cfg) {
            Ok(mtrace) => Ok(InstOutcome { value: 0, mtrace }),
            Err(e) => Err(e),
        }
    }

    fn latency(xs1: u64, xs2: u64) -> (r: u64)
        ensures
            r == transfer_latency(xs1),
    {
        let depth = rs1_iter(xs1);
        if depth >= 1 {
            depth
        } else {
            1
        }
    }
}

impl Instruction for Mvin {
    fn funct() -> (r: u32)
        ensures
            r == 33,
    {
        33
    }

    fn exec(xs1: u64, xs2: u64, ctx: &mut ExecContext, cfg: &EmuConfig) -> (r: Result<
        InstOutcome,
        ExecError,
    >)
        ensures
            match r {
                Ok(o) => o.value == 0 && transfer_error(old(ctx), cfg, xs1, xs2) is None && mvin_done(
                    old(ctx),
                    final(ctx),
                    xs1,
                    xs2,
                ) && o.mtrace@ == xfer_events(
                    false,
                    old(ctx).bank_map.slots@,
                    spec_rs1_b0(xs1),
                    spec_rs1_iter(xs1),
                    spec_xs2_mem_addr(xs2),
                    groups_of(old(ctx).cfgs@[spec_rs1_b0(xs1) as int].cols),
                    spec_xs2_stride(xs2),
                ),
                Err(e) => transfer_error(old(ctx), cfg, xs1, xs2) == Some(e) && *final(ctx) == *old(
                    ctx,
                ),
            },
    {
        let r = Mvin::run(xs1, xs2, ctx, cfg);
        proof {
            if r is Ok {
                assert forall|k: int| 0 <= k < ctx.cfgs@.len() implies (#[trigger] ctx.cfgs@[k]).cols
                    <= 0xffff_ffff by {
                    assert(old(ctx).cfgs@[k].cols <= 0xffff_ffff);
                }
            }
        }
        match r {
            Ok(mtrace) => Ok(InstOutcome { value: 0, mtrace }),
            Err(e) => Err(e),
        }
    }

    fn latency(xs1: u64, xs2: u64) -> (r: u64)
        ensures
            r == transfer_latency(xs1),
    {
        let depth = rs1_iter(xs1);
        if depth >= 1 {
            depth
        } else {
            1
        }
    }
}


/// Copies every row of a planned transfer from the bank slots `banks` into
/// `dst`, a memory whose first byte has address `base`.
#[verifier::loop_isolation(false)]
pub(crate) fn copy_out(plan: &TransferPlan, banks: &Vec<Vec<u8>>, dst: &mut Vec<u8>, base: i128)
    requires
        plan_fits(plan, banks@, base as int, old(dst)@.len() as int),
    ensures
        final(dst)@.len() == old(dst)@.len(),
        forall|r: int, g: int, j: int|
            0 <= r < plan.depth && 0 <= g < plan.groups && 0 <= j < 16 ==> final(dst)@[#[trigger] xfer_addr(
                plan.mem_addr as int,
                plan.groups as int,
                plan.stride as int,
                r,
                g,
                j,
            ) - base] == banks@[plan.slots@[g] as int]@[r * 16 + j],
        forall|o: int|
            0 <= o < old(dst)@.len() && !xfer_hits(
                plan.mem_addr as int,
                plan.groups as int,
                plan.stride as int,
                plan.depth as int,
                o + base,
            ) ==> #[trigger] final(dst)@[o] == old(dst)@[o],
{
        let ghost mem0 = dst@;
        let ghost banks0 = banks@;
        let ghost mi = plan.mem_addr as int;
        let ghost gi = plan.groups as int;
        let ghost si = plan.stride as int;
        let ghost di = plan.depth as int;
        proof {
            lemma_xfer_addr_bounds(mi, di, gi, si, 0, gi - 1, 15);
        }
        assert((plan.groups as int) * 16 * (plan.stride as int) <= 0x80_0000_0000_0000) by (nonlinear_arith)
            requires
                plan.groups <= 0xffff_ffff,
                plan.stride < 0x8_0000,
        ;
        let rs: u64 = plan.groups * 16 * plan.stride;
        let n = plan.slots.len();
        let mut r: u64 = 0;
        while r < plan.depth
            invariant
                r <= plan.depth,
                n == plan.groups,
                dst@.len() == mem0.len(),
                forall|rr: int, gg: int, j: int|
                    0 <= rr < di && 0 <= gg < gi && 0 <= j < 16 && line_before(r as int, 0, rr, gg)
                        ==> dst@[#[trigger] xfer_addr(mi, gi, si, rr, gg, j) - base]
                        == banks0[plan.slots@[gg] as int]@[rr * 16 + j],
                forall|o: int|
                    0 <= o < mem0.len() && !hit_before(mi, gi, si, di, r as int, 0, o + base)
                        ==> #[trigger] dst@[o] == mem0[o],
            decreases plan.depth - r,
        {
            let mut k: usize = 0;
            while k < n
                invariant
                    r < plan.depth,
                    k <= n,
                    n == plan.groups,
                    dst@.len() == mem0.len(),
                        forall|rr: int, gg: int, j: int|
                        0 <= rr < di && 0 <= gg < gi && 0 <= j < 16 && line_before(r as int, k as int, rr, gg)
                            ==> dst@[#[trigger] xfer_addr(mi, gi, si, rr, gg, j) - base]
                            == banks0[plan.slots@[gg] as int]@[rr * 16 + j],
                    forall|o: int|
                        0 <= o < mem0.len() && !hit_before(mi, gi, si, di, r as int, k as int, o + base)
                            ==> #[trigger] dst@[o] == mem0[o],
                decreases n - k,
            {
                let g = k as u64;
                let p = plan.slots[k];
                proof {
                    lemma_xfer_addr_bounds(mi, di, gi, si, r as int, g as int, 15);
                    lemma_xfer_addr_bounds(mi, di, gi, si, r as int, g as int, 0);
                }
                let addr = plan.mem_addr + r * rs + g * 16;
                let ml = dst.len();
                assert(addr - base < ml);
                let off = (addr as i128 - base) as usize;
                let bl = banks[p].len();
                assert(r * 16 < bl);
                let boff = (r * 16) as usize;
                assert(boff as int == r * 16);
                assert(rs as int == row_stride(gi, si));
                assert(addr as int == xfer_addr(mi, gi, si, r as int, g as int, 0));
                assert(off as int == addr - base);
                let ghost before = dst@;
                copy_line(dst, off, &banks[p], boff);
                proof {
                    assert forall|rr: int, gg: int, j: int|
                        0 <= rr < di && 0 <= gg < gi && 0 <= j < 16 && line_before(r as int, k + 1, rr, gg)
                        implies dst@[#[trigger] xfer_addr(mi, gi, si, rr, gg, j) - base]
                        == banks0[plan.slots@[gg] as int]@[rr * 16 + j] by {
                        lemma_xfer_addr_bounds(mi, di, gi, si, rr, gg, j);
                        let o = xfer_addr(mi, gi, si, rr, gg, j) - base;
                        if !(rr == r && gg == g) && off <= o < off + 16 {
                            lemma_xfer_addr_injective(mi, gi, si, rr, gg, j, r as int, g as int, o - off);
                        }
                    }
                    assert forall|o: int|
                        0 <= o < mem0.len() && !hit_before(mi, gi, si, di, r as int, k + 1, o + base)
                        implies #[trigger] dst@[o] == mem0[o] by {
                        if off <= o < off + 16 {
                            assert(xfer_addr(mi, gi, si, r as int, g as int, o - off) == o + base);
                            assert(line_before(r as int, k + 1, r as int, g as int));
                        }
                        if hit_before(mi, gi, si, di, r as int, k as int, o + base) {
                            let (rr, gg, j) = choose|rr: int, gg: int, j: int|
                                0 <= rr < di && 0 <= gg < gi && 0 <= j < 16 && line_before(r as int, k as int, rr, gg)
                                    && #[trigger] xfer_addr(mi, gi, si, rr, gg, j) == o + base;
                            assert(line_before(r as int, k + 1, rr, gg));
                        }
                        assert(dst@[o] == before[o]);
                    }
                }
                k = k + 1;
            }
            proof {
                assert forall|a: int| #![auto]
                    hit_before(mi, gi, si, di, r as int, gi, a) == hit_before(mi, gi, si, di, r + 1, 0, a) by {
                    lemma_hit_row_end(mi, gi, si, di, r as int, a);
                }
            }
            r = r + 1;
        }
        proof {
            assert forall|a: int| #![auto]
                hit_before(mi, gi, si, di, di, 0, a) == xfer_hits(mi, gi, si, di, a) by {
                lemma_hit_all(mi, gi, si, di, a);
            }
        }
}


/// Copies every row of a planned transfer from `src`, a memory whose first
/// byte has address `base`, into the bank slots of `banks`, recording each
/// written slot.
#[verifier::loop_isolation(false)]
#[verifier::rlimit(50)]
pub(crate) fn copy_in(plan: &TransferPlan, src: &Vec<u8>, banks: &mut TrackedBanks, base: i128)
    requires
        old(banks).wf(),
        plan_fits(plan, old(banks).banks@, base as int, src@.len() as int),
        forall|g1: int, g2: int|
            0 <= g1 < plan.groups && 0 <= g2 < plan.groups && g1 != g2 ==> plan.slots@[g1]
                != plan.slots@[g2],
    ensures
        final(banks).wf(),
        final(banks).instruction_id == old(banks).instruction_id,
        sb_view(final(banks).scoreboard) == with_writes(
            sb_view(old(banks).scoreboard),
            old(banks).instruction_id,
            first_slots(plan.slots@, plan.groups as int),
        ),
        final(banks).banks@.len() == old(banks).banks@.len(),
        forall|b: int|
            0 <= b < old(banks).banks@.len() ==> (#[trigger] final(banks).banks@[b])@.len()
                == old(banks).banks@[b]@.len(),
        forall|b: int|
            0 <= b < old(banks).banks@.len() && !(exists|g: int|
                0 <= g < plan.groups && plan.slots@[g] as int == b) ==> #[trigger] final(banks).banks@[b] == old(banks).banks@[b],
        forall|g: int, o: int|
            0 <= g < plan.groups && plan.depth * 16 <= o < old(banks).banks@[plan.slots@[g] as int]@.len()
                ==> #[trigger] final(banks).banks@[plan.slots@[g] as int]@[o] == old(banks).banks@[plan.slots@[g] as int]@[o],
        forall|r: int, g: int, j: int|
            0 <= g < plan.groups && 0 <= r < plan.depth && 0 <= j < 16 ==> final(banks).banks@[plan.slots@[g] as int]@[r * 16 + j] == src@[#[trigger] xfer_addr(
                plan.mem_addr as int,
                plan.groups as int,
                plan.stride as int,
                r,
                g,
                j,
            ) - base],
{
        let ghost mem0 = src@;
        let ghost banks0 = banks.banks@;
        let ghost sb0 = sb_view(banks.scoreboard);
        let ghost id = banks.instruction_id;
        let ghost ps = plan.slots@;
        let ghost mi = plan.mem_addr as int;
        let ghost gi = plan.groups as int;
        let ghost si = plan.stride as int;
        let ghost di = plan.depth as int;
        proof {
            lemma_xfer_addr_bounds(mi, di, gi, si, 0, gi - 1, 15);
            assert(first_slots(ps, 0) =~= Set::empty());
            lemma_with_writes_empty(sb0, id);
        }
        assert((plan.groups as int) * 16 * (plan.stride as int) <= 0x80_0000_0000_0000) by (nonlinear_arith)
            requires
                plan.groups <= 0xffff_ffff,
                plan.stride < 0x8_0000,
        ;
        let rs: u64 = plan.groups * 16 * plan.stride;
        let n = plan.slots.len();
        let mut r: u64 = 0;
        while r < plan.depth
            invariant
                r <= plan.depth,
                n == plan.groups,
                ps == plan.slots@,
                src@ == mem0,
                banks.wf(),
                banks.instruction_id == id,
                sb_view(banks.scoreboard) == with_writes(sb0, id, first_slots(ps, if r > 0 { gi } else { 0 })),
                banks.banks@.len() == banks0.len(),
                forall|b: int| 0 <= b < banks0.len() ==> (#[trigger] banks.banks@[b])@.len() == banks0[b]@.len(),
                forall|b: int|
                    0 <= b < banks0.len() && !(exists|g: int| 0 <= g < gi && ps[g] as int == b)
                        ==> #[trigger] banks.banks@[b] == banks0[b],
                forall|g: int, o: int|
                    0 <= g < gi && rows_done(r as int, 0, g) * 16 <= o < banks0[ps[g] as int]@.len()
                        ==> #[trigger] banks.banks@[ps[g] as int]@[o] == banks0[ps[g] as int]@[o],
                forall|rr: int, g: int, j: int|
                    0 <= g < gi && 0 <= rr < rows_done(r as int, 0, g) && 0 <= j < 16
                        ==> banks.banks@[ps[g] as int]@[rr * 16 + j]
                        == mem0[#[trigger] xfer_addr(mi, gi, si, rr, g, j) - base],
            decreases plan.depth - r,
        {
            let mut k: usize = 0;
            while k < n
                invariant
                    r < plan.depth,
                    k <= n,
                    n == plan.groups,
                    ps == plan.slots@,
                    src@ == mem0,
                                                banks.wf(),
                    banks.instruction_id == id,
                    sb_view(banks.scoreboard) == with_writes(sb0, id, first_slots(ps, if r > 0 { gi } else { k as int })),
                    banks.banks@.len() == banks0.len(),
                    forall|b: int| 0 <= b < banks0.len() ==> (#[trigger] banks.banks@[b])@.len() == banks0[b]@.len(),
                    forall|b: int|
                        0 <= b < banks0.len() && !(exists|g: int| 0 <= g < gi && ps[g] as int == b)
                            ==> #[trigger] banks.banks@[b] == banks0[b],
                    forall|g: int, o: int|
                        0 <= g < gi && rows_done(r as int, k as int, g) * 16 <= o < banks0[ps[g] as int]@.len()
                            ==> #[trigger] banks.banks@[ps[g] as int]@[o] == banks0[ps[g] as int]@[o],
                    forall|rr: int, g: int, j: int|
                        0 <= g < gi && 0 <= rr < rows_done(r as int, k as int, g) && 0 <= j < 16
                            ==> banks.banks@[ps[g] as int]@[rr * 16 + j]
                            == mem0[#[trigger] xfer_addr(mi, gi, si, rr, g, j) - base],
                decreases n - k,
            {
                let g = k as u64;
                let p = plan.slots[k];
                proof {
                    lemma_xfer_addr_bounds(mi, di, gi, si, r as int, g as int, 15);
                    lemma_xfer_addr_bounds(mi, di, gi, si, r as int, g as int, 0);
                }
                let addr = plan.mem_addr + r * rs + g * 16;
                let ml = src.len();
                assert(addr - base < ml);
                let off = (addr as i128 - base) as usize;
                let bl = banks.banks[p].len();
                assert(r * 16 < bl);
                let boff = (r * 16) as usize;
                assert(boff as int == r * 16);
                assert(rs as int == row_stride(gi, si));
                assert(addr as int == xfer_addr(mi, gi, si, r as int, g as int, 0));
                assert(off as int == addr - base);
                let data = read_line(src, off);
                let ghost before = banks.banks@;
                let ghost sb_before = sb_view(banks.scoreboard);
                banks.write_bytes(p, boff, data.as_slice());
                proof {
                    let c_old: int = if r > 0 { gi } else { k as int };
                    let c_new: int = if r > 0 { gi } else { k + 1 };
                    lemma_with_writes_step(sb0, id, first_slots(ps, c_old), p);
                    assert(first_slots(ps, c_old).insert(p) =~= first_slots(ps, c_new)) by {
                        assert(ps[k as int] == p);
                        if r > 0 {
                            assert(first_slots(ps, gi).contains(p));
                        }
                    }
                    assert forall|b: int|
                        0 <= b < banks0.len() && !(exists|g: int| 0 <= g < gi && ps[g] as int == b)
                        implies #[trigger] banks.banks@[b] == banks0[b] by {
                        if b == p as int {
                            assert(ps[k as int] as int == b);
                        }
                    }
                    assert forall|gg: int, o: int|
                        0 <= gg < gi && rows_done(r as int, k + 1, gg) * 16 <= o < banks0[ps[gg] as int]@.len()
                        implies #[trigger] banks.banks@[ps[gg] as int]@[o] == banks0[ps[gg] as int]@[o] by {
                        if gg != k {
                            assert(ps[gg] != p);
                        }
                    }
                    assert forall|rr: int, gg: int, j: int|
                        0 <= gg < gi && 0 <= rr < rows_done(r as int, k + 1, gg) && 0 <= j < 16
                        implies banks.banks@[ps[gg] as int]@[rr * 16 + j]
                        == mem0[#[trigger] xfer_addr(mi, gi, si, rr, gg, j) - base] by {
                        if gg != k {
                            assert(ps[gg] != p);
                            assert(rows_done(r as int, k as int, gg) == rows_done(r as int, k + 1, gg));
                        } else if rr < r {
                            assert(rows_done(r as int, k as int, gg) == r);
                        } else {
                            assert(rr == r);
                            assert(data@[j] == mem0[off + j]);
                        }
                    }
                }
                k = k + 1;
            }
            r = r + 1;
        }
    proof {
        assert forall|g: int| 0 <= g < plan.groups implies rows_done(plan.depth as int, 0, g) == plan.depth by {}
    }
}


/// The slots of a plan's groups are the group slots of its bank.
pub(crate) proof fn lemma_first_slots_group_set(plan: &TransferPlan, slots: Seq<MapEntry>)
    requires
        plan_slots_ok(slots, plan),
        plan.slots@.len() == plan.groups,
        plan.groups <= 0xffff_ffff,
    ensures
        first_slots(plan.slots@, plan.groups as int) == group_slot_set(
            slots,
            plan.bank_id as u32,
            plan.groups as int,
        ),
{
    let ps = plan.slots@;
    let gi = plan.groups as int;
    let v = plan.bank_id as u32;
    assert forall|b: usize| first_slots(ps, gi).contains(b) implies group_slot_set(slots, v, gi).contains(b) by {
        let g = choose|g: int| 0 <= g < gi && #[trigger] ps[g] == b;
        assert(is_first_match(slots, v, g as u32, b as int));
    }
    assert forall|b: usize| group_slot_set(slots, v, gi).contains(b) implies first_slots(ps, gi).contains(b) by {
        let g = choose|g: int| 0 <= g < gi && #[trigger] is_first_match(slots, v, g as u32, b as int);
        lemma_first_match_unique(slots, v, g as u32, b as int, ps[g] as int);
        assert(ps[g] == b);
    }
    assert(first_slots(ps, gi) =~= group_slot_set(slots, v, gi));
}

/// What `copy_in` leaves in the banks is the plan's rows loaded into the
/// group slots of its bank.
pub(crate) proof fn lemma_rows_loaded(
    plan: &TransferPlan,
    slots: Seq<MapEntry>,
    b0: Seq<Vec<u8>>,
    b1: Seq<Vec<u8>>,
    src: Seq<u8>,
    base: int,
)
    requires
        plan_slots_ok(slots, plan),
        plan.slots@.len() == plan.groups,
        plan.groups <= 0xffff_ffff,
        b1.len() == b0.len(),
        forall|b: int| 0 <= b < b0.len() ==> (#[trigger] b1[b])@.len() == b0[b]@.len(),
        forall|b: int|
            0 <= b < b0.len() && !(exists|g: int| 0 <= g < plan.groups && plan.slots@[g] as int == b)
                ==> #[trigger] b1[b] == b0[b],
        forall|g: int, o: int|
            0 <= g < plan.groups && plan.depth * 16 <= o < b0[plan.slots@[g] as int]@.len()
                ==> #[trigger] b1[plan.slots@[g] as int]@[o] == b0[plan.slots@[g] as int]@[o],
        forall|r: int, g: int, j: int|
            0 <= g < plan.groups && 0 <= r < plan.depth && 0 <= j < 16 ==> b1[plan.slots@[g] as int]@[r
                * 16 + j] == src[#[trigger] xfer_addr(
                plan.mem_addr as int,
                plan.groups as int,
                plan.stride as int,
                r,
                g,
                j,
            ) - base],
    ensures
        rows_loaded(
            b0,
            b1,
            slots,
            plan.bank_id as u32,
            plan.groups as int,
            plan.depth as int,
            plan.mem_addr as int,
            plan.stride as int,
            src,
            base,
        ),
{
    let ps = plan.slots@;
    let gi = plan.groups as int;
    let di = plan.depth as int;
    let v = plan.bank_id as u32;
    lemma_plan_group_slots(slots, plan);
    assert forall|k: int, o: int|
        0 <= k < b0.len() && 0 <= o < b0[k]@.len() && !(is_group_slot(slots, v, gi, k) && o < di * 16)
        implies #[trigger] b1[k]@[o] == b0[k]@[o] by {
        if is_group_slot(slots, v, gi, k) {
            let g = choose|g: int| 0 <= g < gi && #[trigger] is_first_match(slots, v, g as u32, k);
            lemma_first_match_unique(slots, v, g as u32, k, ps[g] as int);
        } else {
            if exists|g: int| 0 <= g < gi && ps[g] as int == k {
                let g = choose|g: int| 0 <= g < gi && ps[g] as int == k;
                assert(is_first_match(slots, v, g as u32, k));
            }
        }
    }
}

/// Moving rows into a bank and then out again copies guest memory: after
/// `mvin` loads rows of bank `xs1[9:0]` from the address of `xs2_in` and
/// `mvout` stores the same rows (same bank, depth and stride) to the
/// address of `xs2_out`, each stored byte is the byte that was loaded,
/// when one guest mapping (or none) holds every address the move out
/// writes; across mappings a later byte may land on an earlier one.
pub proof fn law_mvout_stores_what_mvin_loaded(
    c0: &ExecContext,
    c1: &ExecContext,
    c2: &ExecContext,
    xs1: u64,
    xs2_in: u64,
    xs2_out: u64,
    events: Seq<MTraceEvent>,
    r: int,
    g: int,
    j: int,
)
    requires
        mvin_done(c0, c1, xs1, xs2_in),
        mvout_done(c1, c2, xs1, xs2_out, events),
        spec_rs1_b0(xs1) < c0.cfgs@.len(),
        spec_xs2_stride(xs2_in) == spec_xs2_stride(xs2_out),
        spec_xs2_stride(xs2_in) >= 1,
        guest_span_base(c1, xs1, spec_xs2_mem_addr(xs2_out) as int, spec_xs2_stride(xs2_out) as int) is Some,
        0 <= r < spec_rs1_iter(xs1),
        0 <= g < groups_of(c0.cfgs@[spec_rs1_b0(xs1) as int].cols),
        0 <= j < 16,
    ensures
        ({
            let gs = groups_of(c0.cfgs@[spec_rs1_b0(xs1) as int].cols) as int;
            let s = spec_xs2_stride(xs2_in) as int;
            let a_in = xfer_addr(spec_xs2_mem_addr(xs2_in) as int, gs, s, r, g, j);
            let a_out = xfer_addr(spec_xs2_mem_addr(xs2_out) as int, gs, s, r, g, j);
            c2.memory@[a_out - byte_base(c0.guest_maps@, a_out)] == c0.memory@[a_in - byte_base(c0.guest_maps@, a_in)]
        }),
{
    let bank = spec_rs1_b0(xs1);
    let v = bank as u32;
    let gs = groups_of(c0.cfgs@[bank as int].cols) as int;
    let s = spec_xs2_stride(xs2_in) as int;
    assert(c1.cfgs@[bank as int].cols == c0.cfgs@[bank as int].cols);
    let a_in = xfer_addr(spec_xs2_mem_addr(xs2_in) as int, gs, s, r, g, j);
    let a_out = xfer_addr(spec_xs2_mem_addr(xs2_out) as int, gs, s, r, g, j);
    let depth = spec_rs1_iter(xs1) as int;
    let m_in = spec_xs2_mem_addr(xs2_in) as int;
    let m_out = spec_xs2_mem_addr(xs2_out) as int;
    lemma_xfer_addr_bounds(m_in, depth, gs, s, r, g, j);
    lemma_xfer_addr_bounds(m_out, depth, gs, s, r, g, j);
    lemma_span_base_bytes(c1.guest_maps@, m_out, last_addr(m_out, depth, gs, s), a_out);
    assert(c1.banks.banks@[group_slot(c0.bank_map.slots@, v, g)]@[r * 16 + j] == c0.memory@[guest_off(c0.guest_maps@, a_in)]);
    assert(c2.memory@[a_out - transfer_base(c1, xs1, xs2_out)] == c1.banks.banks@[group_slot(c1.bank_map.slots@, v, g)]@[r * 16 + j]);
}

} // verus!
