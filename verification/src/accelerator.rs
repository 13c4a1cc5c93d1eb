//! The state of one emulated NPU core and the steps that drive it: issuing
//! an instruction with its cycle and id bookkeeping, and resetting.

use vstd::prelude::*;
use std::collections::BTreeSet;
use crate::bank::{empty_entry, unallocated, BankConfig, BankMap};
use crate::config::{
    bank_num, bank_size, configured, is_first_funct, mmio_bank_num, mmio_bank_size,
    mnemonic_for_funct, sizes_fit, spec_bank_num, spec_bank_size, spec_mmio_bank_size, topo,
    EmuConfig,
};
use crate::dispatch::{
    consumes_npu_instruction_id, cycles_after_issue, execute_known, execute_post, known_funct,
    spec_cycles_after_issue,
};
use crate::inst::{
    cols_fit, finish_deferred_bank_frees, sb_view, ExecContext, ExecError, MmioRegion, TrackedBanks,
};
use crate::inst::{rs1_iter, spec_rs1_b0, spec_rs1_iter, spec_xs2_stride, xs2_mem_stride};
use crate::instructions::{groups_of, InstOutcome};
use crate::transfer::{group_slot, xfer_addr, 
    copy_in, copy_out, lemma_plan_group_slots, lemma_plan_slots_distinct, lemma_rows_loaded,
    plan_transfer_at, rows_loaded, rows_stored, transfer_error_at, transfer_latency,
};
use crate::trace::MTraceEvent;
use crate::pk::GuestMap;
use crate::scoreboard::BankScoreboard;

verus! {

/// `n` zero bytes.
pub fn zero_bytes(n: usize) -> (r: Vec<u8>)
    ensures
        r@ == Seq::new(n as nat, |i: int| 0u8),
{
    let mut v: Vec<u8> = Vec::new();
    let mut i: usize = 0;
    while i < n
        invariant
            i <= n,
            v@ == Seq::new(i as nat, |k: int| 0u8),
        decreases n - i,
    {
        v.push(0);
        i = i + 1;
        assert(v@ =~= Seq::new(i as nat, |k: int| 0u8));
    }
    v
}

/// `count` banks of `size` zero bytes each.
pub fn zero_banks(count: usize, size: usize) -> (r: Vec<Vec<u8>>)
    ensures
        r@.len() == count,
        forall|k: int| 0 <= k < count ==> (#[trigger] r@[k])@ == Seq::new(size as nat, |i: int| 0u8),
{
    let mut v: Vec<Vec<u8>> = Vec::new();
    let mut k: usize = 0;
    while k < count
        invariant
            k <= count,
            v@.len() == k,
            forall|j: int| 0 <= j < k ==> (#[trigger] v@[j])@ == Seq::new(size as nat, |i: int| 0u8),
        decreases count - k,
    {
        v.push(zero_bytes(size));
        k = k + 1;
    }
    v
}

/// Sets every byte of every bank to zero, keeping each bank's size.
pub fn clear_banks(banks: &mut Vec<Vec<u8>>)
    ensures
        final(banks)@.len() == old(banks)@.len(),
        forall|k: int|
            0 <= k < old(banks)@.len() ==> (#[trigger] final(banks)@[k])@ == Seq::new(
                old(banks)@[k]@.len(),
                |i: int| 0u8,
            ),
{
    let n = banks.len();
    let mut k: usize = 0;
    while k < n
        invariant
            k <= n,
            n == old(banks)@.len(),
            banks@.len() == n,
            forall|j: int|
                0 <= j < k ==> (#[trigger] banks@[j])@ == Seq::new(old(banks)@[j]@.len(), |i: int| 0u8),
            forall|j: int| k <= j < n ==> (#[trigger] banks@[j]) == old(banks)@[j],
        decreases n - k,
    {
        let len = banks[k].len();
        let mut row = zero_bytes(len);
        banks.set_and_swap(k, &mut row);
        k = k + 1;
    }
}

/// `n` unallocated bank configurations.
pub fn unallocated_cfgs(n: usize) -> (r: Vec<BankConfig>)
    ensures
        r@ == Seq::new(n as nat, |i: int| unallocated()),
{
    let mut v: Vec<BankConfig> = Vec::new();
    let mut i: usize = 0;
    while i < n
        invariant
            i <= n,
            v@ == Seq::new(i as nat, |k: int| unallocated()),
        decreases n - i,
    {
        v.push(BankConfig::default());
        i = i + 1;
        assert(v@ =~= Seq::new(i as nat, |k: int| unallocated()));
    }
    v
}

/// One emulated NPU core: its execution context and its counters.
pub struct Accelerator {
    pub ctx: ExecContext,
    /// Cycles of every instruction issued so far.
    pub total_lat: u64,
    /// Id of the most recent NPU instruction.
    pub npu_instruction_id: u64,
    /// Matrix multiplications issued so far.
    pub matrix_instruction_count: u64,
}

/// The next NPU instruction id: fences and barriers keep the current one.
pub open spec fn next_npu_id(id: u64, funct7: u32) -> u64 {
    if funct7 == 0 || funct7 == 1 {
        id
    } else if id == u64::MAX {
        0
    } else {
        (id + 1) as u64
    }
}

/// `ctx` is `pre` with instruction `id` issued: the barrier flag cleared,
/// the bank accesses attributed to `id`, and `id` tracked with no writes.
pub open spec fn issued(pre: &ExecContext, ctx: &ExecContext, id: u64) -> bool {
    &&& ctx.memory == pre.memory
    &&& ctx.cfgs == pre.cfgs
    &&& ctx.bank_map == pre.bank_map
    &&& ctx.deferred_bank_frees == pre.deferred_bank_frees
    &&& ctx.mmio_banks == pre.mmio_banks
    &&& ctx.mmio_region_table == pre.mmio_region_table
    &&& ctx.guest_maps == pre.guest_maps
    &&& !ctx.barrier_hit
    &&& ctx.banks.banks == pre.banks.banks
    &&& ctx.banks.instruction_id == id
    &&& sb_view(ctx.banks.scoreboard) == Some(map![id => Set::<usize>::empty()])
}

/// `post` is `mid` with its scoreboard emptied.
pub open spec fn completed(mid: &ExecContext, post: &ExecContext) -> bool {
    &&& post.memory == mid.memory
    &&& post.cfgs@ == mid.cfgs@
    &&& post.bank_map.slots@ == mid.bank_map.slots@
    &&& post.deferred_bank_frees@ == mid.deferred_bank_frees@
    &&& post.mmio_banks == mid.mmio_banks
    &&& post.mmio_region_table == mid.mmio_region_table
    &&& post.barrier_hit == mid.barrier_hit
    &&& post.guest_maps == mid.guest_maps
    &&& post.banks.banks == mid.banks.banks
    &&& post.banks.instruction_id == mid.banks.instruction_id
    &&& sb_view(post.banks.scoreboard) == Some(Map::<u64, Set<usize>>::empty())
}

/// What one issued instruction does to an accelerator: `r` carries the
/// instruction's outcome and the banks it wrote.
pub open spec fn step_post(
    pre: &Accelerator,
    post: &Accelerator,
    cfg: &EmuConfig,
    funct7: u32,
    xs1: u64,
    xs2: u64,
    r: Result<(InstOutcome, Set<usize>), ExecError>,
) -> bool {
    let id = next_npu_id(pre.npu_instruction_id, funct7);
    if !known_funct(funct7) {
        r == Err::<(InstOutcome, Set<usize>), ExecError>(ExecError::UnknownFunct) && post.ctx == pre.ctx
            && post.total_lat == pre.total_lat && post.npu_instruction_id == pre.npu_instruction_id
            && post.matrix_instruction_count == pre.matrix_instruction_count
    } else {
        match r {
            Ok((o, written)) => exists|c0: ExecContext, c1: ExecContext|
                #![trigger issued(&pre.ctx, &c0, id), completed(&c1, &post.ctx)]
                issued(&pre.ctx, &c0, id) && execute_post(&c0, &c1, cfg, funct7, xs1, xs2, Ok(o))
                    && completed(&c1, &post.ctx) && sb_view(c1.banks.scoreboard) == Some(
                    map![id => written],
                ) && post.total_lat == pre.total_lat + spec_cycles_after_issue(funct7, xs1)
                    && post.npu_instruction_id == id && post.matrix_instruction_count
                    == pre.matrix_instruction_count,
            Err(e) => exists|c0: ExecContext|
                #![trigger issued(&pre.ctx, &c0, id)]
                issued(&pre.ctx, &c0, id) && execute_post(&c0, &c0, cfg, funct7, xs1, xs2, Err(e))
                    && completed(&pre.ctx, &post.ctx) && post.total_lat == pre.total_lat
                    && post.npu_instruction_id == pre.npu_instruction_id
                    && post.matrix_instruction_count == pre.matrix_instruction_count,
        }
    }
}

/// An issued instruction's result with the written banks taken as a set.
pub open spec fn step_result(r: Result<(InstOutcome, BTreeSet<usize>), ExecError>) -> Result<
    (InstOutcome, Set<usize>),
    ExecError,
> {
    match r {
        Ok(p) => Ok((p.0, p.1@)),
        Err(e) => Err(e),
    }
}

/// `funct7` names a matrix multiplication in the core's instruction set.
pub open spec fn is_matrix_funct(cfg: &EmuConfig, funct7: u32) -> bool {
    let isa = topo(cfg).ball_domain.isa@;
    exists|i: int|
        #![trigger is_first_funct(isa, funct7, i)]
        is_first_funct(isa, funct7, i) && (isa[i].mnemonic@ == "SMATMUL_OS"@ || isa[i].mnemonic@
            == "SMATMUL_WS"@)
}

impl Accelerator {
    /// Between instructions the scoreboard tracks nothing, no bank free is
    /// pending, and every bank's column count fits a group id.
    pub open spec fn wf(&self) -> bool {
        &&& sb_view(self.ctx.banks.scoreboard) == Some(Map::<u64, Set<usize>>::empty())
        &&& self.ctx.deferred_bank_frees@.len() == 0
        &&& cols_fit(self.ctx.cfgs@)
    }

    /// A core in its reset state, sized by `cfg`, over guest memory `memory`.
    pub fn new(cfg: &EmuConfig, memory: Vec<u8>) -> (r: Accelerator)
        requires
            configured(cfg),
            sizes_fit(cfg),
        ensures
            r.wf(),
            r.ctx.memory == memory,
            r.ctx.banks.banks@.len() == spec_bank_num(cfg),
            forall|k: int|
                0 <= k < spec_bank_num(cfg) ==> (#[trigger] r.ctx.banks.banks@[k])@ == Seq::new(
                    spec_bank_size(cfg) as nat,
                    |i: int| 0u8,
                ),
            r.ctx.cfgs@ == Seq::new(spec_bank_num(cfg) as nat, |i: int| unallocated()),
            r.ctx.bank_map.slots@ == Seq::new(spec_bank_num(cfg) as nat, |i: int| empty_entry()),
            r.ctx.mmio_banks@.len() == topo(cfg).mem_config.mmio_bank_num,
            forall|k: int|
                0 <= k < topo(cfg).mem_config.mmio_bank_num ==> (#[trigger] r.ctx.mmio_banks@[k])@
                    == Seq::new(spec_mmio_bank_size(cfg) as nat, |i: int| 0u8),
            r.ctx.mmio_region_table@.len() == 0,
            !r.ctx.barrier_hit,
            r.ctx.guest_maps@.len() == 0,
            r.ctx.banks.instruction_id == 0,
            r.total_lat == 0,
            r.npu_instruction_id == 0,
            r.matrix_instruction_count == 0,
    {
        let n = bank_num(cfg);
        let banks = zero_banks(n, bank_size(cfg));
        let cfgs = unallocated_cfgs(n);
        let map = BankMap::new(n);
        assert(map.slots@ =~= Seq::new(n as nat, |i: int| empty_entry()));
        let mmio_banks = zero_banks(mmio_bank_num(cfg), mmio_bank_size(cfg));
        let sb = BankScoreboard::new();
        let ctx = ExecContext {
            memory,
            banks: TrackedBanks { banks, scoreboard: Some(sb), instruction_id: 0 },
            cfgs,
            bank_map: map,
            deferred_bank_frees: Vec::new(),
            mmio_banks,
            mmio_region_table: Vec::new(),
            barrier_hit: false,
            guest_maps: Vec::new(),
        };
        Accelerator { ctx, total_lat: 0, npu_instruction_id: 0, matrix_instruction_count: 0 }
    }

    /// Installs the guest mappings (most recent last) through which guest
    /// addresses of the instructions reach DRAM; an empty list makes guest
    /// addresses DRAM addresses.
    pub fn set_guest_mappings(&mut self, maps: Vec<GuestMap>)
        requires
            old(self).wf(),
        ensures
            final(self).wf(),
            final(self).ctx.guest_maps@ == maps@,
            final(self).ctx.memory == old(self).ctx.memory,
            final(self).ctx.banks == old(self).ctx.banks,
            final(self).ctx.cfgs == old(self).ctx.cfgs,
            final(self).ctx.bank_map == old(self).ctx.bank_map,
            final(self).ctx.deferred_bank_frees == old(self).ctx.deferred_bank_frees,
            final(self).ctx.mmio_banks == old(self).ctx.mmio_banks,
            final(self).ctx.mmio_region_table == old(self).ctx.mmio_region_table,
            final(self).ctx.barrier_hit == old(self).ctx.barrier_hit,
            final(self).total_lat == old(self).total_lat,
            final(self).npu_instruction_id == old(self).npu_instruction_id,
            final(self).matrix_instruction_count == old(self).matrix_instruction_count,
    {
        self.ctx.guest_maps = maps;
    }

    /// A core that reaches host memory only through the transfers' host
    /// buffers: its guest memory is empty.
    pub fn new_host(cfg: &EmuConfig) -> (r: Accelerator)
        requires
            configured(cfg),
            sizes_fit(cfg),
        ensures
            r.wf(),
            r.ctx.memory@.len() == 0,
            r.ctx.banks.banks@.len() == spec_bank_num(cfg),
            r.ctx.cfgs@ == Seq::new(spec_bank_num(cfg) as nat, |i: int| unallocated()),
            r.ctx.bank_map.slots@ == Seq::new(spec_bank_num(cfg) as nat, |i: int| empty_entry()),
            r.total_lat == 0,
            r.npu_instruction_id == 0,
            r.matrix_instruction_count == 0,
    {
        Accelerator::new(cfg, Vec::new())
    }

    /// Returns the accelerator to its reset state; guest memory is kept.
    pub fn reset_accel(&mut self, cfg: &EmuConfig)
        requires
            configured(cfg),
        ensures
            final(self).wf(),
            final(self).ctx.memory == old(self).ctx.memory,
            final(self).ctx.banks.banks@.len() == old(self).ctx.banks.banks@.len(),
            forall|k: int|
                0 <= k < old(self).ctx.banks.banks@.len() ==> (#[trigger] final(self).ctx.banks.banks@[k])@ == Seq::new(
                    old(self).ctx.banks.banks@[k]@.len(),
                    |i: int| 0u8,
                ),
            final(self).ctx.cfgs@ == Seq::new(old(self).ctx.cfgs@.len(), |i: int| unallocated()),
            final(self).ctx.bank_map.slots@ == Seq::new(
                spec_bank_num(cfg) as nat,
                |i: int| empty_entry(),
            ),
            final(self).ctx.mmio_banks@.len() == old(self).ctx.mmio_banks@.len(),
            forall|k: int|
                0 <= k < old(self).ctx.mmio_banks@.len() ==> (#[trigger] final(self).ctx.mmio_banks@[k])@ == Seq::new(
                    old(self).ctx.mmio_banks@[k]@.len(),
                    |i: int| 0u8,
                ),
            final(self).ctx.mmio_region_table == old(self).ctx.mmio_region_table,
            final(self).ctx.barrier_hit == old(self).ctx.barrier_hit,
            final(self).ctx.guest_maps == old(self).ctx.guest_maps,
            final(self).ctx.banks.instruction_id == old(self).ctx.banks.instruction_id,
            final(self).total_lat == 0,
            final(self).npu_instruction_id == 0,
            final(self).matrix_instruction_count == 0,
    {
        clear_banks(&mut self.ctx.banks.banks);
        let n = self.ctx.cfgs.len();
        self.ctx.cfgs = unallocated_cfgs(n);
        let map = BankMap::new(bank_num(cfg));
        assert(map.slots@ =~= Seq::new(spec_bank_num(cfg) as nat, |i: int| empty_entry()));
        self.ctx.bank_map = map;
        self.ctx.banks.scoreboard = Some(BankScoreboard::new());
        self.ctx.deferred_bank_frees.clear();
        clear_banks(&mut self.ctx.mmio_banks);
        self.total_lat = 0;
        self.npu_instruction_id = 0;
        self.matrix_instruction_count = 0;
    }

    /// Issues one instruction: clears the barrier flag, takes the next NPU
    /// id, runs the instruction with its bank writes tracked, then applies
    /// pending bank frees. The cycle count and the id advance only when the
    /// instruction runs; a refused instruction leaves the core as it was.
    #[verifier::rlimit(30)]
    fn run_instruction(&mut self, cfg: &EmuConfig, funct7: u32, xs1: u64, xs2: u64) -> (r: Result<
        (InstOutcome, BTreeSet<usize>),
        ExecError,
    >)
        requires
            old(self).wf(),
            configured(cfg),
            sizes_fit(cfg),
            old(self).total_lat + spec_cycles_after_issue(funct7, xs1) <= u64::MAX,
        ensures
            final(self).wf(),
            step_post(
                old(self),
                final(self),
                cfg,
                funct7,
                xs1,
                xs2,
                step_result(r),
            ),
    {
        if !(funct7 == 0 || funct7 == 1 || funct7 == 16 || funct7 == 32 || funct7 == 33 || funct7
            == 35) {
            return Err(ExecError::UnknownFunct);
        }
        let lat = cycles_after_issue(funct7, xs1, xs2);
        let id = if consumes_npu_instruction_id(funct7) {
            self.npu_instruction_id.wrapping_add(1)
        } else {
            self.npu_instruction_id
        };
        let saved_barrier = self.ctx.barrier_hit;
        let saved_id = self.ctx.banks.instruction_id;
        let ghost pre = self.ctx;
        self.ctx.barrier_hit = false;
        let mut sb = self.ctx.banks.scoreboard.take().unwrap();
        sb.issue(id);
        self.ctx.banks.scoreboard = Some(sb);
        self.ctx.banks.instruction_id = id;
        assert(sb_view(self.ctx.banks.scoreboard) == Some(map![id => Set::<usize>::empty()])) by {
            assert(Map::<u64, Set<usize>>::empty().insert(id, Set::<usize>::empty()) =~= map![id => Set::<usize>::empty()]);
        }
        let ghost c0 = self.ctx;
        assert(issued(&pre, &c0, id));
        let res = execute_known(funct7, xs1, xs2, &mut self.ctx, cfg).unwrap();
        let ghost c1 = self.ctx;
        let mut sb = self.ctx.banks.scoreboard.take().unwrap();
        let ghost sv = sb@;
        assert(sv.dom() =~= set![id]) by {
            assert(sb_view(c1.banks.scoreboard) == Some(sv));
        }
        let written = sb.complete(id);
        assert(sb@ =~= Map::<u64, Set<usize>>::empty());
        assert(sv =~= map![id => written@]);
        self.ctx.banks.scoreboard = Some(sb);
        finish_deferred_bank_frees(
            &mut self.ctx.cfgs,
            &mut self.ctx.bank_map,
            &mut self.ctx.deferred_bank_frees,
        );
        assert(self.ctx.cfgs@ =~= c1.cfgs@);
        assert(self.ctx.bank_map.slots@ =~= c1.bank_map.slots@);
        assert(self.ctx.deferred_bank_frees@ =~= c1.deferred_bank_frees@);
        match res {
            Ok(o) => {
                self.total_lat = self.total_lat + lat;
                self.npu_instruction_id = id;
                assert(completed(&c1, &self.ctx));
                assert(id == next_npu_id(old(self).npu_instruction_id, funct7));
                assert(issued(&old(self).ctx, &c0, id));
                assert(execute_post(&c0, &c1, cfg, funct7, xs1, xs2, Ok(o)));
                assert(sb_view(c1.banks.scoreboard) == Some(map![id => written@]));
                Ok((o, written))
            },
            Err(e) => {
                self.ctx.barrier_hit = saved_barrier;
                self.ctx.banks.instruction_id = saved_id;
                assert(c1 == c0);
                assert(completed(&pre, &self.ctx));
                assert(id == next_npu_id(old(self).npu_instruction_id, funct7));
                assert(issued(&old(self).ctx, &c0, id));
                assert(execute_post(&c0, &c0, cfg, funct7, xs1, xs2, Err(e)));
                Err(e)
            },
        }
    }
}


/// `a` with its matrix-multiplication count replaced by `count`.
pub open spec fn with_matrix_count(a: &Accelerator, count: u64) -> Accelerator {
    Accelerator {
        ctx: a.ctx,
        total_lat: a.total_lat,
        npu_instruction_id: a.npu_instruction_id,
        matrix_instruction_count: count,
    }
}

/// What issuing an instruction for the host does: the step of the
/// instruction, and the matrix-multiplication count moved on for a matrix
/// instruction that succeeded.
pub open spec fn host_execute_post(
    pre: &Accelerator,
    post: &Accelerator,
    cfg: &EmuConfig,
    funct7: u32,
    xs1: u64,
    xs2: u64,
    r: Result<u64, ExecError>,
) -> bool {
    &&& match r {
        Ok(v) => exists|o: InstOutcome, w: Set<usize>|
            o.value == v && #[trigger] step_post(
                pre,
                &with_matrix_count(post, pre.matrix_instruction_count),
                cfg,
                funct7,
                xs1,
                xs2,
                Ok((o, w)),
            ),
        Err(e) => step_post(pre, post, cfg, funct7, xs1, xs2, Err(e)),
    }
    &&& r is Ok ==> post.matrix_instruction_count == if is_matrix_funct(cfg, funct7) {
        (pre.matrix_instruction_count + 1) % 0x1_0000_0000_0000_0000
    } else {
        pre.matrix_instruction_count as int
    }
}

/// What an instruction issued for tracing hands back: its result value, its
/// memory-trace events and the physical banks it wrote.
pub struct StepOutcome {
    pub value: u64,
    pub mtrace: Vec<MTraceEvent>,
    pub written: BTreeSet<usize>,
}

impl Accelerator {
    /// Issues an instruction on behalf of the host and counts matrix
    /// multiplications; returns the instruction's result value.
    pub fn host_execute(&mut self, cfg: &EmuConfig, funct7: u32, xs1: u64, xs2: u64) -> (r: Result<
        u64,
        ExecError,
    >)
        requires
            old(self).wf(),
            configured(cfg),
            sizes_fit(cfg),
            old(self).total_lat + spec_cycles_after_issue(funct7, xs1) <= u64::MAX,
        ensures
            final(self).wf(),
            host_execute_post(old(self), final(self), cfg, funct7, xs1, xs2, r),
    {
        let res = self.run_instruction(cfg, funct7, xs1, xs2);
        match res {
            Ok((o, w)) => {
                let ghost mid = *self;
                let matrix = match mnemonic_for_funct(cfg, funct7) {
                    Some(m) => m == "SMATMUL_OS".to_owned() || m == "SMATMUL_WS".to_owned(),
                    None => false,
                };
                proof {
                    reveal_strlit("SMATMUL_OS");
                    reveal_strlit("SMATMUL_WS");
                }
                if matrix {
                    self.matrix_instruction_count = self.matrix_instruction_count.wrapping_add(1);
                }
                assert(with_matrix_count(self, old(self).matrix_instruction_count) == mid);
                Ok(o.value)
            },
            Err(e) => Err(e),
        }
    }

    /// Issues an instruction of the guest program and hands back what the
    /// traces record of it.
    pub fn exec_traced(&mut self, cfg: &EmuConfig, funct7: u32, xs1: u64, xs2: u64) -> (r: Result<
        StepOutcome,
        ExecError,
    >)
        requires
            old(self).wf(),
            configured(cfg),
            sizes_fit(cfg),
            old(self).total_lat + spec_cycles_after_issue(funct7, xs1) <= u64::MAX,
        ensures
            final(self).wf(),
            match r {
                Ok(s) => step_post(
                    old(self),
                    final(self),
                    cfg,
                    funct7,
                    xs1,
                    xs2,
                    Ok((InstOutcome { value: s.value, mtrace: s.mtrace }, s.written@)),
                ),
                Err(e) => step_post(old(self), final(self), cfg, funct7, xs1, xs2, Err(e)),
            },
    {
        match self.run_instruction(cfg, funct7, xs1, xs2) {
            Ok((o, written)) => Ok(StepOutcome { value: o.value, mtrace: o.mtrace, written }),
            Err(e) => Err(e),
        }
    }
}


/// What loading rows from `host` does, or why it is refused.
pub open spec fn host_mvin_post(
    pre: &Accelerator,
    post: &Accelerator,
    cfg: &EmuConfig,
    xs1: u64,
    packed_xs2: u64,
    host: Seq<u8>,
    r: Result<(), ExecError>,
) -> bool {
            match r {
                Ok(()) => transfer_error_at(
                    &pre.ctx,
                    cfg,
                    xs1,
                    0,
                    spec_xs2_stride(packed_xs2) as int,
                    Some(0int),
                    host.len() as int,
                ) is None && host_load_done(pre, post, xs1, packed_xs2, host),
                Err(e) => transfer_error_at(
                    &pre.ctx,
                    cfg,
                    xs1,
                    0,
                    spec_xs2_stride(packed_xs2) as int,
                    Some(0int),
                    host.len() as int,
                ) == Some(e) && *post == *pre,
            }
}

/// What storing rows to a host buffer does, or why it is refused.
pub open spec fn host_mvout_post(
    pre: &Accelerator,
    post: &Accelerator,
    cfg: &EmuConfig,
    xs1: u64,
    packed_xs2: u64,
    host_before: Seq<u8>,
    host_after: Seq<u8>,
    r: Result<(), ExecError>,
) -> bool {
    &&& post.ctx == pre.ctx
    &&& post.npu_instruction_id == pre.npu_instruction_id
    &&& post.matrix_instruction_count == pre.matrix_instruction_count
    &&& match r {
                Ok(()) => transfer_error_at(
                    &pre.ctx,
                    cfg,
                    xs1,
                    0,
                    spec_xs2_stride(packed_xs2) as int,
                    Some(0int),
                    host_before.len() as int,
                ) is None && post.total_lat == pre.total_lat + transfer_latency(xs1)
                    && rows_stored(
                    host_before,
                    host_after,
                    pre.ctx.banks.banks@,
                    pre.ctx.bank_map.slots@,
                    spec_rs1_b0(xs1) as u32,
                    groups_of(pre.ctx.cfgs@[spec_rs1_b0(xs1) as int].cols) as int,
                    spec_rs1_iter(xs1) as int,
                    0,
                    spec_xs2_stride(packed_xs2) as int,
                    0,
                ),
                Err(e) => transfer_error_at(
                    &pre.ctx,
                    cfg,
                    xs1,
                    0,
                    spec_xs2_stride(packed_xs2) as int,
                    Some(0int),
                    host_before.len() as int,
                ) == Some(e) && post.total_lat == pre.total_lat && host_after == host_before,
            }
}

/// The barrier flag names the last instruction: after any instruction
/// that succeeds, the flag is set exactly when that instruction was the
/// barrier (funct7 1); each instruction clears it at issue.
pub proof fn law_barrier_flag_follows_last_instruction(
    pre: &Accelerator,
    post: &Accelerator,
    cfg: &EmuConfig,
    funct7: u32,
    xs1: u64,
    xs2: u64,
    o: InstOutcome,
    written: Set<usize>,
)
    requires
        step_post(pre, post, cfg, funct7, xs1, xs2, Ok((o, written))),
    ensures
        post.ctx.barrier_hit == (funct7 == 1),
{
    let id = next_npu_id(pre.npu_instruction_id, funct7);
    let (c0, c1) = choose|c0: ExecContext, c1: ExecContext|
        #![trigger issued(&pre.ctx, &c0, id), completed(&c1, &post.ctx)]
        issued(&pre.ctx, &c0, id) && execute_post(&c0, &c1, cfg, funct7, xs1, xs2, Ok(o))
            && completed(&c1, &post.ctx) && sb_view(c1.banks.scoreboard) == Some(map![id => written])
            && post.total_lat == pre.total_lat + spec_cycles_after_issue(funct7, xs1)
            && post.npu_instruction_id == id && post.matrix_instruction_count == pre.matrix_instruction_count;
    assert(!c0.barrier_hit);
}

/// What loading rows from a host buffer does to an accelerator.
pub open spec fn host_load_done(pre: &Accelerator, post: &Accelerator, xs1: u64, packed_xs2: u64, host: Seq<u8>) -> bool {
    let bank = spec_rs1_b0(xs1);
    let depth = spec_rs1_iter(xs1);
    let c = pre.ctx.cfgs@[bank as int];
    let gs = groups_of(c.cols);
    &&& post.ctx.memory == pre.ctx.memory
    &&& post.ctx.bank_map == pre.ctx.bank_map
    &&& post.ctx.cfgs@ == pre.ctx.cfgs@.update(
        bank as int,
        BankConfig { allocated: c.allocated, cols: c.cols, valid_rows: depth },
    )
    &&& post.ctx.deferred_bank_frees == pre.ctx.deferred_bank_frees
    &&& post.ctx.mmio_banks == pre.ctx.mmio_banks
    &&& post.ctx.mmio_region_table == pre.ctx.mmio_region_table
    &&& post.ctx.barrier_hit == pre.ctx.barrier_hit
    &&& post.ctx.guest_maps == pre.ctx.guest_maps
    &&& post.ctx.banks.scoreboard == pre.ctx.banks.scoreboard
    &&& post.ctx.banks.instruction_id == pre.ctx.banks.instruction_id
    &&& rows_loaded(
        pre.ctx.banks.banks@,
        post.ctx.banks.banks@,
        pre.ctx.bank_map.slots@,
        bank as u32,
        gs as int,
        depth as int,
        0,
        spec_xs2_stride(packed_xs2) as int,
        host,
        0,
    )
    &&& post.total_lat == pre.total_lat + transfer_latency(xs1)
    &&& post.npu_instruction_id == pre.npu_instruction_id
    &&& post.matrix_instruction_count == pre.matrix_instruction_count
}

impl Accelerator {
    /// Moves rows from a host buffer into bank `xs1[9:0]` and charges the
    /// transfer's cycles. Byte `j` of row `r` of group `g` is read at offset
    /// `r * groups * 16 * stride + g * 16 + j` of `host`; the address field
    /// of `packed_xs2` is not used. Host transfers are not recorded in the
    /// scoreboard. Nothing changes when the transfer is refused.
    pub fn host_mvin(&mut self, cfg: &EmuConfig, xs1: u64, packed_xs2: u64, host: &Vec<u8>) -> (r:
        Result<(), ExecError>)
        requires
            old(self).wf(),
            configured(cfg),
            sizes_fit(cfg),
            old(self).total_lat + transfer_latency(xs1) <= u64::MAX,
        ensures
            final(self).wf(),
            host_mvin_post(old(self), final(self), cfg, xs1, packed_xs2, host@, r),
    {
        let (_, stride) = xs2_mem_stride(packed_xs2);
        let plan = match plan_transfer_at(xs1, 0, stride, &self.ctx, cfg, false, host.len()) {
            Ok(plan) => plan,
            Err(e) => return Err(e),
        };
        let ghost slots = self.ctx.bank_map.slots@;
        let ghost banks0 = self.ctx.banks.banks@;
        let ghost ps = plan.slots@;
        let ghost gi = plan.groups as int;
        proof {
            assert forall|g1: int, g2: int| 0 <= g1 < gi && 0 <= g2 < gi && g1 != g2 implies ps[g1]
                != ps[g2] by {
                lemma_plan_slots_distinct(slots, plan.bank_id as u32, g1, g2, ps[g1] as int, ps[g2] as int);
            }
        }
        let sb = self.ctx.banks.scoreboard.take();
        copy_in(&plan, host, &mut self.ctx.banks, plan.base);
        self.ctx.banks.scoreboard = sb;
        proof {
            lemma_rows_loaded(&plan, slots, banks0, self.ctx.banks.banks@, host@, 0);
        }
        let bi = plan.bank_id as usize;
        let c = self.ctx.cfgs[bi];
        self.ctx.cfgs.set(bi, BankConfig { allocated: c.allocated, cols: c.cols, valid_rows: plan.depth });
        proof {
            assert forall|k: int| 0 <= k < self.ctx.cfgs@.len() implies (#[trigger] self.ctx.cfgs@[k]).cols
                <= 0xffff_ffff by {
                assert(old(self).ctx.cfgs@[k].cols <= 0xffff_ffff);
            }
        }
        let lat = if plan.depth >= 1 {
            plan.depth
        } else {
            1
        };
        self.total_lat = self.total_lat + lat;
        Ok(())
    }

    /// Moves rows of bank `xs1[9:0]` out to a host buffer and charges the
    /// transfer's cycles; byte `j` of row `r` of group `g` goes to offset
    /// `r * groups * 16 * stride + g * 16 + j` of `host`. Nothing changes
    /// when the transfer is refused.
    pub fn host_mvout(&mut self, cfg: &EmuConfig, xs1: u64, packed_xs2: u64, host: &mut Vec<u8>) -> (r:
        Result<(), ExecError>)
        requires
            old(self).wf(),
            configured(cfg),
            sizes_fit(cfg),
            old(self).total_lat + transfer_latency(xs1) <= u64::MAX,
        ensures
            final(self).wf(),
            host_mvout_post(old(self), final(self), cfg, xs1, packed_xs2, old(host)@, final(host)@, r),
    {
        let (_, stride) = xs2_mem_stride(packed_xs2);
        let plan = match plan_transfer_at(xs1, 0, stride, &self.ctx, cfg, false, host.len()) {
            Ok(plan) => plan,
            Err(e) => return Err(e),
        };
        proof {
            lemma_plan_group_slots(self.ctx.bank_map.slots@, &plan);
        }
        copy_out(&plan, &self.ctx.banks.banks, host, plan.base);
        let lat = if plan.depth >= 1 {
            plan.depth
        } else {
            1
        };
        self.total_lat = self.total_lat + lat;
        Ok(())
    }
}

/// A request the host sends to the worker that owns one accelerator.
pub enum HostCommand {
    /// Issue an instruction.
    Execute { funct7: u32, xs1: u64, xs2: u64 },
    /// Load rows into a bank from the host buffer `host`.
    Mvin { xs1: u64, packed_xs2: u64, host: Vec<u8> },
    /// Store rows of a bank into the host buffer `host`.
    Mvout { xs1: u64, packed_xs2: u64, host: Vec<u8> },
    /// Report the cycles charged so far.
    Cycles,
    /// Stop the worker.
    Shutdown,
}

/// The worker's answer to a host command.
pub enum HostReply {
    /// The instruction's result value.
    Value(u64),
    /// The rows were loaded.
    Loaded,
    /// The rows were stored; the buffer as it now is.
    Stored(Vec<u8>),
    /// The cycles charged so far.
    Cycles(u64),
    /// The worker stops; its counters.
    Stopped { instructions: u64, matrix: u64, cycles: u64 },
    /// The command was refused.
    Failed(ExecError),
}

/// The command leaves room in the cycle counter for what it charges.
pub open spec fn command_fits(a: &Accelerator, cmd: &HostCommand) -> bool {
    match cmd {
        HostCommand::Execute { funct7, xs1, .. } => a.total_lat + spec_cycles_after_issue(*funct7, *xs1) <= u64::MAX,
        HostCommand::Mvin { xs1, .. } => a.total_lat + transfer_latency(*xs1) <= u64::MAX,
        HostCommand::Mvout { xs1, .. } => a.total_lat + transfer_latency(*xs1) <= u64::MAX,
        _ => true,
    }
}

impl Accelerator {
    /// Serves one host command, as the accelerator's worker does.
    pub fn serve_host_command(&mut self, cfg: &EmuConfig, cmd: HostCommand) -> (r: HostReply)
        requires
            old(self).wf(),
            configured(cfg),
            sizes_fit(cfg),
            command_fits(old(self), &cmd),
        ensures
            final(self).wf(),
            match cmd {
                HostCommand::Execute { funct7, xs1, xs2 } => match r {
                    HostReply::Value(v) => host_execute_post(old(self), final(self), cfg, funct7, xs1, xs2, Ok(v)),
                    HostReply::Failed(e) => host_execute_post(old(self), final(self), cfg, funct7, xs1, xs2, Err(e)),
                    _ => false,
                },
                HostCommand::Mvin { xs1, packed_xs2, host } => match r {
                    HostReply::Loaded => host_mvin_post(old(self), final(self), cfg, xs1, packed_xs2, host@, Ok(())),
                    HostReply::Failed(e) => host_mvin_post(old(self), final(self), cfg, xs1, packed_xs2, host@, Err(e)),
                    _ => false,
                },
                HostCommand::Mvout { xs1, packed_xs2, host } => match r {
                    HostReply::Stored(after) => host_mvout_post(old(self), final(self), cfg, xs1, packed_xs2, host@, after@, Ok(())),
                    HostReply::Failed(e) => exists|after: Seq<u8>| host_mvout_post(old(self), final(self), cfg, xs1, packed_xs2, host@, after, Err(e)),
                    _ => false,
                },
                HostCommand::Cycles => r == HostReply::Cycles(old(self).total_lat) && *final(self) == *old(self),
                HostCommand::Shutdown => r == (HostReply::Stopped {
                    instructions: old(self).npu_instruction_id,
                    matrix: old(self).matrix_instruction_count,
                    cycles: old(self).total_lat,
                }) && *final(self) == *old(self),
            },
    {
        match cmd {
            HostCommand::Execute { funct7, xs1, xs2 } => match self.host_execute(cfg, funct7, xs1, xs2) {
                Ok(v) => HostReply::Value(v),
                Err(e) => HostReply::Failed(e),
            },
            HostCommand::Mvin { xs1, packed_xs2, host } => match self.host_mvin(cfg, xs1, packed_xs2, &host) {
                Ok(()) => HostReply::Loaded,
                Err(e) => HostReply::Failed(e),
            },
            HostCommand::Mvout { xs1, packed_xs2, host } => {
                let mut buffer = host;
                match self.host_mvout(cfg, xs1, packed_xs2, &mut buffer) {
                    Ok(()) => HostReply::Stored(buffer),
                    Err(e) => HostReply::Failed(e),
                }
            },
            HostCommand::Cycles => HostReply::Cycles(self.total_lat),
            HostCommand::Shutdown => HostReply::Stopped {
                instructions: self.npu_instruction_id,
                matrix: self.matrix_instruction_count,
                cycles: self.total_lat,
            },
        }
    }
}

/// A host buffer stored from a bank gives back, at each transferred
/// offset, what a host load put into the bank: loading rows of bank
/// `xs1[9:0]` from `src` and then storing the same rows (same bank,
/// depth and stride) into a buffer puts `src`'s byte at every offset the
/// transfer covers.
pub proof fn law_host_store_returns_loaded_rows(
    a0: &Accelerator,
    a1: &Accelerator,
    a2: &Accelerator,
    cfg: &EmuConfig,
    xs1: u64,
    packed_in: u64,
    packed_out: u64,
    src: Seq<u8>,
    dst0: Seq<u8>,
    dst1: Seq<u8>,
    r: int,
    g: int,
    j: int,
)
    requires
        host_mvin_post(a0, a1, cfg, xs1, packed_in, src, Ok(())),
        host_mvout_post(a1, a2, cfg, xs1, packed_out, dst0, dst1, Ok(())),
        spec_xs2_stride(packed_in) == spec_xs2_stride(packed_out),
        0 <= r < spec_rs1_iter(xs1),
        0 <= g < groups_of(a0.ctx.cfgs@[spec_rs1_b0(xs1) as int].cols),
        0 <= j < 16,
    ensures
        ({
            let gs = groups_of(a0.ctx.cfgs@[spec_rs1_b0(xs1) as int].cols) as int;
            let a = xfer_addr(0, gs, spec_xs2_stride(packed_in) as int, r, g, j);
            dst1[a] == src[a]
        }),
{
    let bank = spec_rs1_b0(xs1);
    let gs = groups_of(a0.ctx.cfgs@[bank as int].cols) as int;
    let s = spec_xs2_stride(packed_in) as int;
    assert(a1.ctx.cfgs@[bank as int].cols == a0.ctx.cfgs@[bank as int].cols);
    assert(a1.ctx.bank_map == a0.ctx.bank_map);
    let a = xfer_addr(0, gs, s, r, g, j);
    assert(a1.ctx.banks.banks@[group_slot(a0.ctx.bank_map.slots@, bank as u32, g)]@[r * 16 + j] == src[a - 0]);
    assert(dst1[a - 0] == a1.ctx.banks.banks@[group_slot(a1.ctx.bank_map.slots@, bank as u32, g)]@[r * 16 + j]);
}

/// Whether `cmd` leaves room in `a`'s cycle counter for what it charges.
pub fn command_fits_check(a: &Accelerator, cmd: &HostCommand) -> (r: bool)
    ensures
        r == command_fits(a, cmd),
{
    match cmd {
        HostCommand::Execute { funct7, xs1, xs2 } => {
            let c = cycles_after_issue(*funct7, *xs1, *xs2);
            c <= u64::MAX - a.total_lat
        },
        HostCommand::Mvin { xs1, .. } | HostCommand::Mvout { xs1, .. } => {
            let depth = rs1_iter(*xs1);
            let lat = if depth >= 1 {
                depth
            } else {
                1
            };
            lat <= u64::MAX - a.total_lat
        },
        _ => true,
    }
}

} // verus!
