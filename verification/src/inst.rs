//! Operand decoding, the execution context, and the bank-management
//! instructions of the NPU functional model.

use vstd::prelude::*;
use crate::bank::{
    after_delete, empty_entry, is_first_free, unallocated, BankConfig, BankMap, MapEntry,
};
use crate::config::{bank_num, configured, spec_bank_num, EmuConfig};
use crate::scoreboard::BankScoreboard;
use crate::pk::GuestMap;

verus! {

/// Bank id operand: `xs1[9:0]`.
pub open spec fn spec_rs1_b0(xs1: u64) -> u64 {
    xs1 % 0x400
}

/// Row count operand: `xs1[63:30]`.
pub open spec fn spec_rs1_iter(xs1: u64) -> u64 {
    xs1 / 0x4000_0000
}

/// Memory address operand: `xs2[38:0]`.
pub open spec fn spec_xs2_mem_addr(xs2: u64) -> u64 {
    xs2 % 0x80_0000_0000
}

/// Stride operand: `xs2[57:39]`.
pub open spec fn spec_xs2_stride(xs2: u64) -> u64 {
    (xs2 / 0x80_0000_0000) % 0x8_0000
}

/// Bank id of an instruction.
pub fn rs1_b0(xs1: u64) -> (r: u64)
    ensures
        r == spec_rs1_b0(xs1),
{
    let r = xs1 & 0x3ff;
    assert(r == xs1 % 0x400) by (bit_vector)
        requires
            r == xs1 & 0x3ff,
    ;
    r
}

/// Row count of an instruction.
pub fn rs1_iter(xs1: u64) -> (r: u64)
    ensures
        r == spec_rs1_iter(xs1),
        r < 0x4_0000_0000,
{
    let r = xs1 >> 30;
    assert(r == xs1 / 0x4000_0000 && r < 0x4_0000_0000) by (bit_vector)
        requires
            r == xs1 >> 30,
    ;
    r
}

/// Memory address and stride of a transfer.
pub fn xs2_mem_stride(xs2: u64) -> (r: (u64, u64))
    ensures
        r.0 == spec_xs2_mem_addr(xs2),
        r.1 == spec_xs2_stride(xs2),
        r.0 < 0x80_0000_0000,
        r.1 < 0x8_0000,
{
    let a = xs2 & 0x7f_ffff_ffff;
    let s = (xs2 >> 39) & 0x7_ffff;
    assert(a == xs2 % 0x80_0000_0000 && a < 0x80_0000_0000) by (bit_vector)
        requires
            a == xs2 & 0x7f_ffff_ffff,
    ;
    assert(s == (xs2 / 0x80_0000_0000) % 0x8_0000 && s < 0x8_0000) by (bit_vector)
        requires
            s == (xs2 >> 39) & 0x7_ffff,
    ;
    (a, s)
}

/// Rows, columns and the allocate flag of a bank allocation:
/// `xs2[4:0]`, `xs2[9:5]`, `xs2[10]`.
pub open spec fn spec_xs2_mset(xs2: u64) -> (u64, u64, u64) {
    (xs2 % 32, (xs2 / 32) % 32, (xs2 / 1024) % 2)
}

/// Decodes the operand of a bank allocation.
pub fn xs2_mset(xs2: u64) -> (r: (u64, u64, u64))
    ensures
        r == spec_xs2_mset(xs2),
{
    let rows = xs2 & 0x1f;
    let col = (xs2 >> 5) & 0x1f;
    let alloc = (xs2 >> 10) & 1;
    assert(rows == xs2 % 32 && col == (xs2 / 32) % 32 && alloc == (xs2 / 1024) % 2) by (bit_vector)
        requires
            rows == xs2 & 0x1f,
            col == (xs2 >> 5) & 0x1f,
            alloc == (xs2 >> 10) & 1,
    ;
    (rows, col, alloc)
}

/// Why an instruction could not run. Each is a guest operand or machine
/// state that the functional model refuses.
#[derive(Clone, Copy, Debug, PartialEq, Eq, Structural)]
pub enum ExecError {
    /// The bank id is not below the bank count.
    InvalidBank,
    /// The bank configuration table has no entry for the bank id.
    ConfigOutOfRange,
    /// A transfer of zero rows.
    ZeroDepth,
    /// A transfer with stride zero.
    ZeroStride,
    /// The bank is not allocated.
    NotAllocated,
    /// A group of the bank has no physical slot.
    UnmappedBank,
    /// The rows do not fit into one bank.
    BankRange,
    /// A physical slot has no backing storage of the needed size.
    BankStorage,
    /// An address computation overflowed.
    AddressOverflow,
    /// A guest address lies outside DRAM.
    MemoryOutOfRange,
    /// No physical slot is free for a new group.
    NoFreeBank,
    /// The MMIO banks are disabled for this core.
    MmioDisabled,
    /// An MMIO address lies outside the MMIO banks.
    MmioOutOfRange,
    /// No instruction has this funct7.
    UnknownFunct,
}

/// Bank storage that reports mutable access to the scoreboard.
pub struct TrackedBanks {
    pub banks: Vec<Vec<u8>>,
    pub scoreboard: Option<BankScoreboard>,
    pub instruction_id: u64,
}

/// The scoreboard contents, when one is attached.
pub open spec fn sb_view(sb: Option<BankScoreboard>) -> Option<Map<u64, Set<usize>>> {
    match sb {
        Some(s) => Some(s@),
        None => None,
    }
}

/// The scoreboard contents after recording a write of bank `p` by `id`.
pub open spec fn with_write(v: Option<Map<u64, Set<usize>>>, id: u64, p: usize) -> Option<
    Map<u64, Set<usize>>,
> {
    match v {
        Some(m) => Some(m.insert(id, m[id].insert(p))),
        None => None,
    }
}

impl TrackedBanks {
    /// The attached scoreboard, if any, tracks this instruction.
    pub open spec fn wf(&self) -> bool {
        self.scoreboard matches Some(s) ==> s@.contains_key(self.instruction_id)
    }

    /// Bank storage whose mutable accesses are recorded for `instruction_id`.
    pub fn new(banks: Vec<Vec<u8>>, scoreboard: Option<BankScoreboard>, instruction_id: u64) -> (r:
        TrackedBanks)
        requires
            scoreboard matches Some(s) ==> s@.contains_key(instruction_id),
        ensures
            r.wf(),
            r.banks == banks,
            r.scoreboard == scoreboard,
            r.instruction_id == instruction_id,
    {
        TrackedBanks { banks, scoreboard, instruction_id }
    }

    /// Hands back the storage and the scoreboard.
    pub fn into_parts(self) -> (r: (Vec<Vec<u8>>, Option<BankScoreboard>))
        ensures
            r.0 == self.banks,
            r.1 == self.scoreboard,
    {
        (self.banks, self.scoreboard)
    }

    /// Records a mutable access of physical bank `physical_bank_id`.
    pub fn record_write(&mut self, physical_bank_id: usize)
        requires
            old(self).wf(),
        ensures
            final(self).wf(),
            final(self).banks == old(self).banks,
            final(self).instruction_id == old(self).instruction_id,
            sb_view(final(self).scoreboard) == with_write(
                sb_view(old(self).scoreboard),
                old(self).instruction_id,
                physical_bank_id,
            ),
    {
        let id = self.instruction_id;
        match self.scoreboard.take() {
            Some(mut s) => {
                s.record_write(id, physical_bank_id);
                self.scoreboard = Some(s);
            },
            None => {},
        }
    }

    /// Alias-safe access for an instruction that reads one bank and writes a
    /// different one: records the write and hands back the read bank and
    /// the write bank, to be written through.
    pub fn read_write(&mut self, read_bank: usize, write_bank: usize) -> (r: (&Vec<u8>, &mut Vec<u8>))
        requires
            old(self).wf(),
            read_bank != write_bank,
            read_bank < old(self).banks@.len(),
            write_bank < old(self).banks@.len(),
        ensures
            *r.0 == old(self).banks@[read_bank as int],
            *r.1 == old(self).banks@[write_bank as int],
            final(self).banks@ == old(self).banks@.update(write_bank as int, *final(r.1)),
            final(self).wf(),
            final(self).instruction_id == old(self).instruction_id,
            sb_view(final(self).scoreboard) == with_write(
                sb_view(old(self).scoreboard),
                old(self).instruction_id,
                write_bank,
            ),
    {
        self.record_write(write_bank);
        let banks = self.banks.as_mut_slice();
        if read_bank < write_bank {
            let (left, right) = banks.split_at_mut(write_bank);
            let w = right.first_mut().unwrap();
            (&left[read_bank], w)
        } else {
            let (left, right) = banks.split_at_mut(read_bank);
            let w = &mut left[write_bank];
            (right.first().unwrap(), w)
        }
    }

    /// Fills a bank with `value`. Clearing storage while a bank is allocated
    /// is configuration, not a data write, so nothing is recorded.
    pub fn initialize(&mut self, physical_bank_id: usize, value: u8)
        requires
            physical_bank_id < old(self).banks@.len(),
        ensures
            final(self).scoreboard == old(self).scoreboard,
            final(self).instruction_id == old(self).instruction_id,
            final(self).banks@.len() == old(self).banks@.len(),
            final(self).banks@[physical_bank_id as int]@ == Seq::new(
                old(self).banks@[physical_bank_id as int]@.len(),
                |i: int| value,
            ),
            forall|k: int|
                0 <= k < old(self).banks@.len() && k != physical_bank_id ==> final(self).banks@[k]
                    == old(self).banks@[k],
    {
        let mut row: Vec<u8> = Vec::new();
        self.banks.set_and_swap(physical_bank_id, &mut row);
        let n = row.len();
        let mut i: usize = 0;
        while i < n
            invariant
                i <= n,
                row@.len() == n,
                forall|k: int| 0 <= k < i ==> row@[k] == value,
            decreases n - i,
        {
            row.set(i, value);
            i = i + 1;
        }
        assert(row@ =~= Seq::new(n as nat, |i: int| value));
        self.banks.set_and_swap(physical_bank_id, &mut row);
    }

    /// The byte at `offset` of bank `bank`; reads are not recorded.
    pub fn read_byte(&self, bank: usize, offset: usize) -> (r: u8)
        requires
            bank < self.banks@.len(),
            offset < self.banks@[bank as int]@.len(),
        ensures
            r == self.banks@[bank as int]@[offset as int],
    {
        self.banks[bank][offset]
    }

    /// Records a write of bank `bank`, then stores `data` at `offset`.
    pub fn write_bytes(&mut self, bank: usize, offset: usize, data: &[u8])
        requires
            old(self).wf(),
            bank < old(self).banks@.len(),
            offset + data@.len() <= old(self).banks@[bank as int]@.len(),
        ensures
            final(self).wf(),
            final(self).instruction_id == old(self).instruction_id,
            sb_view(final(self).scoreboard) == with_write(
                sb_view(old(self).scoreboard),
                old(self).instruction_id,
                bank,
            ),
            final(self).banks@.len() == old(self).banks@.len(),
            final(self).banks@[bank as int]@.len() == old(self).banks@[bank as int]@.len(),
            forall|o: int|
                0 <= o < old(self).banks@[bank as int]@.len() ==> #[trigger] final(self).banks@[bank as int]@[o] == if offset <= o < offset + data@.len() {
                    data@[o - offset]
                } else {
                    old(self).banks@[bank as int]@[o]
                },
            forall|k: int|
                0 <= k < old(self).banks@.len() && k != bank ==> final(self).banks@[k] == old(self).banks@[k],
    {
        self.record_write(bank);
        let mut row: Vec<u8> = Vec::new();
        self.banks.set_and_swap(bank, &mut row);
        let ghost orig = row@;
        let n = data.len();
        let rl = row.len();
        let mut j: usize = 0;
        while j < n
            invariant
                j <= n,
                n == data@.len(),
                rl == orig.len(),
                offset + n <= rl,
                row@.len() == orig.len(),
                forall|o: int|
                    0 <= o < orig.len() ==> #[trigger] row@[o] == if offset <= o < offset + j {
                        data@[o - offset]
                    } else {
                        orig[o]
                    },
            decreases n - j,
        {
            row.set(offset + j, data[j]);
            j = j + 1;
        }
        self.banks.set_and_swap(bank, &mut row);
    }
}

/// MMIO region descriptor.
#[derive(Clone, Copy, Debug, PartialEq, Eq, Structural)]
pub struct MmioRegion {
    pub valid: bool,
    pub mmio_addr: u16,
    pub size_rows: u8,
}

impl Default for MmioRegion {
    fn default() -> (r: MmioRegion)
        ensures
            r == (MmioRegion { valid: false, mmio_addr: 0, size_rows: 0 }),
    {
        MmioRegion { valid: false, mmio_addr: 0, size_rows: 0 }
    }
}

/// All the state an instruction may touch.
pub struct ExecContext {
    pub memory: Vec<u8>,
    pub banks: TrackedBanks,
    pub cfgs: Vec<BankConfig>,
    pub bank_map: BankMap,
    /// Virtual banks released by an instruction after its bank digest is
    /// sampled; the mapping stays alive until then.
    pub deferred_bank_frees: Vec<u32>,
    pub mmio_banks: Vec<Vec<u8>>,
    pub mmio_region_table: Vec<MmioRegion>,
    pub barrier_hit: bool,
    /// The guest mappings that virtual-memory modes install, most recent
    /// last; empty when guest addresses are DRAM addresses.
    pub guest_maps: Vec<GuestMap>,
}

impl ExecContext {
    /// Releases virtual bank `bank_id` once the running instruction's bank
    /// digest has been sampled.
    pub fn defer_bank_free(&mut self, bank_id: u64)
        requires
            bank_id <= u32::MAX,
            bank_id < old(self).cfgs@.len(),
            old(self).cfgs@[bank_id as int].allocated,
            !old(self).deferred_bank_frees@.contains(bank_id as u32),
        ensures
            final(self).deferred_bank_frees@ == old(self).deferred_bank_frees@.push(bank_id as u32),
            final(self).cfgs == old(self).cfgs,
            final(self).bank_map == old(self).bank_map,
            final(self).banks == old(self).banks,
            final(self).memory == old(self).memory,
            final(self).mmio_banks == old(self).mmio_banks,
            final(self).mmio_region_table == old(self).mmio_region_table,
            final(self).barrier_hit == old(self).barrier_hit,
            final(self).guest_maps == old(self).guest_maps,
    {
        let id = bank_id as u32;
        self.deferred_bank_frees.push(id);
    }
}

/// Whether `ids` lists bank `k`.
pub open spec fn lists_bank(ids: Seq<u32>, k: int) -> bool {
    exists|w: int| 0 <= w < ids.len() && ids[w] as int == k
}

/// The slot after deleting every virtual bank of `ids`.
pub open spec fn after_delete_all(e: MapEntry, ids: Seq<u32>) -> MapEntry {
    if e.valid && ids.contains(e.vbank_id) {
        empty_entry()
    } else {
        e
    }
}

/// Applies the deferred frees: each listed virtual bank loses its slots and
/// its configuration, and the list is emptied.
pub fn finish_deferred_bank_frees(
    bank_cfgs: &mut Vec<BankConfig>,
    bank_map: &mut BankMap,
    deferred_bank_frees: &mut Vec<u32>,
)
    requires
        forall|k: int|
            0 <= k < old(deferred_bank_frees)@.len() ==> (#[trigger] old(deferred_bank_frees)@[k])
                < old(bank_cfgs)@.len(),
    ensures
        final(deferred_bank_frees)@.len() == 0,
        final(bank_cfgs)@.len() == old(bank_cfgs)@.len(),
        forall|k: int|
            0 <= k < old(bank_cfgs)@.len() ==> #[trigger] final(bank_cfgs)@[k] == if lists_bank(old(deferred_bank_frees)@, k) {
                unallocated()
            } else {
                old(bank_cfgs)@[k]
            },
        final(bank_map).slots@.len() == old(bank_map).slots@.len(),
        forall|k: int|
            0 <= k < old(bank_map).slots@.len() ==> #[trigger] final(bank_map).slots@[k]
                == after_delete_all(old(bank_map).slots@[k], old(deferred_bank_frees)@),
{
    let ghost ids = deferred_bank_frees@;
    let n = deferred_bank_frees.len();
    let mut i: usize = 0;
    while i < n
        invariant
            i <= n,
            n == ids.len(),
            deferred_bank_frees@ == ids,
            forall|k: int| 0 <= k < ids.len() ==> (#[trigger] ids[k]) < old(bank_cfgs)@.len(),
            bank_cfgs@.len() == old(bank_cfgs)@.len(),
            forall|k: int|
                0 <= k < old(bank_cfgs)@.len() ==> #[trigger] bank_cfgs@[k] == if lists_bank(ids.subrange(0, i as int), k) {
                    unallocated()
                } else {
                    old(bank_cfgs)@[k]
                },
            bank_map.slots@.len() == old(bank_map).slots@.len(),
            forall|k: int|
                0 <= k < old(bank_map).slots@.len() ==> #[trigger] bank_map.slots@[k]
                    == after_delete_all(old(bank_map).slots@[k], ids.subrange(0, i as int)),
        decreases n - i,
    {
        let bank_id = deferred_bank_frees[i];
        let index = bank_id as usize;
        let ghost prev_slots = bank_map.slots@;
        bank_map.delete_vbank(bank_id);
        bank_cfgs.set(index, BankConfig::default());
        proof {
            let pre = ids.subrange(0, i as int);
            let post = ids.subrange(0, i + 1);
            assert(post =~= pre.push(bank_id));
            assert forall|k: int| 0 <= k < old(bank_cfgs)@.len() implies #[trigger] bank_cfgs@[k]
                == if lists_bank(post, k) {
                unallocated()
            } else {
                old(bank_cfgs)@[k]
            } by {
                if k == index as int {
                    assert(post[i as int] == bank_id);
                    assert(lists_bank(post, k));
                } else {
                    if lists_bank(post, k) {
                        let w = choose|w: int| 0 <= w < post.len() && post[w] as int == k;
                        if w < i {
                            assert(pre[w] as int == k);
                        }
                    }
                    if lists_bank(pre, k) {
                        let w = choose|w: int| 0 <= w < pre.len() && pre[w] as int == k;
                        assert(post[w] as int == k);
                    }
                }
            }
            assert forall|k: int| 0 <= k < old(bank_map).slots@.len() implies #[trigger] bank_map.slots@[k]
                == after_delete_all(old(bank_map).slots@[k], post) by {
                let e = old(bank_map).slots@[k];
                assert(bank_map.slots@[k] == after_delete(prev_slots[k], bank_id));
                if e.valid && pre.contains(e.vbank_id) {
                    let w = choose|w: int| 0 <= w < pre.len() && pre[w] == e.vbank_id;
                    assert(post[w] == e.vbank_id);
                } else if e.valid && e.vbank_id == bank_id {
                    assert(post[i as int] == bank_id);
                } else if e.valid && post.contains(e.vbank_id) {
                    let w = choose|w: int| 0 <= w < post.len() && post[w] == e.vbank_id;
                    if w < i {
                        assert(pre[w] == e.vbank_id);
                    }
                }
            }
        }
        i = i + 1;
    }
    assert(ids.subrange(0, n as int) =~= ids);
    deferred_bank_frees.clear();
}

} // verus!

verus! {

/// Every bank's column count fits into a group id.
pub open spec fn cols_fit(cfgs: Seq<BankConfig>) -> bool {
    forall|k: int| 0 <= k < cfgs.len() ==> (#[trigger] cfgs[k]).cols <= 0xffff_ffff
}

} // verus!
