//! The page tables and user pages of a program run under the proxy kernel
//! (Sv39 translation set up by the emulator itself).

use vstd::prelude::*;
use crate::accelerator::zero_bytes;
use crate::bank::DRAM_BASE;
use crate::page_walk::{
    is_level_one, lemma_fresh_root, lemma_link, lemma_wf_after_zero, lemma_wf_grow, lemma_write_leaf, pt_wf, slot_child, slot_valid,
    lemma_distinct_slots, same_slots, table_walk, walk_reaches, PTES_PER_TABLE,
};
use crate::guest::{
    lemma_page_alignment,
    align_down, align_up, guest_offset, le_bytes, le_value, spec_align_down, spec_align_up,
    spec_guest_offset, spliced, u64_from_le, u64_to_le, write_guest, write_guest_error, GuestError,
    PAGE_SIZE,
};

verus! {

/// Top of the user virtual address space.
pub const USER_TOP: u64 = 0x40_0000_0000;

/// Highest address handed out by `mmap` (the C library treats larger
/// results as errors).
pub const PK_MMAP_CEILING: u64 = 0x8000_0000;

/// Bytes of the user stack.
pub const USER_STACK_SIZE: u64 = 0x80_0000;

/// Bytes reserved for page tables.
pub const PK_PT_RESERVE: u64 = 0x100_0000;

/// Bytes reserved at the top of memory for page tables and the stack.
pub const PK_HIGH_RESERVE: u64 = 0x400_0000;

/// System call numbers whose results change the user mappings.
pub const SYS_BRK: u64 = 214;
pub const SYS_MUNMAP: u64 = 215;
pub const SYS_MMAP: u64 = 222;

/// One mapping of user virtual addresses to guest physical addresses.
#[derive(Clone, Copy, Debug, PartialEq, Eq, Structural)]
pub struct GuestMap {
    pub virt: u64,
    pub phys: u64,
    pub len: u64,
}

/// The page-table and user-page allocators of a proxy-kernel program, and
/// the mappings made so far.
pub struct PkVm {
    pub root: u64,
    pub next_pt: u64,
    pub pt_end: u64,
    pub next_page: u64,
    pub page_end: u64,
    /// Freed physical ranges `(address, size)`.
    pub free_pages: Vec<(u64, u64)>,
    pub maps: Vec<GuestMap>,
}

/// The `satp` value selecting Sv39 translation rooted at `root`.
pub open spec fn spec_satp(root: u64) -> u64 {
    (8u64 << 60u64) | ((root >> 12u64) & 0x0000_0fff_ffff_ffffu64)
}

/// The page-table entry at slot `idx` of the table at `table`, read from
/// `mem`, when it lies in memory.
pub open spec fn pte_at(mem: Seq<u8>, table: u64, idx: u64) -> Option<u64> {
    match spec_guest_offset(mem.len(), (table + idx * 8) as u64) {
        Ok(off) => if off + 8 <= mem.len() {
            Some(le_value(mem.subrange(off, off + 8)))
        } else {
            None
        },
        Err(_) => None,
    }
}

/// The table a valid non-leaf entry points to.
pub open spec fn pte_table(pte: u64) -> u64 {
    ((pte >> 10u64) << 12u64) & !0xfffu64
}

/// A non-leaf entry pointing to `table`.
pub open spec fn table_pte(table: u64) -> u64 {
    ((table >> 12u64) << 10u64) | 1u64
}

/// The leaf entry mapping `phys` with `flags`: valid, accessed and dirty,
/// user-accessible.
pub open spec fn leaf_pte(phys: u64, flags: u64) -> u64 {
    ((phys >> 12u64) << 10u64) | flags | 0x1u64 | 0x10u64 | 0x40u64 | 0x80u64
}

/// The three Sv39 indices of `virt`: level 0, 1, 2.
pub open spec fn vpn(virt: u64, level: int) -> u64 {
    (virt >> (12 + 9 * level) as u64) & 0x1ffu64
}

/// `mem` with the page at offset `off` zeroed.
pub open spec fn zero_page(mem: Seq<u8>, off: int) -> Seq<u8> {
    spliced(mem, off, Seq::new(PAGE_SIZE as nat, |i: int| 0u8))
}

/// The last mapping, searching from the most recent, that covers
/// `virt..virt + len`.
pub open spec fn spec_virt_to_phys(maps: Seq<GuestMap>, virt: u64, len: u64) -> Option<u64>
    decreases maps.len(),
{
    if virt + len > u64::MAX || maps.len() == 0 {
        None
    } else {
        let m = maps.last();
        if m.virt + m.len > u64::MAX {
            None
        } else if virt >= m.virt && virt + len <= m.virt + m.len {
            if m.phys + (virt - m.virt) > u64::MAX {
                None
            } else {
                Some((m.phys + (virt - m.virt)) as u64)
            }
        } else {
            spec_virt_to_phys(maps.drop_last(), virt, len)
        }
    }
}

/// What a user write of `bytes` at `virt` does to `mem`: the memory after
/// it, or why it is refused.
pub open spec fn spec_write_user(maps: Seq<GuestMap>, mem: Seq<u8>, virt: u64, bytes: Seq<u8>) -> Result<
    Seq<u8>,
    GuestError,
> {
    match spec_virt_to_phys(maps, virt, bytes.len() as u64) {
        None => Err(GuestError::UnmappedUserWrite { addr: virt, size: bytes.len() as u64 }),
        Some(phys) => match write_guest_error(mem.len(), phys, bytes.len()) {
            Some(e) => Err(e),
            None => Ok(spliced(mem, phys - DRAM_BASE, bytes)),
        },
    }
}

/// The memory after the user writes `writes` are made in order, and the
/// error that stopped them, if any; a refused write changes nothing.
pub open spec fn spec_user_writes(maps: Seq<GuestMap>, mem: Seq<u8>, writes: Seq<(u64, Seq<u8>)>) -> (
    Seq<u8>,
    Option<GuestError>,
)
    decreases writes.len(),
{
    if writes.len() == 0 {
        (mem, None)
    } else {
        let (m, e) = spec_user_writes(maps, mem, writes.drop_last());
        if e is Some {
            (m, e)
        } else {
            match spec_write_user(maps, m, writes.last().0, writes.last().1) {
                Ok(m2) => (m2, None),
                Err(err) => (m, Some(err)),
            }
        }
    }
}

/// A refused write ends a sequence of user writes: the sequence leaves the
/// memory the writes before it left, with the refusal as its error.
pub proof fn lemma_user_writes_stop(maps: Seq<GuestMap>, mem: Seq<u8>, ws: Seq<(u64, Seq<u8>)>, n: int)
    requires
        0 <= n < ws.len(),
        spec_user_writes(maps, mem, ws.take(n)).1 is None,
        spec_write_user(maps, spec_user_writes(maps, mem, ws.take(n)).0, ws[n].0, ws[n].1) is Err,
    ensures
        spec_user_writes(maps, mem, ws) == (
            spec_user_writes(maps, mem, ws.take(n)).0,
            Some(spec_write_user(maps, spec_user_writes(maps, mem, ws.take(n)).0, ws[n].0, ws[n].1)->Err_0),
        ),
{
    lemma_user_writes_stay_stopped(maps, mem, ws, n, ws.len() as int);
    assert(ws.take(ws.len() as int) =~= ws);
}

proof fn lemma_user_writes_stay_stopped(maps: Seq<GuestMap>, mem: Seq<u8>, ws: Seq<(u64, Seq<u8>)>, n: int, k: int)
    requires
        0 <= n < k <= ws.len(),
        spec_user_writes(maps, mem, ws.take(n)).1 is None,
        spec_write_user(maps, spec_user_writes(maps, mem, ws.take(n)).0, ws[n].0, ws[n].1) is Err,
    ensures
        spec_user_writes(maps, mem, ws.take(k)) == (
            spec_user_writes(maps, mem, ws.take(n)).0,
            Some(spec_write_user(maps, spec_user_writes(maps, mem, ws.take(n)).0, ws[n].0, ws[n].1)->Err_0),
        ),
    decreases k - n,
{
    assert(ws.take(k).drop_last() =~= ws.take(k - 1));
    if k == n + 1 {
        assert(ws.take(k).last() == ws[n]);
    } else {
        lemma_user_writes_stay_stopped(maps, mem, ws, n, k - 1);
    }
}

/// What reading slot `idx` of the table at `table` gives: the entry, or
/// why it lies outside memory.
pub open spec fn spec_read_pte(mem: Seq<u8>, table: u64, idx: u64) -> Result<u64, GuestError> {
    let addr = (table + idx * 8) as u64;
    match spec_guest_offset(mem.len(), addr) {
        Err(e) => Err(e),
        Ok(off) => if off + 8 > mem.len() {
            Err(GuestError::ReadExceeds { addr, size: 8 })
        } else {
            Ok(le_value(mem.subrange(off, off + 8)))
        },
    }
}

/// What allocating a table page does with the next page `np` of a reserve
/// ending at `pt_end`: the page or the error, the memory after, and the
/// next page after.
pub open spec fn spec_alloc_table(mem: Seq<u8>, np: u64, pt_end: u64) -> (Result<u64, GuestError>, Seq<u8>, u64) {
    if np + PAGE_SIZE > u64::MAX {
        (Err(GuestError::PageTableOverflow), mem, np)
    } else if np + PAGE_SIZE > pt_end {
        (Err(GuestError::PageTableExhausted), mem, (np + PAGE_SIZE) as u64)
    } else {
        match write_guest_error(mem.len(), np, PAGE_SIZE as nat) {
            Some(e) => (Err(e), mem, (np + PAGE_SIZE) as u64),
            None => (Ok(np), zero_page(mem, np - DRAM_BASE), (np + PAGE_SIZE) as u64),
        }
    }
}

/// What finding (or allocating and linking) the table below slot `idx` of
/// `table` does: the table or the error, the memory after, and the next
/// page of the table allocator after.
pub open spec fn spec_ensure_table(mem: Seq<u8>, np: u64, pt_end: u64, table: u64, idx: u64) -> (
    Result<u64, GuestError>,
    Seq<u8>,
    u64,
) {
    match spec_read_pte(mem, table, idx) {
        Err(e) => (Err(e), mem, np),
        Ok(pte) => if pte & 1 != 0 {
            (Ok(pte_table(pte)), mem, np)
        } else {
            let (a, m1, n1) = spec_alloc_table(mem, np, pt_end);
            match a {
                Err(e) => (Err(e), m1, n1),
                Ok(c) => match write_guest_error(m1.len(), (table + idx * 8) as u64, 8) {
                    Some(e) => (Err(e), m1, n1),
                    None => (Ok(c), spliced(m1, table + idx * 8 - DRAM_BASE, le_bytes(table_pte(c))), n1),
                },
            }
        },
    }
}

/// What mapping the page of `virt` to the page of `phys` does to the tables
/// rooted at `root`: success or the error, the memory after, and the next
/// page of the table allocator after.
pub open spec fn spec_map_page(mem: Seq<u8>, np: u64, pt_end: u64, root: u64, virt: u64, phys: u64, flags: u64) -> (
    Result<(), GuestError>,
    Seq<u8>,
    u64,
) {
    let (r2, m1, n1) = spec_ensure_table(mem, np, pt_end, root, vpn(virt, 2));
    match r2 {
        Err(e) => (Err(e), m1, n1),
        Ok(l2) => {
            let (r1, m2, n2) = spec_ensure_table(m1, n1, pt_end, l2, vpn(virt, 1));
            match r1 {
                Err(e) => (Err(e), m2, n2),
                Ok(l1) => match write_guest_error(m2.len(), (l1 + vpn(virt, 0) * 8) as u64, 8) {
                    Some(e) => (Err(e), m2, n2),
                    None => (
                        Ok(()),
                        spliced(m2, l1 + vpn(virt, 0) * 8 - DRAM_BASE, le_bytes(leaf_pte(phys, flags))),
                        n2,
                    ),
                },
            }
        },
    }
}

/// Mapping `n` consecutive pages from `vaddr` to consecutive pages from
/// `paddr`, stopping at the first error.
pub open spec fn spec_map_pages(
    mem: Seq<u8>,
    np: u64,
    pt_end: u64,
    root: u64,
    vaddr: u64,
    paddr: u64,
    n: nat,
    flags: u64,
) -> (Result<(), GuestError>, Seq<u8>, u64)
    decreases n,
{
    if n == 0 {
        (Ok(()), mem, np)
    } else {
        let (r, m1, n1) = spec_map_page(mem, np, pt_end, root, vaddr, paddr, flags);
        if r is Err {
            (r, m1, n1)
        } else if paddr + PAGE_SIZE > u64::MAX {
            (Err(GuestError::AddressOverflow), m1, n1)
        } else {
            spec_map_pages(m1, n1, pt_end, root, (vaddr + PAGE_SIZE) as u64, (paddr + PAGE_SIZE) as u64, (n - 1) as nat, flags)
        }
    }
}

/// What mapping `virt..virt + len` onto the pages from `phys` does: nothing
/// for an empty range, an overflow error for a range too close to the top
/// of the address space, and otherwise each page in turn.
pub open spec fn spec_map_range(mem: Seq<u8>, np: u64, pt_end: u64, root: u64, virt: u64, phys: u64, len: u64, flags: u64) -> (
    Result<(), GuestError>,
    Seq<u8>,
    u64,
) {
    if len == 0 {
        (Ok(()), mem, np)
    } else if virt + len + PAGE_SIZE > u64::MAX {
        (Err(GuestError::AddressOverflow), mem, np)
    } else {
        spec_map_pages(
            mem,
            np,
            pt_end,
            root,
            spec_align_down(virt, PAGE_SIZE),
            spec_align_down(phys, PAGE_SIZE),
            ((spec_align_up((virt + len) as u64, PAGE_SIZE) - spec_align_down(virt, PAGE_SIZE)) / PAGE_SIZE as int) as nat,
            flags,
        )
    }
}

/// The index of the first freed range of at least `size` bytes.
pub open spec fn first_fit(free: Seq<(u64, u64)>, size: u64, i: int) -> bool {
    0 <= i < free.len() && free[i].1 >= size && forall|j: int| 0 <= j < i ==> #[trigger] free[j].1 < size
}

/// The address of the freed range that taking `size` bytes uses: the
/// first one large enough, unless splitting it would overflow.
pub open spec fn spec_take_free(free: Seq<(u64, u64)>, size: u64) -> Option<u64> {
    if exists|i: int| #[trigger] first_fit(free, size, i) {
        let i = choose|i: int| #[trigger] first_fit(free, size, i);
        if free[i].1 != size && free[i].0 + size > u64::MAX {
            None
        } else {
            Some(free[i].0)
        }
    } else {
        None
    }
}

/// Only one freed range is the first large enough.
pub proof fn lemma_first_fit_unique(free: Seq<(u64, u64)>, size: u64, i: int, j: int)
    requires
        first_fit(free, size, i),
        first_fit(free, size, j),
    ensures
        i == j,
{
    if i < j {
        assert(free[i].1 < size);
    } else if j < i {
        assert(free[j].1 < size);
    }
}

/// Where `size` bytes of user memory come from: a freed range, or else the
/// page reserve when it has room.
pub open spec fn spec_user_pages_at(free: Seq<(u64, u64)>, next_page: u64, page_end: u64, size: u64) -> Result<
    u64,
    GuestError,
> {
    match spec_take_free(free, size) {
        Some(p) => Ok(p),
        None => if next_page + size > u64::MAX {
            Err(GuestError::PageAllocatorOverflow)
        } else if next_page + size > page_end {
            Err(GuestError::PageReserveExhausted)
        } else {
            Ok(next_page)
        },
    }
}

/// What allocating `len` bytes of user pages at `virt` does: their address
/// or the error, and the memory after (the pages zeroed and mapped).
pub open spec fn spec_alloc_user_pages(mem: Seq<u8>, vm: &PkVm, virt: u64, len: u64, flags: u64) -> (
    Result<u64, GuestError>,
    Seq<u8>,
) {
    if len + PAGE_SIZE > u64::MAX {
        (Err(GuestError::AddressOverflow), mem)
    } else {
        let size = spec_align_up(len, PAGE_SIZE);
        match spec_user_pages_at(vm.free_pages@, vm.next_page, vm.page_end, size) {
            Err(e) => (Err(e), mem),
            Ok(p) => match spec_guest_offset(mem.len(), p) {
                Err(e) => (Err(e), mem),
                Ok(off) => if off + size > mem.len() {
                    (Err(GuestError::PagesExceedMemory { addr: p, size }), mem)
                } else {
                    let (res, m2, n2) = spec_map_range(
                        spliced(mem, off, Seq::new(size as nat, |k: int| 0u8)),
                        vm.next_pt,
                        vm.pt_end,
                        vm.root,
                        virt,
                        p,
                        size,
                        flags,
                    );
                    (
                        match res {
                            Ok(()) => Ok(p),
                            Err(e) => Err(e),
                        },
                        m2,
                    )
                },
            },
        }
    }
}

impl PkVm {
    /// Sets up the allocators and allocates the root table, the first
    /// page-table page.
    pub fn new(memory: &mut Vec<u8>, root: u64, pt_end: u64, next_page: u64, page_end: u64) -> (r:
        Result<PkVm, GuestError>)
        ensures
            r matches Ok(vm) ==> vm.root == root && vm.pt_end == pt_end && vm.next_page == next_page
                && vm.page_end == page_end && vm.next_pt == root + PAGE_SIZE && vm.free_pages@.len()
                == 0 && vm.maps@.len() == 0,
            if root + PAGE_SIZE > u64::MAX {
                r == Err::<PkVm, GuestError>(GuestError::PageTableOverflow) && final(memory)@ == old(memory)@
            } else if root + PAGE_SIZE > pt_end {
                r == Err::<PkVm, GuestError>(GuestError::PageTableExhausted) && final(memory)@ == old(memory)@
            } else {
                match write_guest_error(old(memory)@.len(), root, PAGE_SIZE as nat) {
                    Some(e) => r == Err::<PkVm, GuestError>(e) && final(memory)@ == old(memory)@,
                    None => r is Ok && final(memory)@ == zero_page(old(memory)@, root - DRAM_BASE),
                }
            },
            root % PAGE_SIZE == 0 ==> (r matches Ok(vm) ==> pt_wf(final(memory)@, vm.root, vm.next_pt)),
    {
        let mut vm = PkVm {
            root,
            next_pt: root,
            pt_end,
            next_page,
            page_end,
            free_pages: Vec::new(),
            maps: Vec::new(),
        };
        match vm.alloc_table(memory) {
            Ok(_) => {
                proof {
                    if root % PAGE_SIZE == 0 {
                        lemma_fresh_root(old(memory)@, root);
                    }
                }
                Ok(vm)
            },
            Err(e) => Err(e),
        }
    }

    /// The `satp` register value for this address space.
    pub fn satp(&self) -> (r: u64)
        ensures
            r == spec_satp(self.root),
    {
        (8u64 << 60u64) | ((self.root >> 12u64) & 0x0000_0fff_ffff_ffffu64)
    }

    /// Allocates and zeroes a page-table page. The allocator advances even
    /// when the page turns out to lie past the reserve or outside memory.
    pub fn alloc_table(&mut self, memory: &mut Vec<u8>) -> (r: Result<u64, GuestError>)
        ensures
            final(self).root == old(self).root,
            final(self).pt_end == old(self).pt_end,
            final(self).next_page == old(self).next_page,
            final(self).page_end == old(self).page_end,
            final(self).free_pages == old(self).free_pages,
            final(self).maps == old(self).maps,
            if old(self).next_pt + PAGE_SIZE > u64::MAX {
                r == Err::<u64, GuestError>(GuestError::PageTableOverflow) && final(self).next_pt
                    == old(self).next_pt && final(memory)@ == old(memory)@
            } else {
                &&& final(self).next_pt == old(self).next_pt + PAGE_SIZE
                &&& if final(self).next_pt > old(self).pt_end {
                    r == Err::<u64, GuestError>(GuestError::PageTableExhausted) && final(memory)@
                        == old(memory)@
                } else {
                    match write_guest_error(old(memory)@.len(), old(self).next_pt, PAGE_SIZE as nat) {
                        None => r == Ok::<u64, GuestError>(old(self).next_pt) && final(memory)@
                            == zero_page(old(memory)@, old(self).next_pt - DRAM_BASE),
                        Some(e) => r == Err::<u64, GuestError>(e) && final(memory)@ == old(memory)@,
                    }
                }
            },
    {
        let table = self.next_pt;
        if table > u64::MAX - PAGE_SIZE {
            return Err(GuestError::PageTableOverflow);
        }
        self.next_pt = table + PAGE_SIZE;
        if self.next_pt > self.pt_end {
            return Err(GuestError::PageTableExhausted);
        }
        let zeros = zero_bytes(PAGE_SIZE as usize);
        match write_guest(memory, table, zeros.as_slice()) {
            Ok(()) => Ok(table),
            Err(e) => Err(e),
        }
    }

    /// Reads the entry at slot `idx` of the table at `table`.
    pub fn read_pte(&self, memory: &Vec<u8>, table: u64, idx: u64) -> (r: Result<u64, GuestError>)
        requires
            table + idx * 8 <= u64::MAX,
        ensures
            match r {
                Ok(v) => pte_at(memory@, table, idx) == Some(v),
                Err(_) => pte_at(memory@, table, idx) is None,
            },
            r == spec_read_pte(memory@, table, idx),
    {
        let addr = table + idx * 8;
        let off = match guest_offset(memory.as_slice(), addr) {
            Ok(off) => off,
            Err(e) => {
                return Err(e);
            },
        };
        if memory.len() - off < 8 {
            return Err(GuestError::ReadExceeds { addr, size: 8 });
        }
        Ok(u64_from_le(memory.as_slice(), off))
    }

    /// Writes `value` to slot `idx` of the table at `table`.
    pub fn write_pte(&self, memory: &mut Vec<u8>, table: u64, idx: u64, value: u64) -> (r: Result<
        (),
        GuestError,
    >)
        requires
            table + idx * 8 <= u64::MAX,
        ensures
            match r {
                Ok(()) => write_guest_error(old(memory)@.len(), (table + idx * 8) as u64, 8)
                    is None && final(memory)@ == spliced(
                    old(memory)@,
                    table + idx * 8 - DRAM_BASE,
                    le_bytes(value),
                ),
                Err(e) => write_guest_error(old(memory)@.len(), (table + idx * 8) as u64, 8)
                    == Some(e) && final(memory)@ == old(memory)@,
            },
    {
        let bytes = u64_to_le(value);
        write_guest(memory, table + idx * 8, bytes.as_slice())
    }

    /// The table that slot `idx` of `table` points to, allocating and
    /// linking a new one when the slot is not valid.
    pub fn ensure_table(&mut self, memory: &mut Vec<u8>, table: u64, idx: u64) -> (r: Result<
        u64,
        GuestError,
    >)
        requires
            table + idx * 8 <= u64::MAX,
        ensures
            final(self).root == old(self).root,
            final(self).pt_end == old(self).pt_end,
            final(self).next_page == old(self).next_page,
            final(self).page_end == old(self).page_end,
            final(self).free_pages == old(self).free_pages,
            final(self).maps == old(self).maps,
            final(self).next_pt >= old(self).next_pt,
            final(memory)@.len() == old(memory)@.len(),
            match pte_at(old(memory)@, table, idx) {
                None => r is Err && final(self).next_pt == old(self).next_pt && final(memory)@ == old(memory)@,
                Some(pte) => if pte & 1 != 0 {
                    r == Ok::<u64, GuestError>(pte_table(pte)) && final(self).next_pt == old(self).next_pt && final(memory)@ == old(memory)@
                } else {
                    &&& r matches Ok(child) ==> {
                        &&& child == old(self).next_pt
                        &&& final(self).next_pt == old(self).next_pt + PAGE_SIZE
                        &&& DRAM_BASE <= child
                        &&& child + PAGE_SIZE - DRAM_BASE <= old(memory)@.len()
                        &&& final(memory)@ == spliced(
                            zero_page(old(memory)@, child - DRAM_BASE),
                            table + idx * 8 - DRAM_BASE,
                            le_bytes(table_pte(child)),
                        )
                        &&& pte_at(final(memory)@, table, idx) == Some(table_pte(child))
                    }
                    &&& r is Err ==> {
                        ||| final(self).next_pt == old(self).next_pt && final(memory)@ == old(memory)@
                        ||| final(self).next_pt == old(self).next_pt + PAGE_SIZE && final(memory)@ == old(memory)@
                        ||| {
                            &&& final(self).next_pt == old(self).next_pt + PAGE_SIZE
                            &&& DRAM_BASE <= old(self).next_pt
                            &&& old(self).next_pt + PAGE_SIZE - DRAM_BASE <= old(memory)@.len()
                            &&& final(memory)@ == zero_page(old(memory)@, old(self).next_pt - DRAM_BASE)
                        }
                    }
                },
            },
            (r, final(memory)@, final(self).next_pt) == spec_ensure_table(
                old(memory)@,
                old(self).next_pt,
                old(self).pt_end,
                table,
                idx,
            ),
            pt_wf(old(memory)@, old(self).root, old(self).next_pt) && idx < PTES_PER_TABLE && (table
                == old(self).root || is_level_one(old(memory)@, old(self).root, table)) ==> {
                &&& pt_wf(final(memory)@, final(self).root, final(self).next_pt)
                &&& table != old(self).root ==> forall|i: u64|
                    i < PTES_PER_TABLE ==> #[trigger] pte_at(final(memory)@, old(self).root, i) == pte_at(
                        old(memory)@,
                        old(self).root,
                        i,
                    )
                &&& r matches Ok(c) ==> slot_valid(final(memory)@, table, idx) && slot_child(
                    final(memory)@,
                    table,
                    idx,
                ) == c
                &&& r is Ok ==> forall|u: u64| #[trigger]
                    walk_reaches(old(memory)@, old(self).root, u) ==> walk_reaches(final(memory)@, old(self).root, u)
                        && table_walk(final(memory)@, old(self).root, u) == table_walk(old(memory)@, old(self).root, u)
            },
    {
        let ghost m0 = memory@;
        let ghost np0 = self.next_pt;
        let ghost hyp = pt_wf(m0, self.root, np0) && idx < PTES_PER_TABLE && (table == self.root
            || is_level_one(m0, self.root, table));
        let pte = match self.read_pte(memory, table, idx) {
            Ok(p) => p,
            Err(e) => {
                return Err(e);
            },
        };
        if pte & 1 != 0 {
            return Ok(((pte >> 10u64) << 12u64) & !0xfffu64);
        }
        let child = match self.alloc_table(memory) {
            Ok(c) => c,
            Err(e) => {
                proof {
                    if hyp {
                        if memory@ == m0 {
                            lemma_wf_grow(m0, self.root, np0, self.next_pt);
                        } else {
                            lemma_wf_after_zero(m0, self.root, np0);
                        }
                    }
                }
                return Err(e);
            },
        };
        let entry = ((child >> 12u64) << 10u64) | 1u64;
        match self.write_pte(memory, table, idx, entry) {
            Ok(()) => {
                proof {
                    let addr = (table + idx * 8) as u64;
                    let off = addr - DRAM_BASE;
                    assert(memory@.subrange(off, off + 8) =~= le_bytes(entry));
                    crate::guest::lemma_le_round_trip(entry);
                    if hyp {
                        lemma_link(m0, self.root, np0, table, idx);
                    }
                }
                Ok(child)
            },
            Err(e) => {
                proof {
                    if hyp {
                        lemma_wf_after_zero(m0, self.root, np0);
                    }
                }
                Err(e)
            },
        }
    }
}


/// The fields of `b` other than the page-table allocator and the mappings
/// are those of `a`.
pub open spec fn same_allocators(a: &PkVm, b: &PkVm) -> bool {
    &&& b.root == a.root
    &&& b.pt_end == a.pt_end
    &&& b.next_page == a.next_page
    &&& b.page_end == a.page_end
    &&& b.free_pages == a.free_pages
}

impl PkVm {
    /// Maps the page of `virt` to the page of `phys` with `flags`,
    /// allocating intermediate tables as needed.
    pub fn map_page(&mut self, memory: &mut Vec<u8>, virt: u64, phys: u64, flags: u64) -> (r: Result<
        (),
        GuestError,
    >)
        requires
            old(self).root + PAGE_SIZE <= u64::MAX,
        ensures
            same_allocators(old(self), final(self)),
            final(self).maps == old(self).maps,
            final(self).next_pt >= old(self).next_pt,
            final(memory)@.len() == old(memory)@.len(),
            r is Ok ==> exists|l1: u64|
                pte_at(final(memory)@, l1, vpn(virt, 0)) == Some(#[trigger] leaf_pte(phys, flags)),
            pt_wf(old(memory)@, old(self).root, old(self).next_pt) ==> pt_wf(
                final(memory)@,
                final(self).root,
                final(self).next_pt,
            ),
            (r, final(memory)@, final(self).next_pt) == spec_map_page(
                old(memory)@,
                old(self).next_pt,
                old(self).pt_end,
                old(self).root,
                virt,
                phys,
                flags,
            ),
            pt_wf(old(memory)@, old(self).root, old(self).next_pt) && r is Ok ==> table_walk(
                final(memory)@,
                final(self).root,
                virt,
            ) == Some(leaf_pte(phys, flags)) && walk_reaches(final(memory)@, final(self).root, virt),
            pt_wf(old(memory)@, old(self).root, old(self).next_pt) && r is Ok ==> forall|u: u64|
                #[trigger] walk_reaches(old(memory)@, old(self).root, u) && !same_slots(u, virt) ==> walk_reaches(
                    final(memory)@,
                    final(self).root,
                    u,
                ) && table_walk(final(memory)@, final(self).root, u) == table_walk(old(memory)@, old(self).root, u),
    {
        let ghost wf0 = pt_wf(memory@, self.root, self.next_pt);
        let v0 = (virt >> 12u64) & 0x1ffu64;
        let v1 = (virt >> 21u64) & 0x1ffu64;
        let v2 = (virt >> 30u64) & 0x1ffu64;
        assert(v0 == vpn(virt, 0) && v1 == vpn(virt, 1) && v2 == vpn(virt, 2));
        assert(v0 <= 0x1ff && v1 <= 0x1ff && v2 <= 0x1ff) by (bit_vector)
            requires
                v0 == (virt >> 12u64) & 0x1ffu64,
                v1 == (virt >> 21u64) & 0x1ffu64,
                v2 == (virt >> 30u64) & 0x1ffu64,
        ;
        let root = self.root;
        let ghost m0 = memory@;
        let l2 = match self.ensure_table(memory, root, v2) {
            Ok(t) => t,
            Err(e) => {
                return Err(e);
            },
        };
        assert(l2 + 0x1ff * 8 <= u64::MAX) by {
            assert(forall|p: u64| #[trigger] pte_table(p) <= 0xffff_ffff_ffff_f000u64) by {
                assert(forall|p: u64| (((p >> 10u64) << 12u64) & !0xfffu64) <= 0xffff_ffff_ffff_f000u64) by (bit_vector);
            }
        }
        let ghost m1 = memory@;
        proof {
            if wf0 {
                assert(is_level_one(memory@, root, l2));
            }
        }
        let l1 = match self.ensure_table(memory, l2, v1) {
            Ok(t) => t,
            Err(e) => {
                return Err(e);
            },
        };
        let ghost m2 = memory@;
        let ghost np2 = self.next_pt;
        assert(l1 + 0x1ff * 8 <= u64::MAX) by {
            assert(forall|p: u64| #[trigger] pte_table(p) <= 0xffff_ffff_ffff_f000u64) by {
                assert(forall|p: u64| (((p >> 10u64) << 12u64) & !0xfffu64) <= 0xffff_ffff_ffff_f000u64) by (bit_vector);
            }
        }
        let leaf = ((phys >> 12u64) << 10u64) | flags | 0x1u64 | 0x10u64 | 0x40u64 | 0x80u64;
        match self.write_pte(memory, l1, v0, leaf) {
            Ok(()) => {
                proof {
                    let off = l1 + v0 * 8 - DRAM_BASE;
                    assert(memory@.subrange(off, off + 8) =~= le_bytes(leaf));
                    crate::guest::lemma_le_round_trip(leaf);
                    assert(pte_at(memory@, l1, vpn(virt, 0)) == Some(leaf_pte(phys, flags)));
                    if wf0 {
                        assert(slot_valid(m2, root, v2));
                        lemma_write_leaf(m2, root, np2, virt, leaf);
                        assert(leaf == leaf_pte(phys, flags));
                        assert forall|u: u64| #[trigger]
                            walk_reaches(m0, root, u) && !same_slots(u, virt) implies walk_reaches(memory@, root, u)
                            && table_walk(memory@, root, u) == table_walk(m0, root, u) by {
                            assert(walk_reaches(m1, root, u));
                            assert(walk_reaches(m2, root, u));
                        }
                    }
                }
                Ok(())
            },
            Err(e) => Err(e),
        }
    }

    /// Maps the pages covering `virt..virt + len` to consecutive pages from
    /// the page of `phys`, and records the mapping.
    pub fn map_range(&mut self, memory: &mut Vec<u8>, virt: u64, phys: u64, len: u64, flags: u64) -> (r:
        Result<(), GuestError>)
        requires
            old(self).root + PAGE_SIZE <= u64::MAX,
        ensures
            same_allocators(old(self), final(self)),
            final(memory)@.len() == old(memory)@.len(),
            match r {
                Ok(()) => if len == 0 {
                    final(self).maps == old(self).maps
                } else {
                    virt + len + PAGE_SIZE <= u64::MAX && final(self).maps@ == old(self).maps@.push(
                        range_map(virt, phys, len),
                    )
                },
                Err(_) => final(self).maps == old(self).maps,
            },
            pt_wf(old(memory)@, old(self).root, old(self).next_pt) ==> pt_wf(
                final(memory)@,
                final(self).root,
                final(self).next_pt,
            ),
            (r, final(memory)@, final(self).next_pt) == spec_map_range(
                old(memory)@,
                old(self).next_pt,
                old(self).pt_end,
                old(self).root,
                virt,
                phys,
                len,
                flags,
            ),
            pt_wf(old(memory)@, old(self).root, old(self).next_pt) && r is Ok && len > 0 && spec_align_up(
                (virt + len) as u64,
                PAGE_SIZE,
            ) - spec_align_down(virt, PAGE_SIZE) <= 0x80_0000_0000 ==> forall|x: u64|
                spec_align_down(virt, PAGE_SIZE) <= x < spec_align_up((virt + len) as u64, PAGE_SIZE) && x
                    % PAGE_SIZE == 0 ==> #[trigger] table_walk(final(memory)@, final(self).root, x) == Some(
                    leaf_pte((spec_align_down(phys, PAGE_SIZE) + (x - spec_align_down(virt, PAGE_SIZE))) as u64, flags),
                ),
    {
        if len == 0 {
            return Ok(());
        }
        if virt > u64::MAX - len || virt + len > u64::MAX - PAGE_SIZE {
            return Err(GuestError::AddressOverflow);
        }
        let virt_start = align_down(virt, PAGE_SIZE);
        let phys_start = align_down(phys, PAGE_SIZE);
        let virt_end = align_up(virt + len, PAGE_SIZE);
        proof {
            crate::guest::lemma_page_alignment(virt);
            crate::guest::lemma_page_alignment((virt + len) as u64);
        }
        let mut vaddr = virt_start;
        let mut paddr = phys_start;
        let ghost law = pt_wf(old(memory)@, old(self).root, old(self).next_pt) && virt_end - virt_start
            <= 0x80_0000_0000;
        while vaddr < virt_end
            invariant
                law == (pt_wf(old(memory)@, old(self).root, old(self).next_pt) && virt_end - virt_start
                    <= 0x80_0000_0000),
                virt_start <= vaddr,
                paddr == phys_start + (vaddr - virt_start),
                law ==> forall|x: u64|
                    virt_start <= x < vaddr && x % PAGE_SIZE == 0 ==> walk_reaches(memory@, self.root, x)
                        && #[trigger] table_walk(memory@, self.root, x) == Some(
                        leaf_pte((phys_start + (x - virt_start)) as u64, flags),
                    ),
                same_allocators(old(self), self),
                self.maps == old(self).maps,
                memory@.len() == old(memory)@.len(),
                self.root + PAGE_SIZE <= u64::MAX,
                vaddr <= virt_end,
                vaddr % 4096 == 0,
                virt_end % 4096 == 0,
                virt_start <= virt_end,
                pt_wf(old(memory)@, old(self).root, old(self).next_pt) ==> pt_wf(memory@, self.root, self.next_pt),
                spec_map_range(old(memory)@, old(self).next_pt, old(self).pt_end, old(self).root, virt, phys, len, flags)
                    == spec_map_pages(memory@, self.next_pt, self.pt_end, self.root, vaddr, paddr, ((virt_end - vaddr)
                    / PAGE_SIZE as int) as nat, flags),
            decreases virt_end - vaddr,
        {
            assert(vaddr + 4096 <= virt_end && (virt_end - vaddr) / 4096 == 1 + (virt_end - (vaddr + 4096))
                / 4096) by (nonlinear_arith)
                requires
                    vaddr < virt_end,
                    vaddr % 4096 == 0,
                    virt_end % 4096 == 0,
            ;
            let ghost before = memory@;
            match self.map_page(memory, vaddr, paddr, flags) {
                Ok(()) => {},
                Err(e) => {
                    return Err(e);
                },
            }
            proof {
                if law {
                    assert forall|x: u64|
                        virt_start <= x < vaddr + PAGE_SIZE && x % PAGE_SIZE == 0 implies walk_reaches(
                        memory@,
                        self.root,
                        x,
                    ) && #[trigger] table_walk(memory@, self.root, x) == Some(
                        leaf_pte((phys_start + (x - virt_start)) as u64, flags),
                    ) by {
                        if x < vaddr {
                            assert(walk_reaches(before, self.root, x));
                            assert(table_walk(before, self.root, x) == Some(
                                leaf_pte((phys_start + (x - virt_start)) as u64, flags),
                            ));
                            lemma_distinct_slots(x, vaddr);
                        } else {
                            assert(x == vaddr) by (nonlinear_arith)
                                requires
                                    vaddr <= x < vaddr + 4096,
                                    x % 4096 == 0,
                                    vaddr % 4096 == 0,
                            ;
                        }
                    }
                }
            }
            if paddr > u64::MAX - PAGE_SIZE {
                return Err(GuestError::AddressOverflow);
            }
            vaddr = vaddr + PAGE_SIZE;
            paddr = paddr + PAGE_SIZE;
        }
        self.maps.push(GuestMap { virt: virt_start, phys: phys_start, len: virt_end - virt_start });
        Ok(())
    }

    /// The most recent mapping that covers `virt..virt + len`, and the
    /// physical address of `virt` in it.
    pub fn virt_to_phys(&self, virt: u64, len: u64) -> (r: Option<u64>)
        ensures
            r == spec_virt_to_phys(self.maps@, virt, len),
    {
        if virt > u64::MAX - len {
            return None;
        }
        let end = virt + len;
        let mut i = self.maps.len();
        assert(self.maps@.take(i as int) =~= self.maps@);
        while i > 0
            invariant
                i <= self.maps@.len(),
                end == virt + len,
                spec_virt_to_phys(self.maps@, virt, len) == spec_virt_to_phys(
                    self.maps@.take(i as int),
                    virt,
                    len,
                ),
            decreases i,
        {
            let m = self.maps[i - 1];
            let ghost t = self.maps@.take(i as int);
            assert(t.last() == m);
            assert(t.drop_last() =~= self.maps@.take(i - 1));
            if m.virt > u64::MAX - m.len {
                return None;
            }
            if virt >= m.virt && end <= m.virt + m.len {
                if m.phys > u64::MAX - (virt - m.virt) {
                    return None;
                }
                return Some(m.phys + (virt - m.virt));
            }
            i = i - 1;
        }
        None
    }

    /// Takes `size` bytes from the first freed range large enough, splitting
    /// it when it is larger.
    #[verifier::loop_isolation(false)]
    pub fn take_free_pages(&mut self, size: u64) -> (r: Option<u64>)
        ensures
            r == spec_take_free(old(self).free_pages@, size),
            final(self).root == old(self).root,
            final(self).next_pt == old(self).next_pt,
            final(self).pt_end == old(self).pt_end,
            final(self).next_page == old(self).next_page,
            final(self).page_end == old(self).page_end,
            final(self).maps == old(self).maps,
            match r {
                None => final(self).free_pages == old(self).free_pages && ((forall|j: int|
                    0 <= j < old(self).free_pages@.len() ==> #[trigger] old(self).free_pages@[j].1
                        < size) || exists|i: int|
                    #[trigger] first_fit(old(self).free_pages@, size, i) && old(self).free_pages@[i].1
                        != size && old(self).free_pages@[i].0 + size > u64::MAX),
                Some(phys) => exists|i: int|
                    #[trigger] first_fit(old(self).free_pages@, size, i) && phys == old(self).free_pages@[i].0
                        && if old(self).free_pages@[i].1 == size {
                        final(self).free_pages@ == old(self).free_pages@.update(
                            i,
                            old(self).free_pages@.last(),
                        ).drop_last()
                    } else {
                        phys + size <= u64::MAX && final(self).free_pages@ == old(self).free_pages@.update(
                            i,
                            ((phys + size) as u64, (old(self).free_pages@[i].1 - size) as u64),
                        )
                    },
            },
    {
        let mut i: usize = 0;
        while i < self.free_pages.len()
            invariant
                i <= self.free_pages@.len(),
                self.free_pages == old(self).free_pages,
                self.root == old(self).root,
                self.next_pt == old(self).next_pt,
                self.pt_end == old(self).pt_end,
                self.next_page == old(self).next_page,
                self.page_end == old(self).page_end,
                self.maps == old(self).maps,
                forall|j: int| 0 <= j < i ==> #[trigger] self.free_pages@[j].1 < size,
            decreases self.free_pages@.len() - i,
        {
            let (phys, len) = self.free_pages[i];
            if len >= size {
                assert(first_fit(old(self).free_pages@, size, i as int));
                proof {
                    let c = choose|k: int| #[trigger] first_fit(old(self).free_pages@, size, k);
                    lemma_first_fit_unique(old(self).free_pages@, size, c, i as int);
                }
                if len == size {
                    let ghost fp = self.free_pages@;
                    self.free_pages.swap_remove(i);
                    assert(self.free_pages@ =~= fp.update(i as int, fp.last()).drop_last());
                } else {
                    if phys > u64::MAX - size {
                        return None;
                    }
                    self.free_pages.set(i, (phys + size, len - size));
                }
                return Some(phys);
            }
            i = i + 1;
        }
        None
    }
}


impl PkVm {
    /// Frees the user pages mapped at `virt..virt + len` (rounded up to whole
    /// pages) for reuse.
    pub fn free_user_pages(&mut self, virt: u64, len: u64) -> (r: Result<(), GuestError>)
        ensures
            final(self).root == old(self).root,
            final(self).next_pt == old(self).next_pt,
            final(self).pt_end == old(self).pt_end,
            final(self).next_page == old(self).next_page,
            final(self).page_end == old(self).page_end,
            final(self).maps == old(self).maps,
            if len + PAGE_SIZE > u64::MAX {
                r == Err::<(), GuestError>(GuestError::AddressOverflow) && final(self).free_pages
                    == old(self).free_pages
            } else {
                match spec_virt_to_phys(old(self).maps@, virt, spec_align_up(len, PAGE_SIZE)) {
                    None => r == Err::<(), GuestError>(GuestError::UnmapNotMapped) && final(self).free_pages == old(self).free_pages,
                    Some(phys) => r is Ok && final(self).free_pages@ == old(self).free_pages@.push(
                        (phys, spec_align_up(len, PAGE_SIZE)),
                    ),
                }
            },
    {
        if len > u64::MAX - PAGE_SIZE {
            return Err(GuestError::AddressOverflow);
        }
        let size = align_up(len, PAGE_SIZE);
        match self.virt_to_phys(virt, size) {
            None => Err(GuestError::UnmapNotMapped),
            Some(phys) => {
                self.free_pages.push((phys, size));
                Ok(())
            },
        }
    }

    /// Writes `bytes` at user virtual address `virt`, through the most
    /// recent mapping that covers them all.
    pub fn write_user(&self, memory: &mut Vec<u8>, virt: u64, bytes: &[u8]) -> (r: Result<
        (),
        GuestError,
    >)
        ensures
            match spec_write_user(self.maps@, old(memory)@, virt, bytes@) {
                Ok(m) => r is Ok && final(memory)@ == m,
                Err(e) => r == Err::<(), GuestError>(e) && final(memory)@ == old(memory)@,
            },
    {
        let n = bytes.len() as u64;
        match self.virt_to_phys(virt, n) {
            None => Err(GuestError::UnmappedUserWrite { addr: virt, size: n }),
            Some(phys) => write_guest(memory, phys, bytes),
        }
    }

    /// Allocates and zeroes `len` bytes (rounded up to whole pages) of user
    /// memory, from a freed range when one is large enough and otherwise
    /// from the page reserve, and maps it at `virt`. Returns its physical
    /// address.
    pub fn alloc_user_pages(&mut self, memory: &mut Vec<u8>, virt: u64, len: u64, flags: u64) -> (r:
        Result<u64, GuestError>)
        requires
            old(self).root + PAGE_SIZE <= u64::MAX,
        ensures
            final(self).root == old(self).root,
            final(self).pt_end == old(self).pt_end,
            final(self).page_end == old(self).page_end,
            final(memory)@.len() == old(memory)@.len(),
            r matches Ok(phys) ==> phys + spec_align_up(len, PAGE_SIZE) <= DRAM_BASE + old(memory)@.len()
                && phys >= DRAM_BASE && len + PAGE_SIZE <= u64::MAX && if spec_align_up(len, PAGE_SIZE) == 0 {
                final(self).maps == old(self).maps
            } else {
                final(self).maps@ == old(self).maps@.push(range_map(virt, phys, spec_align_up(len, PAGE_SIZE)))
            },
            r is Err ==> final(self).maps == old(self).maps,
            pt_wf(old(memory)@, old(self).root, old(self).next_pt) ==> (r matches Ok(phys) ==> (phys
                + spec_align_up(len, PAGE_SIZE) <= old(self).root ==> pt_wf(
                final(memory)@,
                final(self).root,
                final(self).next_pt,
            ))),
            (r, final(memory)@) == spec_alloc_user_pages(old(memory)@, old(self), virt, len, flags),
    {
        if len > u64::MAX - PAGE_SIZE {
            return Err(GuestError::AddressOverflow);
        }
        let size = align_up(len, PAGE_SIZE);
        let phys = match self.take_free_pages(size) {
            Some(phys) => phys,
            None => {
                let phys = self.next_page;
                if self.next_page > u64::MAX - size {
                    return Err(GuestError::PageAllocatorOverflow);
                }
                self.next_page = self.next_page + size;
                if self.next_page > self.page_end {
                    return Err(GuestError::PageReserveExhausted);
                }
                phys
            },
        };
        let off = match guest_offset(memory.as_slice(), phys) {
            Ok(off) => off,
            Err(e) => {
                return Err(e);
            },
        };
        if size > (memory.len() - off) as u64 {
            return Err(GuestError::PagesExceedMemory { addr: phys, size });
        }
        let zeros = zero_bytes(size as usize);
        let ghost m0 = memory@;
        match write_guest(memory, phys, zeros.as_slice()) {
            Ok(()) => {},
            Err(e) => {
                return Err(e);
            },
        }
        proof {
            if pt_wf(m0, self.root, self.next_pt) && phys + size <= self.root {
                let lo = phys - DRAM_BASE;
                let hi = phys + size - DRAM_BASE;
                assert forall|k: int| 0 <= k < m0.len() && (k < lo || hi <= k) implies #[trigger] memory@[k] == m0[k] by {
                    if k < lo {
                        assert(memory@[k] == m0.subrange(0, lo)[k]);
                    } else {
                        assert(memory@[k] == m0.subrange(hi, m0.len() as int)[k - hi]);
                    }
                }
                crate::page_walk::lemma_wf_frame_below(m0, memory@, self.root, self.next_pt, lo, hi);
            }
        }
        match self.map_range(memory, virt, phys, size, flags) {
            Ok(()) => Ok(phys),
            Err(e) => Err(e),
        }
    }
}

/// The mapping that `map_range` records for `virt..virt + len` onto `phys`.
pub open spec fn range_map(virt: u64, phys: u64, len: u64) -> GuestMap {
    GuestMap {
        virt: spec_align_down(virt, PAGE_SIZE),
        phys: spec_align_down(phys, PAGE_SIZE),
        len: (spec_align_up((virt + len) as u64, PAGE_SIZE) - spec_align_down(virt, PAGE_SIZE)) as u64,
    }
}

/// Once a range is mapped, every access inside it translates through the
/// new mapping, whatever was mapped before: the address keeps its offset
/// from the mapped page boundary.
pub proof fn law_new_mapping_translates(maps: Seq<GuestMap>, virt: u64, phys: u64, len: u64, at: u64, size: u64)
    requires
        virt + len + PAGE_SIZE <= u64::MAX,
        virt <= at,
        at + size <= virt + len,
        spec_align_down(phys, PAGE_SIZE) + (at - spec_align_down(virt, PAGE_SIZE)) <= u64::MAX,
    ensures
        spec_virt_to_phys(maps.push(range_map(virt, phys, len)), at, size) == Some(
            (spec_align_down(phys, PAGE_SIZE) + (at - spec_align_down(virt, PAGE_SIZE))) as u64,
        ),
{
    lemma_page_alignment(virt);
    lemma_page_alignment((virt + len) as u64);
    let m = range_map(virt, phys, len);
    assert(maps.push(m).last() == m);
    assert(m.virt + m.len == spec_align_up((virt + len) as u64, PAGE_SIZE));
}

} // verus!
