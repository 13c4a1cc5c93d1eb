//! Preparing guest memory and the first hart's registers for a program:
//! thread-local storage, the device tree, the proxy kernel's trap
//! trampoline, address space and initial stack, and the mappings that
//! system calls add.

use vstd::prelude::*;
use crate::bank::DRAM_BASE;
use crate::guest::{
    align_down, align_up, guest_offset, le_bytes, spec_align_down, spec_align_up,
    spec_guest_offset, spliced, u64_to_le, write_guest, write_guest_error, GuestError, PAGE_SIZE,
};
use crate::page_walk::pt_wf;
use crate::pk::{
    lemma_user_writes_stop, same_allocators, spec_map_range, spec_satp, zero_page, spec_user_writes, spec_virt_to_phys, GuestMap, PkVm, PK_HIGH_RESERVE, PK_MMAP_CEILING, PK_PT_RESERVE, SYS_BRK,
    SYS_MMAP, SYS_MUNMAP, USER_STACK_SIZE, USER_TOP,
};

verus! {

/// A loadable segment of the program.
#[derive(Clone, Copy, Debug, PartialEq, Eq, Structural)]
pub struct LoadSegment {
    pub vaddr: u64,
    pub memsz: u64,
    /// ELF permission bits: execute 1, write 2, read 4.
    pub flags: u32,
}

/// The program's thread-local storage template.
#[derive(Clone, Copy, Debug, PartialEq, Eq, Structural)]
pub struct TlsInfo {
    pub vaddr: u64,
    pub filesz: u64,
    pub memsz: u64,
    pub align: u64,
}

/// Where the program headers were loaded.
#[derive(Clone, Copy, Debug, PartialEq, Eq, Structural)]
pub struct ProgramHeaders {
    pub addr: u64,
    pub entry_size: u64,
    pub count: u64,
}

/// What loading the program found out about it.
#[derive(Clone, Debug)]
pub struct ElfAnalysis {
    pub original_entry: u64,
    pub entry: u64,
    pub min_vaddr: u64,
    pub max_vaddr: u64,
    pub image_end: u64,
    pub needs_relocation: bool,
    pub is_pie: bool,
    pub load_segments: Vec<LoadSegment>,
}

/// A program loaded into guest memory.
#[derive(Clone, Debug)]
pub struct LoadInfo {
    pub entry: u64,
    pub image_end: u64,
    pub tls: Option<TlsInfo>,
    pub analysis: ElfAnalysis,
    pub program_headers: ProgramHeaders,
}

/// A loaded program can start only where guest memory is: its entry lies
/// in `DRAM_BASE..DRAM_BASE + mem_len`.
pub fn check_loaded_entry(load: &LoadInfo, mem_len: usize) -> (r: Result<(), GuestError>)
    ensures
        r is Ok <==> DRAM_BASE <= load.entry < DRAM_BASE + mem_len,
        r is Err ==> r == Err::<(), GuestError>(GuestError::EntryOutsideMemory { entry: load.entry }),
{
    if load.entry < DRAM_BASE || load.entry - DRAM_BASE >= mem_len as u64 {
        Err(GuestError::EntryOutsideMemory { entry: load.entry })
    } else {
        Ok(())
    }
}

/// The initial values of the stack pointer and the argument registers.
#[derive(Clone, Copy, Debug, PartialEq, Eq, Structural)]
pub struct InitialRegs {
    pub sp: u64,
    pub a0: u64,
    pub a1: u64,
    pub a2: u64,
}

/// The user address of loaded image address `phys`: images that were not
/// moved keep their addresses; moved ones are shifted back to their link
/// addresses.
pub open spec fn spec_user_image_addr(load: &LoadInfo, phys: u64) -> Result<u64, GuestError> {
    if !load.analysis.is_pie && !load.analysis.needs_relocation {
        Ok(phys)
    } else if phys < DRAM_BASE || phys > load.image_end {
        Err(GuestError::ImageAddress { addr: phys })
    } else if load.analysis.min_vaddr + (phys - DRAM_BASE) > u64::MAX {
        Err(GuestError::AddressOverflow)
    } else {
        Ok((load.analysis.min_vaddr + (phys - DRAM_BASE)) as u64)
    }
}

/// The user address of loaded image address `phys`.
pub fn user_image_addr(load: &LoadInfo, phys: u64) -> (r: Result<u64, GuestError>)
    ensures
        r == spec_user_image_addr(load, phys),
{
    if !load.analysis.is_pie && !load.analysis.needs_relocation {
        return Ok(phys);
    }
    if phys < DRAM_BASE || phys > load.image_end {
        return Err(GuestError::ImageAddress { addr: phys });
    }
    if load.analysis.min_vaddr > u64::MAX - (phys - DRAM_BASE) {
        return Err(GuestError::AddressOverflow);
    }
    Ok(load.analysis.min_vaddr + (phys - DRAM_BASE))
}

/// The RISC-V `jal x0, offset` instruction.
pub open spec fn spec_jal(offset: u64) -> u32 {
    let imm20 = ((offset >> 20u64) & 0x1) as u32;
    let imm10_1 = ((offset >> 1u64) & 0x3ff) as u32;
    let imm11 = ((offset >> 11u64) & 0x1) as u32;
    let imm19_12 = ((offset >> 12u64) & 0xff) as u32;
    0x6fu32 | (imm19_12 << 12u32) | (imm11 << 20u32) | (imm10_1 << 21u32) | (imm20 << 31u32)
}

/// Encodes `jal x0, offset` for a forward offset.
pub fn encode_jal(offset: u64) -> (r: u32)
    ensures
        r == spec_jal(offset),
{
    let imm20 = ((offset >> 20u64) & 0x1) as u32;
    let imm10_1 = ((offset >> 1u64) & 0x3ff) as u32;
    let imm11 = ((offset >> 11u64) & 0x1) as u32;
    let imm19_12 = ((offset >> 12u64) & 0xff) as u32;
    0x6fu32 | (imm19_12 << 12u32) | (imm11 << 20u32) | (imm10_1 << 21u32) | (imm20 << 31u32)
}

/// The four bytes of `v`, least significant first.
pub open spec fn le32(v: u32) -> Seq<u8> {
    seq![(v & 0xff) as u8, ((v >> 8u32) & 0xff) as u8, ((v >> 16u32) & 0xff) as u8, ((v >> 24u32) & 0xff) as u8]
}

/// Installs the proxy kernel's trap trampoline two pages below the end of
/// memory: a jump to the system-call magic page one page above it. Returns
/// the trampoline's address.
pub fn install_pk_trap_handler(memory: &mut Vec<u8>) -> (r: Result<u64, GuestError>)
    requires
        old(memory)@.len() >= 0x2000,
        DRAM_BASE + old(memory)@.len() <= u64::MAX,
    ensures
        r == Ok::<u64, GuestError>((DRAM_BASE + old(memory)@.len() - 0x2000) as u64),
        final(memory)@ == spliced(old(memory)@, old(memory)@.len() - 0x2000, le32(spec_jal(0x1000))),
        spec_jal(0x1000) == 0x106f,
{
    let len = memory.len() as u64;
    let trap_handler_addr = DRAM_BASE + len - 0x2000;
    let syscall_magic_addr = DRAM_BASE + len - 0x1000;
    let offset = syscall_magic_addr - trap_handler_addr;
    let jal = encode_jal(offset);
    assert(spec_jal(0x1000) == 0x106f) by (bit_vector);
    let bytes = u32_to_le(jal);
    match write_guest(memory, trap_handler_addr, bytes.as_slice()) {
        Ok(()) => Ok(trap_handler_addr),
        Err(e) => Err(e),
    }
}

/// The four bytes of `v`, least significant first.
fn u32_to_le(v: u32) -> (r: Vec<u8>)
    ensures
        r@ == le32(v),
{
    let mut out: Vec<u8> = Vec::new();
    out.push((v & 0xff) as u8);
    out.push(((v >> 8u32) & 0xff) as u8);
    out.push(((v >> 16u32) & 0xff) as u8);
    out.push(((v >> 24u32) & 0xff) as u8);
    assert(out@ =~= le32(v));
    out
}


/// The thread pointer of a TLS block of `tls` placed 64 KiB below the top of
/// a memory of `len` bytes, aligned to at least 16 bytes.
pub open spec fn spec_tls_pointer(len: nat, tls: TlsInfo) -> Option<u64> {
    let align = if tls.align >= 16 {
        tls.align
    } else {
        16
    };
    if tls.memsz + align > u64::MAX {
        None
    } else {
        let tls_size = spec_align_up(tls.memsz, align);
        let total = tls_size + align;
        if total + 0x10000 > DRAM_BASE + len || DRAM_BASE + len > u64::MAX {
            None
        } else {
            let area = DRAM_BASE + len - total - 0x10000;
            if area + align > u64::MAX {
                None
            } else {
                Some(spec_align_up(area as u64, align))
            }
        }
    }
}

/// `mem` with `n` bytes copied from offset `src` to offset `dst`.
pub open spec fn copied(mem: Seq<u8>, src: int, dst: int, n: int) -> Seq<u8> {
    spliced(mem, dst, mem.subrange(src, src + n))
}

/// `mem` with `n` bytes at offset `off` zeroed.
pub open spec fn zeroed(mem: Seq<u8>, off: int, n: int) -> Seq<u8> {
    spliced(mem, off, Seq::new(n as nat, |i: int| 0u8))
}

/// Copies `n` bytes of `memory` from offset `src` to offset `dst`.
fn copy_within(memory: &mut Vec<u8>, src: usize, dst: usize, n: usize)
    requires
        src + n <= old(memory)@.len(),
        dst + n <= old(memory)@.len(),
    ensures
        final(memory)@ == copied(old(memory)@, src as int, dst as int, n as int),
{
    let snapshot = memory.clone();
    let len = memory.len();
    let mut j: usize = 0;
    while j < n
        invariant
            j <= n,
            snapshot@ == old(memory)@,
            len == old(memory)@.len(),
            src + n <= len,
            dst + n <= len,
            memory@.len() == len,
            forall|k: int|
                0 <= k < len ==> #[trigger] memory@[k] == if dst <= k < dst + j {
                    snapshot@[src + k - dst]
                } else {
                    snapshot@[k]
                },
        decreases n - j,
    {
        memory.set(dst + j, snapshot[src + j]);
        j = j + 1;
    }
    assert(memory@ =~= copied(old(memory)@, src as int, dst as int, n as int));
}

/// Zeroes `n` bytes of `memory` at offset `off`.
fn fill_zero(memory: &mut Vec<u8>, off: usize, n: usize)
    requires
        off + n <= old(memory)@.len(),
    ensures
        final(memory)@ == zeroed(old(memory)@, off as int, n as int),
{
    let len = memory.len();
    let mut j: usize = 0;
    while j < n
        invariant
            j <= n,
            len == old(memory)@.len(),
            off + n <= len,
            memory@.len() == len,
            forall|k: int|
                0 <= k < len ==> #[trigger] memory@[k] == if off <= k < off + j {
                    0u8
                } else {
                    old(memory)@[k]
                },
        decreases n - j,
    {
        memory.set(off + j, 0);
        j = j + 1;
    }
    assert(memory@ =~= zeroed(old(memory)@, off as int, n as int));
}

/// Copying the initialized bytes of the TLS template to the block at `tp`:
/// the memory after, or why the copy is refused.
pub open spec fn spec_tls_copy(mem: Seq<u8>, t: TlsInfo, tp: u64) -> Result<Seq<u8>, GuestError> {
    let copy_size = if t.filesz <= t.memsz {
        t.filesz
    } else {
        t.memsz
    };
    if copy_size == 0 {
        Ok(mem)
    } else {
        match spec_guest_offset(mem.len(), t.vaddr) {
            Err(e) => Err(e),
            Ok(src) => match spec_guest_offset(mem.len(), tp) {
                Err(e) => Err(e),
                Ok(dst) => if copy_size > mem.len() - src {
                    Err(GuestError::TlsSourceExceeds { addr: t.vaddr, size: copy_size })
                } else if copy_size > mem.len() - dst {
                    Err(GuestError::TlsDestinationExceeds { addr: tp, size: copy_size })
                } else {
                    Ok(copied(mem, src, dst, copy_size as int))
                },
            },
        }
    }
}

/// Zeroing the part of the TLS block at `tp` past the template's
/// initialized bytes: the memory after, or why it is refused.
pub open spec fn spec_tls_bss(mem: Seq<u8>, t: TlsInfo, tp: u64) -> Result<Seq<u8>, GuestError> {
    if t.memsz <= t.filesz {
        Ok(mem)
    } else if tp + t.filesz > u64::MAX {
        Err(GuestError::AddressOverflow)
    } else {
        let bss_start = (tp + t.filesz) as u64;
        let bss_size = (t.memsz - t.filesz) as u64;
        match spec_guest_offset(mem.len(), bss_start) {
            Err(e) => Err(e),
            Ok(off) => if bss_size > mem.len() - off {
                Err(GuestError::TlsBssExceeds { addr: bss_start, size: bss_size })
            } else {
                Ok(zeroed(mem, off, bss_size as int))
            },
        }
    }
}

/// What placing the TLS block `tls` does: the thread pointer or the error,
/// and the memory after.
pub open spec fn spec_setup_tls(mem: Seq<u8>, tls: Option<TlsInfo>) -> (Result<Option<u64>, GuestError>, Seq<u8>) {
    match tls {
        None => (Ok(None), mem),
        Some(t) => match spec_tls_pointer(mem.len(), t) {
            None => (Err(GuestError::AddressOverflow), mem),
            Some(tp) => match spec_tls_copy(mem, t, tp) {
                Err(e) => (Err(e), mem),
                Ok(m1) => match spec_tls_bss(m1, t, tp) {
                    Err(e) => (Err(e), m1),
                    Ok(m2) => match write_guest_error(m2.len(), tp, 8) {
                        Some(e) => (Err(e), m2),
                        None => (Ok(Some(tp)), spliced(m2, tp - DRAM_BASE, le_bytes(tp))),
                    },
                },
            },
        },
    }
}

/// Places the thread-local storage of a program without a proxy kernel:
/// the template's initialized bytes are copied to the block, the rest is
/// zeroed, and the block's first word holds the thread pointer. Returns the
/// thread pointer; `None` when the program has no TLS.
#[verifier::rlimit(80)]
#[verifier::spinoff_prover]
pub fn setup_tls(memory: &mut Vec<u8>, tls: Option<TlsInfo>) -> (r: Result<Option<u64>, GuestError>)
    requires
        old(memory)@.len() <= usize::MAX,
    ensures
        tls is None ==> r == Ok::<Option<u64>, GuestError>(None) && final(memory)@ == old(memory)@,
        r matches Ok(Some(tp)) ==> tls matches Some(t) && spec_tls_pointer(old(memory)@.len(), t)
            == Some(tp),
        r matches Ok(Some(tp)) ==> final(memory)@.len() == old(memory)@.len()
            && final(memory)@.subrange(tp - DRAM_BASE, tp - DRAM_BASE + 8) == le_bytes(tp),
        tls matches Some(t) && spec_tls_pointer(old(memory)@.len(), t) is None ==> r
            == Err::<Option<u64>, GuestError>(GuestError::AddressOverflow),
        tls is Some && r is Ok ==> r->Ok_0 is Some,
        r is Ok ==> final(memory)@.len() == old(memory)@.len(),
        (r, final(memory)@) == spec_setup_tls(old(memory)@, tls),
{
    let tls = match tls {
        None => {
            return Ok(None);
        },
        Some(t) => t,
    };
    let len = memory.len() as u64;
    let align = if tls.align >= 16 {
        tls.align
    } else {
        16
    };
    if tls.memsz > u64::MAX - align {
        return Err(GuestError::AddressOverflow);
    }
    let tls_size = align_up(tls.memsz, align);
    if DRAM_BASE > u64::MAX - len || tls_size > u64::MAX - align || tls_size + align > DRAM_BASE + len
        - 0x10000 || DRAM_BASE + len < 0x10000 {
        return Err(GuestError::AddressOverflow);
    }
    let total = tls_size + align;
    let area = DRAM_BASE + len - total - 0x10000;
    if area > u64::MAX - align {
        return Err(GuestError::AddressOverflow);
    }
    let tp = align_up(area, align);
    assert(spec_tls_pointer(memory@.len(), tls) == Some(tp));
    let copy_size = if tls.filesz <= tls.memsz {
        tls.filesz
    } else {
        tls.memsz
    };
    if copy_size > 0 {
        let src_off = match guest_offset(memory.as_slice(), tls.vaddr) {
            Ok(o) => o,
            Err(e) => {
                return Err(e);
            },
        };
        let dst_off = match guest_offset(memory.as_slice(), tp) {
            Ok(o) => o,
            Err(e) => {
                return Err(e);
            },
        };
        let ml = memory.len();
        if copy_size > (ml - src_off) as u64 {
            return Err(GuestError::TlsSourceExceeds { addr: tls.vaddr, size: copy_size });
        }
        if copy_size > (ml - dst_off) as u64 {
            return Err(GuestError::TlsDestinationExceeds { addr: tp, size: copy_size });
        }
        copy_within(memory, src_off, dst_off, copy_size as usize);
    }
    if tls.memsz > tls.filesz {
        if tp > u64::MAX - tls.filesz {
            return Err(GuestError::AddressOverflow);
        }
        let bss_start = tp + tls.filesz;
        let bss_off = match guest_offset(memory.as_slice(), bss_start) {
            Ok(o) => o,
            Err(e) => {
                return Err(e);
            },
        };
        let bss_size = tls.memsz - tls.filesz;
        let ml = memory.len();
        if bss_size > (ml - bss_off) as u64 {
            return Err(GuestError::TlsBssExceeds { addr: bss_start, size: bss_size });
        }
        fill_zero(memory, bss_off, bss_size as usize);
    }
    let bytes = u64_to_le(tp);
    match write_guest(memory, tp, bytes.as_slice()) {
        Ok(()) => {
            assert(memory@.subrange(tp - DRAM_BASE, tp - DRAM_BASE + 8) =~= le_bytes(tp));
            Ok(Some(tp))
        },
        Err(e) => Err(e),
    }
}

/// Installs the device tree blob `dtb` on a page boundary 2 MiB below the
/// end of memory. Returns its address.
pub fn install_dtb(memory: &mut Vec<u8>, dtb: &[u8]) -> (r: Result<u64, GuestError>)
    requires
        DRAM_BASE + old(memory)@.len() <= u64::MAX,
        0x20_0000 + dtb@.len() <= DRAM_BASE + old(memory)@.len(),
    ensures
        ({
            let addr = spec_align_down(
                (DRAM_BASE + old(memory)@.len() - 0x20_0000 - dtb@.len()) as u64,
                PAGE_SIZE,
            );
            &&& r matches Ok(a) ==> a == addr && final(memory)@ == spliced(old(memory)@, addr - DRAM_BASE, dtb@)
                && write_guest_error(old(memory)@.len(), addr, dtb@.len()) is None
            &&& r matches Err(e) ==> write_guest_error(old(memory)@.len(), addr, dtb@.len()) == Some(e)
                && final(memory)@ == old(memory)@
        }),
        r is Ok ==> final(memory)@.len() == old(memory)@.len(),
{
    let len = memory.len() as u64;
    let mem_end = DRAM_BASE + len;
    let dtb_addr = align_down(mem_end - 0x20_0000 - dtb.len() as u64, PAGE_SIZE);
    match write_guest(memory, dtb_addr, dtb) {
        Ok(()) => Ok(dtb_addr),
        Err(e) => Err(e),
    }
}


/// Page permissions of a segment with ELF flags `flags`: read 2, write 4,
/// execute 8.
pub open spec fn spec_segment_perms(flags: u32) -> u64 {
    (if flags & 4 != 0 {
        2u64
    } else {
        0u64
    }) | (if flags & 2 != 0 {
        4u64
    } else {
        0u64
    }) | (if flags & 1 != 0 {
        8u64
    } else {
        0u64
    })
}

/// A loaded segment's pages get exactly the permissions its ELF flags ask
/// for: readable (0x2) when `PF_R` (4) is set, writable (0x4) when `PF_W`
/// (2) is set, executable (0x8) when `PF_X` (1) is set, and no other bit;
/// a segment without `PF_W` is never mapped writable.
pub proof fn law_segment_perms_follow_elf_flags(flags: u32)
    ensures
        (spec_segment_perms(flags) & 2 != 0) == (flags & 4 != 0),
        (spec_segment_perms(flags) & 4 != 0) == (flags & 2 != 0),
        (spec_segment_perms(flags) & 8 != 0) == (flags & 1 != 0),
        spec_segment_perms(flags) & !0xeu64 == 0,
{
    let p = spec_segment_perms(flags);
    assert((p & 2 != 0) == (flags & 4 != 0) && (p & 4 != 0) == (flags & 2 != 0) && (p & 8 != 0) == (flags
        & 1 != 0) && p & !0xeu64 == 0) by (bit_vector)
        requires
            p == (if flags & 4 != 0 {
                2u64
            } else {
                0u64
            }) | (if flags & 2 != 0 {
                4u64
            } else {
                0u64
            }) | (if flags & 1 != 0 {
                8u64
            } else {
                0u64
            }),
    ;
}

/// Page permissions of a segment with ELF flags `flags`.
pub fn segment_perms(flags: u32) -> (r: u64)
    ensures
        r == spec_segment_perms(flags),
{
    let read: u64 = if (flags & 0x4) != 0 {
        0x2
    } else {
        0
    };
    let write: u64 = if (flags & 0x2) != 0 {
        0x4
    } else {
        0
    };
    let exec: u64 = if (flags & 0x1) != 0 {
        0x8
    } else {
        0
    };
    read | write | exec
}

/// The guest physical address a segment at `vaddr` was loaded to.
pub open spec fn segment_phys(load: &LoadInfo, vaddr: u64) -> int {
    if load.analysis.is_pie || load.analysis.needs_relocation {
        DRAM_BASE + (vaddr - load.analysis.min_vaddr)
    } else {
        vaddr as int
    }
}

/// The allocator bounds of a proxy-kernel address space in a memory of
/// `len` bytes: page tables in a reserve 64 MiB below the top, the user
/// stack just below them, user pages from the end of the image up to the
/// stack.
pub open spec fn pk_vm_bounds(len: nat, image_end: u64) -> (u64, u64, u64, u64) {
    let mem_end = DRAM_BASE + len;
    let pt_root = spec_align_down((mem_end - PK_HIGH_RESERVE) as u64, PAGE_SIZE);
    let pt_end = (pt_root + PK_PT_RESERVE) as u64;
    let stack_phys_bottom = spec_align_down((pt_root - USER_STACK_SIZE) as u64, PAGE_SIZE);
    (pt_root, pt_end, spec_align_up(image_end, PAGE_SIZE), stack_phys_bottom)
}

/// Where the loaded segment at user address `vaddr` lies in guest memory:
/// moved images start at the bottom of DRAM.
pub open spec fn spec_segment_phys(analysis: &ElfAnalysis, vaddr: u64) -> Result<u64, GuestError> {
    if analysis.is_pie || analysis.needs_relocation {
        if vaddr < analysis.min_vaddr || vaddr - analysis.min_vaddr > u64::MAX - DRAM_BASE {
            Err(GuestError::AddressOverflow)
        } else {
            Ok((DRAM_BASE + (vaddr - analysis.min_vaddr)) as u64)
        }
    } else {
        Ok(vaddr)
    }
}

/// Mapping the segments `segs` in order with their permissions, stopping at
/// the first error.
pub open spec fn spec_map_segments(
    mem: Seq<u8>,
    np: u64,
    pt_end: u64,
    root: u64,
    analysis: &ElfAnalysis,
    segs: Seq<LoadSegment>,
) -> (Result<(), GuestError>, Seq<u8>, u64)
    decreases segs.len(),
{
    if segs.len() == 0 {
        (Ok(()), mem, np)
    } else {
        let seg = segs[0];
        match spec_segment_phys(analysis, seg.vaddr) {
            Err(e) => (Err(e), mem, np),
            Ok(phys) => {
                let (r, m1, n1) = spec_map_range(
                    mem,
                    np,
                    pt_end,
                    root,
                    seg.vaddr,
                    phys,
                    seg.memsz,
                    spec_segment_perms(seg.flags),
                );
                if r is Err {
                    (r, m1, n1)
                } else {
                    spec_map_segments(m1, n1, pt_end, root, analysis, segs.drop_first())
                }
            },
        }
    }
}

/// What setting up the proxy kernel's address space does to `mem`: success
/// or the error, and the memory after.
pub open spec fn spec_setup_pk_vm(mem: Seq<u8>, load: &LoadInfo) -> (Result<(), GuestError>, Seq<u8>) {
    let (root, pt_end, next_page, page_end) = pk_vm_bounds(mem.len(), load.image_end);
    if root + PAGE_SIZE > u64::MAX {
        (Err(GuestError::PageTableOverflow), mem)
    } else if root + PAGE_SIZE > pt_end {
        (Err(GuestError::PageTableExhausted), mem)
    } else {
        match write_guest_error(mem.len(), root, PAGE_SIZE as nat) {
            Some(e) => (Err(e), mem),
            None => {
                let m1 = zero_page(mem, root - DRAM_BASE);
                let (r2, m2, n2) = spec_map_segments(
                    m1,
                    (root + PAGE_SIZE) as u64,
                    pt_end,
                    root,
                    &load.analysis,
                    load.analysis.load_segments@,
                );
                if r2 is Err {
                    (r2, m2)
                } else {
                    let (r3, m3, n3) = spec_map_range(
                        m2,
                        n2,
                        pt_end,
                        root,
                        (USER_TOP - USER_STACK_SIZE) as u64,
                        page_end,
                        USER_STACK_SIZE,
                        0x2u64 | 0x4u64,
                    );
                    (r3, m3)
                }
            },
        }
    }
}

/// Maps every loaded segment of `load`, in order, with its permissions.
fn map_segments(vm: &mut PkVm, memory: &mut Vec<u8>, load: &LoadInfo) -> (r: Result<(), GuestError>)
    requires
        old(vm).root + PAGE_SIZE <= u64::MAX,
    ensures
        same_allocators(old(vm), final(vm)),
        final(memory)@.len() == old(memory)@.len(),
        final(vm).maps@.len() >= old(vm).maps@.len(),
        pt_wf(old(memory)@, old(vm).root, old(vm).next_pt) ==> pt_wf(final(memory)@, final(vm).root, final(vm).next_pt),
        (r, final(memory)@, final(vm).next_pt) == spec_map_segments(
            old(memory)@,
            old(vm).next_pt,
            old(vm).pt_end,
            old(vm).root,
            &load.analysis,
            load.analysis.load_segments@,
        ),
{
    let n = load.analysis.load_segments.len();
    assert(load.analysis.load_segments@.subrange(0, n as int) =~= load.analysis.load_segments@);
    let mut i: usize = 0;
    while i < n
        invariant
            i <= n,
            n == load.analysis.load_segments@.len(),
            same_allocators(old(vm), vm),
            memory@.len() == old(memory)@.len(),
            vm.maps@.len() >= old(vm).maps@.len(),
            old(vm).root + PAGE_SIZE <= u64::MAX,
            pt_wf(old(memory)@, old(vm).root, old(vm).next_pt) ==> pt_wf(memory@, vm.root, vm.next_pt),
            spec_map_segments(
                old(memory)@,
                old(vm).next_pt,
                old(vm).pt_end,
                old(vm).root,
                &load.analysis,
                load.analysis.load_segments@,
            ) == spec_map_segments(
                memory@,
                vm.next_pt,
                vm.pt_end,
                vm.root,
                &load.analysis,
                load.analysis.load_segments@.subrange(i as int, n as int),
            ),
        decreases n - i,
    {
        let seg = load.analysis.load_segments[i];
        proof {
            assert(load.analysis.load_segments@.subrange(i as int, n as int)[0] == seg);
            assert(load.analysis.load_segments@.subrange(i as int, n as int).drop_first() =~= load.analysis.load_segments@.subrange(
                i + 1,
                n as int,
            ));
        }
        let phys = if load.analysis.is_pie || load.analysis.needs_relocation {
            if seg.vaddr < load.analysis.min_vaddr || seg.vaddr - load.analysis.min_vaddr > u64::MAX
                - DRAM_BASE {
                return Err(GuestError::AddressOverflow);
            }
            DRAM_BASE + (seg.vaddr - load.analysis.min_vaddr)
        } else {
            seg.vaddr
        };
        let flags = segment_perms(seg.flags);
        match vm.map_range(memory, seg.vaddr, phys, seg.memsz, flags) {
            Ok(()) => {},
            Err(e) => {
                return Err(e);
            },
        }
        i = i + 1;
    }
    Ok(())
}

/// Sets up the proxy kernel's address space: the allocators, a mapping of
/// every loaded segment with its permissions, and the user stack below
/// `USER_TOP`.
pub fn setup_pk_vm(memory: &mut Vec<u8>, load: &LoadInfo) -> (r: Result<PkVm, GuestError>)
    requires
        old(memory)@.len() >= PK_HIGH_RESERVE + USER_STACK_SIZE + PAGE_SIZE,
        DRAM_BASE + old(memory)@.len() + PK_PT_RESERVE <= u64::MAX,
        load.image_end + PAGE_SIZE <= u64::MAX,
    ensures
        r matches Ok(vm) ==> {
            let (root, pt_end, next_page, page_end) = pk_vm_bounds(old(memory)@.len(), load.image_end);
            &&& vm.root == root
            &&& vm.pt_end == pt_end
            &&& vm.page_end == page_end
            &&& vm.maps@.len() >= 1
            &&& vm.maps@.last() == (GuestMap {
                virt: (USER_TOP - USER_STACK_SIZE) as u64,
                phys: page_end,
                len: USER_STACK_SIZE,
            })
            &&& pt_wf(final(memory)@, vm.root, vm.next_pt)
        },
        final(memory)@ == spec_setup_pk_vm(old(memory)@, load).1,
        r is Ok <==> spec_setup_pk_vm(old(memory)@, load).0 is Ok,
        spec_setup_pk_vm(old(memory)@, load).0 matches Err(e) ==> r == Err::<PkVm, GuestError>(e),
{
    let len = memory.len() as u64;
    let mem_end = DRAM_BASE + len;
    let pt_root = align_down(mem_end - PK_HIGH_RESERVE, PAGE_SIZE);
    proof {
        crate::guest::lemma_page_alignment((mem_end - PK_HIGH_RESERVE) as u64);
    }
    let pt_end = pt_root + PK_PT_RESERVE;
    let stack_phys_bottom = align_down(pt_root - USER_STACK_SIZE, PAGE_SIZE);
    proof {
        crate::guest::lemma_page_alignment((pt_root - USER_STACK_SIZE) as u64);
    }
    let stack_virt_bottom = USER_TOP - USER_STACK_SIZE;
    let next_page = align_up(load.image_end, PAGE_SIZE);
    let mut vm = match PkVm::new(memory, pt_root, pt_end, next_page, stack_phys_bottom) {
        Ok(vm) => vm,
        Err(e) => {
            return Err(e);
        },
    };
    proof {
        crate::guest::lemma_page_alignment((mem_end - PK_HIGH_RESERVE) as u64);
    }
    match map_segments(&mut vm, memory, load) {
        Ok(()) => {},
        Err(e) => {
            return Err(e);
        },
    }
    match vm.map_range(memory, stack_virt_bottom, stack_phys_bottom, USER_STACK_SIZE, 0x2 | 0x4) {
        Ok(()) => {},
        Err(e) => {
            return Err(e);
        },
    }
    proof {
        crate::guest::lemma_page_alignment(stack_virt_bottom);
        crate::guest::lemma_page_alignment(stack_phys_bottom);
        crate::guest::lemma_page_alignment((stack_virt_bottom + USER_STACK_SIZE) as u64);
        assert(spec_align_down(stack_virt_bottom, PAGE_SIZE) == stack_virt_bottom) by (bit_vector)
            requires
                stack_virt_bottom == 0x3f_ff80_0000u64,
        ;
        assert(spec_align_up(USER_TOP, PAGE_SIZE) == USER_TOP) by (bit_vector);
        let y = (pt_root - USER_STACK_SIZE) as u64;
        assert(stack_phys_bottom == y & !4095u64);
        assert((y & !4095u64) & !4095u64 == y & !4095u64) by (bit_vector);
    }
    Ok(vm)
}


/// Where the program name is placed on the initial stack.
pub const PK_STRING_ADDR: u64 = 0x3f_ffff_ffe0;

/// Where the 16 bytes of `AT_RANDOM` are placed.
pub const PK_RANDOM_ADDR: u64 = 0x3f_ffff_ffd0;

/// The initial stack pointer of a proxy-kernel program.
pub const PK_INITIAL_SP: u64 = 0x3f_ffff_feb0;

/// The words on the initial stack, from the stack pointer up: `argc`, the
/// argument and environment vectors, and the auxiliary vector.
pub open spec fn spec_stack_words(load: &LoadInfo, phdr_addr: u64) -> Seq<u64> {
    seq![
        1, PK_STRING_ADDR, 0, 0,
        3, phdr_addr,
        4, load.program_headers.entry_size,
        5, load.program_headers.count,
        6, PAGE_SIZE,
        7, 0,
        16, 0,
        9, load.analysis.original_entry,
        11, 0,
        12, 0,
        13, 0,
        14, 0,
        23, 0,
        25, PK_RANDOM_ADDR,
        26, 0,
        31, PK_STRING_ADDR,
        0, 0
    ]
}

/// The auxiliary vector on the initial stack pairs each key with its
/// value: after `argc`, `argv` and `envp`, the words come in (key, value)
/// pairs, and key `AT_PHDR` (3) carries the program headers' address,
/// `AT_PHENT` (4) their entry size, `AT_PHNUM` (5) their count, `AT_PAGESZ`
/// (6) the page size, `AT_ENTRY` (9) the program's entry, `AT_RANDOM` (25)
/// the random bytes and `AT_EXECFN` (31) the program name; keys 3 to 6 and
/// 9 are present, and the vector ends with `AT_NULL` (0). `argc` is 1 and
/// `argv[0]` is the program name, with empty `argv` and `envp` tails.
pub proof fn law_auxv_pairs_keys_with_values(load: &LoadInfo, phdr_addr: u64)
    ensures
        ({
            let w = spec_stack_words(load, phdr_addr);
            &&& w.len() == 36
            &&& w[0] == 1 && w[1] == PK_STRING_ADDR && w[2] == 0 && w[3] == 0
            &&& forall|k: int|
                0 <= k < 16 ==> {
                    &&& (#[trigger] w[4 + 2 * k] == 3 ==> w[5 + 2 * k] == phdr_addr)
                    &&& (w[4 + 2 * k] == 4 ==> w[5 + 2 * k] == load.program_headers.entry_size)
                    &&& (w[4 + 2 * k] == 5 ==> w[5 + 2 * k] == load.program_headers.count)
                    &&& (w[4 + 2 * k] == 6 ==> w[5 + 2 * k] == PAGE_SIZE)
                    &&& (w[4 + 2 * k] == 9 ==> w[5 + 2 * k] == load.analysis.original_entry)
                    &&& (w[4 + 2 * k] == 25 ==> w[5 + 2 * k] == PK_RANDOM_ADDR)
                    &&& (w[4 + 2 * k] == 31 ==> w[5 + 2 * k] == PK_STRING_ADDR)
                }
            &&& exists|k: int| 0 <= k < 16 && #[trigger] w[4 + 2 * k] == 3
            &&& exists|k: int| 0 <= k < 16 && #[trigger] w[4 + 2 * k] == 4
            &&& exists|k: int| 0 <= k < 16 && #[trigger] w[4 + 2 * k] == 5
            &&& exists|k: int| 0 <= k < 16 && #[trigger] w[4 + 2 * k] == 6
            &&& exists|k: int| 0 <= k < 16 && #[trigger] w[4 + 2 * k] == 9
            &&& w[34] == 0
        }),
{
    let w = spec_stack_words(load, phdr_addr);
    assert(w.len() == 36);
    assert(w[4] == 3 && w[5] == phdr_addr);
    assert(w[6] == 4 && w[7] == load.program_headers.entry_size);
    assert(w[8] == 5 && w[9] == load.program_headers.count);
    assert(w[10] == 6 && w[11] == PAGE_SIZE);
    assert(w[12] == 7 && w[14] == 16 && w[18] == 11 && w[20] == 12 && w[22] == 13 && w[24] == 14);
    assert(w[16] == 9 && w[17] == load.analysis.original_entry);
    assert(w[26] == 23 && w[28] == 25 && w[29] == PK_RANDOM_ADDR && w[30] == 26 && w[32] == 31 && w[33]
        == PK_STRING_ADDR && w[34] == 0);
    assert(w[0] == 1 && w[1] == PK_STRING_ADDR && w[2] == 0 && w[3] == 0);
    assert forall|k: int| 0 <= k < 16 implies {
        &&& (#[trigger] w[4 + 2 * k] == 3 ==> w[5 + 2 * k] == phdr_addr)
        &&& (w[4 + 2 * k] == 4 ==> w[5 + 2 * k] == load.program_headers.entry_size)
        &&& (w[4 + 2 * k] == 5 ==> w[5 + 2 * k] == load.program_headers.count)
        &&& (w[4 + 2 * k] == 6 ==> w[5 + 2 * k] == PAGE_SIZE)
        &&& (w[4 + 2 * k] == 9 ==> w[5 + 2 * k] == load.analysis.original_entry)
        &&& (w[4 + 2 * k] == 25 ==> w[5 + 2 * k] == PK_RANDOM_ADDR)
        &&& (w[4 + 2 * k] == 31 ==> w[5 + 2 * k] == PK_STRING_ADDR)
    } by {
        assert(k == 0 || k == 1 || k == 2 || k == 3 || k == 4 || k == 5 || k == 6 || k == 7 || k == 8 || k == 9
            || k == 10 || k == 11 || k == 12 || k == 13 || k == 14 || k == 15);
    }
    let k0: int = 0;
    let k1: int = 1;
    let k2: int = 2;
    let k3: int = 3;
    let k6: int = 6;
    assert(w[4 + 2 * k0] == 3 && w[4 + 2 * k1] == 4 && w[4 + 2 * k2] == 5 && w[4 + 2 * k3] == 6 && w[4 + 2 * k6] == 9);
}

/// The words on the initial stack of `load` with its program headers at
/// user address `phdr_addr`.
pub fn stack_words(load: &LoadInfo, phdr_addr: u64) -> (r: Vec<u64>)
    ensures
        r@ == spec_stack_words(load, phdr_addr),
{
    let v: Vec<u64> = vec![
        1, PK_STRING_ADDR, 0, 0,
        3, phdr_addr,
        4, load.program_headers.entry_size,
        5, load.program_headers.count,
        6, PAGE_SIZE,
        7, 0,
        16, 0,
        9, load.analysis.original_entry,
        11, 0,
        12, 0,
        13, 0,
        14, 0,
        23, 0,
        25, PK_RANDOM_ADDR,
        26, 0,
        31, PK_STRING_ADDR,
        0, 0
    ];
    assert(v@ =~= spec_stack_words(load, phdr_addr));
    v
}

/// The program name placed on the stack, with its terminating zero.
pub open spec fn spec_program_name() -> Seq<u8> {
    seq![116u8, 117, 116, 111, 114, 105, 97, 108, 45, 108, 105, 110, 117, 120, 0]
}

/// The stack layout is the one the constants name: the program name under
/// the top of the user space, `AT_RANDOM` below it, and the stack words
/// below that, each on a 16-byte boundary.
pub proof fn lemma_stack_layout()
    ensures
        PK_STRING_ADDR == spec_align_down((spec_align_down((USER_TOP - 16) as u64, 16) - 15) as u64, 16),
        PK_RANDOM_ADDR == spec_align_down((PK_STRING_ADDR - 16) as u64, 16),
        PK_INITIAL_SP == spec_align_down((PK_RANDOM_ADDR - 36 * 8) as u64, 16),
{
    assert(0x3f_ffff_fff0u64 & !15u64 == 0x3f_ffff_fff0u64) by (bit_vector);
    assert(0x3f_ffff_ffe1u64 & !15u64 == 0x3f_ffff_ffe0u64) by (bit_vector);
    assert(0x3f_ffff_ffd0u64 & !15u64 == 0x3f_ffff_ffd0u64) by (bit_vector);
    assert(0x3f_ffff_feb0u64 & !15u64 == 0x3f_ffff_feb0u64) by (bit_vector);
}

/// The user writes that build the initial stack, in order: the program
/// name, the 16 bytes of `AT_RANDOM` one by one, and each stack word.
pub open spec fn pk_stack_writes(words: Seq<u64>) -> Seq<(u64, Seq<u8>)> {
    seq![(PK_STRING_ADDR, spec_program_name())] + Seq::new(
        16,
        |i: int| ((PK_RANDOM_ADDR + i) as u64, seq![0xa5u8 ^ (i as u8)]),
    ) + Seq::new(words.len(), |k: int| ((PK_INITIAL_SP + k * 8) as u64, le_bytes(words[k])))
}

/// Builds the proxy kernel's initial user stack: the program name, 16
/// bytes for `AT_RANDOM`, and the stack words, all written through the
/// user mappings. Returns the initial registers.
pub fn setup_pk_stack(memory: &mut Vec<u8>, vm: &PkVm, load: &LoadInfo) -> (r: Result<
    InitialRegs,
    GuestError,
>)
    ensures
        match spec_user_image_addr(load, load.program_headers.addr) {
            Err(e) => r == Err::<InitialRegs, GuestError>(e) && final(memory)@ == old(memory)@,
            Ok(phdr) => {
                let (m, e) = spec_user_writes(
                    vm.maps@,
                    old(memory)@,
                    pk_stack_writes(spec_stack_words(load, phdr)),
                );
                &&& final(memory)@ == m
                &&& match e {
                    None => r == Ok::<InitialRegs, GuestError>(InitialRegs { sp: PK_INITIAL_SP, a0: 0, a1: 0, a2: 0 }),
                    Some(err) => r == Err::<InitialRegs, GuestError>(err),
                }
            },
        },
{
    let phdr_addr = match user_image_addr(load, load.program_headers.addr) {
        Ok(a) => a,
        Err(e) => {
            return Err(e);
        },
    };
    let words = stack_words(load, phdr_addr);
    let ghost ws = pk_stack_writes(words@);
    let ghost maps = vm.maps@;
    let ghost m0 = memory@;
    let name: Vec<u8> = vec![116u8, 117, 116, 111, 114, 105, 97, 108, 45, 108, 105, 110, 117, 120, 0];
    proof {
        assert(name@ =~= spec_program_name());
        assert(ws[0] == (PK_STRING_ADDR, spec_program_name()));
        assert(ws.take(1).drop_last() =~= ws.take(0));
        assert(ws.take(0) =~= Seq::<(u64, Seq<u8>)>::empty());
    }
    match vm.write_user(memory, PK_STRING_ADDR, name.as_slice()) {
        Ok(()) => {},
        Err(e) => {
            proof {
                lemma_user_writes_stop(maps, m0, ws, 0);
            }
            return Err(e);
        },
    }
    let mut i: u64 = 0;
    while i < 16
        invariant
            i <= 16,
            ws == pk_stack_writes(words@),
            words@.len() == 36,
            words@ == spec_stack_words(load, phdr_addr),
            spec_user_image_addr(load, load.program_headers.addr) == Ok::<u64, GuestError>(phdr_addr),
            m0 == old(memory)@,
            maps == vm.maps@,
            (memory@, None::<GuestError>) == spec_user_writes(maps, m0, ws.take(1 + i)),
        decreases 16 - i,
    {
        let byte: Vec<u8> = vec![0xa5u8 ^ (i as u8)];
        proof {
            assert(ws[1 + i] == ((PK_RANDOM_ADDR + i) as u64, seq![0xa5u8 ^ (i as u8)]));
            assert(byte@ =~= seq![0xa5u8 ^ (i as u8)]);
            assert(ws.take(2 + i).drop_last() =~= ws.take(1 + i));
        }
        match vm.write_user(memory, PK_RANDOM_ADDR + i, byte.as_slice()) {
            Ok(()) => {},
            Err(e) => {
                proof {
                    lemma_user_writes_stop(maps, m0, ws, 1 + i);
                }
                return Err(e);
            },
        }
        i = i + 1;
    }
    let mut k: usize = 0;
    while k < words.len()
        invariant
            k <= words@.len(),
            words@.len() == 36,
            ws == pk_stack_writes(words@),
            words@ == spec_stack_words(load, phdr_addr),
            spec_user_image_addr(load, load.program_headers.addr) == Ok::<u64, GuestError>(phdr_addr),
            m0 == old(memory)@,
            maps == vm.maps@,
            (memory@, None::<GuestError>) == spec_user_writes(maps, m0, ws.take(17 + k)),
        decreases words@.len() - k,
    {
        let bytes = u64_to_le(words[k]);
        proof {
            assert(ws[17 + k] == ((PK_INITIAL_SP + k * 8) as u64, le_bytes(words@[k as int])));
            assert(ws.take(18 + k).drop_last() =~= ws.take(17 + k));
        }
        match vm.write_user(memory, PK_INITIAL_SP + (k as u64) * 8, bytes.as_slice()) {
            Ok(()) => {},
            Err(e) => {
                proof {
                    lemma_user_writes_stop(maps, m0, ws, 17 + k);
                }
                return Err(e);
            },
        }
        k = k + 1;
    }
    assert(ws.take(53) =~= ws);
    Ok(InitialRegs { sp: PK_INITIAL_SP, a0: 0, a1: 0, a2: 0 })
}

/// A change of the user mappings that a system call's result calls for.
#[derive(Clone, Copy, Debug, PartialEq, Eq, Structural)]
pub enum MappingChange {
    /// Map `len` bytes of new zeroed pages at `virt`.
    Allocate { virt: u64, len: u64 },
    /// Free the pages mapped at `virt..virt + len`.
    Free { virt: u64, len: u64 },
}

/// The mapping change of system call `syscall_num` with arguments `a0`,
/// `a1` that returned `result`, the program break having been `old_brk`:
/// a grown break maps the new pages, a successful `mmap` maps its pages,
/// `munmap` frees its range; failed calls change nothing.
pub open spec fn spec_mapping_change(old_brk: u64, syscall_num: u64, a0: u64, a1: u64, result: u64) -> Option<
    MappingChange,
> {
    if result >= 0x8000_0000_0000_0000 {
        None
    } else if syscall_num == SYS_BRK && result > old_brk {
        if old_brk + PAGE_SIZE > u64::MAX || result + PAGE_SIZE > u64::MAX {
            None
        } else {
            let start = spec_align_up(old_brk, PAGE_SIZE);
            let end = spec_align_up(result, PAGE_SIZE);
            if end > start {
                Some(MappingChange::Allocate { virt: start, len: (end - start) as u64 })
            } else {
                None
            }
        }
    } else if syscall_num == SYS_MMAP {
        if a1 + PAGE_SIZE > u64::MAX {
            None
        } else {
            let len = spec_align_up(a1, PAGE_SIZE);
            if result != 0 && len != 0 {
                Some(MappingChange::Allocate { virt: result, len })
            } else {
                None
            }
        }
    } else if syscall_num == SYS_MUNMAP {
        Some(MappingChange::Free { virt: a0, len: a1 })
    } else {
        None
    }
}

/// The mapping change a system call's result calls for.
pub fn mapping_change(old_brk: u64, syscall_num: u64, a0: u64, a1: u64, result: u64) -> (r: Option<
    MappingChange,
>)
    ensures
        r == spec_mapping_change(old_brk, syscall_num, a0, a1, result),
{
    if result >= 0x8000_0000_0000_0000 {
        return None;
    }
    if syscall_num == SYS_BRK && result > old_brk {
        if old_brk > u64::MAX - PAGE_SIZE || result > u64::MAX - PAGE_SIZE {
            return None;
        }
        let start = align_up(old_brk, PAGE_SIZE);
        let end = align_up(result, PAGE_SIZE);
        if end > start {
            Some(MappingChange::Allocate { virt: start, len: end - start })
        } else {
            None
        }
    } else if syscall_num == SYS_MMAP {
        if a1 > u64::MAX - PAGE_SIZE {
            return None;
        }
        let len = align_up(a1, PAGE_SIZE);
        if result != 0 && len != 0 {
            Some(MappingChange::Allocate { virt: result, len })
        } else {
            None
        }
    } else if syscall_num == SYS_MUNMAP {
        Some(MappingChange::Free { virt: a0, len: a1 })
    } else {
        None
    }
}

/// Keeps the proxy kernel's mappings in step with a system call that
/// returned `result`.
pub fn map_syscall_result(
    memory: &mut Vec<u8>,
    pk_vm: &mut PkVm,
    old_brk: u64,
    syscall_num: u64,
    a0: u64,
    a1: u64,
    result: u64,
) -> (r: Result<(), GuestError>)
    requires
        old(pk_vm).root + PAGE_SIZE <= u64::MAX,
    ensures
        match spec_mapping_change(old_brk, syscall_num, a0, a1, result) {
            None => r is Ok && *final(pk_vm) == *old(pk_vm) && final(memory)@ == old(memory)@,
            Some(MappingChange::Allocate { virt, len }) => r is Ok ==> final(pk_vm).maps@.len()
                == old(pk_vm).maps@.len() + 1 && final(pk_vm).maps@.last().virt == spec_align_down(
                virt,
                PAGE_SIZE,
            ),
            Some(MappingChange::Free { virt, len }) => final(pk_vm).maps == old(pk_vm).maps && (r is Ok
                ==> final(pk_vm).free_pages@.len() == old(pk_vm).free_pages@.len() + 1),
        },
{
    match mapping_change(old_brk, syscall_num, a0, a1, result) {
        None => Ok(()),
        Some(MappingChange::Allocate { virt, len }) => {
            proof {
                crate::guest::lemma_page_alignment(len);
                assert(spec_align_up(len, PAGE_SIZE) == len) by {
                    if syscall_num == SYS_MMAP && !(syscall_num == SYS_BRK && result > old_brk) {
                        let w = spec_align_up(a1, PAGE_SIZE);
                        assert(((w + 4095) as u64) & !4095u64 == w) by (bit_vector)
                            requires
                                w == ((a1 + 4095) as u64) & !4095u64,
                                a1 + 4096 <= u64::MAX,
                        ;
                    } else {
                        let s = spec_align_up(old_brk, PAGE_SIZE);
                        let e = spec_align_up(result, PAGE_SIZE);
                        assert((((e - s) as u64 + 4095) as u64) & !4095u64 == (e - s) as u64) by (bit_vector)
                            requires
                                s == ((old_brk + 4095) as u64) & !4095u64,
                                e == ((result + 4095) as u64) & !4095u64,
                                e > s,
                                old_brk + 4096 <= u64::MAX,
                                result + 4096 <= u64::MAX,
                        ;
                    }
                }
            }
            match pk_vm.alloc_user_pages(memory, virt, len, 0x2 | 0x4) {
                Ok(_) => Ok(()),
                Err(e) => Err(e),
            }
        },
        Some(MappingChange::Free { virt, len }) => pk_vm.free_user_pages(virt, len),
    }
}

/// Where a program's heap starts and where `mmap` hands out addresses from:
/// under the proxy kernel the break follows the highest virtual address of
/// the image and `mmap` stays below the C library's limit; bare-metal
/// programs break after the loaded image and map from 8 MiB below the end
/// of memory.
pub open spec fn spec_heap_layout(load: &LoadInfo, mem_len: nat, pk: bool) -> (u64, u64) {
    if pk {
        (spec_align_up(load.analysis.max_vaddr, PAGE_SIZE), spec_align_down(PK_MMAP_CEILING, PAGE_SIZE))
    } else {
        (
            spec_align_up(load.image_end, PAGE_SIZE),
            spec_align_down((DRAM_BASE + mem_len - 0x80_0000) as u64, PAGE_SIZE),
        )
    }
}

/// The program break start and the `mmap` base of a program.
pub fn heap_layout(load: &LoadInfo, mem_len: usize, pk: bool) -> (r: (u64, u64))
    requires
        load.analysis.max_vaddr + PAGE_SIZE <= u64::MAX,
        load.image_end + PAGE_SIZE <= u64::MAX,
        DRAM_BASE + mem_len <= u64::MAX,
    ensures
        r == spec_heap_layout(load, mem_len as nat, pk),
{
    if pk {
        (align_up(load.analysis.max_vaddr, PAGE_SIZE), align_down(PK_MMAP_CEILING, PAGE_SIZE))
    } else {
        let mem_end = DRAM_BASE + mem_len as u64;
        (align_up(load.image_end, PAGE_SIZE), align_down(mem_end - 0x80_0000, PAGE_SIZE))
    }
}

/// The mapping of the user stack onto the pages from `page_end`.
pub open spec fn stack_map(page_end: u64) -> GuestMap {
    GuestMap { virt: (USER_TOP - USER_STACK_SIZE) as u64, phys: page_end, len: USER_STACK_SIZE }
}

/// The user write `w` lies inside the mapping `m`.
pub open spec fn write_inside(m: GuestMap, w: (u64, Seq<u8>)) -> bool {
    &&& m.virt + m.len <= u64::MAX
    &&& m.virt <= w.0
    &&& w.0 + w.1.len() <= m.virt + m.len
}

/// User writes that all lie inside the most recent mapping go through it
/// alone.
proof fn lemma_writes_in_last_map(maps: Seq<GuestMap>, mem: Seq<u8>, ws: Seq<(u64, Seq<u8>)>)
    requires
        maps.len() >= 1,
        forall|k: int| 0 <= k < ws.len() ==> write_inside(maps.last(), #[trigger] ws[k]),
    ensures
        spec_user_writes(maps, mem, ws) == spec_user_writes(seq![maps.last()], mem, ws),
    decreases ws.len(),
{
    if ws.len() > 0 {
        let rest = ws.drop_last();
        assert forall|k: int| 0 <= k < rest.len() implies write_inside(maps.last(), #[trigger] rest[k]) by {
            assert(rest[k] == ws[k]);
        }
        lemma_writes_in_last_map(maps, mem, rest);
        let w = ws.last();
        assert(write_inside(maps.last(), ws[ws.len() - 1]));
        let one = seq![maps.last()];
        assert(one.last() == maps.last());
    }
}

/// Every write that builds the initial stack lies inside the stack's
/// mapping.
proof fn lemma_stack_writes_inside(words: Seq<u64>, page_end: u64)
    requires
        words.len() == 36,
    ensures
        forall|k: int| 0 <= k < pk_stack_writes(words).len() ==> write_inside(stack_map(page_end), #[trigger] pk_stack_writes(words)[k]),
{
    let ws = pk_stack_writes(words);
    assert(ws.len() == 53);
    assert forall|k: int| 0 <= k < ws.len() implies write_inside(stack_map(page_end), #[trigger] ws[k]) by {
        if k == 0 {
            assert(ws[0] == (PK_STRING_ADDR, spec_program_name()));
        } else if k < 17 {
            assert(ws[k] == ((PK_RANDOM_ADDR + (k - 1)) as u64, seq![0xa5u8 ^ ((k - 1) as u8)]));
        } else {
            assert(ws[k] == ((PK_INITIAL_SP + (k - 17) * 8) as u64, le_bytes(words[k - 17])));
        }
    }
}

/// What preparing a hart does to memory: success or the error, and the
/// memory after. Bare-metal programs get their TLS block and the device
/// tree; under the proxy kernel the device tree, the trap handler, the page
/// tables and the initial user stack are written, in that order.
pub open spec fn spec_hart_init(mem: Seq<u8>, load: &LoadInfo, dtb: Seq<u8>, pk: bool) -> (Result<(), GuestError>, Seq<u8>) {
    let (rt, m1) = if pk {
        (Ok::<Option<u64>, GuestError>(None), mem)
    } else {
        spec_setup_tls(mem, load.tls)
    };
    if rt is Err {
        (Err(rt->Err_0), m1)
    } else {
        let addr = spec_align_down((DRAM_BASE + m1.len() - 0x20_0000 - dtb.len()) as u64, PAGE_SIZE);
        match write_guest_error(m1.len(), addr, dtb.len()) {
            Some(e) => (Err(e), m1),
            None => {
                let m2 = spliced(m1, addr - DRAM_BASE, dtb);
                if !pk {
                    (Ok(()), m2)
                } else {
                    let m3 = spliced(m2, m2.len() - 0x2000, le32(spec_jal(0x1000)));
                    let (r4, m4) = spec_setup_pk_vm(m3, load);
                    if r4 is Err {
                        (r4, m4)
                    } else {
                        match spec_user_image_addr(load, load.program_headers.addr) {
                            Err(e) => (Err(e), m4),
                            Ok(phdr) => {
                                let page_end = pk_vm_bounds(m3.len(), load.image_end).3;
                                let (m5, e5) = spec_user_writes(
                                    seq![stack_map(page_end)],
                                    m4,
                                    pk_stack_writes(spec_stack_words(load, phdr)),
                                );
                                match e5 {
                                    None => (Ok(()), m5),
                                    Some(e) => (Err(e), m5),
                                }
                            },
                        }
                    }
                }
            },
        }
    }
}

/// How a hart starts: its entry point, trap handler, address translation,
/// registers and thread pointer, the heap layout its system calls use, the
/// bounds user mappings stay in, and the proxy kernel's address space.
pub struct HartInit {
    pub entry: u64,
    pub trap_handler_addr: u64,
    pub satp: u64,
    pub regs: InitialRegs,
    pub tp: Option<u64>,
    pub pk: bool,
    pub brk_start: u64,
    pub mmap_base: u64,
    pub mem_bounds: Option<(u64, u64)>,
    pub pk_vm: Option<PkVm>,
}

/// Memory whose end, and the proxy kernel's page tables above it, fit the
/// address space, with the device tree placed below that end; under the
/// proxy kernel, memory that holds its high reserve and the user stack.
pub open spec fn hart_memory_fits(mem_len: nat, dtb_len: nat, pk: bool) -> bool {
    &&& DRAM_BASE + mem_len + PK_PT_RESERVE <= u64::MAX
    &&& 0x20_0000 + dtb_len <= DRAM_BASE + mem_len
    &&& pk ==> mem_len >= PK_HIGH_RESERVE + USER_STACK_SIZE + PAGE_SIZE
}

/// Prepares a hart to run the loaded program: bare-metal programs get
/// their TLS block and the device tree (its address in `a1`); under the
/// proxy kernel the device tree, the trap handler, the page tables and the
/// initial user stack are set up and the hart starts at the program's
/// original entry with translation on.
#[verifier::rlimit(80)]
#[verifier::spinoff_prover]
pub fn hart_init(memory: &mut Vec<u8>, load: &LoadInfo, dtb: &[u8], pk: bool) -> (r: Result<HartInit, GuestError>)
    requires
        hart_memory_fits(old(memory)@.len(), dtb@.len(), pk),
        load.analysis.max_vaddr + PAGE_SIZE <= u64::MAX,
        load.image_end + PAGE_SIZE <= u64::MAX,
    ensures
        r matches Ok(h) ==> {
            let dtb_addr = spec_align_down(
                (DRAM_BASE + old(memory)@.len() - 0x20_0000 - dtb@.len()) as u64,
                PAGE_SIZE,
            );
            &&& h.pk == pk
            &&& (h.brk_start, h.mmap_base) == spec_heap_layout(load, old(memory)@.len(), pk)
            &&& pk ==> {
                &&& h.mem_bounds == Some((load.analysis.min_vaddr, (USER_TOP - USER_STACK_SIZE) as u64))
                &&& h.tp is None
                &&& h.entry == load.analysis.original_entry
                &&& h.trap_handler_addr == DRAM_BASE + old(memory)@.len() - 0x2000
                &&& h.pk_vm matches Some(vm) && h.satp == spec_satp(vm.root)
                &&& h.regs == (InitialRegs { sp: PK_INITIAL_SP, a0: 0, a1: 0, a2: 0 })
            }
            &&& !pk ==> {
                &&& h.mem_bounds is None
                &&& h.entry == load.entry
                &&& h.trap_handler_addr == 0
                &&& h.satp == 0
                &&& h.pk_vm is None
                &&& h.regs == (InitialRegs { sp: 0, a0: 0, a1: dtb_addr, a2: 0 })
                &&& (load.tls is None ==> h.tp is None)
                &&& (load.tls matches Some(t) ==> h.tp == spec_tls_pointer(old(memory)@.len(), t)
                    && h.tp is Some)
            }
        },
        final(memory)@ == spec_hart_init(old(memory)@, load, dtb@, pk).1,
        r is Ok <==> spec_hart_init(old(memory)@, load, dtb@, pk).0 is Ok,
        spec_hart_init(old(memory)@, load, dtb@, pk).0 matches Err(e) ==> r == Err::<HartInit, GuestError>(e),
{
    let mem_len = memory.len();
    let (brk_start, mmap_base) = heap_layout(load, mem_len, pk);
    let mem_bounds = if pk {
        Some((load.analysis.min_vaddr, USER_TOP - USER_STACK_SIZE))
    } else {
        None
    };
    let tp = if pk {
        None
    } else {
        match setup_tls(memory, load.tls) {
            Ok(t) => t,
            Err(e) => return Err(e),
        }
    };
    let dtb_addr = match install_dtb(memory, dtb) {
        Ok(a) => a,
        Err(e) => return Err(e),
    };
    if !pk {
        return Ok(
            HartInit {
                entry: load.entry,
                trap_handler_addr: 0,
                satp: 0,
                regs: InitialRegs { sp: 0, a0: 0, a1: dtb_addr, a2: 0 },
                tp,
                pk,
                brk_start,
                mmap_base,
                mem_bounds,
                pk_vm: None,
            },
        );
    }
    let trap_handler_addr = match install_pk_trap_handler(memory) {
        Ok(a) => a,
        Err(e) => return Err(e),
    };
    let vm = match setup_pk_vm(memory, load) {
        Ok(vm) => vm,
        Err(e) => return Err(e),
    };
    proof {
        lemma_stack_writes_inside(spec_stack_words(load, load.program_headers.addr), vm.page_end);
        if spec_user_image_addr(load, load.program_headers.addr) is Ok {
            let phdr = spec_user_image_addr(load, load.program_headers.addr)->Ok_0;
            lemma_stack_writes_inside(spec_stack_words(load, phdr), vm.page_end);
            lemma_writes_in_last_map(vm.maps@, memory@, pk_stack_writes(spec_stack_words(load, phdr)));
        }
    }
    let regs = match setup_pk_stack(memory, &vm, load) {
        Ok(regs) => regs,
        Err(e) => return Err(e),
    };
    let satp = vm.satp();
    Ok(
        HartInit {
            entry: load.analysis.original_entry,
            trap_handler_addr,
            satp,
            regs,
            tp: None,
            pk,
            brk_start,
            mmap_base,
            mem_bounds,
            pk_vm: Some(vm),
        },
    )
}

} // verus!
