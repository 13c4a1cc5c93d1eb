//! Guest physical memory: addressing, little-endian words, alignment.

use vstd::prelude::*;
use crate::bank::DRAM_BASE;

verus! {

/// Bytes in a guest page.
pub const PAGE_SIZE: u64 = 4096;

/// Why a guest memory access or a guest setup step failed.
#[derive(Clone, Copy, Debug, PartialEq, Eq, Structural)]
pub enum GuestError {
    /// The address lies below DRAM.
    BelowDram { addr: u64 },
    /// The address lies beyond the end of memory.
    OutsideMemory { addr: u64 },
    /// A write of `size` bytes at `addr` runs past the end of memory.
    WriteExceeds { addr: u64, size: u64 },
    /// A read of `size` bytes at `addr` runs past the end of memory.
    ReadExceeds { addr: u64, size: u64 },
    /// The page-table allocator's address overflowed.
    PageTableOverflow,
    /// The page-table reserve is used up.
    PageTableExhausted,
    /// The user page allocator's address overflowed.
    PageAllocatorOverflow,
    /// The user page reserve is used up.
    PageReserveExhausted,
    /// User pages at `addr` of `size` bytes run past the end of memory.
    PagesExceedMemory { addr: u64, size: u64 },
    /// An unmap names a range that is not mapped.
    UnmapNotMapped,
    /// A user write names an unmapped virtual range.
    UnmappedUserWrite { addr: u64, size: u64 },
    /// The TLS template lies outside memory.
    TlsSourceExceeds { addr: u64, size: u64 },
    /// The TLS block lies outside memory.
    TlsDestinationExceeds { addr: u64, size: u64 },
    /// The TLS zero-filled part lies outside memory.
    TlsBssExceeds { addr: u64, size: u64 },
    /// An address of the loaded image lies outside the relocated image.
    ImageAddress { addr: u64 },
    /// An address computation overflowed.
    AddressOverflow,
    /// The loaded program's entry point lies outside guest memory.
    EntryOutsideMemory { entry: u64 },
}

/// The memory offset of guest address `addr` in a memory of `len` bytes.
pub open spec fn spec_guest_offset(len: nat, addr: u64) -> Result<int, GuestError> {
    if addr < DRAM_BASE {
        Err(GuestError::BelowDram { addr })
    } else if addr - DRAM_BASE >= len {
        Err(GuestError::OutsideMemory { addr })
    } else {
        Ok(addr - DRAM_BASE)
    }
}

/// The offset of guest address `addr` in `memory`.
pub fn guest_offset(memory: &[u8], addr: u64) -> (r: Result<usize, GuestError>)
    ensures
        match r {
            Ok(off) => spec_guest_offset(memory@.len(), addr) == Ok::<int, GuestError>(off as int),
            Err(e) => spec_guest_offset(memory@.len(), addr) == Err::<int, GuestError>(e),
        },
{
    if addr < DRAM_BASE {
        return Err(GuestError::BelowDram { addr });
    }
    let len = memory.len();
    if addr - DRAM_BASE >= len as u64 {
        return Err(GuestError::OutsideMemory { addr });
    }
    Ok((addr - DRAM_BASE) as usize)
}

/// `mem` with `bytes` written at offset `off`.
pub open spec fn spliced(mem: Seq<u8>, off: int, bytes: Seq<u8>) -> Seq<u8> {
    mem.subrange(0, off) + bytes + mem.subrange(off + bytes.len(), mem.len() as int)
}

/// Whether `bytes` fit in a memory of `len` bytes at guest address `addr`,
/// and if not, why.
pub open spec fn write_guest_error(len: nat, addr: u64, n: nat) -> Option<GuestError> {
    match spec_guest_offset(len, addr) {
        Err(e) => Some(e),
        Ok(off) => if off + n > len {
            Some(GuestError::WriteExceeds { addr, size: n as u64 })
        } else {
            None
        },
    }
}

/// Writes `bytes` at guest address `addr`.
pub fn write_guest(memory: &mut Vec<u8>, addr: u64, bytes: &[u8]) -> (r: Result<(), GuestError>)
    ensures
        match r {
            Ok(()) => write_guest_error(old(memory)@.len(), addr, bytes@.len()) is None
                && final(memory)@ == spliced(old(memory)@, addr - DRAM_BASE, bytes@),
            Err(e) => write_guest_error(old(memory)@.len(), addr, bytes@.len()) == Some(e)
                && final(memory)@ == old(memory)@,
        },
{
    let off = match guest_offset(memory.as_slice(), addr) {
        Ok(off) => off,
        Err(e) => {
            return Err(e);
        },
    };
    let len = memory.len();
    let n = bytes.len();
    if n > len - off {
        return Err(GuestError::WriteExceeds { addr, size: n as u64 });
    }
    let ghost m0 = memory@;
    let mut j: usize = 0;
    while j < n
        invariant
            j <= n,
            n == bytes@.len(),
            len == m0.len(),
            off + n <= len,
            memory@.len() == len,
            forall|k: int|
                0 <= k < len ==> #[trigger] memory@[k] == if off <= k < off + j {
                    bytes@[k - off]
                } else {
                    m0[k]
                },
        decreases n - j,
    {
        memory.set(off + j, bytes[j]);
        j = j + 1;
    }
    assert(memory@ =~= spliced(m0, off as int, bytes@));
    Ok(())
}

/// The bytes of `v`, least significant first.
pub open spec fn le_bytes(v: u64) -> Seq<u8> {
    Seq::new(8, |i: int| ((v >> (8 * i) as u64) & 0xff) as u8)
}

/// The value of eight bytes, least significant first.
pub open spec fn le_value(b: Seq<u8>) -> u64 {
    (b[0] as u64) | ((b[1] as u64) << 8u64) | ((b[2] as u64) << 16u64) | ((b[3] as u64) << 24u64) | ((
    b[4] as u64) << 32u64) | ((b[5] as u64) << 40u64) | ((b[6] as u64) << 48u64) | ((b[7] as u64)
        << 56u64)
}

/// The eight bytes of `v`, least significant first.
pub fn u64_to_le(v: u64) -> (r: Vec<u8>)
    ensures
        r@ == le_bytes(v),
{
    let mut out: Vec<u8> = Vec::new();
    let mut i: u64 = 0;
    while i < 8
        invariant
            i <= 8,
            out@.len() == i,
            forall|k: int| 0 <= k < i ==> out@[k] == le_bytes(v)[k],
        decreases 8 - i,
    {
        let b = ((v >> (8 * i)) & 0xff) as u8;
        out.push(b);
        i = i + 1;
    }
    assert(out@ =~= le_bytes(v));
    out
}

/// The value of the eight bytes at `off` of `b`, least significant first.
pub fn u64_from_le(b: &[u8], off: usize) -> (r: u64)
    requires
        off + 8 <= b@.len(),
    ensures
        r == le_value(b@.subrange(off as int, off + 8)),
{
    let ghost s = b@.subrange(off as int, off + 8);
    let r = (b[off] as u64) | ((b[off + 1] as u64) << 8u64) | ((b[off + 2] as u64) << 16u64) | ((b[off
        + 3] as u64) << 24u64) | ((b[off + 4] as u64) << 32u64) | ((b[off + 5] as u64) << 40u64) | ((
    b[off + 6] as u64) << 48u64) | ((b[off + 7] as u64) << 56u64);
    assert(s[0] == b@[off as int] && s[7] == b@[off + 7]);
    r
}

/// Reading the bytes of a word gives the word back.
pub proof fn lemma_le_round_trip(v: u64)
    ensures
        le_value(le_bytes(v)) == v,
{
    let b = le_bytes(v);
    let b0 = (v & 0xff) as u8;
    let b1 = ((v >> 8u64) & 0xff) as u8;
    let b2 = ((v >> 16u64) & 0xff) as u8;
    let b3 = ((v >> 24u64) & 0xff) as u8;
    let b4 = ((v >> 32u64) & 0xff) as u8;
    let b5 = ((v >> 40u64) & 0xff) as u8;
    let b6 = ((v >> 48u64) & 0xff) as u8;
    let b7 = ((v >> 56u64) & 0xff) as u8;
    assert(b[0] == b0 && b[1] == b1 && b[2] == b2 && b[3] == b3 && b[4] == b4 && b[5] == b5 && b[6]
        == b6 && b[7] == b7) by {
        assert(v >> 0u64 == v) by (bit_vector);
    }
    assert((b0 as u64) | ((b1 as u64) << 8u64) | ((b2 as u64) << 16u64) | ((b3 as u64) << 24u64) | ((
    b4 as u64) << 32u64) | ((b5 as u64) << 40u64) | ((b6 as u64) << 48u64) | ((b7 as u64) << 56u64)
        == v) by (bit_vector)
        requires
            b0 == (v & 0xff) as u8,
            b1 == ((v >> 8u64) & 0xff) as u8,
            b2 == ((v >> 16u64) & 0xff) as u8,
            b3 == ((v >> 24u64) & 0xff) as u8,
            b4 == ((v >> 32u64) & 0xff) as u8,
            b5 == ((v >> 40u64) & 0xff) as u8,
            b6 == ((v >> 48u64) & 0xff) as u8,
            b7 == ((v >> 56u64) & 0xff) as u8,
    ;
}

/// `value` rounded down to `align`, by masking its low bits.
pub open spec fn spec_align_down(value: u64, align: u64) -> u64 {
    value & !((align - 1) as u64)
}

/// `value` rounded up to `align`, by masking the low bits of
/// `value + align - 1`.
pub open spec fn spec_align_up(value: u64, align: u64) -> u64 {
    ((value + align - 1) as u64) & !((align - 1) as u64)
}

/// `value` rounded down to `align` (a power of two).
pub fn align_down(value: u64, align: u64) -> (r: u64)
    requires
        align >= 1,
    ensures
        r == spec_align_down(value, align),
{
    value & !(align - 1)
}

/// `value` rounded up to `align` (a power of two).
pub fn align_up(value: u64, align: u64) -> (r: u64)
    requires
        align >= 1,
        value + align <= u64::MAX,
    ensures
        r == spec_align_up(value, align),
{
    (value + align - 1) & !(align - 1)
}

/// Rounding to whole pages gives a page boundary no further than a page
/// away: down at or below the value, up at or above it.
pub proof fn lemma_page_alignment(value: u64)
    ensures
        spec_align_down(value, PAGE_SIZE) % PAGE_SIZE == 0,
        spec_align_down(value, PAGE_SIZE) <= value,
        value - spec_align_down(value, PAGE_SIZE) < PAGE_SIZE,
        value + PAGE_SIZE - 1 <= u64::MAX ==> spec_align_up(value, PAGE_SIZE) % PAGE_SIZE == 0
            && value <= spec_align_up(value, PAGE_SIZE) && spec_align_up(value, PAGE_SIZE) - value
            < PAGE_SIZE,
{
    let d = value & !4095u64;
    assert(d == value & !((4096u64 - 1) as u64));
    assert(d % 4096 == 0 && d <= value && value - d < 4096) by (bit_vector)
        requires
            d == value & !4095u64,
    ;
    if value + 4095 <= u64::MAX {
        let w = (value + 4095) as u64;
        let u = w & !4095u64;
        assert(u % 4096 == 0 && value <= u && u - value < 4096) by (bit_vector)
            requires
                w == value + 4095,
                u == w & !4095u64,
        ;
    }
}

} // verus!
