//! Physical bank slots, per-bank configuration, and guest DRAM access.

use vstd::prelude::*;
use crate::pk::GuestMap;

verus! {

/// Rows of a square matrix tile.
pub const MATRIX_SIZE: usize = 16;

/// DRAM is mapped at this base address from the guest's perspective.
pub const DRAM_BASE: u64 = 0x8000_0000;

/// One physical SRAM bank slot and the virtual bank bound to it.
#[derive(Clone, Copy, Debug, PartialEq, Eq, Structural)]
pub struct MapEntry {
    pub valid: bool,
    pub vbank_id: u32,
    pub group_id: u32,
}

/// The unbound slot.
pub open spec fn empty_entry() -> MapEntry {
    MapEntry { valid: false, vbank_id: 0, group_id: 0 }
}

impl Default for MapEntry {
    fn default() -> (r: MapEntry)
        ensures
            r == empty_entry(),
    {
        MapEntry { valid: false, vbank_id: 0, group_id: 0 }
    }
}

/// Whether a slot holds virtual bank `v` in group `g`.
pub open spec fn slot_matches(e: MapEntry, v: u32, g: u32) -> bool {
    e.valid && e.vbank_id == v && e.group_id == g
}

/// `i` is the first slot of `s` that holds `(v, g)`.
pub open spec fn is_first_match(s: Seq<MapEntry>, v: u32, g: u32, i: int) -> bool {
    &&& 0 <= i < s.len()
    &&& slot_matches(s[i], v, g)
    &&& forall|j: int| 0 <= j < i ==> !slot_matches(#[trigger] s[j], v, g)
}

/// No slot of `s` holds `(v, g)`.
pub open spec fn no_match(s: Seq<MapEntry>, v: u32, g: u32) -> bool {
    forall|j: int| 0 <= j < s.len() ==> !slot_matches(#[trigger] s[j], v, g)
}

/// `i` is the first free slot of `s`.
pub open spec fn is_first_free(s: Seq<MapEntry>, i: int) -> bool {
    &&& 0 <= i < s.len()
    &&& !s[i].valid
    &&& forall|j: int| 0 <= j < i ==> (#[trigger] s[j]).valid
}

/// The slot after deleting virtual bank `v`.
pub open spec fn after_delete(e: MapEntry, v: u32) -> MapEntry {
    if e.valid && e.vbank_id == v {
        empty_entry()
    } else {
        e
    }
}

/// Mirrors the RTL mapping table: physical SRAM bank slot -> bound virtual bank.
#[derive(Clone, Debug)]
pub struct BankMap {
    pub slots: Vec<MapEntry>,
}

impl BankMap {
    /// A map of `num_physical` unbound slots.
    pub fn new(num_physical: usize) -> (r: BankMap)
        ensures
            r.slots@.len() == num_physical,
            forall|i: int| 0 <= i < num_physical ==> r.slots@[i] == empty_entry(),
    {
        let mut slots: Vec<MapEntry> = Vec::new();
        let mut i: usize = 0;
        while i < num_physical
            invariant
                i <= num_physical,
                slots@.len() == i,
                forall|k: int| 0 <= k < i ==> slots@[k] == empty_entry(),
            decreases num_physical - i,
        {
            slots.push(MapEntry::default());
            i = i + 1;
        }
        BankMap { slots }
    }

    /// Unbinds every slot bound to virtual bank `v`.
    pub fn delete_vbank(&mut self, v: u32)
        ensures
            final(self).slots@.len() == old(self).slots@.len(),
            forall|i: int|
                0 <= i < old(self).slots@.len() ==> final(self).slots@[i] == after_delete(
                    old(self).slots@[i],
                    v,
                ),
    {
        let n = self.slots.len();
        let mut i: usize = 0;
        while i < n
            invariant
                i <= n,
                n == old(self).slots@.len(),
                self.slots@.len() == n,
                forall|k: int| 0 <= k < i ==> self.slots@[k] == after_delete(old(self).slots@[k], v),
                forall|k: int| i <= k < n ==> self.slots@[k] == old(self).slots@[k],
            decreases n - i,
        {
            let e = self.slots[i];
            if e.valid && e.vbank_id == v {
                self.slots.set(i, MapEntry::default());
            }
            i = i + 1;
        }
    }

    /// The first unbound slot.
    pub fn first_free_pbank(&self) -> (r: Option<usize>)
        ensures
            match r {
                Some(i) => is_first_free(self.slots@, i as int),
                None => forall|j: int| 0 <= j < self.slots@.len() ==> (#[trigger] self.slots@[j]).valid,
            },
    {
        let n = self.slots.len();
        let mut i: usize = 0;
        while i < n
            invariant
                i <= n,
                n == self.slots@.len(),
                forall|j: int| 0 <= j < i ==> (#[trigger] self.slots@[j]).valid,
            decreases n - i,
        {
            if !self.slots[i].valid {
                return Some(i);
            }
            i = i + 1;
        }
        None
    }

    /// Binds slot `p` to group `group` of virtual bank `v`.
    pub fn bind_group(&mut self, p: usize, v: u32, group: u32)
        requires
            p < old(self).slots@.len(),
        ensures
            final(self).slots@ == old(self).slots@.update(
                p as int,
                MapEntry { valid: true, vbank_id: v, group_id: group },
            ),
    {
        self.slots.set(p, MapEntry { valid: true, vbank_id: v, group_id: group });
    }

    /// The first slot bound to group 0 of virtual bank `v`.
    pub fn resolve(&self, v: u32) -> (r: Option<usize>)
        ensures
            match r {
                Some(i) => is_first_match(self.slots@, v, 0, i as int),
                None => no_match(self.slots@, v, 0),
            },
    {
        self.resolve_group(v, 0)
    }

    /// The first slot bound to group `group` of virtual bank `v`.
    pub fn resolve_group(&self, v: u32, group: u32) -> (r: Option<usize>)
        ensures
            match r {
                Some(i) => is_first_match(self.slots@, v, group, i as int),
                None => no_match(self.slots@, v, group),
            },
    {
        let n = self.slots.len();
        let mut i: usize = 0;
        while i < n
            invariant
                i <= n,
                n == self.slots@.len(),
                forall|j: int| 0 <= j < i ==> !slot_matches(#[trigger] self.slots@[j], v, group),
            decreases n - i,
        {
            let e = self.slots[i];
            if e.valid && e.vbank_id == v && e.group_id == group {
                return Some(i);
            }
            i = i + 1;
        }
        None
    }

    /// The architectural identity currently bound to a physical slot.
    pub fn logical_id(&self, physical_bank_id: usize) -> (r: Option<(u32, u32)>)
        ensures
            r == (if physical_bank_id < self.slots@.len() && self.slots@[physical_bank_id as int].valid {
                Some(
                    (
                        self.slots@[physical_bank_id as int].vbank_id,
                        self.slots@[physical_bank_id as int].group_id,
                    ),
                )
            } else {
                None::<(u32, u32)>
            }),
    {
        if physical_bank_id < self.slots.len() {
            let e = self.slots[physical_bank_id];
            if e.valid {
                return Some((e.vbank_id, e.group_id));
            }
        }
        None
    }
}

/// After binding slot `p` to `(v, g)`, looking `(v, g)` up finds `p` when no
/// slot before `p` already held `(v, g)`, and finds the earlier slot otherwise.
pub proof fn lemma_resolve_after_bind(s: Seq<MapEntry>, p: int, v: u32, g: u32)
    requires
        0 <= p < s.len(),
        forall|j: int| 0 <= j < p ==> !slot_matches(#[trigger] s[j], v, g),
    ensures
        is_first_match(s.update(p, MapEntry { valid: true, vbank_id: v, group_id: g }), v, g, p),
{
    let t = s.update(p, MapEntry { valid: true, vbank_id: v, group_id: g });
    assert forall|j: int| 0 <= j < p implies !slot_matches(#[trigger] t[j], v, g) by {
        assert(t[j] == s[j]);
    }
}

/// After deleting virtual bank `v`, no slot holds any group of `v`.
pub proof fn lemma_delete_unbinds(s: Seq<MapEntry>, t: Seq<MapEntry>, v: u32, g: u32)
    requires
        t.len() == s.len(),
        forall|i: int| 0 <= i < s.len() ==> t[i] == after_delete(s[i], v),
    ensures
        no_match(t, v, g),
{
    assert forall|j: int| 0 <= j < t.len() implies !slot_matches(#[trigger] t[j], v, g) by {
        assert(t[j] == after_delete(s[j], v));
    }
}

/// Per-virtual-bank configuration set by bank allocation.
#[derive(Clone, Copy, Debug, PartialEq, Eq, Structural)]
pub struct BankConfig {
    pub allocated: bool,
    pub cols: u64,
    /// Rows populated by the most recent memory-to-bank transfer.
    pub valid_rows: u64,
}

/// The configuration of an unallocated bank.
pub open spec fn unallocated() -> BankConfig {
    BankConfig { allocated: false, cols: 0, valid_rows: 0 }
}

impl Default for BankConfig {
    fn default() -> (r: BankConfig)
        ensures
            r == unallocated(),
    {
        BankConfig { allocated: false, cols: 0, valid_rows: 0 }
    }
}

/// The guest address whose byte is the first byte of DRAM when the span
/// `lo..=hi` is accessed under the guest mappings `maps` (most recent
/// last): the most recent mapping that meets the span decides, and must
/// hold all of it; with none, guest addresses are DRAM addresses. `None`
/// when a mapping covers only part of the span.
pub open spec fn span_base(maps: Seq<GuestMap>, lo: int, hi: int) -> Option<int>
    decreases maps.len(),
{
    if maps.len() == 0 {
        Some(DRAM_BASE as int)
    } else {
        let m = maps.last();
        if hi < m.virt || m.virt + m.len <= lo {
            span_base(maps.drop_last(), lo, hi)
        } else if m.virt <= lo && hi < m.virt + m.len {
            Some(m.virt - (m.phys - DRAM_BASE))
        } else {
            None
        }
    }
}

/// The guest address of the first byte of DRAM for an access of the single
/// byte at `addr`: through the most recent mapping that holds `addr`, or
/// the DRAM base when none does.
pub open spec fn byte_base(maps: Seq<GuestMap>, addr: int) -> int
    decreases maps.len(),
{
    if maps.len() == 0 {
        DRAM_BASE as int
    } else {
        let m = maps.last();
        if m.virt <= addr < m.virt + m.len {
            m.virt - (m.phys - DRAM_BASE)
        } else {
            byte_base(maps.drop_last(), addr)
        }
    }
}

/// The DRAM offset of guest address `addr` in a DRAM of `mem_len` bytes
/// under the guest mappings `maps`; `None` when it falls outside DRAM.
pub open spec fn spec_dram_offset(maps: Seq<GuestMap>, mem_len: nat, addr: int) -> Option<int> {
    let off = addr - byte_base(maps, addr);
    if 0 <= off < mem_len {
        Some(off)
    } else {
        None
    }
}

/// A single byte is never split between mappings.
pub proof fn lemma_point_span(maps: Seq<GuestMap>, addr: int)
    ensures
        span_base(maps, addr, addr) == Some(byte_base(maps, addr)),
    decreases maps.len(),
{
    if maps.len() > 0 {
        lemma_point_span(maps.drop_last(), addr);
    }
}

/// Every byte of a span that is not split between mappings is translated
/// by the span's base.
pub proof fn lemma_span_base_bytes(maps: Seq<GuestMap>, lo: int, hi: int, addr: int)
    requires
        span_base(maps, lo, hi) is Some,
        lo <= addr <= hi,
    ensures
        byte_base(maps, addr) == span_base(maps, lo, hi)->Some_0,
    decreases maps.len(),
{
    if maps.len() > 0 {
        let m = maps.last();
        if hi < m.virt || m.virt + m.len <= lo {
            lemma_span_base_bytes(maps.drop_last(), lo, hi, addr);
        }
    }
}

/// The base of the span `lo..=hi` under the guest mappings `maps`, as
/// `span_base` defines it.
pub fn span_base_of(maps: &Vec<GuestMap>, lo: u64, hi: u64) -> (r: Option<i128>)
    ensures
        match r {
            Some(b) => span_base(maps@, lo as int, hi as int) == Some(b as int) && -0x1_0000_0000_0000_0000 < b
                < 0x2_0000_0000_0000_0000,
            None => span_base(maps@, lo as int, hi as int) is None,
        },
{
    let mut i = maps.len();
    assert(maps@.take(i as int) =~= maps@);
    while i > 0
        invariant
            i <= maps@.len(),
            span_base(maps@.take(i as int), lo as int, hi as int) == span_base(maps@, lo as int, hi as int),
        decreases i,
    {
        let m = maps[i - 1];
        let ghost t = maps@.take(i as int);
        assert(t.last() == m);
        assert(t.drop_last() =~= maps@.take(i - 1));
        let end: u128 = m.virt as u128 + m.len as u128;
        if (hi as u128) < (m.virt as u128) || end <= lo as u128 {
            i = i - 1;
        } else if m.virt <= lo && (hi as u128) < end {
            return Some(m.virt as i128 - (m.phys as i128 - DRAM_BASE as i128));
        } else {
            return None;
        }
    }
    Some(DRAM_BASE as i128)
}

/// The DRAM offset of guest address `addr` under the guest mappings `maps`;
/// `None` when it is outside DRAM.
pub fn dram_offset(maps: &Vec<GuestMap>, mem_len: usize, addr: u64) -> (r: Option<usize>)
    ensures
        match r {
            Some(off) => spec_dram_offset(maps@, mem_len as nat, addr as int) == Some(off as int),
            None => spec_dram_offset(maps@, mem_len as nat, addr as int) is None,
        },
{
    proof {
        lemma_point_span(maps@, addr as int);
    }
    let b = span_base_of(maps, addr, addr).unwrap();
    let off: i128 = addr as i128 - b;
    if 0 <= off && off < mem_len as i128 {
        Some(off as usize)
    } else {
        None
    }
}

/// Reads the guest byte at `addr` under the guest mappings `maps`.
pub fn mem_read(mem: &[u8], addr: u64, maps: &Vec<GuestMap>) -> (r: u8)
    requires
        spec_dram_offset(maps@, mem@.len(), addr as int) is Some,
    ensures
        r == mem@[spec_dram_offset(maps@, mem@.len(), addr as int)->Some_0],
{
    let off = dram_offset(maps, mem.len(), addr);
    mem[off.unwrap()]
}

/// Writes the guest byte at `addr` under the guest mappings `maps`.
pub fn mem_write(mem: &mut Vec<u8>, addr: u64, v: u8, maps: &Vec<GuestMap>)
    requires
        spec_dram_offset(maps@, old(mem)@.len(), addr as int) is Some,
    ensures
        final(mem)@ == old(mem)@.update(spec_dram_offset(maps@, old(mem)@.len(), addr as int)->Some_0, v),
{
    let off = dram_offset(maps, mem.len(), addr).unwrap();
    mem.set(off, v);
}

/// A write followed by a read of the same address gives back the written byte.
pub proof fn lemma_read_after_write(mem: Seq<u8>, off: int, v: u8)
    requires
        0 <= off < mem.len(),
    ensures
        mem.update(off, v)[off] == v,
        mem.update(off, v).len() == mem.len(),
{
}

} // verus!
