//! The shape of the proxy kernel's page tables in guest memory: a root
//! table, the tables its valid entries point to, and the tables those
//! point to, each a page of its own allocated after its parent.

use vstd::prelude::*;
use crate::bank::DRAM_BASE;
use crate::guest::{le_bytes, le_value, lemma_le_round_trip, spliced, PAGE_SIZE};
use crate::pk::{pte_at, pte_table, table_pte, vpn, zero_page};

verus! {

/// Entries per table.
pub const PTES_PER_TABLE: u64 = 512;

/// Slot `i` of the table at `t` holds a valid entry.
pub open spec fn slot_valid(mem: Seq<u8>, t: u64, i: u64) -> bool {
    pte_at(mem, t, i) matches Some(e) && e & 1 != 0
}

/// The table the entry in slot `i` of the table at `t` points to.
pub open spec fn slot_child(mem: Seq<u8>, t: u64, i: u64) -> u64 {
    pte_table(pte_at(mem, t, i)->Some_0)
}

/// The page tables rooted at `root`, with `next_pt` the next page the
/// table allocator hands out, are well formed: every table is a whole page
/// of memory allocated after its parent, and no table is reached both from
/// the root and from a table below it.
pub open spec fn pt_wf(mem: Seq<u8>, root: u64, next_pt: u64) -> bool {
    &&& root % PAGE_SIZE == 0
    &&& next_pt % PAGE_SIZE == 0
    &&& DRAM_BASE <= root < next_pt
    &&& forall|i: u64|
        #![trigger slot_valid(mem, root, i)]
        i < PTES_PER_TABLE && slot_valid(mem, root, i) ==> root < slot_child(mem, root, i) < next_pt
    &&& forall|i: u64, j: u64|
        #![trigger slot_valid(mem, slot_child(mem, root, i), j)]
        i < PTES_PER_TABLE && j < PTES_PER_TABLE && slot_valid(mem, root, i) && slot_valid(
            mem,
            slot_child(mem, root, i),
            j,
        ) ==> slot_child(mem, root, i) < slot_child(mem, slot_child(mem, root, i), j) < next_pt
    &&& forall|i: u64, j: u64, k: u64|
        #![trigger slot_valid(mem, slot_child(mem, root, i), j), slot_valid(mem, root, k)]
        i < PTES_PER_TABLE && j < PTES_PER_TABLE && k < PTES_PER_TABLE && slot_valid(mem, root, i)
            && slot_valid(mem, slot_child(mem, root, i), j) && slot_valid(mem, root, k) ==> slot_child(
            mem,
            slot_child(mem, root, i),
            j,
        ) != slot_child(mem, root, k)
    &&& forall|i: u64, k: u64|
        #![trigger slot_valid(mem, root, i), slot_valid(mem, root, k)]
        i < PTES_PER_TABLE && k < PTES_PER_TABLE && i != k && slot_valid(mem, root, i) && slot_valid(mem, root, k)
            ==> slot_child(mem, root, i) != slot_child(mem, root, k)
    &&& forall|i: u64, j: u64, i2: u64, j2: u64|
        #![trigger slot_valid(mem, slot_child(mem, root, i), j), slot_valid(mem, slot_child(mem, root, i2), j2)]
        i < PTES_PER_TABLE && j < PTES_PER_TABLE && i2 < PTES_PER_TABLE && j2 < PTES_PER_TABLE && (i != i2
            || j != j2) && slot_valid(mem, root, i) && slot_valid(mem, slot_child(mem, root, i), j) && slot_valid(
            mem,
            root,
            i2,
        ) && slot_valid(mem, slot_child(mem, root, i2), j2) ==> slot_child(mem, slot_child(mem, root, i), j)
            != slot_child(mem, slot_child(mem, root, i2), j2)
}

/// The entry that translating `virt` ends at: valid entries of the root
/// table and of the tables below it are followed as tables, as `map_page`
/// builds them; `None` when an entry on the way is not valid.
pub open spec fn table_walk(mem: Seq<u8>, root: u64, virt: u64) -> Option<u64> {
    if !slot_valid(mem, root, vpn(virt, 2)) {
        None
    } else {
        let l2 = slot_child(mem, root, vpn(virt, 2));
        if !slot_valid(mem, l2, vpn(virt, 1)) {
            None
        } else {
            pte_at(mem, slot_child(mem, l2, vpn(virt, 1)), vpn(virt, 0))
        }
    }
}

/// The walk of `virt` passes valid entries of the root and of the table
/// below it, and so reaches a last-level table.
pub open spec fn walk_reaches(mem: Seq<u8>, root: u64, virt: u64) -> bool {
    &&& slot_valid(mem, root, vpn(virt, 2))
    &&& slot_valid(mem, slot_child(mem, root, vpn(virt, 2)), vpn(virt, 1))
}

/// `u` and `virt` use the same slot at every level.
pub open spec fn same_slots(u: u64, virt: u64) -> bool {
    &&& vpn(u, 2) == vpn(virt, 2)
    &&& vpn(u, 1) == vpn(virt, 1)
    &&& vpn(u, 0) == vpn(virt, 0)
}

/// Two page-aligned addresses less than 512 GiB apart use different slots
/// at some level.
pub proof fn lemma_distinct_slots(u: u64, v: u64)
    requires
        u < v,
        v - u < 0x80_0000_0000,
        u % PAGE_SIZE == 0,
        v % PAGE_SIZE == 0,
    ensures
        !same_slots(u, v),
{
    assert(u & 0xfff == 0 && v & 0xfff == 0) by (bit_vector)
        requires
            u % 4096 == 0,
            v % 4096 == 0,
    ;
    assert(!(((u >> 30u64) & 0x1ffu64) == ((v >> 30u64) & 0x1ffu64) && ((u >> 21u64) & 0x1ffu64) == ((v
        >> 21u64) & 0x1ffu64) && ((u >> 12u64) & 0x1ffu64) == ((v >> 12u64) & 0x1ffu64))) by (bit_vector)
        requires
            u < v,
            v - u < 0x80_0000_0000u64,
            u & 0xfff == 0,
            v & 0xfff == 0,
    ;
}

/// Each index of an address is a slot of a table.
pub proof fn lemma_vpn_bounds(virt: u64)
    ensures
        vpn(virt, 2) < PTES_PER_TABLE,
        vpn(virt, 1) < PTES_PER_TABLE,
        vpn(virt, 0) < PTES_PER_TABLE,
{
    let v2 = vpn(virt, 2);
    let v1 = vpn(virt, 1);
    let v0 = vpn(virt, 0);
    assert(v2 < 512 && v1 < 512 && v0 < 512) by (bit_vector)
        requires
            v2 == (virt >> 30u64) & 0x1ffu64,
            v1 == (virt >> 21u64) & 0x1ffu64,
            v0 == (virt >> 12u64) & 0x1ffu64,
    ;
}

/// A walk that reaches a last-level table reads the same when the root's
/// slot, the next table's slot and the last table's slot on its way all
/// read the same.
pub proof fn lemma_walk_kept(a: Seq<u8>, b: Seq<u8>, root: u64, u: u64)
    requires
        walk_reaches(a, root, u),
        pte_at(b, root, vpn(u, 2)) == pte_at(a, root, vpn(u, 2)),
        pte_at(b, slot_child(a, root, vpn(u, 2)), vpn(u, 1)) == pte_at(a, slot_child(a, root, vpn(u, 2)), vpn(u, 1)),
        pte_at(b, slot_child(a, slot_child(a, root, vpn(u, 2)), vpn(u, 1)), vpn(u, 0)) == pte_at(
            a,
            slot_child(a, slot_child(a, root, vpn(u, 2)), vpn(u, 1)),
            vpn(u, 0),
        ),
    ensures
        walk_reaches(b, root, u),
        table_walk(b, root, u) == table_walk(a, root, u),
{
}

/// `b` equals `a` but for the offsets `lo..hi`.
pub open spec fn agree_outside(a: Seq<u8>, b: Seq<u8>, lo: int, hi: int) -> bool {
    &&& a.len() == b.len()
    &&& forall|k: int| 0 <= k < a.len() && (k < lo || hi <= k) ==> #[trigger] b[k] == a[k]
}

/// An entry whose bytes lie outside a change reads the same after it.
pub proof fn lemma_pte_untouched(a: Seq<u8>, b: Seq<u8>, lo: int, hi: int, t: u64, i: u64)
    requires
        agree_outside(a, b, lo, hi),
        t + i * 8 + 8 <= u64::MAX,
        t + i * 8 + 8 - DRAM_BASE <= lo || hi <= t + i * 8 - DRAM_BASE,
    ensures
        pte_at(b, t, i) == pte_at(a, t, i),
{
    let addr = (t + i * 8) as u64;
    if DRAM_BASE <= addr && addr - DRAM_BASE < a.len() && addr - DRAM_BASE + 8 <= a.len() {
        let off = addr - DRAM_BASE;
        assert(b.subrange(off, off + 8) =~= a.subrange(off, off + 8));
    }
}

/// Two different pages do not overlap: a slot of one lies outside the
/// other.
pub proof fn lemma_pages_apart(t: u64, p: u64, i: u64)
    requires
        t % PAGE_SIZE == 0,
        p % PAGE_SIZE == 0,
        t != p,
        i < PTES_PER_TABLE,
    ensures
        t + i * 8 + 8 <= p || p + PAGE_SIZE <= t + i * 8,
{
    assert(t + i * 8 + 8 <= p || p + PAGE_SIZE <= t + i * 8) by (nonlinear_arith)
        requires
            t % 4096 == 0,
            p % 4096 == 0,
            t != p,
            i < 512,
    ;
}

/// The table a table entry points to is a page boundary.
pub proof fn lemma_pte_table_aligned(e: u64)
    ensures
        pte_table(e) % PAGE_SIZE == 0,
        pte_table(e) <= 0xffff_ffff_ffff_f000u64,
{
    assert((((e >> 10u64) << 12u64) & !0xfffu64) % 4096 == 0 && (((e >> 10u64) << 12u64) & !0xfffu64)
        <= 0xffff_ffff_ffff_f000u64) by (bit_vector);
}

/// A table entry made for a page boundary `c` points back to `c`, and is
/// valid.
pub proof fn lemma_table_pte_round_trip(c: u64)
    requires
        c % PAGE_SIZE == 0,
    ensures
        pte_table(table_pte(c)) == c,
        table_pte(c) & 1 != 0,
{
    assert(c % 4096 == 0 ==> ((((((c >> 12u64) << 10u64) | 1u64) >> 10u64) << 12u64) & !0xfffu64) == c
        && (((c >> 12u64) << 10u64) | 1u64) & 1 != 0) by (bit_vector);
}

/// Every slot of a zeroed page reads as an invalid entry.
pub proof fn lemma_zero_slot_invalid(mem: Seq<u8>, c: u64, i: u64)
    requires
        DRAM_BASE <= c,
        c + PAGE_SIZE <= u64::MAX,
        c + PAGE_SIZE - DRAM_BASE <= mem.len(),
        i < PTES_PER_TABLE,
        forall|k: int| c - DRAM_BASE <= k < c + PAGE_SIZE - DRAM_BASE ==> #[trigger] mem[k] == 0,
    ensures
        pte_at(mem, c, i) == Some(0u64),
        !slot_valid(mem, c, i),
{
    let off = c + i * 8 - DRAM_BASE;
    assert(crate::guest::spec_guest_offset(mem.len(), (c + i * 8) as u64) == Ok::<int, crate::guest::GuestError>(off));
    let b = mem.subrange(off, off + 8);
    let (x0, x1, x2, x3) = (b[0], b[1], b[2], b[3]);
    let (x4, x5, x6, x7) = (b[4], b[5], b[6], b[7]);
    assert(x0 == 0 && x1 == 0 && x2 == 0 && x3 == 0 && x4 == 0 && x5 == 0 && x6 == 0 && x7 == 0);
    assert((x0 as u64) | ((x1 as u64) << 8u64) | ((x2 as u64) << 16u64) | ((x3 as u64) << 24u64) | ((
    x4 as u64) << 32u64) | ((x5 as u64) << 40u64) | ((x6 as u64) << 48u64) | ((x7 as u64) << 56u64)
        == 0) by (bit_vector)
        requires
            x0 == 0 && x1 == 0 && x2 == 0 && x3 == 0 && x4 == 0 && x5 == 0 && x6 == 0 && x7 == 0,
    ;
    assert(le_value(b) == 0);
    assert(0u64 & 1 == 0) by (bit_vector);
}

/// Tables whose entries all read as before stay well formed; the
/// allocator may have moved on.
pub proof fn lemma_wf_transfer(a: Seq<u8>, b: Seq<u8>, root: u64, np: u64, np2: u64)
    requires
        pt_wf(a, root, np),
        np <= np2,
        np2 % PAGE_SIZE == 0,
        forall|i: u64| i < PTES_PER_TABLE ==> #[trigger] pte_at(b, root, i) == pte_at(a, root, i),
        forall|i: u64, j: u64|
            i < PTES_PER_TABLE && j < PTES_PER_TABLE && slot_valid(a, root, i) ==> #[trigger] pte_at(
                b,
                slot_child(a, root, i),
                j,
            ) == pte_at(a, slot_child(a, root, i), j),
    ensures
        pt_wf(b, root, np2),
{
    assert forall|i: u64| #![trigger slot_valid(b, root, i)] i < PTES_PER_TABLE && slot_valid(b, root, i) implies root < slot_child(b, root, i) < np2 by {
        assert(pte_at(b, root, i) == pte_at(a, root, i));
        assert(slot_valid(a, root, i));
    }
    assert forall|i: u64, j: u64|
        #![trigger slot_valid(b, slot_child(b, root, i), j)]
        i < PTES_PER_TABLE && j < PTES_PER_TABLE && slot_valid(b, root, i) && slot_valid(
            b,
            slot_child(b, root, i),
            j,
        ) implies slot_child(b, root, i) < slot_child(b, slot_child(b, root, i), j) < np2 by {
        assert(pte_at(b, root, i) == pte_at(a, root, i));
        assert(slot_valid(a, root, i));
        assert(pte_at(b, slot_child(a, root, i), j) == pte_at(a, slot_child(a, root, i), j));
        assert(slot_valid(a, slot_child(a, root, i), j));
    }
    assert forall|i: u64, j: u64, k: u64|
        #![trigger slot_valid(b, slot_child(b, root, i), j), slot_valid(b, root, k)]
        i < PTES_PER_TABLE && j < PTES_PER_TABLE && k < PTES_PER_TABLE && slot_valid(b, root, i)
            && slot_valid(b, slot_child(b, root, i), j) && slot_valid(b, root, k) implies slot_child(
        b,
        slot_child(b, root, i),
        j,
    ) != slot_child(b, root, k) by {
        assert(pte_at(b, root, i) == pte_at(a, root, i));
        assert(pte_at(b, root, k) == pte_at(a, root, k));
        assert(slot_valid(a, root, i));
        assert(slot_valid(a, root, k));
        assert(pte_at(b, slot_child(a, root, i), j) == pte_at(a, slot_child(a, root, i), j));
        assert(slot_valid(a, slot_child(a, root, i), j));
    }
    assert forall|i: u64, k: u64|
        #![trigger slot_valid(b, root, i), slot_valid(b, root, k)]
        i < PTES_PER_TABLE && k < PTES_PER_TABLE && i != k && slot_valid(b, root, i) && slot_valid(b, root, k)
            implies slot_child(b, root, i) != slot_child(b, root, k) by {
        assert(pte_at(b, root, i) == pte_at(a, root, i));
        assert(pte_at(b, root, k) == pte_at(a, root, k));
        assert(slot_valid(a, root, i));
        assert(slot_valid(a, root, k));
    }
    assert forall|i: u64, j: u64, i2: u64, j2: u64|
        #![trigger slot_valid(b, slot_child(b, root, i), j), slot_valid(b, slot_child(b, root, i2), j2)]
        i < PTES_PER_TABLE && j < PTES_PER_TABLE && i2 < PTES_PER_TABLE && j2 < PTES_PER_TABLE && (i != i2
            || j != j2) && slot_valid(b, root, i) && slot_valid(b, slot_child(b, root, i), j) && slot_valid(
            b,
            root,
            i2,
        ) && slot_valid(b, slot_child(b, root, i2), j2) implies slot_child(b, slot_child(b, root, i), j)
        != slot_child(b, slot_child(b, root, i2), j2) by {
        assert(pte_at(b, root, i) == pte_at(a, root, i));
        assert(pte_at(b, root, i2) == pte_at(a, root, i2));
        assert(slot_valid(a, root, i));
        assert(slot_valid(a, root, i2));
        assert(pte_at(b, slot_child(a, root, i), j) == pte_at(a, slot_child(a, root, i), j));
        assert(pte_at(b, slot_child(a, root, i2), j2) == pte_at(a, slot_child(a, root, i2), j2));
        assert(slot_valid(a, slot_child(a, root, i), j));
        assert(slot_valid(a, slot_child(a, root, i2), j2));
    }
}

/// `p` is neither the root nor a table the root points to.
pub open spec fn below_level_one(mem: Seq<u8>, root: u64, p: u64) -> bool {
    &&& p != root
    &&& forall|k: u64| k < PTES_PER_TABLE && #[trigger] slot_valid(mem, root, k) ==> slot_child(mem, root, k) != p
}

/// A change confined to a page that is neither the root nor a table the
/// root points to keeps the tables well formed; the allocator may have
/// moved on.
pub proof fn lemma_wf_frame(a: Seq<u8>, b: Seq<u8>, root: u64, np: u64, np2: u64, p: u64)
    requires
        pt_wf(a, root, np),
        np <= np2,
        np2 % PAGE_SIZE == 0,
        p % PAGE_SIZE == 0,
        p + PAGE_SIZE <= u64::MAX,
        DRAM_BASE <= p,
        below_level_one(a, root, p),
        agree_outside(a, b, p - DRAM_BASE, p + PAGE_SIZE - DRAM_BASE),
    ensures
        pt_wf(b, root, np2),
        forall|i: u64| i < PTES_PER_TABLE ==> #[trigger] pte_at(b, root, i) == pte_at(a, root, i),
        forall|i: u64, j: u64|
            i < PTES_PER_TABLE && j < PTES_PER_TABLE && slot_valid(a, root, i) ==> #[trigger] pte_at(
                b,
                slot_child(a, root, i),
                j,
            ) == pte_at(a, slot_child(a, root, i), j),
{
    assert forall|i: u64| i < PTES_PER_TABLE implies #[trigger] pte_at(b, root, i) == pte_at(a, root, i) by {
        lemma_pages_apart(root, p, i);
        lemma_pte_untouched(a, b, p - DRAM_BASE, p + PAGE_SIZE - DRAM_BASE, root, i);
    }
    assert forall|i: u64, j: u64|
        i < PTES_PER_TABLE && j < PTES_PER_TABLE && slot_valid(a, root, i) implies #[trigger] pte_at(
        b,
        slot_child(a, root, i),
        j,
    ) == pte_at(a, slot_child(a, root, i), j) by {
        let t = slot_child(a, root, i);
        lemma_pte_table_aligned(pte_at(a, root, i)->Some_0);
        lemma_pages_apart(t, p, j);
        lemma_pte_untouched(a, b, p - DRAM_BASE, p + PAGE_SIZE - DRAM_BASE, t, j);
    }
    lemma_wf_transfer(a, b, root, np, np2);
}

/// Writing `v` into slot `i` of the table at `t` changes only that slot,
/// which then reads `v`.
pub proof fn lemma_slot_write(a: Seq<u8>, t: u64, i: u64, v: u64)
    requires
        DRAM_BASE <= t + i * 8,
        t + i * 8 + 8 <= u64::MAX,
        t + i * 8 + 8 - DRAM_BASE <= a.len(),
    ensures
        agree_outside(a, spliced(a, t + i * 8 - DRAM_BASE, le_bytes(v)), t + i * 8 - DRAM_BASE, t + i * 8 + 8
            - DRAM_BASE),
        pte_at(spliced(a, t + i * 8 - DRAM_BASE, le_bytes(v)), t, i) == Some(v),
{
    let off = t + i * 8 - DRAM_BASE;
    let b = spliced(a, off, le_bytes(v));
    assert(b.len() == a.len());
    assert forall|k: int| 0 <= k < a.len() && (k < off || off + 8 <= k) implies #[trigger] b[k] == a[k] by {
        if k < off {
            assert(b[k] == a.subrange(0, off)[k]);
        } else {
            assert(b[k] == a.subrange(off + 8, a.len() as int)[k - off - 8]);
        }
    }
    assert(b.subrange(off, off + 8) =~= le_bytes(v));
    assert(crate::guest::spec_guest_offset(a.len(), (t + i * 8) as u64) == Ok::<int, crate::guest::GuestError>(off));
    lemma_le_round_trip(v);
}

/// Zeroing the page at `c` changes only that page.
pub proof fn lemma_zeroed(a: Seq<u8>, c: u64)
    requires
        DRAM_BASE <= c,
        c + PAGE_SIZE - DRAM_BASE <= a.len(),
    ensures
        agree_outside(a, zero_page(a, c - DRAM_BASE), c - DRAM_BASE, c + PAGE_SIZE - DRAM_BASE),
        forall|k: int| c - DRAM_BASE <= k < c + PAGE_SIZE - DRAM_BASE ==> #[trigger] zero_page(a, c - DRAM_BASE)[k] == 0,
{
    let off = c - DRAM_BASE;
    let b = zero_page(a, off);
    assert(b.len() == a.len());
    assert forall|k: int| 0 <= k < a.len() && (k < off || off + PAGE_SIZE <= k) implies #[trigger] b[k] == a[k] by {
        if k < off {
            assert(b[k] == a.subrange(0, off)[k]);
        } else {
            assert(b[k] == a.subrange(off + PAGE_SIZE, a.len() as int)[k - off - PAGE_SIZE]);
        }
    }
    assert forall|k: int| off <= k < off + PAGE_SIZE implies #[trigger] b[k] == 0 by {
        assert(b[k] == Seq::new(PAGE_SIZE as nat, |x: int| 0u8)[k - off]);
    }
}

/// The tables stay well formed when the allocator moves on.
pub proof fn lemma_wf_grow(a: Seq<u8>, root: u64, np: u64, np2: u64)
    requires
        pt_wf(a, root, np),
        np <= np2,
        np2 % PAGE_SIZE == 0,
    ensures
        pt_wf(a, root, np2),
{
    lemma_wf_transfer(a, a, root, np, np2);
}

/// The tables stay well formed when an empty slot of the root comes to
/// point to the new, empty table `np` and nothing else changes.
#[verifier::rlimit(100)]
#[verifier::spinoff_prover]
proof fn lemma_wf_new_root_slot(a: Seq<u8>, b: Seq<u8>, root: u64, np: u64, v2: u64)
    requires
        pt_wf(a, root, np),
        v2 < PTES_PER_TABLE,
        !slot_valid(a, root, v2),
        np % PAGE_SIZE == 0,
        np + PAGE_SIZE <= u64::MAX,
        forall|i: u64| i < PTES_PER_TABLE && i != v2 ==> #[trigger] pte_at(b, root, i) == pte_at(a, root, i),
        slot_valid(b, root, v2),
        slot_child(b, root, v2) == np,
        forall|j: u64| j < PTES_PER_TABLE ==> !#[trigger] slot_valid(b, np, j),
        forall|i: u64, j: u64|
            i < PTES_PER_TABLE && j < PTES_PER_TABLE && i != v2 && slot_valid(a, root, i) ==> #[trigger] pte_at(
                b,
                slot_child(a, root, i),
                j,
            ) == pte_at(a, slot_child(a, root, i), j),
    ensures
        pt_wf(b, root, (np + PAGE_SIZE) as u64),
{
    let np2 = (np + PAGE_SIZE) as u64;
    assert forall|i: u64| #![trigger slot_valid(b, root, i)] i < PTES_PER_TABLE && slot_valid(b, root, i) implies root < slot_child(b, root, i) < np2 by {
        if i != v2 {
            assert(pte_at(b, root, i) == pte_at(a, root, i));
            assert(slot_valid(a, root, i));
        }
    }
    assert forall|i: u64, j: u64|
        #![trigger slot_valid(b, slot_child(b, root, i), j)]
        i < PTES_PER_TABLE && j < PTES_PER_TABLE && slot_valid(b, root, i) && slot_valid(
            b,
            slot_child(b, root, i),
            j,
        ) implies slot_child(b, root, i) < slot_child(b, slot_child(b, root, i), j) < np2 by {
        if i == v2 {
            assert(!slot_valid(b, np, j));
        } else {
            assert(pte_at(b, root, i) == pte_at(a, root, i));
            assert(slot_valid(a, root, i));
            assert(pte_at(b, slot_child(a, root, i), j) == pte_at(a, slot_child(a, root, i), j));
            assert(slot_valid(a, slot_child(a, root, i), j));
        }
    }
    assert forall|i: u64, j: u64, k: u64|
        #![trigger slot_valid(b, slot_child(b, root, i), j), slot_valid(b, root, k)]
        i < PTES_PER_TABLE && j < PTES_PER_TABLE && k < PTES_PER_TABLE && slot_valid(b, root, i)
            && slot_valid(b, slot_child(b, root, i), j) && slot_valid(b, root, k) implies slot_child(
        b,
        slot_child(b, root, i),
        j,
    ) != slot_child(b, root, k) by {
        if i == v2 {
            assert(!slot_valid(b, np, j));
        } else {
            assert(pte_at(b, root, i) == pte_at(a, root, i));
            assert(slot_valid(a, root, i));
            assert(pte_at(b, slot_child(a, root, i), j) == pte_at(a, slot_child(a, root, i), j));
            assert(slot_valid(a, slot_child(a, root, i), j));
            if k != v2 {
                assert(pte_at(b, root, k) == pte_at(a, root, k));
                assert(slot_valid(a, root, k));
            }
        }
    }
    assert forall|i: u64, k: u64|
        #![trigger slot_valid(b, root, i), slot_valid(b, root, k)]
        i < PTES_PER_TABLE && k < PTES_PER_TABLE && i != k && slot_valid(b, root, i) && slot_valid(b, root, k)
            implies slot_child(b, root, i) != slot_child(b, root, k) by {
        if i != v2 {
            assert(pte_at(b, root, i) == pte_at(a, root, i));
            assert(slot_valid(a, root, i));
        }
        if k != v2 {
            assert(pte_at(b, root, k) == pte_at(a, root, k));
            assert(slot_valid(a, root, k));
        }
    }
    assert forall|i: u64, j: u64, i2: u64, j2: u64|
        #![trigger slot_valid(b, slot_child(b, root, i), j), slot_valid(b, slot_child(b, root, i2), j2)]
        i < PTES_PER_TABLE && j < PTES_PER_TABLE && i2 < PTES_PER_TABLE && j2 < PTES_PER_TABLE && (i != i2
            || j != j2) && slot_valid(b, root, i) && slot_valid(b, slot_child(b, root, i), j) && slot_valid(
            b,
            root,
            i2,
        ) && slot_valid(b, slot_child(b, root, i2), j2) implies slot_child(b, slot_child(b, root, i), j)
        != slot_child(b, slot_child(b, root, i2), j2) by {
        if i == v2 {
            assert(!slot_valid(b, np, j));
        } else if i2 == v2 {
            assert(!slot_valid(b, np, j2));
        } else {
            assert(pte_at(b, root, i) == pte_at(a, root, i));
            assert(pte_at(b, root, i2) == pte_at(a, root, i2));
            assert(slot_valid(a, root, i));
            assert(slot_valid(a, root, i2));
            assert(pte_at(b, slot_child(a, root, i), j) == pte_at(a, slot_child(a, root, i), j));
            assert(pte_at(b, slot_child(a, root, i2), j2) == pte_at(a, slot_child(a, root, i2), j2));
            assert(slot_valid(a, slot_child(a, root, i), j));
            assert(slot_valid(a, slot_child(a, root, i2), j2));
        }
    }
}

/// The tables stay well formed when an empty slot `v1` of the table `t`
/// the root's slot `v2` points to comes to point to the new table `np` and
/// nothing else changes.
#[verifier::rlimit(100)]
#[verifier::spinoff_prover]
proof fn lemma_wf_new_child_slot(a: Seq<u8>, b: Seq<u8>, root: u64, np: u64, v2: u64, v1: u64)
    requires
        pt_wf(a, root, np),
        v2 < PTES_PER_TABLE,
        v1 < PTES_PER_TABLE,
        slot_valid(a, root, v2),
        !slot_valid(a, slot_child(a, root, v2), v1),
        np % PAGE_SIZE == 0,
        np + PAGE_SIZE <= u64::MAX,
        forall|i: u64| i < PTES_PER_TABLE ==> #[trigger] pte_at(b, root, i) == pte_at(a, root, i),
        forall|i: u64, j: u64|
            i < PTES_PER_TABLE && j < PTES_PER_TABLE && slot_valid(a, root, i) && (slot_child(a, root, i)
                != slot_child(a, root, v2) || j != v1) ==> #[trigger] pte_at(b, slot_child(a, root, i), j)
                == pte_at(a, slot_child(a, root, i), j),
        slot_valid(b, slot_child(a, root, v2), v1),
        slot_child(b, slot_child(a, root, v2), v1) == np,
    ensures
        pt_wf(b, root, (np + PAGE_SIZE) as u64),
{
    let np2 = (np + PAGE_SIZE) as u64;
    let t = slot_child(a, root, v2);
    assert forall|i: u64| #![trigger slot_valid(b, root, i)] i < PTES_PER_TABLE && slot_valid(b, root, i) implies root < slot_child(b, root, i) < np2 by {
        assert(pte_at(b, root, i) == pte_at(a, root, i));
        assert(slot_valid(a, root, i));
    }
    assert forall|i: u64, j: u64|
        #![trigger slot_valid(b, slot_child(b, root, i), j)]
        i < PTES_PER_TABLE && j < PTES_PER_TABLE && slot_valid(b, root, i) && slot_valid(
            b,
            slot_child(b, root, i),
            j,
        ) implies slot_child(b, root, i) < slot_child(b, slot_child(b, root, i), j) < np2 by {
        assert(pte_at(b, root, i) == pte_at(a, root, i));
        assert(slot_valid(a, root, i));
        if slot_child(a, root, i) == t && j == v1 {
            assert(slot_valid(a, root, v2));
        } else {
            assert(pte_at(b, slot_child(a, root, i), j) == pte_at(a, slot_child(a, root, i), j));
            assert(slot_valid(a, slot_child(a, root, i), j));
        }
    }
    assert forall|i: u64, j: u64, k: u64|
        #![trigger slot_valid(b, slot_child(b, root, i), j), slot_valid(b, root, k)]
        i < PTES_PER_TABLE && j < PTES_PER_TABLE && k < PTES_PER_TABLE && slot_valid(b, root, i)
            && slot_valid(b, slot_child(b, root, i), j) && slot_valid(b, root, k) implies slot_child(
        b,
        slot_child(b, root, i),
        j,
    ) != slot_child(b, root, k) by {
        assert(pte_at(b, root, i) == pte_at(a, root, i));
        assert(pte_at(b, root, k) == pte_at(a, root, k));
        assert(slot_valid(a, root, i));
        assert(slot_valid(a, root, k));
        if !(slot_child(a, root, i) == t && j == v1) {
            assert(pte_at(b, slot_child(a, root, i), j) == pte_at(a, slot_child(a, root, i), j));
            assert(slot_valid(a, slot_child(a, root, i), j));
        }
    }
    assert forall|i: u64, k: u64|
        #![trigger slot_valid(b, root, i), slot_valid(b, root, k)]
        i < PTES_PER_TABLE && k < PTES_PER_TABLE && i != k && slot_valid(b, root, i) && slot_valid(b, root, k)
            implies slot_child(b, root, i) != slot_child(b, root, k) by {
        assert(pte_at(b, root, i) == pte_at(a, root, i));
        assert(pte_at(b, root, k) == pte_at(a, root, k));
        assert(slot_valid(a, root, i));
        assert(slot_valid(a, root, k));
    }
    assert forall|i: u64, j: u64, i2: u64, j2: u64|
        #![trigger slot_valid(b, slot_child(b, root, i), j), slot_valid(b, slot_child(b, root, i2), j2)]
        i < PTES_PER_TABLE && j < PTES_PER_TABLE && i2 < PTES_PER_TABLE && j2 < PTES_PER_TABLE && (i != i2
            || j != j2) && slot_valid(b, root, i) && slot_valid(b, slot_child(b, root, i), j) && slot_valid(
            b,
            root,
            i2,
        ) && slot_valid(b, slot_child(b, root, i2), j2) implies slot_child(b, slot_child(b, root, i), j)
        != slot_child(b, slot_child(b, root, i2), j2) by {
        assert(pte_at(b, root, i) == pte_at(a, root, i));
        assert(pte_at(b, root, i2) == pte_at(a, root, i2));
        assert(slot_valid(a, root, i));
        assert(slot_valid(a, root, i2));
        let new1 = slot_child(a, root, i) == t && j == v1;
        let new2 = slot_child(a, root, i2) == t && j2 == v1;
        if !new1 {
            assert(pte_at(b, slot_child(a, root, i), j) == pte_at(a, slot_child(a, root, i), j));
            assert(slot_valid(a, slot_child(a, root, i), j));
        }
        if !new2 {
            assert(pte_at(b, slot_child(a, root, i2), j2) == pte_at(a, slot_child(a, root, i2), j2));
            assert(slot_valid(a, slot_child(a, root, i2), j2));
        }
        if new1 && new2 {
            // Both name slot `v1` of `t`, so they are the same root slot.
            assert(j == j2);
            if i != i2 {
                assert(slot_valid(a, root, i) && slot_valid(a, root, i2));
            }
        }
    }
}

/// Linking a freshly zeroed page `np` into an empty slot of the root
/// keeps the tables well formed, with the new table empty.
#[verifier::rlimit(100)]
#[verifier::spinoff_prover]
pub proof fn lemma_link_root(a: Seq<u8>, root: u64, np: u64, v2: u64)
    requires
        pt_wf(a, root, np),
        v2 < PTES_PER_TABLE,
        !slot_valid(a, root, v2),
        np + PAGE_SIZE <= u64::MAX,
        np + PAGE_SIZE - DRAM_BASE <= a.len(),
        root + v2 * 8 + 8 - DRAM_BASE <= a.len(),
    ensures
        ({
            let b = spliced(zero_page(a, np - DRAM_BASE), root + v2 * 8 - DRAM_BASE, le_bytes(table_pte(np)));
            &&& pt_wf(b, root, (np + PAGE_SIZE) as u64)
            &&& slot_valid(b, root, v2)
            &&& slot_child(b, root, v2) == np
            &&& forall|j: u64| j < PTES_PER_TABLE ==> !#[trigger] slot_valid(b, np, j)
            &&& forall|u: u64| #[trigger] walk_reaches(a, root, u) ==> walk_reaches(b, root, u) && table_walk(b, root, u)
                == table_walk(a, root, u)
        }),
{
    let np2 = (np + PAGE_SIZE) as u64;
    let mid = zero_page(a, np - DRAM_BASE);
    lemma_zeroed(a, np);
    assert(below_level_one(a, root, np));
    lemma_wf_frame(a, mid, root, np, np2, np);
    let b = spliced(mid, root + v2 * 8 - DRAM_BASE, le_bytes(table_pte(np)));
    lemma_slot_write(mid, root, v2, table_pte(np));
    lemma_table_pte_round_trip(np);
    assert forall|j: u64| j < PTES_PER_TABLE implies !#[trigger] slot_valid(b, np, j) by {
        lemma_pages_apart(np, root, 0);
        lemma_pte_untouched(mid, b, root + v2 * 8 - DRAM_BASE, root + v2 * 8 + 8 - DRAM_BASE, np, j);
        lemma_zero_slot_invalid(mid, np, j);
    }
    // Slots of the root other than `v2`, and every slot of an older table,
    // read as before.
    assert forall|i: u64| i < PTES_PER_TABLE && i != v2 implies #[trigger] pte_at(b, root, i) == pte_at(mid, root, i) by {
        lemma_pte_untouched(mid, b, root + v2 * 8 - DRAM_BASE, root + v2 * 8 + 8 - DRAM_BASE, root, i);
    }
    assert forall|i: u64, j: u64|
        i < PTES_PER_TABLE && j < PTES_PER_TABLE && i != v2 && slot_valid(mid, root, i) implies #[trigger] pte_at(
        b,
        slot_child(mid, root, i),
        j,
    ) == pte_at(mid, slot_child(mid, root, i), j) by {
        let t = slot_child(mid, root, i);
        lemma_pte_table_aligned(pte_at(mid, root, i)->Some_0);
        lemma_pages_apart(t, root, j);
        lemma_pages_apart(root, t, v2);
        lemma_pte_untouched(mid, b, root + v2 * 8 - DRAM_BASE, root + v2 * 8 + 8 - DRAM_BASE, t, j);
    }
    assert forall|i: u64| i < PTES_PER_TABLE && i != v2 implies #[trigger] pte_at(b, root, i) == pte_at(a, root, i) by {
        assert(pte_at(b, root, i) == pte_at(mid, root, i));
    }
    assert forall|i: u64, j: u64|
        i < PTES_PER_TABLE && j < PTES_PER_TABLE && i != v2 && slot_valid(a, root, i) implies #[trigger] pte_at(
        b,
        slot_child(a, root, i),
        j,
    ) == pte_at(a, slot_child(a, root, i), j) by {
        assert(pte_at(mid, root, i) == pte_at(a, root, i));
        assert(pte_at(b, slot_child(mid, root, i), j) == pte_at(mid, slot_child(mid, root, i), j));
    }
    lemma_wf_new_root_slot(a, b, root, np, v2);
    assert forall|u: u64| #[trigger] walk_reaches(a, root, u) implies walk_reaches(b, root, u) && table_walk(b, root, u)
        == table_walk(a, root, u) by {
        lemma_vpn_bounds(u);
        let w2 = vpn(u, 2);
        let w1 = vpn(u, 1);
        let w0 = vpn(u, 0);
        let t = slot_child(a, root, w2);
        let l = slot_child(a, t, w1);
        lemma_pte_table_aligned(pte_at(a, t, w1)->Some_0);
        assert(pte_at(b, root, w2) == pte_at(a, root, w2));
        assert(pte_at(b, t, w1) == pte_at(a, t, w1));
        assert(root < t < l < np);
        lemma_pages_apart(l, np, w0);
        lemma_pte_untouched(a, mid, np - DRAM_BASE, np + PAGE_SIZE - DRAM_BASE, l, w0);
        lemma_pages_apart(l, root, w0);
        lemma_pages_apart(root, l, v2);
        lemma_pte_untouched(mid, b, root + v2 * 8 - DRAM_BASE, root + v2 * 8 + 8 - DRAM_BASE, l, w0);
        lemma_walk_kept(a, b, root, u);
    }
}

/// Linking a freshly zeroed page `np` into an empty slot of a table the
/// root points to keeps the tables well formed and the root as it was.
#[verifier::rlimit(100)]
#[verifier::spinoff_prover]
pub proof fn lemma_link_below(a: Seq<u8>, root: u64, np: u64, v2: u64, v1: u64)
    requires
        pt_wf(a, root, np),
        v2 < PTES_PER_TABLE,
        v1 < PTES_PER_TABLE,
        slot_valid(a, root, v2),
        !slot_valid(a, slot_child(a, root, v2), v1),
        np + PAGE_SIZE <= u64::MAX,
        np + PAGE_SIZE - DRAM_BASE <= a.len(),
        slot_child(a, root, v2) + v1 * 8 + 8 - DRAM_BASE <= a.len(),
    ensures
        ({
            let t = slot_child(a, root, v2);
            let b = spliced(zero_page(a, np - DRAM_BASE), t + v1 * 8 - DRAM_BASE, le_bytes(table_pte(np)));
            &&& pt_wf(b, root, (np + PAGE_SIZE) as u64)
            &&& forall|i: u64| i < PTES_PER_TABLE ==> #[trigger] pte_at(b, root, i) == pte_at(a, root, i)
            &&& slot_valid(b, t, v1)
            &&& slot_child(b, t, v1) == np
            &&& forall|u: u64| #[trigger] walk_reaches(a, root, u) ==> walk_reaches(b, root, u) && table_walk(b, root, u)
                == table_walk(a, root, u)
        }),
{
    let np2 = (np + PAGE_SIZE) as u64;
    let t = slot_child(a, root, v2);
    lemma_pte_table_aligned(pte_at(a, root, v2)->Some_0);
    let mid = zero_page(a, np - DRAM_BASE);
    lemma_zeroed(a, np);
    assert(below_level_one(a, root, np));
    lemma_wf_frame(a, mid, root, np, np2, np);
    let lo = t + v1 * 8 - DRAM_BASE;
    let hi = t + v1 * 8 + 8 - DRAM_BASE;
    let b = spliced(mid, lo, le_bytes(table_pte(np)));
    assert(pte_at(mid, root, v2) == pte_at(a, root, v2));
    assert(slot_child(mid, root, v2) == t);
    lemma_slot_write(mid, t, v1, table_pte(np));
    lemma_table_pte_round_trip(np);
    assert forall|i: u64| i < PTES_PER_TABLE implies #[trigger] pte_at(b, root, i) == pte_at(a, root, i) by {
        lemma_pages_apart(root, t, i);
        lemma_pte_untouched(mid, b, lo, hi, root, i);
    }
    // Slots of other tables the root points to, and of `t` but `v1`, read
    // as before.
    assert forall|i: u64, j: u64|
        i < PTES_PER_TABLE && j < PTES_PER_TABLE && slot_valid(a, root, i) && (slot_child(a, root, i) != t
            || j != v1) implies #[trigger] pte_at(b, slot_child(a, root, i), j) == pte_at(
        a,
        slot_child(a, root, i),
        j,
    ) by {
        let u = slot_child(a, root, i);
        lemma_pte_table_aligned(pte_at(a, root, i)->Some_0);
        if u != t {
            lemma_pages_apart(u, t, j);
            lemma_pages_apart(t, u, v1);
        }
        lemma_pte_untouched(mid, b, lo, hi, u, j);
    }
    lemma_wf_new_child_slot(a, b, root, np, v2, v1);
    assert forall|u: u64| #[trigger] walk_reaches(a, root, u) implies walk_reaches(b, root, u) && table_walk(b, root, u)
        == table_walk(a, root, u) by {
        lemma_vpn_bounds(u);
        let w2 = vpn(u, 2);
        let w1 = vpn(u, 1);
        let w0 = vpn(u, 0);
        let tu = slot_child(a, root, w2);
        let l = slot_child(a, tu, w1);
        lemma_pte_table_aligned(pte_at(a, tu, w1)->Some_0);
        assert(pte_at(b, root, w2) == pte_at(a, root, w2));
        assert(pte_at(b, tu, w1) == pte_at(a, tu, w1));
        assert(root < tu < l < np);
        assert(l != t);
        lemma_pages_apart(l, np, w0);
        lemma_pte_untouched(a, mid, np - DRAM_BASE, np + PAGE_SIZE - DRAM_BASE, l, w0);
        lemma_pages_apart(l, t, w0);
        lemma_pages_apart(t, l, v1);
        lemma_pte_untouched(mid, b, lo, hi, l, w0);
        lemma_walk_kept(a, b, root, u);
    }
}

/// Writing a leaf into the table that `virt`'s walk reaches last keeps the
/// tables well formed, and the walk of `virt` then ends at the leaf.
#[verifier::rlimit(100)]
#[verifier::spinoff_prover]
pub proof fn lemma_write_leaf(a: Seq<u8>, root: u64, np: u64, virt: u64, leaf: u64)
    requires
        pt_wf(a, root, np),
        slot_valid(a, root, vpn(virt, 2)),
        slot_valid(a, slot_child(a, root, vpn(virt, 2)), vpn(virt, 1)),
        ({
            let l1 = slot_child(a, slot_child(a, root, vpn(virt, 2)), vpn(virt, 1));
            l1 + vpn(virt, 0) * 8 + 8 - DRAM_BASE <= a.len()
        }),
    ensures
        ({
            let l1 = slot_child(a, slot_child(a, root, vpn(virt, 2)), vpn(virt, 1));
            let b = spliced(a, l1 + vpn(virt, 0) * 8 - DRAM_BASE, le_bytes(leaf));
            &&& pt_wf(b, root, np)
            &&& walk_reaches(b, root, virt)
            &&& table_walk(b, root, virt) == Some(leaf)
            &&& forall|u: u64| #[trigger] walk_reaches(a, root, u) && !same_slots(u, virt) ==> walk_reaches(b, root, u)
                && table_walk(b, root, u) == table_walk(a, root, u)
        }),
{
    let v2 = vpn(virt, 2);
    let v1 = vpn(virt, 1);
    let v0 = vpn(virt, 0);
    assert(v2 < 512 && v1 < 512 && v0 < 512) by (bit_vector)
        requires
            v2 == (virt >> 30u64) & 0x1ffu64,
            v1 == (virt >> 21u64) & 0x1ffu64,
            v0 == (virt >> 12u64) & 0x1ffu64,
    ;
    let t = slot_child(a, root, v2);
    let l1 = slot_child(a, t, v1);
    lemma_pte_table_aligned(pte_at(a, root, v2)->Some_0);
    lemma_pte_table_aligned(pte_at(a, t, v1)->Some_0);
    assert(t < l1);
    assert(DRAM_BASE <= root < t);
    assert forall|k: u64| k < PTES_PER_TABLE && #[trigger] slot_valid(a, root, k) implies slot_child(a, root, k) != l1 by {
    }
    assert(below_level_one(a, root, l1));
    let lo = l1 + v0 * 8 - DRAM_BASE;
    let b = spliced(a, lo, le_bytes(leaf));
    lemma_slot_write(a, l1, v0, leaf);
    assert(agree_outside(a, b, l1 - DRAM_BASE, l1 + PAGE_SIZE - DRAM_BASE));
    lemma_wf_frame(a, b, root, np, np, l1);
    assert(pte_at(b, root, v2) == pte_at(a, root, v2));
    assert(pte_at(b, t, v1) == pte_at(a, t, v1));
    assert forall|u: u64| #[trigger] walk_reaches(a, root, u) && !same_slots(u, virt) implies walk_reaches(b, root, u)
        && table_walk(b, root, u) == table_walk(a, root, u) by {
        lemma_vpn_bounds(u);
        let w2 = vpn(u, 2);
        let w1 = vpn(u, 1);
        let w0 = vpn(u, 0);
        let tu = slot_child(a, root, w2);
        let l = slot_child(a, tu, w1);
        lemma_pte_table_aligned(pte_at(a, tu, w1)->Some_0);
        assert(pte_at(b, root, w2) == pte_at(a, root, w2));
        assert(pte_at(b, tu, w1) == pte_at(a, tu, w1));
        if l != l1 {
            lemma_pages_apart(l, l1, w0);
            lemma_pages_apart(l1, l, v0);
        } else {
            assert(w2 == v2 && w1 == v1);
            assert(w0 != v0);
        }
        lemma_pte_untouched(a, b, lo, l1 + v0 * 8 + 8 - DRAM_BASE, l, w0);
        lemma_walk_kept(a, b, root, u);
    }
}

/// `t` is a table the root points to.
pub open spec fn is_level_one(mem: Seq<u8>, root: u64, t: u64) -> bool {
    exists|i: u64| i < PTES_PER_TABLE && #[trigger] slot_valid(mem, root, i) && slot_child(mem, root, i) == t
}

/// Zeroing the next page of the table allocator, and moving the allocator
/// past it, keeps the tables well formed and the root as it was.
pub proof fn lemma_wf_after_zero(a: Seq<u8>, root: u64, np: u64)
    requires
        pt_wf(a, root, np),
        DRAM_BASE <= np,
        np + PAGE_SIZE <= u64::MAX,
        np + PAGE_SIZE - DRAM_BASE <= a.len(),
    ensures
        pt_wf(zero_page(a, np - DRAM_BASE), root, (np + PAGE_SIZE) as u64),
        forall|i: u64| i < PTES_PER_TABLE ==> #[trigger] pte_at(zero_page(a, np - DRAM_BASE), root, i) == pte_at(a, root, i),
        forall|u: u64| #[trigger] walk_reaches(a, root, u) ==> walk_reaches(zero_page(a, np - DRAM_BASE), root, u)
            && table_walk(zero_page(a, np - DRAM_BASE), root, u) == table_walk(a, root, u),
{
    let b = zero_page(a, np - DRAM_BASE);
    lemma_zeroed(a, np);
    assert(below_level_one(a, root, np));
    lemma_wf_frame(a, b, root, np, (np + PAGE_SIZE) as u64, np);
    assert forall|u: u64| #[trigger] walk_reaches(a, root, u) implies walk_reaches(b, root, u) && table_walk(b, root, u)
        == table_walk(a, root, u) by {
        lemma_vpn_bounds(u);
        let w2 = vpn(u, 2);
        let w1 = vpn(u, 1);
        let w0 = vpn(u, 0);
        let tu = slot_child(a, root, w2);
        let l = slot_child(a, tu, w1);
        lemma_pte_table_aligned(pte_at(a, tu, w1)->Some_0);
        assert(pte_at(b, root, w2) == pte_at(a, root, w2));
        assert(pte_at(b, tu, w1) == pte_at(a, tu, w1));
        lemma_pages_apart(l, np, w0);
        lemma_pte_untouched(a, b, np - DRAM_BASE, np + PAGE_SIZE - DRAM_BASE, l, w0);
        lemma_walk_kept(a, b, root, u);
    }
}

/// Linking a freshly zeroed page `np` into an empty slot of the root or of
/// a table the root points to keeps the tables well formed; the slot then
/// points to the new table.
pub proof fn lemma_link(a: Seq<u8>, root: u64, np: u64, table: u64, idx: u64)
    requires
        pt_wf(a, root, np),
        table == root || is_level_one(a, root, table),
        idx < PTES_PER_TABLE,
        !slot_valid(a, table, idx),
        np + PAGE_SIZE <= u64::MAX,
        np + PAGE_SIZE - DRAM_BASE <= a.len(),
        table + idx * 8 + 8 - DRAM_BASE <= a.len(),
    ensures
        ({
            let b = spliced(zero_page(a, np - DRAM_BASE), table + idx * 8 - DRAM_BASE, le_bytes(table_pte(np)));
            &&& pt_wf(b, root, (np + PAGE_SIZE) as u64)
            &&& slot_valid(b, table, idx)
            &&& slot_child(b, table, idx) == np
            &&& table != root ==> forall|i: u64| i < PTES_PER_TABLE ==> #[trigger] pte_at(b, root, i) == pte_at(a, root, i)
            &&& forall|u: u64| #[trigger] walk_reaches(a, root, u) ==> walk_reaches(b, root, u) && table_walk(b, root, u)
                == table_walk(a, root, u)
        }),
{
    if table == root {
        lemma_link_root(a, root, np, idx);
    } else {
        let v2 = choose|i: u64| i < PTES_PER_TABLE && #[trigger] slot_valid(a, root, i) && slot_child(a, root, i) == table;
        lemma_link_below(a, root, np, v2, idx);
    }
}

/// A zeroed root page, with the allocator just past it, is a well-formed
/// set of tables that maps nothing.
pub proof fn lemma_fresh_root(a: Seq<u8>, root: u64)
    requires
        root % PAGE_SIZE == 0,
        DRAM_BASE <= root,
        root + PAGE_SIZE <= u64::MAX,
        root + PAGE_SIZE - DRAM_BASE <= a.len(),
    ensures
        pt_wf(zero_page(a, root - DRAM_BASE), root, (root + PAGE_SIZE) as u64),
        forall|i: u64| i < PTES_PER_TABLE ==> !#[trigger] slot_valid(zero_page(a, root - DRAM_BASE), root, i),
{
    let b = zero_page(a, root - DRAM_BASE);
    lemma_zeroed(a, root);
    assert forall|i: u64| i < PTES_PER_TABLE implies !#[trigger] slot_valid(b, root, i) by {
        lemma_zero_slot_invalid(b, root, i);
    }
}

/// A change confined to memory below the root table keeps the tables as
/// they were.
pub proof fn lemma_wf_frame_below(a: Seq<u8>, b: Seq<u8>, root: u64, np: u64, lo: int, hi: int)
    requires
        pt_wf(a, root, np),
        agree_outside(a, b, lo, hi),
        hi <= root - DRAM_BASE,
    ensures
        pt_wf(b, root, np),
{
    assert forall|i: u64| i < PTES_PER_TABLE implies #[trigger] pte_at(b, root, i) == pte_at(a, root, i) by {
        lemma_pte_untouched(a, b, lo, hi, root, i);
    }
    assert forall|i: u64, j: u64|
        i < PTES_PER_TABLE && j < PTES_PER_TABLE && slot_valid(a, root, i) implies #[trigger] pte_at(
        b,
        slot_child(a, root, i),
        j,
    ) == pte_at(a, slot_child(a, root, i), j) by {
        let t = slot_child(a, root, i);
        lemma_pte_table_aligned(pte_at(a, root, i)->Some_0);
        lemma_pte_untouched(a, b, lo, hi, t, j);
    }
    lemma_wf_transfer(a, b, root, np, np);
}

} // verus!
