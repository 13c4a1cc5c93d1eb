//! What the host runtime remembers of each accelerator's banks, and the
//! host-memory side of the transfers it issues from that knowledge.

use vstd::prelude::*;
use crate::rushb::DmaOperation;
use crate::staging::{
    capture_host, chunks_view, mset_bank_config, spans, spans_fit, spans_within, spec_capture, spec_spans,
    span_offset, BankConfig,
};

verus! {

/// Banks the host keeps a record of per accelerator: bank ids are ten bits.
pub const HOST_BANK_SLOTS: usize = 1024;

/// The accelerator and chip that host commands go to.
#[derive(Clone, Copy, Debug, PartialEq, Eq, Structural)]
pub struct Selection {
    pub accelerator_id: u32,
    pub chip_id: i32,
}

/// A bank the host has not seen allocated.
pub open spec fn unknown_bank() -> BankConfig {
    BankConfig { allocated: false, groups: 0 }
}

/// The host's record of bank allocations, per selection.
pub struct HostBankTable {
    pub tables: Vec<(Selection, Vec<BankConfig>)>,
}

/// `i` is the table of selection `sel`.
pub open spec fn is_table_of(tables: Seq<(Selection, Vec<BankConfig>)>, sel: Selection, i: int) -> bool {
    0 <= i < tables.len() && tables[i].0 == sel
}

impl HostBankTable {
    /// No selection has two tables and every table has a slot per bank.
    pub open spec fn wf(&self) -> bool {
        &&& forall|i: int, j: int|
            0 <= i < j < self.tables@.len() ==> self.tables@[i].0 != self.tables@[j].0
        &&& forall|i: int| 0 <= i < self.tables@.len() ==> (#[trigger] self.tables@[i]).1@.len() == HOST_BANK_SLOTS
    }

    /// What the host knows of bank `bank` of selection `sel`: the last
    /// record, or an unallocated bank.
    pub open spec fn config_of(&self, sel: Selection, bank: int) -> BankConfig {
        if exists|i: int| #[trigger] is_table_of(self.tables@, sel, i) {
            let i = choose|i: int| #[trigger] is_table_of(self.tables@, sel, i);
            self.tables@[i].1@[bank]
        } else {
            unknown_bank()
        }
    }

    /// A table that knows of no allocation.
    pub fn new() -> (r: HostBankTable)
        ensures
            r.wf(),
            forall|sel: Selection, bank: int| #[trigger] r.config_of(sel, bank) == unknown_bank(),
    {
        HostBankTable { tables: Vec::new() }
    }

    /// The table of selection `sel`.
    fn find(&self, sel: Selection) -> (r: Option<usize>)
        ensures
            match r {
                Some(i) => is_table_of(self.tables@, sel, i as int),
                None => forall|i: int| !(#[trigger] is_table_of(self.tables@, sel, i)),
            },
    {
        let mut i: usize = 0;
        while i < self.tables.len()
            invariant
                i <= self.tables@.len(),
                forall|j: int| 0 <= j < i ==> self.tables@[j].0 != sel,
            decreases self.tables@.len() - i,
        {
            if self.tables[i].0 == sel {
                return Some(i);
            }
            i = i + 1;
        }
        None
    }

    /// What the host knows of bank `bank_id` of selection `sel`.
    pub fn bank_config(&self, sel: Selection, bank_id: usize) -> (r: BankConfig)
        requires
            self.wf(),
            bank_id < HOST_BANK_SLOTS,
        ensures
            r == self.config_of(sel, bank_id as int),
    {
        match self.find(sel) {
            Some(i) => {
                proof {
                    self.lemma_table_unique(sel, i as int);
                }
                self.tables[i].1[bank_id]
            },
            None => BankConfig { allocated: false, groups: 0 },
        }
    }

    /// The table found for a selection is the one `config_of` reads.
    proof fn lemma_table_unique(&self, sel: Selection, i: int)
        requires
            self.wf(),
            is_table_of(self.tables@, sel, i),
        ensures
            forall|bank: int| #[trigger] self.config_of(sel, bank) == self.tables@[i].1@[bank],
    {
        let c = choose|j: int| #[trigger] is_table_of(self.tables@, sel, j);
        assert(is_table_of(self.tables@, sel, c));
        if c != i {
            if c < i {
                assert(self.tables@[c].0 != self.tables@[i].0);
            } else {
                assert(self.tables@[i].0 != self.tables@[c].0);
            }
        }
    }

    /// Records `config` for bank `bank_id` of selection `sel`; every other
    /// record stays.
    pub fn update_bank_config(&mut self, sel: Selection, bank_id: usize, config: BankConfig)
        requires
            old(self).wf(),
            bank_id < HOST_BANK_SLOTS,
        ensures
            final(self).wf(),
            forall|s: Selection, b: int|
                0 <= b < HOST_BANK_SLOTS ==> #[trigger] final(self).config_of(s, b) == if s == sel && b == bank_id {
                    config
                } else {
                    old(self).config_of(s, b)
                },
    {
        let ghost before = *self;
        match self.find(sel) {
            Some(i) => {
                proof {
                    before.lemma_table_unique(sel, i as int);
                }
                let (s, mut banks) = self.tables.remove(i);
                banks.set(bank_id, config);
                self.tables.insert(i, (s, banks));
                proof {
                    assert(self.tables@ == before.tables@.update(i as int, (sel, banks)));
                    assert forall|a: int, b: int| 0 <= a < b < self.tables@.len() implies self.tables@[a].0
                        != self.tables@[b].0 by {
                        assert(before.tables@[a].0 != before.tables@[b].0);
                    }
                    assert forall|a: int| 0 <= a < self.tables@.len() implies (#[trigger] self.tables@[a]).1@.len()
                        == HOST_BANK_SLOTS by {
                        assert(before.tables@[a].1@.len() == HOST_BANK_SLOTS);
                    }
                    self.lemma_table_unique(sel, i as int);
                    assert forall|t: Selection, b: int| 0 <= b < HOST_BANK_SLOTS && t != sel implies #[trigger] self.config_of(t, b)
                        == before.config_of(t, b) by {
                        if exists|j: int| #[trigger] is_table_of(before.tables@, t, j) {
                            let j = choose|j: int| #[trigger] is_table_of(before.tables@, t, j);
                            before.lemma_table_unique(t, j);
                            assert(is_table_of(self.tables@, t, j));
                            self.lemma_table_unique(t, j);
                        } else {
                            assert forall|j: int| !(#[trigger] is_table_of(self.tables@, t, j)) by {
                                if is_table_of(self.tables@, t, j) {
                                    assert(is_table_of(before.tables@, t, j));
                                }
                            }
                        }
                    }
                }
            },
            None => {
                let mut banks: Vec<BankConfig> = Vec::new();
                let mut k: usize = 0;
                while k < HOST_BANK_SLOTS
                    invariant
                        k <= HOST_BANK_SLOTS,
                        banks@.len() == k,
                        forall|j: int| 0 <= j < k ==> banks@[j] == (if j == bank_id { config } else { unknown_bank() }),
                    decreases HOST_BANK_SLOTS - k,
                {
                    if k == bank_id {
                        banks.push(config);
                    } else {
                        banks.push(BankConfig { allocated: false, groups: 0 });
                    }
                    k = k + 1;
                }
                self.tables.push((sel, banks));
                proof {
                    let n = before.tables@.len() as int;
                    assert forall|a: int, b: int| 0 <= a < b < self.tables@.len() implies self.tables@[a].0
                        != self.tables@[b].0 by {
                        if b == n {
                            assert(!is_table_of(before.tables@, sel, a));
                        } else {
                            assert(before.tables@[a].0 != before.tables@[b].0);
                        }
                    }
                    assert forall|a: int| 0 <= a < self.tables@.len() implies (#[trigger] self.tables@[a]).1@.len()
                        == HOST_BANK_SLOTS by {
                        if a < n {
                            assert(before.tables@[a].1@.len() == HOST_BANK_SLOTS);
                        }
                    }
                    assert(is_table_of(self.tables@, sel, n));
                    self.lemma_table_unique(sel, n);
                    assert forall|t: Selection, b: int| 0 <= b < HOST_BANK_SLOTS && t != sel implies #[trigger] self.config_of(t, b)
                        == before.config_of(t, b) by {
                        if exists|j: int| #[trigger] is_table_of(before.tables@, t, j) {
                            let j = choose|j: int| #[trigger] is_table_of(before.tables@, t, j);
                            before.lemma_table_unique(t, j);
                            assert(is_table_of(self.tables@, t, j));
                            self.lemma_table_unique(t, j);
                        } else {
                            assert forall|j: int| !(#[trigger] is_table_of(self.tables@, t, j)) by {
                                if is_table_of(self.tables@, t, j) {
                                    assert(j != n);
                                    assert(is_table_of(before.tables@, t, j));
                                }
                            }
                        }
                    }
                }
            },
        }
    }

    /// Records the bank allocation `xs1`, `xs2` sent to selection `sel`.
    pub fn record_mset(&mut self, sel: Selection, xs1: u64, xs2: u64)
        requires
            old(self).wf(),
        ensures
            final(self).wf(),
            forall|s: Selection, b: int|
                0 <= b < HOST_BANK_SLOTS ==> #[trigger] final(self).config_of(s, b) == if s == sel && b == xs1
                    % 0x400 {
                    mset_bank_config_spec(xs2)
                } else {
                    old(self).config_of(s, b)
                },
    {
        let (bank_id, config) = mset_bank_config(xs1, xs2);
        self.update_bank_config(sel, bank_id, config);
    }
}

/// The record a bank allocation with operand `xs2` leaves.
pub open spec fn mset_bank_config_spec(xs2: u64) -> BankConfig {
    let allocated = (xs2 / 0x400) % 2 == 1;
    BankConfig {
        allocated,
        groups: if allocated && (xs2 / 32) % 32 != 0 {
            ((xs2 / 32) % 32) as u64
        } else {
            0
        },
    }
}

/// Rows of a transfer: `xs1[63:30]`.
pub open spec fn transfer_depth(xs1: u64) -> int {
    (xs1 / 0x4000_0000) as int
}

/// Stride of a transfer: `xs2[57:39]`.
pub open spec fn transfer_stride(packed_xs2: u64) -> int {
    ((packed_xs2 / 0x80_0000_0000) % 0x8_0000) as int
}

/// A transfer from or to a host buffer of `len` bytes that the host can
/// carry out on bank `config`: the bank is allocated with a known group
/// count, depth and stride are not zero, and every span lies in the
/// buffer.
pub open spec fn transfer_allowed(config: BankConfig, xs1: u64, packed_xs2: u64, len: int) -> bool {
    &&& config.allocated
    &&& config.groups > 0
    &&& transfer_depth(xs1) > 0
    &&& transfer_stride(packed_xs2) > 0
    &&& spans_fit(config.groups as int, transfer_stride(packed_xs2), transfer_depth(xs1))
    &&& spans_within(
        spec_spans(config.groups as int, transfer_stride(packed_xs2), transfer_depth(xs1)),
        len,
    )
}

/// Every span of a transfer ends at or before the last one.
proof fn lemma_last_span_is_furthest(groups: int, stride: int, depth: int, len: int)
    requires
        groups > 0,
        stride > 0,
        depth > 0,
        spans_fit(groups, stride, depth),
    ensures
        spans_within(spec_spans(groups, stride, depth), len) <==> span_offset(groups, stride, depth - 1, groups - 1)
            + 16 <= len,
{
    let s = spec_spans(groups, stride, depth);
    let last = span_offset(groups, stride, depth - 1, groups - 1);
    assert(depth * groups > 0) by (nonlinear_arith)
        requires
            depth > 0,
            groups > 0,
    ;
    let kl = depth * groups - 1;
    assert(kl / groups == depth - 1 && kl % groups == groups - 1) by (nonlinear_arith)
        requires
            kl == depth * groups - 1,
            groups > 0,
            depth > 0,
    ;
    assert(0 <= last) by (nonlinear_arith)
        requires
            depth > 0,
            groups > 0,
            stride > 0,
            last == span_offset(groups, stride, depth - 1, groups - 1),
    ;
    assert(s[kl] == (last as usize, 16usize));
    assert(s[kl].0 == last);
    if last + 16 <= len {
        assert forall|k: int| 0 <= k < s.len() implies #[trigger] s[k].0 + s[k].1 <= len by {
            let r = k / groups;
            let g = k % groups;
            assert(0 <= r <= depth - 1 && 0 <= g <= groups - 1) by (nonlinear_arith)
                requires
                    0 <= k < depth * groups,
                    groups > 0,
                    r == k / groups,
                    g == k % groups,
            ;
            assert(0 <= span_offset(groups, stride, r, g) <= last) by (nonlinear_arith)
                requires
                    0 <= r <= depth - 1,
                    0 <= g <= groups - 1,
                    stride > 0,
                    groups > 0,
                    last == span_offset(groups, stride, depth - 1, groups - 1),
            ;
        }
    }
}

/// Whether the host can carry out a transfer on bank `config` with a host
/// buffer of `len` bytes.
pub fn transfer_allowed_check(config: BankConfig, xs1: u64, packed_xs2: u64, len: usize) -> (r: bool)
    ensures
        r == transfer_allowed(config, xs1, packed_xs2, len as int),
{
    let depth = xs1 >> 30;
    let stride = (packed_xs2 >> 39) & 0x7_ffff;
    assert(depth == xs1 / 0x4000_0000 && depth < 0x4_0000_0000) by (bit_vector)
        requires
            depth == xs1 >> 30,
    ;
    assert(stride == (packed_xs2 / 0x80_0000_0000) % 0x8_0000) by (bit_vector)
        requires
            stride == (packed_xs2 >> 39) & 0x7_ffff,
    ;
    let groups = config.groups;
    if !config.allocated || groups == 0 || depth == 0 || stride == 0 {
        return false;
    }
    let d = depth as u128;
    let g = groups as u128;
    let st = stride as u128;
    assert((d - 1) * g < 0x4_0000_0000 * 0x1_0000_0000_0000_0000 && (d - 1) * g * 16 < 0x4_0000_0000
        * 0x1_0000_0000_0000_0000 * 16 && (d - 1) * g * 16 * st < 0x4_0000_0000 * 0x1_0000_0000_0000_0000 * 16
        * 0x8_0000) by (nonlinear_arith)
        requires
            1 <= d < 0x4_0000_0000,
            1 <= g < 0x1_0000_0000_0000_0000,
            1 <= st < 0x8_0000,
    ;
    assert(d * g < 0x4_0000_0000 * 0x1_0000_0000_0000_0000) by (nonlinear_arith)
        requires
            1 <= d < 0x4_0000_0000,
            1 <= g < 0x1_0000_0000_0000_0000,
    ;
    let rows = d * g;
    let row_bytes = (d - 1) * g * 16 * st;
    let last = row_bytes + (g - 1) * 16;
    assert(last == span_offset(g as int, st as int, d - 1, g - 1)) by (nonlinear_arith)
        requires
            row_bytes == (d - 1) * g * 16 * st,
            last == row_bytes + (g - 1) * 16,
    ;
    let fits = rows <= usize::MAX as u128 && last <= usize::MAX as u128 && row_bytes <= u64::MAX as u128;
    assert(fits == spans_fit(g as int, st as int, d as int));
    if !fits {
        return false;
    }
    proof {
        lemma_last_span_is_furthest(g as int, st as int, d as int, len as int);
    }
    last + 16 <= len as u128
}

/// The host side of a move in to bank `xs1[9:0]` of selection `sel`:
/// the spans of the transfer and the bytes of `host` under them.
pub fn mvin_operation(table: &HostBankTable, sel: Selection, xs1: u64, packed_xs2: u64, host: &[u8]) -> (r:
    DmaOperation)
    requires
        table.wf(),
        transfer_allowed(table.config_of(sel, (xs1 % 0x400) as int), xs1, packed_xs2, host@.len() as int),
    ensures
        r matches DmaOperation::Mvin { spans: sp, chunks: ch } && sp@ == spec_spans(
            table.config_of(sel, (xs1 % 0x400) as int).groups as int,
            transfer_stride(packed_xs2),
            transfer_depth(xs1),
        ) && chunks_view(ch@) == spec_capture(host@, sp@),
{
    let bank_id = (xs1 & 0x3ff) as usize;
    assert(xs1 & 0x3ff == xs1 % 0x400) by (bit_vector);
    let config = table.bank_config(sel, bank_id);
    let sp = spans(config, xs1, packed_xs2);
    let chunks = capture_host(host, sp.as_slice());
    DmaOperation::Mvin { spans: sp, chunks }
}

/// The host side of a move out of bank `xs1[9:0]` of selection `sel`: the
/// spans of the transfer, to be written back once it completes.
pub fn mvout_operation(table: &HostBankTable, sel: Selection, xs1: u64, packed_xs2: u64, host_len: usize) -> (r:
    DmaOperation)
    requires
        table.wf(),
        transfer_allowed(table.config_of(sel, (xs1 % 0x400) as int), xs1, packed_xs2, host_len as int),
    ensures
        r matches DmaOperation::Mvout { spans: sp } && sp@ == spec_spans(
            table.config_of(sel, (xs1 % 0x400) as int).groups as int,
            transfer_stride(packed_xs2),
            transfer_depth(xs1),
        ),
{
    let bank_id = (xs1 & 0x3ff) as usize;
    assert(xs1 & 0x3ff == xs1 % 0x400) by (bit_vector);
    let config = table.bank_config(sel, bank_id);
    DmaOperation::Mvout { spans: spans(config, xs1, packed_xs2) }
}

} // verus!
