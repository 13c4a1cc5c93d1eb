//! The active core's memory geometry and ball domain, and the chip
//! description they are taken from.

use vstd::prelude::*;
use crate::chip_config::{default_core, is_topology_of, topology_for_core, ChipDescription};

verus! {

/// Bank geometry of one core.
#[derive(Clone, Copy, Debug, PartialEq, Eq, Structural)]
pub struct MemConfig {
    pub bank_num: usize,
    pub bank_width: usize,
    pub bank_entries: usize,
    pub mmio_enable: bool,
    pub mmio_bank_num: usize,
    pub mmio_bank_entries: usize,
    pub mmio_bank_width: usize,
    pub mmio_read_width: usize,
}

/// The geometry a core has when its configuration names no memory
/// domain: 32 banks of 1024 rows of 128 bits, and 16 MMIO banks of 64
/// rows of 128 bits read 8 bits at a time.
pub open spec fn default_mem_config() -> MemConfig {
    MemConfig {
        bank_num: 32,
        bank_width: 128,
        bank_entries: 1024,
        mmio_enable: true,
        mmio_bank_num: 16,
        mmio_bank_entries: 64,
        mmio_bank_width: 128,
        mmio_read_width: 8,
    }
}

impl Default for MemConfig {
    fn default() -> (r: MemConfig)
        ensures
            r == default_mem_config(),
    {
        MemConfig {
            bank_num: 32,
            bank_width: 128,
            bank_entries: 1024,
            mmio_enable: true,
            mmio_bank_num: 16,
            mmio_bank_entries: 64,
            mmio_bank_width: 128,
            mmio_read_width: 8,
        }
    }
}

/// Maps a ball id to the class that implements it.
#[derive(Debug)]
pub struct BallIdMapping {
    pub ball_id: u32,
    pub ball_class: String,
}

impl BallIdMapping {
    /// A copy of this mapping.
    pub fn duplicate(&self) -> (r: BallIdMapping)
        ensures
            r.ball_id == self.ball_id,
            r.ball_class@ == self.ball_class@,
    {
        BallIdMapping { ball_id: self.ball_id, ball_class: self.ball_class.clone() }
    }
}

/// One custom instruction of the ball domain.
#[derive(Debug)]
pub struct BallIsaEntry {
    pub mnemonic: String,
    pub funct7: u32,
    pub bid: u32,
}

impl BallIsaEntry {
    /// A copy of this entry.
    pub fn duplicate(&self) -> (r: BallIsaEntry)
        ensures
            r.mnemonic@ == self.mnemonic@,
            r.funct7 == self.funct7,
            r.bid == self.bid,
    {
        BallIsaEntry { mnemonic: self.mnemonic.clone(), funct7: self.funct7, bid: self.bid }
    }
}

/// The two entry lists agree field by field.
pub open spec fn same_mappings(a: Seq<BallIdMapping>, b: Seq<BallIdMapping>) -> bool {
    &&& a.len() == b.len()
    &&& forall|i: int|
        0 <= i < a.len() ==> (#[trigger] a[i]).ball_id == b[i].ball_id && a[i].ball_class@
            == b[i].ball_class@
}

/// The two instruction lists agree field by field.
pub open spec fn same_isa(a: Seq<BallIsaEntry>, b: Seq<BallIsaEntry>) -> bool {
    &&& a.len() == b.len()
    &&& forall|i: int|
        0 <= i < a.len() ==> (#[trigger] a[i]).funct7 == b[i].funct7 && a[i].bid == b[i].bid
            && a[i].mnemonic@ == b[i].mnemonic@
}

/// Copies a list of ball mappings.
pub fn copy_mappings(v: &Vec<BallIdMapping>) -> (r: Vec<BallIdMapping>)
    ensures
        same_mappings(r@, v@),
{
    let mut r: Vec<BallIdMapping> = Vec::new();
    let mut i: usize = 0;
    while i < v.len()
        invariant
            i <= v@.len(),
            r@.len() == i,
            forall|k: int|
                0 <= k < i ==> (#[trigger] r@[k]).ball_id == v@[k].ball_id && r@[k].ball_class@
                    == v@[k].ball_class@,
        decreases v@.len() - i,
    {
        r.push(v[i].duplicate());
        i = i + 1;
    }
    r
}

/// Copies a list of ball instructions.
pub fn copy_isa(v: &Vec<BallIsaEntry>) -> (r: Vec<BallIsaEntry>)
    ensures
        same_isa(r@, v@),
{
    let mut r: Vec<BallIsaEntry> = Vec::new();
    let mut i: usize = 0;
    while i < v.len()
        invariant
            i <= v@.len(),
            r@.len() == i,
            forall|k: int|
                0 <= k < i ==> (#[trigger] r@[k]).funct7 == v@[k].funct7 && r@[k].bid == v@[k].bid
                    && r@[k].mnemonic@ == v@[k].mnemonic@,
        decreases v@.len() - i,
    {
        r.push(v[i].duplicate());
        i = i + 1;
    }
    r
}

/// The custom instructions of one core and the balls that implement them.
#[derive(Debug)]
pub struct BallDomainConfig {
    pub mappings: Vec<BallIdMapping>,
    pub isa: Vec<BallIsaEntry>,
}

impl BallDomainConfig {
    /// A copy of this ball domain.
    pub fn duplicate(&self) -> (r: BallDomainConfig)
        ensures
            same_mappings(r.mappings@, self.mappings@),
            same_isa(r.isa@, self.isa@),
    {
        BallDomainConfig { mappings: copy_mappings(&self.mappings), isa: copy_isa(&self.isa) }
    }
}

/// Memory geometry and ball domain of one core.
#[derive(Debug)]
pub struct Topology {
    pub mem_config: MemConfig,
    pub ball_domain: BallDomainConfig,
}

/// The cores of a tile, each with its role and core index, and the number
/// of virtual banks the tile exposes.
#[derive(Debug)]
pub struct TileTopology {
    pub cores: Vec<(String, usize)>,
    pub virtual_bank_count: usize,
}

/// The configuration an emulator worker runs under.
#[derive(Debug)]
pub struct EmuConfig {
    pub topology: Option<Topology>,
    pub virtual_bank_count: Option<usize>,
}

/// `i` is the first instruction with funct7 `f`.
pub open spec fn is_first_funct(isa: Seq<BallIsaEntry>, f: u32, i: int) -> bool {
    &&& 0 <= i < isa.len()
    &&& isa[i].funct7 == f
    &&& forall|j: int| 0 <= j < i ==> (#[trigger] isa[j]).funct7 != f
}

/// `i` is the first instruction named `m`.
pub open spec fn is_first_mnemonic(isa: Seq<BallIsaEntry>, m: Seq<char>, i: int) -> bool {
    &&& 0 <= i < isa.len()
    &&& isa[i].mnemonic@ == m
    &&& forall|j: int| 0 <= j < i ==> (#[trigger] isa[j]).mnemonic@ != m
}

/// `k` is the first mapping of ball `bid`.
pub open spec fn is_first_ball(mappings: Seq<BallIdMapping>, bid: u32, k: int) -> bool {
    &&& 0 <= k < mappings.len()
    &&& mappings[k].ball_id == bid
    &&& forall|j: int| 0 <= j < k ==> (#[trigger] mappings[j]).ball_id != bid
}

/// Whether some instruction has funct7 `f`.
pub open spec fn has_funct(isa: Seq<BallIsaEntry>, f: u32) -> bool {
    exists|i: int| 0 <= i < isa.len() && (#[trigger] isa[i]).funct7 == f
}

/// Whether some mapping is for ball `bid`.
pub open spec fn has_ball(mappings: Seq<BallIdMapping>, bid: u32) -> bool {
    exists|k: int| 0 <= k < mappings.len() && (#[trigger] mappings[k]).ball_id == bid
}

/// The first instruction with funct7 `f`.
pub fn find_funct(isa: &Vec<BallIsaEntry>, f: u32) -> (r: Option<usize>)
    ensures
        match r {
            Some(i) => is_first_funct(isa@, f, i as int),
            None => !has_funct(isa@, f),
        },
{
    let mut i: usize = 0;
    while i < isa.len()
        invariant
            i <= isa@.len(),
            forall|j: int| 0 <= j < i ==> (#[trigger] isa@[j]).funct7 != f,
        decreases isa@.len() - i,
    {
        if isa[i].funct7 == f {
            return Some(i);
        }
        i = i + 1;
    }
    None
}

/// The first mapping of ball `bid`.
pub fn find_ball(mappings: &Vec<BallIdMapping>, bid: u32) -> (r: Option<usize>)
    ensures
        match r {
            Some(k) => is_first_ball(mappings@, bid, k as int),
            None => !has_ball(mappings@, bid),
        },
{
    let mut k: usize = 0;
    while k < mappings.len()
        invariant
            k <= mappings@.len(),
            forall|j: int| 0 <= j < k ==> (#[trigger] mappings@[j]).ball_id != bid,
        decreases mappings@.len() - k,
    {
        if mappings[k].ball_id == bid {
            return Some(k);
        }
        k = k + 1;
    }
    None
}

/// The topology of a configured worker.
pub open spec fn topo(cfg: &EmuConfig) -> &Topology {
    &cfg.topology->Some_0
}

/// Whether a topology has been configured.
pub open spec fn configured(cfg: &EmuConfig) -> bool {
    cfg.topology is Some
}

/// Private banks, widened to the tile's virtual bank count when one is set.
pub open spec fn spec_bank_num(cfg: &EmuConfig) -> usize {
    let private = topo(cfg).mem_config.bank_num;
    match cfg.virtual_bank_count {
        Some(v) => if v >= private {
            v
        } else {
            private
        },
        None => private,
    }
}

/// Bytes in one private bank.
pub open spec fn spec_bank_size(cfg: &EmuConfig) -> int {
    topo(cfg).mem_config.bank_entries * (topo(cfg).mem_config.bank_width / 8)
}

/// Bytes in one MMIO bank.
pub open spec fn spec_mmio_bank_size(cfg: &EmuConfig) -> int {
    topo(cfg).mem_config.mmio_bank_entries * (topo(cfg).mem_config.mmio_bank_width / 8)
}

/// Bytes in all MMIO banks.
pub open spec fn spec_mmio_total_size(cfg: &EmuConfig) -> int {
    topo(cfg).mem_config.mmio_bank_num * spec_mmio_bank_size(cfg)
}

/// The configured geometry's sizes fit into `usize`.
pub open spec fn sizes_fit(cfg: &EmuConfig) -> bool {
    &&& spec_bank_size(cfg) <= usize::MAX
    &&& spec_mmio_bank_size(cfg) <= usize::MAX
    &&& spec_mmio_total_size(cfg) <= usize::MAX
}

impl EmuConfig {
    /// A worker with no topology configured yet.
    pub fn new() -> (r: EmuConfig)
        ensures
            r.topology is None,
            r.virtual_bank_count is None,
    {
        EmuConfig { topology: None, virtual_bank_count: None }
    }
}

/// Installs `topology` for this worker and clears the virtual bank count.
pub fn configure_topology(cfg: &mut EmuConfig, topology: Topology)
    ensures
        final(cfg).topology == Some(topology),
        final(cfg).virtual_bank_count is None,
{
    cfg.topology = Some(topology);
    cfg.virtual_bank_count = None;
}

/// Installs `topology` and widens the bank count to `virtual_bank_count`.
pub fn configure_topology_with_virtual_bank_count(
    cfg: &mut EmuConfig,
    topology: Topology,
    virtual_bank_count: usize,
)
    ensures
        final(cfg).topology == Some(topology),
        final(cfg).virtual_bank_count == Some(virtual_bank_count),
{
    configure_topology(cfg, topology);
    cfg.virtual_bank_count = Some(virtual_bank_count);
}

/// Configures this worker for core `core_index` of `chip`, with no
/// virtual bank count.
pub fn configure_core(cfg: &mut EmuConfig, chip: &ChipDescription, core_index: usize)
    requires
        core_index < chip.cores@.len(),
    ensures
        final(cfg).topology matches Some(t) && is_topology_of(t, chip.cores@[core_index as int]),
        final(cfg).virtual_bank_count is None,
{
    configure_topology(cfg, topology_for_core(chip, core_index));
}

/// Configures this worker for the chip's default (first) core.
pub fn configure_default(cfg: &mut EmuConfig, chip: &ChipDescription)
    requires
        chip.cores@.len() > 0,
    ensures
        final(cfg).topology matches Some(t) && is_topology_of(t, chip.cores@[0]),
        final(cfg).virtual_bank_count is None,
{
    configure_topology(cfg, default_core(chip));
}

/// Configures this worker for core `core_index` of a tile that exposes
/// `virtual_bank_count` banks.
pub fn configure_core_with_virtual_bank_count(
    cfg: &mut EmuConfig,
    chip: &ChipDescription,
    core_index: usize,
    virtual_bank_count: usize,
)
    requires
        core_index < chip.cores@.len(),
    ensures
        final(cfg).topology matches Some(t) && is_topology_of(t, chip.cores@[core_index as int]),
        final(cfg).virtual_bank_count == Some(virtual_bank_count),
{
    configure_core(cfg, chip, core_index);
    cfg.virtual_bank_count = Some(virtual_bank_count);
}

/// Whether a topology is configured and its bank sizes fit into `usize`.
pub fn config_ready(cfg: &EmuConfig) -> (r: bool)
    ensures
        r == (configured(cfg) && sizes_fit(cfg)),
{
    match &cfg.topology {
        None => false,
        Some(t) => {
            let m = t.mem_config;
            match m.bank_entries.checked_mul(m.bank_width / 8) {
                None => false,
                Some(_) => match m.mmio_bank_entries.checked_mul(m.mmio_bank_width / 8) {
                    None => false,
                    Some(mmio_bank) => m.mmio_bank_num.checked_mul(mmio_bank).is_some(),
                },
            }
        },
    }
}

/// Number of private banks visible to instructions.
pub fn bank_num(cfg: &EmuConfig) -> (r: usize)
    requires
        configured(cfg),
    ensures
        r == spec_bank_num(cfg),
{
    let t = cfg.topology.as_ref().unwrap();
    let private = t.mem_config.bank_num;
    match cfg.virtual_bank_count {
        Some(v) => if v >= private {
            v
        } else {
            private
        },
        None => private,
    }
}

/// Bit width of one bank row.
pub fn bank_width(cfg: &EmuConfig) -> (r: usize)
    requires
        configured(cfg),
    ensures
        r == topo(cfg).mem_config.bank_width,
{
    cfg.topology.as_ref().unwrap().mem_config.bank_width
}

/// Rows in one bank.
pub fn bank_lines(cfg: &EmuConfig) -> (r: usize)
    requires
        configured(cfg),
    ensures
        r == topo(cfg).mem_config.bank_entries,
{
    cfg.topology.as_ref().unwrap().mem_config.bank_entries
}

/// Bytes in one bank row.
pub fn bank_row_bytes(cfg: &EmuConfig) -> (r: usize)
    requires
        configured(cfg),
    ensures
        r == topo(cfg).mem_config.bank_width / 8,
{
    bank_width(cfg) / 8
}

/// Bytes in one bank.
pub fn bank_size(cfg: &EmuConfig) -> (r: usize)
    requires
        configured(cfg),
        sizes_fit(cfg),
    ensures
        r == spec_bank_size(cfg),
{
    bank_lines(cfg) * bank_row_bytes(cfg)
}

/// Whether the MMIO banks exist.
pub fn mmio_enable(cfg: &EmuConfig) -> (r: bool)
    requires
        configured(cfg),
    ensures
        r == topo(cfg).mem_config.mmio_enable,
{
    cfg.topology.as_ref().unwrap().mem_config.mmio_enable
}

/// Number of MMIO banks.
pub fn mmio_bank_num(cfg: &EmuConfig) -> (r: usize)
    requires
        configured(cfg),
    ensures
        r == topo(cfg).mem_config.mmio_bank_num,
{
    cfg.topology.as_ref().unwrap().mem_config.mmio_bank_num
}

/// Bit width of one MMIO bank row.
pub fn mmio_bank_width(cfg: &EmuConfig) -> (r: usize)
    requires
        configured(cfg),
    ensures
        r == topo(cfg).mem_config.mmio_bank_width,
{
    cfg.topology.as_ref().unwrap().mem_config.mmio_bank_width
}

/// Rows in one MMIO bank.
pub fn mmio_bank_lines(cfg: &EmuConfig) -> (r: usize)
    requires
        configured(cfg),
    ensures
        r == topo(cfg).mem_config.mmio_bank_entries,
{
    cfg.topology.as_ref().unwrap().mem_config.mmio_bank_entries
}

/// Bytes in one MMIO bank row.
pub fn mmio_bank_row_bytes(cfg: &EmuConfig) -> (r: usize)
    requires
        configured(cfg),
    ensures
        r == topo(cfg).mem_config.mmio_bank_width / 8,
{
    mmio_bank_width(cfg) / 8
}

/// Bytes in one MMIO bank.
pub fn mmio_bank_size(cfg: &EmuConfig) -> (r: usize)
    requires
        configured(cfg),
        sizes_fit(cfg),
    ensures
        r == spec_mmio_bank_size(cfg),
{
    mmio_bank_lines(cfg) * mmio_bank_row_bytes(cfg)
}

/// Bit width of one MMIO read.
pub fn mmio_read_width(cfg: &EmuConfig) -> (r: usize)
    requires
        configured(cfg),
    ensures
        r == topo(cfg).mem_config.mmio_read_width,
{
    cfg.topology.as_ref().unwrap().mem_config.mmio_read_width
}

/// Bytes in all MMIO banks.
pub fn mmio_total_size(cfg: &EmuConfig) -> (r: usize)
    requires
        configured(cfg),
        sizes_fit(cfg),
    ensures
        r == spec_mmio_total_size(cfg),
{
    mmio_bank_num(cfg) * mmio_bank_size(cfg)
}

/// The ball class that implements funct7 `funct7`: `None` when no
/// instruction has that funct7 or no mapping names its ball.
pub fn ball_class_for_funct(cfg: &EmuConfig, funct7: u32) -> (r: Option<String>)
    requires
        configured(cfg),
    ensures
        ({
            let isa = topo(cfg).ball_domain.isa@;
            let maps = topo(cfg).ball_domain.mappings@;
            match r {
                Some(c) => exists|i: int, k: int|
                    #![trigger is_first_funct(isa, funct7, i), is_first_ball(maps, isa[i].bid, k)]
                    is_first_funct(isa, funct7, i) && is_first_ball(maps, isa[i].bid, k) && c@
                        == maps[k].ball_class@,
                None => !has_funct(isa, funct7) || exists|i: int|
                    #![trigger is_first_funct(isa, funct7, i)]
                    is_first_funct(isa, funct7, i) && !has_ball(maps, isa[i].bid),
            }
        }),
{
    let t = cfg.topology.as_ref().unwrap();
    assert(t.ball_domain.isa@ == topo(cfg).ball_domain.isa@);
    assert(t.ball_domain.mappings@ == topo(cfg).ball_domain.mappings@);
    match find_funct(&t.ball_domain.isa, funct7) {
        None => None,
        Some(i) => {
            let bid = t.ball_domain.isa[i].bid;
            match find_ball(&t.ball_domain.mappings, bid) {
                None => {
                    assert(is_first_funct(t.ball_domain.isa@, funct7, i as int));
                    None
                },
                Some(k) => {
                    let c = t.ball_domain.mappings[k].ball_class.clone();
                    assert(is_first_funct(t.ball_domain.isa@, funct7, i as int) && is_first_ball(
                        t.ball_domain.mappings@,
                        t.ball_domain.isa@[i as int].bid,
                        k as int,
                    ) && c@ == t.ball_domain.mappings@[k as int].ball_class@);
                    Some(c)
                },
            }
        },
    }
}

/// The mnemonic of funct7 `funct7`.
pub fn mnemonic_for_funct(cfg: &EmuConfig, funct7: u32) -> (r: Option<String>)
    requires
        configured(cfg),
    ensures
        ({
            let isa = topo(cfg).ball_domain.isa@;
            match r {
                Some(m) => exists|i: int|
                    #![trigger is_first_funct(isa, funct7, i)]
                    is_first_funct(isa, funct7, i) && m@ == isa[i].mnemonic@,
                None => !has_funct(isa, funct7),
            }
        }),
{
    let t = cfg.topology.as_ref().unwrap();
    assert(t.ball_domain.isa@ == topo(cfg).ball_domain.isa@);
    match find_funct(&t.ball_domain.isa, funct7) {
        None => None,
        Some(i) => {
            assert(is_first_funct(topo(cfg).ball_domain.isa@, funct7, i as int));
            Some(t.ball_domain.isa[i].mnemonic.clone())
        },
    }
}

/// The funct7 of the first instruction named `mnemonic`.
pub fn funct_for_mnemonic(cfg: &EmuConfig, mnemonic: &str) -> (r: Option<u32>)
    requires
        configured(cfg),
    ensures
        ({
            let isa = topo(cfg).ball_domain.isa@;
            match r {
                Some(f) => exists|i: int|
                    #![trigger is_first_mnemonic(isa, mnemonic@, i)]
                    is_first_mnemonic(isa, mnemonic@, i) && f == isa[i].funct7,
                None => forall|j: int| 0 <= j < isa.len() ==> (#[trigger] isa[j]).mnemonic@ != mnemonic@,
            }
        }),
{
    let t = cfg.topology.as_ref().unwrap();
    assert(t.ball_domain.isa@ == topo(cfg).ball_domain.isa@);
    let wanted = mnemonic.to_owned();
    let isa = &t.ball_domain.isa;
    let mut i: usize = 0;
    while i < isa.len()
        invariant
            i <= isa@.len(),
            wanted@ == mnemonic@,
            isa@ == topo(cfg).ball_domain.isa@,
            forall|j: int| 0 <= j < i ==> (#[trigger] isa@[j]).mnemonic@ != mnemonic@,
        decreases isa@.len() - i,
    {
        if isa[i].mnemonic == wanted {
            assert(is_first_mnemonic(isa@, mnemonic@, i as int));
            return Some(isa[i].funct7);
        }
        i = i + 1;
    }
    None
}

/// Where MMIO address `addr` lives: bank `addr % n`, offset `addr / n`.
pub open spec fn mmio_location(cfg: &EmuConfig, addr: int) -> (int, int) {
    let n = topo(cfg).mem_config.mmio_bank_num as int;
    (addr % n, addr / n)
}

/// Whether MMIO address `addr` can be accessed in `banks`.
pub open spec fn mmio_access_ok(cfg: &EmuConfig, banks: Seq<Vec<u8>>, addr: int) -> bool {
    &&& configured(cfg)
    &&& sizes_fit(cfg)
    &&& topo(cfg).mem_config.mmio_enable
    &&& 0 <= addr < spec_mmio_total_size(cfg)
    &&& mmio_location(cfg, addr).0 < banks.len()
    &&& mmio_location(cfg, addr).1 < banks[mmio_location(cfg, addr).0]@.len()
}

/// Reads a byte of the unified MMIO address space.
pub fn mmio_read_byte(cfg: &EmuConfig, mmio_banks: &[Vec<u8>], addr: usize) -> (r: u8)
    requires
        mmio_access_ok(cfg, mmio_banks@, addr as int),
    ensures
        r == mmio_banks@[mmio_location(cfg, addr as int).0]@[mmio_location(cfg, addr as int).1],
{
    let n = mmio_bank_num(cfg);
    assert(n > 0) by (nonlinear_arith)
        requires
            addr < spec_mmio_total_size(cfg),
            spec_mmio_total_size(cfg) == n * spec_mmio_bank_size(cfg),
            0 <= spec_mmio_bank_size(cfg),
    ;
    let bank_idx = addr % n;
    let bank_offset = addr / n;
    mmio_banks[bank_idx][bank_offset]
}

/// Writes a byte of the unified MMIO address space.
pub fn mmio_write_byte(cfg: &EmuConfig, mmio_banks: &mut Vec<Vec<u8>>, addr: usize, data: u8)
    requires
        mmio_access_ok(cfg, old(mmio_banks)@, addr as int),
    ensures
        ({
            let (b, o) = mmio_location(cfg, addr as int);
            &&& final(mmio_banks)@.len() == old(mmio_banks)@.len()
            &&& final(mmio_banks)@[b]@ == old(mmio_banks)@[b]@.update(o, data)
            &&& forall|k: int|
                0 <= k < old(mmio_banks)@.len() && k != b ==> final(mmio_banks)@[k] == old(
                    mmio_banks,
                )@[k]
        }),
{
    let n = mmio_bank_num(cfg);
    assert(n > 0) by (nonlinear_arith)
        requires
            addr < spec_mmio_total_size(cfg),
            spec_mmio_total_size(cfg) == n * spec_mmio_bank_size(cfg),
            0 <= spec_mmio_bank_size(cfg),
    ;
    let bank_idx = addr % n;
    let bank_offset = addr / n;
    let mut row: Vec<u8> = Vec::new();
    mmio_banks.set_and_swap(bank_idx, &mut row);
    row.set(bank_offset, data);
    mmio_banks.set_and_swap(bank_idx, &mut row);
}

} // verus!
