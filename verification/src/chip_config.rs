//! The chip description a build embeds, and the per-core topology and
//! per-tile layout read from it.

use vstd::prelude::*;
use crate::config::{copy_isa, copy_mappings, same_isa, same_mappings, BallDomainConfig, MemConfig, TileTopology, Topology};

verus! {

/// Bank geometry of a core's private banks.
#[derive(Clone, Copy, Debug, PartialEq, Eq, Structural)]
pub struct BankGeometry {
    pub num: u32,
    pub width: u32,
    pub entries: u32,
}

/// Geometry of a core's MMIO banks.
#[derive(Clone, Copy, Debug, PartialEq, Eq, Structural)]
pub struct MmioGeometry {
    pub enable: bool,
    pub bank_num: u32,
    pub bank_entries: u32,
    pub bank_width: u32,
    pub read_width: u32,
}

/// Memory domain of a core.
#[derive(Clone, Copy, Debug, PartialEq, Eq, Structural)]
pub struct MemDomain {
    pub bank: BankGeometry,
    pub mmio: MmioGeometry,
}

/// One core of the chip: its role, ball domain and memory domain.
#[derive(Debug)]
pub struct CoreInstance {
    pub role: String,
    pub balldomain: BallDomainConfig,
    pub mem: MemDomain,
}

/// The cores a tile groups and its virtual bank count (0: not given).
#[derive(Debug)]
pub struct TilePlacement {
    pub virtual_bank_count: u32,
    pub core_indices: Vec<u32>,
}

/// The whole chip: tiles and cores.
#[derive(Debug)]
pub struct ChipDescription {
    pub tiles: Vec<TilePlacement>,
    pub cores: Vec<CoreInstance>,
}

/// The memory configuration a core's memory domain describes.
pub open spec fn spec_mem_config(mem: MemDomain) -> MemConfig {
    MemConfig {
        bank_num: mem.bank.num as usize,
        bank_width: mem.bank.width as usize,
        bank_entries: mem.bank.entries as usize,
        mmio_enable: mem.mmio.enable,
        mmio_bank_num: mem.mmio.bank_num as usize,
        mmio_bank_entries: mem.mmio.bank_entries as usize,
        mmio_bank_width: mem.mmio.bank_width as usize,
        mmio_read_width: mem.mmio.read_width as usize,
    }
}

/// `t` is the topology of `core`: its memory configuration and a copy of
/// its ball domain.
pub open spec fn is_topology_of(t: Topology, core: CoreInstance) -> bool {
    &&& t.mem_config == spec_mem_config(core.mem)
    &&& same_mappings(t.ball_domain.mappings@, core.balldomain.mappings@)
    &&& same_isa(t.ball_domain.isa@, core.balldomain.isa@)
}

/// The core indices of tile `tile_index` name cores of the chip.
pub open spec fn tile_in_range(chip: &ChipDescription, tile_index: int) -> bool {
    forall|k: int|
        0 <= k < chip.tiles@[tile_index].core_indices@.len()
            ==> (#[trigger] chip.tiles@[tile_index].core_indices@[k]) < chip.cores@.len()
}

/// `r` lists, in order, the role and index of each core of `tile`.
pub open spec fn lists_tile_cores(r: Seq<(String, usize)>, chip: &ChipDescription, tile: &TilePlacement) -> bool {
    &&& r.len() == tile.core_indices@.len()
    &&& forall|k: int|
        0 <= k < r.len() ==> {
            &&& (#[trigger] r[k]).1 == tile.core_indices@[k] as usize
            &&& r[k].0@ == chip.cores@[tile.core_indices@[k] as int].role@
        }
}

/// The topology of `core`.
pub fn to_topology(core: &CoreInstance) -> (r: Topology)
    ensures
        is_topology_of(r, *core),
{
    let mem = &core.mem;
    Topology {
        mem_config: MemConfig {
            bank_num: mem.bank.num as usize,
            bank_width: mem.bank.width as usize,
            bank_entries: mem.bank.entries as usize,
            mmio_enable: mem.mmio.enable,
            mmio_bank_num: mem.mmio.bank_num as usize,
            mmio_bank_entries: mem.mmio.bank_entries as usize,
            mmio_bank_width: mem.mmio.bank_width as usize,
            mmio_read_width: mem.mmio.read_width as usize,
        },
        ball_domain: BallDomainConfig {
            mappings: copy_mappings(&core.balldomain.mappings),
            isa: copy_isa(&core.balldomain.isa),
        },
    }
}

/// The topology of the chip's first core.
pub fn default_core(chip: &ChipDescription) -> (r: Topology)
    requires
        chip.cores@.len() > 0,
    ensures
        is_topology_of(r, chip.cores@[0]),
{
    to_topology(&chip.cores[0])
}

/// The topology of core `core_index`.
pub fn topology_for_core(chip: &ChipDescription, core_index: usize) -> (r: Topology)
    requires
        core_index < chip.cores@.len(),
    ensures
        is_topology_of(r, chip.cores@[core_index as int]),
{
    to_topology(&chip.cores[core_index])
}

/// The roles and indices of the cores of `tile`, in the tile's order.
pub fn tile_cores(chip: &ChipDescription, tile: &TilePlacement) -> (r: Vec<(String, usize)>)
    requires
        forall|k: int| 0 <= k < tile.core_indices@.len() ==> (#[trigger] tile.core_indices@[k]) < chip.cores@.len(),
    ensures
        lists_tile_cores(r@, chip, tile),
{
    let mut r: Vec<(String, usize)> = Vec::new();
    let mut k: usize = 0;
    while k < tile.core_indices.len()
        invariant
            k <= tile.core_indices@.len(),
            forall|j: int| 0 <= j < tile.core_indices@.len() ==> (#[trigger] tile.core_indices@[j]) < chip.cores@.len(),
            r@.len() == k,
            forall|j: int|
                0 <= j < k ==> {
                    &&& (#[trigger] r@[j]).1 == tile.core_indices@[j] as usize
                    &&& r@[j].0@ == chip.cores@[tile.core_indices@[j] as int].role@
                },
        decreases tile.core_indices@.len() - k,
    {
        let index = tile.core_indices[k] as usize;
        let role = chip.cores[index].role.clone();
        r.push((role, index));
        k = k + 1;
    }
    r
}

/// The layout of tile `tile_index`: its cores and its virtual bank count,
/// which the chip description must give.
pub fn tile_topology(chip: &ChipDescription, tile_index: usize) -> (r: TileTopology)
    requires
        tile_index < chip.tiles@.len(),
        chip.tiles@[tile_index as int].core_indices@.len() > 0,
        chip.tiles@[tile_index as int].virtual_bank_count > 0,
        tile_in_range(chip, tile_index as int),
    ensures
        lists_tile_cores(r.cores@, chip, &chip.tiles@[tile_index as int]),
        r.virtual_bank_count == chip.tiles@[tile_index as int].virtual_bank_count as usize,
{
    let tile = &chip.tiles[tile_index];
    assert forall|k: int| 0 <= k < tile.core_indices@.len() implies (#[trigger] tile.core_indices@[k]) < chip.cores@.len() by {
        assert(chip.tiles@[tile_index as int].core_indices@[k] < chip.cores@.len());
    }
    let cores = tile_cores(chip, tile);
    TileTopology { cores, virtual_bank_count: tile.virtual_bank_count as usize }
}

} // verus!
