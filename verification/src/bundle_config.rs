//! Topology lookups over a chip bundle, the JSON form of the chip
//! description: the default core is the first one that has balls, and a
//! tile without a virtual bank count uses its widest core's bank count.

use vstd::prelude::*;
use crate::chip_config::{
    is_topology_of, lists_tile_cores, tile_cores, tile_in_range, to_topology, ChipDescription,
};
use crate::config::{TileTopology, Topology};

verus! {

/// Index of the first core with at least one ball mapping, if any.
pub open spec fn first_core_with_balls(cores: Seq<crate::chip_config::CoreInstance>) -> Option<int> {
    if exists|i: int| 0 <= i < cores.len() && cores[i].balldomain.mappings@.len() > 0 {
        Some(
            choose|i: int|
                0 <= i < cores.len() && cores[i].balldomain.mappings@.len() > 0 && forall|j: int|
                    0 <= j < i ==> cores[j].balldomain.mappings@.len() == 0,
        )
    } else {
        None
    }
}

/// The core `default_core` picks: the first with balls, else the first.
pub open spec fn default_core_index(cores: Seq<crate::chip_config::CoreInstance>) -> int {
    match first_core_with_balls(cores) {
        Some(i) => i,
        None => 0,
    }
}

/// Largest private bank count among the cores `indices` name (0 for none).
pub open spec fn max_bank_num(chip: &ChipDescription, indices: Seq<u32>) -> nat
    decreases indices.len(),
{
    if indices.len() == 0 {
        0
    } else {
        let rest = max_bank_num(chip, indices.drop_last());
        let last = chip.cores@[indices.last() as int].mem.bank.num as nat;
        if last > rest {
            last
        } else {
            rest
        }
    }
}

/// The topology of the first core that has balls, or of the first core
/// when none has.
pub fn default_core(chip: &ChipDescription) -> (r: Topology)
    requires
        chip.cores@.len() > 0,
    ensures
        is_topology_of(r, chip.cores@[default_core_index(chip.cores@)]),
{
    let mut i: usize = 0;
    while i < chip.cores.len()
        invariant
            i <= chip.cores@.len(),
            forall|j: int| 0 <= j < i ==> chip.cores@[j].balldomain.mappings@.len() == 0,
        decreases chip.cores@.len() - i,
    {
        if chip.cores[i].balldomain.mappings.len() > 0 {
            proof {
                let cores = chip.cores@;
                let w = i as int;
                assert(0 <= w < cores.len() && cores[w].balldomain.mappings@.len() > 0);
                let c = choose|k: int|
                    0 <= k < cores.len() && cores[k].balldomain.mappings@.len() > 0 && forall|j: int|
                        0 <= j < k ==> cores[j].balldomain.mappings@.len() == 0;
                assert(0 <= w < cores.len() && cores[w].balldomain.mappings@.len() > 0 && forall|j: int|
                    0 <= j < w ==> cores[j].balldomain.mappings@.len() == 0);
                if c < w {
                    assert(cores[c].balldomain.mappings@.len() == 0);
                } else if c > w {
                    assert(cores[w].balldomain.mappings@.len() == 0);
                }
                assert(first_core_with_balls(cores) == Some(w));
            }
            return to_topology(&chip.cores[i]);
        }
        i = i + 1;
    }
    proof {
        assert(!(exists|k: int| 0 <= k < chip.cores@.len() && chip.cores@[k].balldomain.mappings@.len() > 0));
    }
    to_topology(&chip.cores[0])
}

/// The topology of core `core_index`.
pub fn topology_for_core(chip: &ChipDescription, core_index: usize) -> (r: Topology)
    requires
        core_index < chip.cores@.len(),
    ensures
        is_topology_of(r, chip.cores@[core_index as int]),
{
    to_topology(&chip.cores[core_index])
}

/// The layout of tile `tile_index`: its cores, and its virtual bank count,
/// or, where the bundle gives none, the largest bank count of its cores.
pub fn tile_topology(chip: &ChipDescription, tile_index: usize) -> (r: TileTopology)
    requires
        tile_index < chip.tiles@.len(),
        chip.tiles@[tile_index as int].core_indices@.len() > 0,
        tile_in_range(chip, tile_index as int),
    ensures
        lists_tile_cores(r.cores@, chip, &chip.tiles@[tile_index as int]),
        chip.tiles@[tile_index as int].virtual_bank_count > 0 ==> r.virtual_bank_count
            == chip.tiles@[tile_index as int].virtual_bank_count as usize,
        chip.tiles@[tile_index as int].virtual_bank_count == 0 ==> r.virtual_bank_count
            == max_bank_num(chip, chip.tiles@[tile_index as int].core_indices@),
{
    let tile = &chip.tiles[tile_index];
    assert forall|k: int| 0 <= k < tile.core_indices@.len() implies (#[trigger] tile.core_indices@[k]) < chip.cores@.len() by {
        assert(chip.tiles@[tile_index as int].core_indices@[k] < chip.cores@.len());
    }
    let virtual_bank_count: usize = if tile.virtual_bank_count > 0 {
        tile.virtual_bank_count as usize
    } else {
        let mut widest: u32 = 0;
        let mut k: usize = 0;
        while k < tile.core_indices.len()
            invariant
                k <= tile.core_indices@.len(),
                forall|j: int| 0 <= j < tile.core_indices@.len() ==> (#[trigger] tile.core_indices@[j]) < chip.cores@.len(),
                widest == max_bank_num(chip, tile.core_indices@.subrange(0, k as int)),
            decreases tile.core_indices@.len() - k,
        {
            let n = chip.cores[tile.core_indices[k] as usize].mem.bank.num;
            proof {
                let s = tile.core_indices@.subrange(0, k as int + 1);
                assert(s.drop_last() =~= tile.core_indices@.subrange(0, k as int));
                assert(s.last() == tile.core_indices@[k as int]);
            }
            if n > widest {
                widest = n;
            }
            k = k + 1;
        }
        assert(tile.core_indices@.subrange(0, k as int) =~= tile.core_indices@);
        widest as usize
    };
    let cores = tile_cores(chip, tile);
    TileTopology { cores, virtual_bank_count }
}

} // verus!
