//! Core identifiers and the command protocol shared by every rushB backend.

use vstd::prelude::*;

verus! {

/// funct7 of the fence command.
pub const FUNCT7_FENCE: u32 = 0;
/// funct7 of the bank-to-memory transfer.
pub const FUNCT7_MVOUT: u32 = 16;
/// funct7 of bank allocation.
pub const FUNCT7_MSET: u32 = 32;
/// funct7 of the memory-to-bank transfer.
pub const FUNCT7_MVIN: u32 = 33;
/// funct7 of the memory-to-MMIO transfer.
pub const FUNCT7_MVIN_MMIO: u32 = 35;
/// Width of the core-local part of a core id.
pub const CORE_LOCAL_ID_BITS: u32 = 16;
/// Mask of the core-local part of a core id.
pub const CORE_LOCAL_ID_MASK: u32 = 0xffff;

/// What `encode_core_id` gives back: the tile in the upper half and the
/// core-local index in the lower half, when both fit into 16 bits.
pub open spec fn spec_encode_core_id(tile_id: u32, local_id: u32) -> Option<u32> {
    if tile_id <= 0xffff && local_id <= 0xffff {
        Some((tile_id * 0x10000 + local_id) as u32)
    } else {
        None
    }
}

/// What `decode_core_id` gives back: the upper and lower 16 bits.
pub open spec fn spec_decode_core_id(core_id: u32) -> (u32, u32) {
    ((core_id / 0x10000) as u32, (core_id % 0x10000) as u32)
}

/// Packs a tile id and a core-local id into one core id; `None` when either
/// part does not fit into 16 bits.
pub fn encode_core_id(tile_id: u32, local_id: u32) -> (r: Option<u32>)
    ensures
        r == spec_encode_core_id(tile_id, local_id),
{
    if tile_id > CORE_LOCAL_ID_MASK || local_id > CORE_LOCAL_ID_MASK {
        None
    } else {
        let r: u32 = (tile_id << CORE_LOCAL_ID_BITS) | local_id;
        assert(r == tile_id * 0x10000 + local_id) by (bit_vector)
            requires
                tile_id <= 0xffff,
                local_id <= 0xffff,
                r == (tile_id << 16u32) | local_id,
        ;
        Some(r)
    }
}

/// Splits a core id into its tile id and core-local id.
pub fn decode_core_id(core_id: u32) -> (r: (u32, u32))
    ensures
        r == spec_decode_core_id(core_id),
{
    let t: u32 = core_id >> CORE_LOCAL_ID_BITS;
    let l: u32 = core_id & CORE_LOCAL_ID_MASK;
    assert(t == core_id / 0x10000 && l == core_id % 0x10000) by (bit_vector)
        requires
            t == core_id >> 16u32,
            l == core_id & 0xffffu32,
    ;
    (t, l)
}

/// Decoding an encoded core id gives back the tile id and the core-local id.
pub proof fn lemma_decode_encode_core_id(tile_id: u32, local_id: u32)
    requires
        tile_id <= 0xffff,
        local_id <= 0xffff,
    ensures
        spec_encode_core_id(tile_id, local_id) matches Some(id)
            && spec_decode_core_id(id) == (tile_id, local_id),
{
    let v = tile_id * 0x10000 + local_id;
    assert(v / 0x10000 == tile_id && v % 0x10000 == local_id) by (nonlinear_arith)
        requires
            v == tile_id * 0x10000 + local_id,
            0 <= local_id < 0x10000,
            0 <= tile_id,
    ;
}

/// Every core id is the encoding of its decoded parts.
pub proof fn lemma_encode_decode_core_id(core_id: u32)
    ensures
        spec_encode_core_id(spec_decode_core_id(core_id).0, spec_decode_core_id(core_id).1)
            == Some(core_id),
{
    let t = core_id / 0x10000;
    let l = core_id % 0x10000;
    assert(t * 0x10000 + l == core_id && t <= 0xffff) by (nonlinear_arith)
        requires
            t == core_id / 0x10000,
            l == core_id % 0x10000,
            0 <= core_id <= 0xffff_ffff,
    ;
}

/// Identifier of one host command.
pub type CommandId = u64;

/// One command sent to an accelerator core.
#[derive(Clone, Copy, Debug, PartialEq, Eq, Structural)]
pub struct RushCommand {
    pub id: CommandId,
    pub core_id: u32,
    pub xs1: u64,
    pub xs2: u64,
    pub funct7: u32,
}

/// When the host is answered: at acceptance or at completion.
#[derive(Clone, Copy, Debug, PartialEq, Eq, Structural)]
pub enum WaitMode {
    Accepted,
    Completed,
}

/// The kind of a backend event.
#[derive(Clone, Copy, Debug, PartialEq, Eq, Structural)]
pub enum RushEventKind {
    Accepted,
    Completed,
}

/// One event reported by a backend.
#[derive(Clone, Copy, Debug, PartialEq, Eq, Structural)]
pub struct RushEvent {
    pub command_id: CommandId,
    pub core_id: u32,
    pub kind: RushEventKind,
}

/// A run of bytes at an offset of a host buffer.
#[derive(Clone, Debug)]
pub struct DmaChunk {
    pub offset: usize,
    pub data: Vec<u8>,
}

/// The host-memory side of a command.
#[derive(Debug)]
pub enum DmaOperation {
    NoDma,
    Mvin { spans: Vec<(usize, usize)>, chunks: Vec<DmaChunk> },
    Mvout { spans: Vec<(usize, usize)> },
}

/// What a backend answers for a finished command.
#[derive(Clone, Debug)]
pub struct RushResponse {
    pub output: Vec<DmaChunk>,
}

impl RushResponse {
    /// A response with no output chunks.
    pub fn empty() -> (r: RushResponse)
        ensures
            r.output@.len() == 0,
    {
        RushResponse { output: Vec::new() }
    }
}

} // verus!
