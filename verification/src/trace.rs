//! Trace switches and memory-trace events.

use vstd::prelude::*;
use vstd::utf8::encode_utf8;
use crate::text::{decimal, push_all, spec_decimal};

verus! {

/// Which traces an emulator run writes.
#[derive(Clone, Copy, Debug, PartialEq, Eq, Structural)]
pub struct TraceConfig {
    pub itrace: bool,
    pub mtrace: bool,
    pub btrace: bool,
}

impl TraceConfig {
    /// Instruction and memory traces as given; bank digests off.
    pub fn new(itrace: bool, mtrace: bool) -> (r: TraceConfig)
        ensures
            r == (TraceConfig { itrace, mtrace, btrace: false }),
    {
        TraceConfig { itrace, mtrace, btrace: false }
    }
}

/// One DMA transfer between guest memory and a bank, as the memory trace
/// records it.
#[derive(Clone, Copy, Debug, PartialEq, Eq, Structural)]
pub struct MTraceEvent {
    pub is_write: bool,
    pub addr: u64,
    pub rows: u64,
    pub line_bytes: u32,
    pub row_stride: u64,
    pub vbank_id: u32,
    pub pbank_id: u32,
    pub group_id: u32,
}

/// The lower-case hexadecimal digit for `n < 16`.
pub open spec fn hex_digit(n: u64) -> u8 {
    if n < 10 {
        (48 + n) as u8
    } else {
        (87 + n) as u8
    }
}

/// The sixteen hexadecimal digits of `v`, most significant first.
pub open spec fn spec_hex16(v: u64) -> Seq<u8> {
    Seq::new(16, |i: int| hex_digit((v >> ((60 - 4 * i) as u64)) & 0xf))
}

/// The sixteen hexadecimal digits of `v`, zero-padded.
pub fn hex16(v: u64) -> (r: Vec<u8>)
    ensures
        r@ == spec_hex16(v),
{
    let mut out: Vec<u8> = Vec::new();
    let mut i: u64 = 0;
    while i < 16
        invariant
            i <= 16,
            out@.len() == i,
            forall|k: int| 0 <= k < i ==> out@[k] == spec_hex16(v)[k],
        decreases 16 - i,
    {
        let shift = 60 - 4 * i;
        let nibble = (v >> shift) & 0xf;
        assert(nibble < 16) by (bit_vector)
            requires
                nibble == (v >> shift) & 0xf,
        ;
        let digit: u8 = if nibble < 10 {
            (48 + nibble) as u8
        } else {
            (87 + nibble) as u8
        };
        out.push(digit);
        i = i + 1;
    }
    assert(out@ =~= spec_hex16(v));
    out
}

/// The memory-trace record of `event` at emulator cycle `clk`: one JSON
/// object on one line.
pub open spec fn spec_mtrace_record(clk: u64, event: MTraceEvent) -> Seq<u8> {
    encode_utf8("{\"type\":\"mtrace\",\"clk\":"@) + spec_decimal(clk as nat) + encode_utf8(",\"event\":\""@)
        + (if event.is_write {
        encode_utf8("write"@)
    } else {
        encode_utf8("read"@)
    }) + encode_utf8("\",\"addr\":\"0x"@) + spec_hex16(event.addr) + encode_utf8("\",\"rows\":"@)
        + spec_decimal(event.rows as nat) + encode_utf8(",\"line_bytes\":"@) + spec_decimal(
        event.line_bytes as nat,
    ) + encode_utf8(",\"row_stride\":"@) + spec_decimal(event.row_stride as nat) + encode_utf8(
        ",\"vbank_id\":"@,
    ) + spec_decimal(event.vbank_id as nat) + encode_utf8(",\"pbank_id\":"@) + spec_decimal(
        event.pbank_id as nat,
    ) + encode_utf8(",\"group_id\":"@) + spec_decimal(event.group_id as nat) + encode_utf8("}"@)
}

/// The memory-trace record of `event` at emulator cycle `clk`.
pub fn mtrace_record(clk: u64, event: &MTraceEvent) -> (r: Vec<u8>)
    ensures
        r@ == spec_mtrace_record(clk, *event),
{
    let mut out: Vec<u8> = Vec::new();
    push_all(&mut out, "{\"type\":\"mtrace\",\"clk\":".as_bytes());
    push_all(&mut out, decimal(clk).as_slice());
    push_all(&mut out, ",\"event\":\"".as_bytes());
    if event.is_write {
        push_all(&mut out, "write".as_bytes());
    } else {
        push_all(&mut out, "read".as_bytes());
    }
    push_all(&mut out, "\",\"addr\":\"0x".as_bytes());
    push_all(&mut out, hex16(event.addr).as_slice());
    push_all(&mut out, "\",\"rows\":".as_bytes());
    push_all(&mut out, decimal(event.rows).as_slice());
    push_all(&mut out, ",\"line_bytes\":".as_bytes());
    push_all(&mut out, decimal(event.line_bytes as u64).as_slice());
    push_all(&mut out, ",\"row_stride\":".as_bytes());
    push_all(&mut out, decimal(event.row_stride).as_slice());
    push_all(&mut out, ",\"vbank_id\":".as_bytes());
    push_all(&mut out, decimal(event.vbank_id as u64).as_slice());
    push_all(&mut out, ",\"pbank_id\":".as_bytes());
    push_all(&mut out, decimal(event.pbank_id as u64).as_slice());
    push_all(&mut out, ",\"group_id\":".as_bytes());
    push_all(&mut out, decimal(event.group_id as u64).as_slice());
    push_all(&mut out, "}".as_bytes());
    out
}

} // verus!
