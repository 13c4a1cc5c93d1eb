//! The host side of the RTL simulation backend: which host bytes a
//! transfer touches, where they are staged in simulated DRAM, and how the
//! hardware's acceptance and completion counters become events.

use vstd::prelude::*;
use crate::rushb::DmaChunk;

verus! {

/// Addresses of the instruction set's DMA operand: `xs2[38:0]`.
pub const DMA_ADDR_MASK: u64 = 0x7f_ffff_ffff;

/// A bank as the host runtime knows it from the allocations it issued.
#[derive(Clone, Copy, Debug, PartialEq, Eq, Structural)]
pub struct BankConfig {
    pub allocated: bool,
    pub groups: u64,
}

/// The host offset of row `r`, group `g` of a transfer with `groups` groups.
pub open spec fn span_offset(groups: int, stride: int, r: int, g: int) -> int {
    r * groups * 16 * stride + g * 16
}

/// The host spans `(offset, 16)` of a transfer, row by row and group by
/// group within a row.
pub open spec fn spec_spans(groups: int, stride: int, depth: int) -> Seq<(usize, usize)> {
    Seq::new(
        (depth * groups) as nat,
        |k: int| (span_offset(groups, stride, k / groups, k % groups) as usize, 16usize),
    )
}

/// The spans of a transfer fit the host's address arithmetic.
pub open spec fn spans_fit(groups: int, stride: int, depth: int) -> bool {
    depth * groups <= usize::MAX && span_offset(groups, stride, depth - 1, groups - 1) <= usize::MAX
        && (depth - 1) * groups * 16 * stride <= u64::MAX
}

/// The host byte spans that a transfer of `depth` rows from bank `config`
/// with the stride in `packed_xs2[57:39]` reads or writes: 16 bytes per row
/// and group, rows `groups * 16 * stride` bytes apart.
pub fn spans(config: BankConfig, xs1: u64, packed_xs2: u64) -> (r: Vec<(usize, usize)>)
    requires
        config.allocated,
        config.groups > 0,
        xs1 / 0x4000_0000 > 0,
        (packed_xs2 / 0x80_0000_0000) % 0x8_0000 > 0,
        spans_fit(
            config.groups as int,
            ((packed_xs2 / 0x80_0000_0000) % 0x8_0000) as int,
            (xs1 / 0x4000_0000) as int,
        ),
    ensures
        r@ == spec_spans(
            config.groups as int,
            ((packed_xs2 / 0x80_0000_0000) % 0x8_0000) as int,
            (xs1 / 0x4000_0000) as int,
        ),
{
    let depth = xs1 >> 30;
    let stride = (packed_xs2 >> 39) & 0x7_ffff;
    assert(depth == xs1 / 0x4000_0000) by (bit_vector)
        requires
            depth == xs1 >> 30,
    ;
    assert(stride == (packed_xs2 / 0x80_0000_0000) % 0x8_0000) by (bit_vector)
        requires
            stride == (packed_xs2 >> 39) & 0x7_ffff,
    ;
    let groups = config.groups;
    let ghost gi = groups as int;
    let ghost si = stride as int;
    let ghost di = depth as int;
    let mut out: Vec<(usize, usize)> = Vec::new();
    let mut row: u64 = 0;
    while row < depth
        invariant
            row <= depth,
            gi == groups,
            si == stride,
            di == depth,
            groups > 0,
            stride > 0,
            spans_fit(gi, si, di),
            out@.len() == row * groups,
            forall|k: int| 0 <= k < out@.len() ==> #[trigger] out@[k] == spec_spans(gi, si, di)[k],
        decreases depth - row,
    {
        let mut group: u64 = 0;
        while group < groups
            invariant
                row < depth,
                group <= groups,
                gi == groups,
                si == stride,
                di == depth,
                groups > 0,
                stride > 0,
                spans_fit(gi, si, di),
                out@.len() == row * groups + group,
                forall|k: int| 0 <= k < out@.len() ==> #[trigger] out@[k] == spec_spans(gi, si, di)[k],
            decreases groups - group,
        {
            assert(row * groups * 16 * stride <= (depth - 1) * groups * 16 * stride) by (nonlinear_arith)
                requires
                    row <= depth - 1,
                    groups >= 0,
                    stride >= 0,
            ;
            assert(span_offset(gi, si, row as int, group as int) <= span_offset(gi, si, di - 1, gi - 1)) by (nonlinear_arith)
                requires
                    row <= di - 1,
                    group <= gi - 1,
                    gi >= 1,
                    si >= 0,
            ;
            assert(row * groups <= row * groups * 16 && row * groups * 16 <= row * groups * 16 * stride) by (nonlinear_arith)
                requires
                    stride >= 1,
                    row >= 0,
                    groups >= 0,
            ;
            let offset = row * groups * 16 * stride + group * 16;
            assert(offset == span_offset(gi, si, row as int, group as int));
            let ghost k = row * groups + group;
            assert(k < di * gi) by (nonlinear_arith)
                requires
                    row < di,
                    group < gi,
                    k == row * gi + group,
            ;
            assert(k / gi == row && k % gi == group) by (nonlinear_arith)
                requires
                    k == row * gi + group,
                    0 <= group < gi,
                    row >= 0,
            ;
            out.push((offset as usize, 16));
            group = group + 1;
        }
        row = row + 1;
        assert(out@.len() == row * groups) by (nonlinear_arith)
            requires
                out@.len() == (row - 1) * groups + groups,
        ;
    }
    assert(out@ =~= spec_spans(gi, si, di));
    out
}

/// Why staging failed.
#[derive(Clone, Copy, Debug, PartialEq, Eq, Structural)]
pub enum StagingError {
    /// A span's end overflowed.
    SpanOverflow,
    /// A transfer with no spans.
    NoSpans,
    /// The simulated DRAM's range overflowed.
    RangeOverflow,
    /// No room is left below the chip's previous allocations.
    Exhausted,
    /// The staging size does not fit the address arithmetic.
    TooLarge,
    /// The allocation fell below the simulated DRAM or beyond the
    /// instruction set's address width.
    OutsideRange,
}

/// The end of the furthest span.
pub open spec fn spans_end(spans: Seq<(usize, usize)>) -> int
    decreases spans.len(),
{
    if spans.len() == 0 {
        0
    } else {
        let last = spans.last().0 + spans.last().1;
        let rest = spans_end(spans.drop_last());
        if last >= rest {
            last
        } else {
            rest
        }
    }
}

/// `n` rounded up to a multiple of 64.
pub open spec fn round_up_64(n: int) -> int {
    ((n + 63) / 64) * 64
}

/// Bytes of staging a transfer needs, or why it cannot be staged: a span
/// whose end overflows, no spans, or an end too large to round up.
pub open spec fn spec_staging_bytes(spans: Seq<(usize, usize)>) -> Result<u64, StagingError> {
    if exists|i: int| 0 <= i < spans.len() && #[trigger] spans[i].0 + spans[i].1 > usize::MAX {
        Err(StagingError::SpanOverflow)
    } else if spans.len() == 0 {
        Err(StagingError::NoSpans)
    } else if spans_end(spans) + 63 > u64::MAX {
        Err(StagingError::TooLarge)
    } else {
        Ok(round_up_64(spans_end(spans)) as u64)
    }
}

/// Where an allocation of staging for `spans` from `reg` lands, and the
/// region after it: just below the region's free end, inside the region
/// and the DMA range.
pub open spec fn spec_allocate(reg: StagingRegion, spans: Seq<(usize, usize)>) -> Result<(u64, StagingRegion), StagingError> {
    match spec_staging_bytes(spans) {
        Err(e) => Err(e),
        Ok(b) => if b > reg.next {
            Err(StagingError::Exhausted)
        } else if reg.next - b < reg.base || reg.next - b > DMA_ADDR_MASK {
            Err(StagingError::OutsideRange)
        } else {
            Ok(((reg.next - b) as u64, StagingRegion { base: reg.base, next: (reg.next - b) as u64 }))
        },
    }
}

/// Bytes of staging a transfer needs: the furthest span end, rounded up to
/// 64 bytes.
pub fn staging_bytes(spans: &[(usize, usize)]) -> (r: Result<u64, StagingError>)
    ensures
        r == spec_staging_bytes(spans@),
{
    let mut best: usize = 0;
    let mut i: usize = 0;
    while i < spans.len()
        invariant
            i <= spans@.len(),
            best == spans_end(spans@.take(i as int)),
            forall|j: int| 0 <= j < i ==> spans@[j].0 + spans@[j].1 <= usize::MAX,
        decreases spans@.len() - i,
    {
        let (offset, size) = spans[i];
        assert(spans@.take(i + 1).drop_last() =~= spans@.take(i as int));
        match offset.checked_add(size) {
            None => {
                return Err(StagingError::SpanOverflow);
            },
            Some(end) => {
                if end >= best {
                    best = end;
                }
            },
        }
        i = i + 1;
    }
    assert(spans@.take(spans@.len() as int) =~= spans@);
    if spans.len() == 0 {
        return Err(StagingError::NoSpans);
    }
    proof {
        lemma_spans_end_bound(spans@);
    }
    let b = best as u64;
    if b > u64::MAX - 63 {
        return Err(StagingError::TooLarge);
    }
    let c = b + 63;
    let rounded = c & !63u64;
    assert(rounded == (c / 64) * 64) by (bit_vector)
        requires
            rounded == c & !63u64,
    ;
    Ok(rounded)
}

/// The furthest span end fits a `u64` less 63 when every span end fits a
/// `usize`.
proof fn lemma_spans_end_bound(spans: Seq<(usize, usize)>)
    requires
        forall|j: int| 0 <= j < spans.len() ==> spans[j].0 + spans[j].1 <= usize::MAX,
    ensures
        0 <= spans_end(spans) <= usize::MAX,
    decreases spans.len(),
{
    if spans.len() > 0 {
        lemma_spans_end_bound(spans.drop_last());
    }
}

/// The staging area of one chip: allocations grow down from `next` and may
/// not go below `base`.
#[derive(Clone, Copy, Debug, PartialEq, Eq, Structural)]
pub struct StagingRegion {
    pub base: u64,
    pub next: u64,
}

/// Staging areas per chip.
pub struct StagingAllocator {
    pub regions: Vec<(i32, StagingRegion)>,
}

/// `i` is the region of chip `chip_id`.
pub open spec fn is_region_of(regions: Seq<(i32, StagingRegion)>, chip_id: i32, i: int) -> bool {
    0 <= i < regions.len() && regions[i].0 == chip_id
}

impl StagingAllocator {
    /// No chip has two regions.
    pub open spec fn wf(&self) -> bool {
        forall|i: int, j: int| 0 <= i < j < self.regions@.len() ==> self.regions@[i].0 != self.regions@[j].0
    }

    /// An allocator with no regions.
    pub fn new() -> (r: StagingAllocator)
        ensures
            r.wf(),
            r.regions@.len() == 0,
    {
        StagingAllocator { regions: Vec::new() }
    }

    /// Forgets every allocation.
    pub fn reset(&mut self)
        ensures
            final(self).wf(),
            final(self).regions@.len() == 0,
    {
        self.regions.clear();
    }

    /// The region of chip `chip_id`.
    pub fn find_region(&self, chip_id: i32) -> (r: Option<usize>)
        ensures
            match r {
                Some(i) => is_region_of(self.regions@, chip_id, i as int),
                None => forall|i: int| 0 <= i < self.regions@.len() ==> self.regions@[i].0 != chip_id,
            },
    {
        let mut i: usize = 0;
        while i < self.regions.len()
            invariant
                i <= self.regions@.len(),
                forall|j: int| 0 <= j < i ==> self.regions@[j].0 != chip_id,
            decreases self.regions@.len() - i,
        {
            if self.regions[i].0 == chip_id {
                return Some(i);
            }
            i = i + 1;
        }
        None
    }

    /// Opens the region of chip `chip_id` over the simulated DRAM range
    /// `base..base + size`; allocations start at its end.
    pub fn add_region(&mut self, chip_id: i32, base: u64, size: u64) -> (r: Result<(), StagingError>)
        requires
            old(self).wf(),
            forall|i: int| 0 <= i < old(self).regions@.len() ==> old(self).regions@[i].0 != chip_id,
        ensures
            final(self).wf(),
            match r {
                Ok(()) => base + size <= u64::MAX && final(self).regions@ == old(self).regions@.push(
                    (chip_id, StagingRegion { base, next: (base + size) as u64 }),
                ),
                Err(e) => base + size > u64::MAX && e == StagingError::RangeOverflow
                    && final(self).regions == old(self).regions,
            },
    {
        match base.checked_add(size) {
            None => Err(StagingError::RangeOverflow),
            Some(end) => {
                self.regions.push((chip_id, StagingRegion { base, next: end }));
                Ok(())
            },
        }
    }

    /// Allocates the staging of a transfer with `spans` below the chip's
    /// previous allocations.
    pub fn allocate(&mut self, chip_id: i32, spans: &[(usize, usize)]) -> (r: Result<u64, StagingError>)
        requires
            old(self).wf(),
            exists|i: int| is_region_of(old(self).regions@, chip_id, i),
        ensures
            final(self).wf(),
            final(self).regions@.len() == old(self).regions@.len(),
            forall|i: int|
                #![trigger final(self).regions@[i]]
                is_region_of(old(self).regions@, chip_id, i) ==> match spec_allocate(old(self).regions@[i].1, spans@) {
                    Ok((address, reg)) => r == Ok::<u64, StagingError>(address) && final(self).regions@
                        == old(self).regions@.update(i, (chip_id, reg)),
                    Err(e) => r == Err::<u64, StagingError>(e) && final(self).regions == old(self).regions,
                },
    {
        let bytes = match staging_bytes(spans) {
            Ok(b) => b,
            Err(e) => {
                return Err(e);
            },
        };
        let i = self.find_region(chip_id).unwrap();
        let reg = self.regions[i].1;
        if bytes > reg.next {
            return Err(StagingError::Exhausted);
        }
        let address = reg.next - bytes;
        if address < reg.base || address > DMA_ADDR_MASK {
            return Err(StagingError::OutsideRange);
        }
        self.regions.set(i, (chip_id, StagingRegion { base: reg.base, next: address }));
        proof {
            assert forall|j: int| #[trigger] is_region_of(old(self).regions@, chip_id, j) implies j == i by {
                if j != i {
                    assert(old(self).regions@[j].0 != old(self).regions@[i as int].0);
                }
            }
        }
        Ok(address)
    }
}

/// The transfer operand with its address replaced by the staged `address`.
pub fn staged_xs2(packed_xs2: u64, address: u64) -> (r: u64)
    ensures
        r == (packed_xs2 & !DMA_ADDR_MASK) | address,
        address <= DMA_ADDR_MASK ==> r % 0x80_0000_0000 == address && r / 0x80_0000_0000
            == packed_xs2 / 0x80_0000_0000,
{
    let r = (packed_xs2 & !DMA_ADDR_MASK) | address;
    assert(address <= DMA_ADDR_MASK ==> r % 0x80_0000_0000 == address && r / 0x80_0000_0000
        == packed_xs2 / 0x80_0000_0000) by (bit_vector)
        requires
            r == (packed_xs2 & !0x7f_ffff_ffffu64) | address,
    ;
    r
}

/// The bank a bank allocation `xs1`, `xs2` leaves behind, as the host
/// runtime records it: a bank allocated with zero columns spans the whole
/// accelerator width, which the host cannot know, so it gets no groups.
pub fn mset_bank_config(xs1: u64, xs2: u64) -> (r: (usize, BankConfig))
    ensures
        r.0 == xs1 % 0x400,
        r.1.allocated == ((xs2 / 0x400) % 2 == 1),
        r.1.groups == if r.1.allocated && (xs2 / 32) % 32 != 0 {
            (xs2 / 32) % 32
        } else {
            0
        },
{
    let bank_id = xs1 & 0x3ff;
    let raw_cols = (xs2 >> 5) & 0x1f;
    let allocated = ((xs2 >> 10) & 1) != 0;
    assert(bank_id == xs1 % 0x400 && raw_cols == (xs2 / 32) % 32 && (((xs2 >> 10) & 1) != 0)
        == ((xs2 / 0x400) % 2 == 1)) by (bit_vector)
        requires
            bank_id == xs1 & 0x3ff,
            raw_cols == (xs2 >> 5) & 0x1f,
    ;
    let groups = if allocated && raw_cols != 0 {
        raw_cols
    } else {
        0
    };
    (bank_id as usize, BankConfig { allocated, groups })
}

/// Staging handed out from one region never overlaps: a later
/// allocation's bytes end at or below where the earlier one starts.
pub proof fn law_staging_allocations_do_not_overlap(
    reg: StagingRegion,
    first: Seq<(usize, usize)>,
    second: Seq<(usize, usize)>,
)
    requires
        spec_allocate(reg, first) is Ok,
        spec_allocate(spec_allocate(reg, first)->Ok_0.1, second) is Ok,
    ensures
        ({
            let (a1, reg1) = spec_allocate(reg, first)->Ok_0;
            let (a2, _) = spec_allocate(reg1, second)->Ok_0;
            &&& a2 + round_up_64(spans_end(second)) <= a1
            &&& a1 + round_up_64(spans_end(first)) <= reg.next
            &&& reg.base <= a2
        }),
{
}


/// Every span lies inside a buffer of `len` bytes.
pub open spec fn spans_within(spans: Seq<(usize, usize)>, len: int) -> bool {
    forall|i: int| 0 <= i < spans.len() ==> #[trigger] spans[i].0 + spans[i].1 <= len
}

/// The bytes of `host` under `span`.
pub open spec fn span_bytes(host: Seq<u8>, span: (usize, usize)) -> Seq<u8> {
    host.subrange(span.0 as int, span.0 + span.1)
}

/// A chunk as an offset and its bytes.
pub open spec fn chunk_view(c: DmaChunk) -> (usize, Seq<u8>) {
    (c.offset, c.data@)
}

/// Chunks as offsets and bytes.
pub open spec fn chunks_view(cs: Seq<DmaChunk>) -> Seq<(usize, Seq<u8>)> {
    cs.map_values(|c: DmaChunk| chunk_view(c))
}

/// The chunks that capturing `spans` of `host` yields, in span order.
pub open spec fn spec_capture(host: Seq<u8>, spans: Seq<(usize, usize)>) -> Seq<(usize, Seq<u8>)> {
    spans.map_values(|s: (usize, usize)| (s.0, span_bytes(host, s)))
}

/// `host` with `data` written at `offset`.
pub open spec fn write_at(host: Seq<u8>, offset: int, data: Seq<u8>) -> Seq<u8> {
    host.subrange(0, offset) + data + host.subrange(offset + data.len(), host.len() as int)
}

/// Every chunk fits a buffer of `len` bytes.
pub open spec fn chunks_within(chunks: Seq<(usize, Seq<u8>)>, len: int) -> bool {
    forall|i: int| 0 <= i < chunks.len() ==> #[trigger] chunks[i].0 + chunks[i].1.len() <= len
}

/// `host` after the chunks are written back in order, later chunks over
/// earlier ones.
pub open spec fn spec_restore(host: Seq<u8>, chunks: Seq<(usize, Seq<u8>)>) -> Seq<u8>
    decreases chunks.len(),
{
    if chunks.len() == 0 {
        host
    } else {
        write_at(spec_restore(host, chunks.drop_last()), chunks.last().0 as int, chunks.last().1)
    }
}

/// Copies the bytes under each span of `host`, in span order.
pub fn capture_host(host: &[u8], spans: &[(usize, usize)]) -> (r: Vec<DmaChunk>)
    requires
        spans_within(spans@, host@.len() as int),
    ensures
        chunks_view(r@) == spec_capture(host@, spans@),
{
    let hlen = host.len();
    let mut out: Vec<DmaChunk> = Vec::new();
    let mut i: usize = 0;
    while i < spans.len()
        invariant
            i <= spans@.len(),
            hlen == host@.len(),
            spans_within(spans@, host@.len() as int),
            out@.len() == i,
            forall|k: int| 0 <= k < i ==> #[trigger] chunk_view(out@[k]) == (spans@[k].0, span_bytes(host@, spans@[k])),
        decreases spans@.len() - i,
    {
        let (offset, size) = spans[i];
        assert(spans@[i as int].0 + spans@[i as int].1 <= host@.len());
        let data = vstd::slice::slice_to_vec(vstd::slice::slice_subrange(host, offset, offset + size));
        out.push(DmaChunk { offset, data });
        i = i + 1;
    }
    assert(chunks_view(out@) =~= spec_capture(host@, spans@));
    out
}

/// Writes each chunk back into `host` at its offset, in order.
pub fn restore_host(host: &mut Vec<u8>, chunks: &[DmaChunk])
    requires
        chunks_within(chunks_view(chunks@), old(host)@.len() as int),
    ensures
        final(host)@ == spec_restore(old(host)@, chunks_view(chunks@)),
{
    let ghost start = host@;
    let hlen = host.len();
    let mut i: usize = 0;
    while i < chunks.len()
        invariant
            i <= chunks@.len(),
            hlen == start.len(),
            chunks_within(chunks_view(chunks@), start.len() as int),
            host@ == spec_restore(start, chunks_view(chunks@).take(i as int)),
            host@.len() == start.len(),
        decreases chunks@.len() - i,
    {
        let chunk = &chunks[i];
        let ghost before = host@;
        assert(chunk_view(chunks@[i as int]) == chunks_view(chunks@)[i as int]);
        assert(chunks_view(chunks@)[i as int].0 + chunks_view(chunks@)[i as int].1.len() <= start.len());
        let mut j: usize = 0;
        while j < chunk.data.len()
            invariant
                j <= chunk.data@.len(),
                chunk.offset + chunk.data@.len() <= before.len(),
                before.len() == hlen,
                host@.len() == before.len(),
                forall|k: int| 0 <= k < host@.len() ==> #[trigger] host@[k] == if chunk.offset <= k < chunk.offset + j {
                    chunk.data@[k - chunk.offset]
                } else {
                    before[k]
                },
            decreases chunk.data@.len() - j,
        {
            host.set(chunk.offset + j, chunk.data[j]);
            j = j + 1;
        }
        proof {
            let cs = chunks_view(chunks@).take(i + 1);
            assert(cs.drop_last() =~= chunks_view(chunks@).take(i as int));
            assert(cs.last() == chunk_view(chunks@[i as int]));
            assert(host@ =~= write_at(before, chunk.offset as int, chunk.data@));
        }
        i = i + 1;
    }
    assert(chunks_view(chunks@).take(chunks@.len() as int) =~= chunks_view(chunks@));
}

/// Position `k` lies under `span`.
pub open spec fn under(span: (usize, usize), k: int) -> bool {
    span.0 <= k < span.0 + span.1
}

/// Position `k` lies under one of `spans`.
pub open spec fn covered(spans: Seq<(usize, usize)>, k: int) -> bool {
    exists|i: int| 0 <= i < spans.len() && #[trigger] under(spans[i], k)
}

/// Writing back what was captured from `src` into a buffer `dst` of the
/// same length gives `src`'s byte at every position under a span and
/// leaves every other byte of `dst` as it was.
pub proof fn law_restore_returns_captured_bytes(src: Seq<u8>, dst: Seq<u8>, spans: Seq<(usize, usize)>)
    requires
        spans_within(spans, src.len() as int),
        dst.len() == src.len(),
    ensures
        spec_restore(dst, spec_capture(src, spans)).len() == dst.len(),
        forall|k: int|
            0 <= k < dst.len() ==> #[trigger] spec_restore(dst, spec_capture(src, spans))[k] == if covered(spans, k) {
                src[k]
            } else {
                dst[k]
            },
    decreases spans.len(),
{
    if spans.len() > 0 {
        let rest = spans.drop_last();
        assert(spans_within(rest, src.len() as int)) by {
            assert forall|i: int| 0 <= i < rest.len() implies #[trigger] rest[i].0 + rest[i].1 <= src.len() by {
                assert(rest[i] == spans[i]);
            }
        }
        law_restore_returns_captured_bytes(src, dst, rest);
        let caps = spec_capture(src, spans);
        assert(caps.drop_last() =~= spec_capture(src, rest));
        let prev = spec_restore(dst, spec_capture(src, rest));
        let s = spans.last();
        assert(s == spans[spans.len() - 1]);
        let out = write_at(prev, s.0 as int, span_bytes(src, s));
        assert(spec_restore(dst, caps) == out);
        assert forall|k: int| 0 <= k < dst.len() implies #[trigger] out[k] == if covered(spans, k) {
            src[k]
        } else {
            dst[k]
        } by {
            if under(s, k) {
                assert(under(spans[spans.len() - 1], k));
                assert(covered(spans, k));
            } else {
                assert(out[k] == prev[k]);
                if covered(spans, k) {
                    let i = choose|i: int| 0 <= i < spans.len() && #[trigger] under(spans[i], k);
                    assert(i != spans.len() - 1);
                    assert(rest[i] == spans[i]);
                    assert(under(rest[i], k));
                    assert(covered(rest, k));
                } else {
                    if covered(rest, k) {
                        let i = choose|i: int| 0 <= i < rest.len() && #[trigger] under(rest[i], k);
                        assert(rest[i] == spans[i]);
                        assert(under(spans[i], k));
                        assert(covered(spans, k));
                    }
                }
            }
        }
    }
}

} // verus!
