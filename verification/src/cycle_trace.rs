//! Cycle-trace records printed over a UART: `@BCT,depth,p0,p1,p2,p3,start,end`
//! lines are cut from each hart's byte stream, checked and parsed, and
//! summed into a summary of the traced region.

use vstd::prelude::*;
use std::collections::HashMap;
use vstd::utf8::{pop_first_scalar, valid_first_scalar, valid_utf8};
use crate::text::{decimal, parse_i64, parse_unsigned, push_all, spec_decimal, spec_parse_i64, spec_parse_unsigned};

verus! {

broadcast use vstd::std_specs::hash::group_hash_axioms;

/// Deepest trace path a record may carry.
pub const MAX_TRACE_PATH_DEPTH: usize = 4;

/// `"@BCT"`, the prefix of a cycle-trace record.
pub open spec fn record_prefix() -> Seq<u8> {
    seq![64u8, 66u8, 67u8, 84u8]
}

/// ASCII bytes are valid UTF-8: each is a scalar of its own.
pub proof fn lemma_ascii_is_utf8(bytes: Seq<u8>)
    requires
        forall|i: int| 0 <= i < bytes.len() ==> bytes[i] < 128,
    ensures
        valid_utf8(bytes),
    decreases bytes.len(),
{
    if bytes.len() > 0 {
        let rest = bytes.subrange(1, bytes.len() as int);
        assert forall|i: int| 0 <= i < rest.len() implies rest[i] < 128 by {
            assert(rest[i] == bytes[i + 1]);
        }
        lemma_ascii_is_utf8(rest);
        assert(valid_first_scalar(bytes));
        assert(pop_first_scalar(bytes) =~= rest);
    }
}

/// Whether `bytes` are valid UTF-8 (`std::str::from_utf8` succeeds):
/// well-formed scalars throughout, no overlong forms, no surrogates.
#[verifier::external_body]
fn is_utf8(bytes: &[u8]) -> (r: bool)
    ensures
        r == valid_utf8(bytes@),
{
    std::str::from_utf8(bytes).is_ok()
}

/// A field of a record whose number did not parse.
#[derive(Clone, Copy, Debug, PartialEq, Eq, Structural)]
pub enum TraceField {
    Depth,
    Path { index: usize },
    Start,
    End,
}

/// Why a UART line was refused as a cycle-trace record.
#[derive(Clone, Copy, Debug, PartialEq, Eq, Structural)]
pub enum CycleTraceError {
    /// The line is not UTF-8.
    NotUtf8,
    /// The line starts like a record but does not have its eight fields.
    InvalidRecord,
    /// A numeric field does not parse.
    InvalidField { field: TraceField },
    /// The depth is outside `1..=MAX_TRACE_PATH_DEPTH`.
    DepthOutOfRange { depth: usize },
    /// A path component within the depth is negative.
    NegativePathComponent,
    /// The end cycle precedes the start cycle.
    EndBeforeStart,
}

/// One parsed record: the path (its first `depth` components) and the
/// start and end cycles.
#[derive(Debug)]
pub struct CycleRecord {
    pub path: Vec<i64>,
    pub start: u64,
    pub end: u64,
}

/// The numbers of the summary file.
#[derive(Clone, Copy, Debug, PartialEq, Eq, Structural)]
pub struct CycleSummary {
    pub first_start: u64,
    pub last_end: u64,
    pub trace_span: u64,
    pub traced_cycle_sum: u64,
    pub trace_count: u64,
}

// ---------------------------------------------------------------------------
// Records
// ---------------------------------------------------------------------------

/// `s` without trailing `\r` and `\n` bytes.
pub open spec fn trim_line_end(s: Seq<u8>) -> Seq<u8>
    decreases s.len(),
{
    if s.len() > 0 && (s.last() == 13 || s.last() == 10) {
        trim_line_end(s.drop_last())
    } else {
        s
    }
}

/// The positions of the commas of `s`, in order.
pub open spec fn comma_positions(s: Seq<u8>) -> Seq<int>
    decreases s.len(),
{
    if s.len() == 0 {
        Seq::empty()
    } else if s.last() == 44 {
        comma_positions(s.drop_last()).push(s.len() - 1)
    } else {
        comma_positions(s.drop_last())
    }
}

/// Field `k` of `s` split at its commas.
pub open spec fn field_of(s: Seq<u8>, k: int) -> Seq<u8> {
    let c = comma_positions(s);
    let from = if k == 0 {
        0
    } else {
        c[k - 1] + 1
    };
    let to = if k < c.len() {
        c[k]
    } else {
        s.len() as int
    };
    s.subrange(from, to)
}

/// The path, start and end a UART line carries, `None` for a line that is
/// no record, or why the line is refused.
pub open spec fn spec_parse_record(bytes: Seq<u8>) -> Result<Option<(Seq<i64>, u64, u64)>, CycleTraceError> {
    if !valid_utf8(bytes) {
        Err(CycleTraceError::NotUtf8)
    } else {
        let line = trim_line_end(bytes);
        if !(line.len() >= 4 && line.subrange(0, 4) == record_prefix()) {
            Ok(None)
        } else if comma_positions(line).len() != 7 || field_of(line, 0) != record_prefix() {
            Err(CycleTraceError::InvalidRecord)
        } else {
            match spec_parse_unsigned(field_of(line, 1), usize::MAX as nat) {
                None => Err(CycleTraceError::InvalidField { field: TraceField::Depth }),
                Some(depth) => if depth < 1 || depth > 4 {
                    Err(CycleTraceError::DepthOutOfRange { depth: depth as usize })
                } else {
                    spec_parse_path_and_cycles(line, depth as int)
                },
            }
        }
    }
}

/// The first path field of `line` (fields 2 to 5) that does not parse.
pub open spec fn first_bad_path_field(line: Seq<u8>) -> Option<int> {
    if spec_parse_i64(field_of(line, 2)) is None {
        Some(0)
    } else if spec_parse_i64(field_of(line, 3)) is None {
        Some(1)
    } else if spec_parse_i64(field_of(line, 4)) is None {
        Some(2)
    } else if spec_parse_i64(field_of(line, 5)) is None {
        Some(3)
    } else {
        None
    }
}

/// The four path components of `line`, where all parse.
pub open spec fn path_components(line: Seq<u8>) -> Seq<i64> {
    Seq::new(4, |k: int| spec_parse_i64(field_of(line, k + 2))->Some_0 as i64)
}

/// The rest of a record after its depth: path, start, end.
pub open spec fn spec_parse_path_and_cycles(line: Seq<u8>, depth: int) -> Result<Option<(Seq<i64>, u64, u64)>, CycleTraceError> {
    match first_bad_path_field(line) {
        Some(k) => Err(CycleTraceError::InvalidField { field: TraceField::Path { index: k as usize } }),
        None => {
            let path = path_components(line).subrange(0, depth);
            if exists|k: int| 0 <= k < depth && path[k] < 0 {
                Err(CycleTraceError::NegativePathComponent)
            } else {
                match spec_parse_unsigned(field_of(line, 6), u64::MAX as nat) {
                    None => Err(CycleTraceError::InvalidField { field: TraceField::Start }),
                    Some(start) => match spec_parse_unsigned(field_of(line, 7), u64::MAX as nat) {
                        None => Err(CycleTraceError::InvalidField { field: TraceField::End }),
                        Some(end) => if end < start {
                            Err(CycleTraceError::EndBeforeStart)
                        } else {
                            Ok(Some((path, start as u64, end as u64)))
                        },
                    },
                }
            }
        },
    }
}

/// A parse result with its record taken by value.
pub open spec fn record_view(r: Result<Option<CycleRecord>, CycleTraceError>) -> Result<Option<(Seq<i64>, u64, u64)>, CycleTraceError> {
    match r {
        Ok(Some(rec)) => Ok(Some((rec.path@, rec.start, rec.end))),
        Ok(None) => Ok(None),
        Err(e) => Err(e),
    }
}

/// Length of `s` without its trailing `\r` and `\n` bytes.
fn trimmed_len(s: &[u8]) -> (r: usize)
    ensures
        r <= s@.len(),
        s@.subrange(0, r as int) == trim_line_end(s@),
{
    let mut n: usize = s.len();
    assert(s@.subrange(0, n as int) =~= s@);
    while n > 0 && (s[n - 1] == 13 || s[n - 1] == 10)
        invariant
            n <= s@.len(),
            trim_line_end(s@.subrange(0, n as int)) == trim_line_end(s@),
        decreases n,
    {
        assert(s@.subrange(0, n as int).drop_last() =~= s@.subrange(0, n as int - 1));
        n = n - 1;
    }
    n
}

/// The comma positions of `line`.
fn commas(line: &[u8]) -> (r: Vec<usize>)
    ensures
        r@.len() == comma_positions(line@).len(),
        forall|k: int| 0 <= k < r@.len() ==> r@[k] as int == comma_positions(line@)[k],
{
    let mut r: Vec<usize> = Vec::new();
    let mut i: usize = 0;
    while i < line.len()
        invariant
            i <= line@.len(),
            r@.len() == comma_positions(line@.subrange(0, i as int)).len(),
            forall|k: int| 0 <= k < r@.len() ==> r@[k] as int == comma_positions(line@.subrange(0, i as int))[k],
        decreases line@.len() - i,
    {
        assert(line@.subrange(0, i as int + 1).drop_last() =~= line@.subrange(0, i as int));
        if line[i] == 44 {
            r.push(i);
        }
        i = i + 1;
    }
    assert(line@.subrange(0, i as int) =~= line@);
    r
}

/// Comma positions are in order and lie inside the line.
proof fn lemma_comma_positions(s: Seq<u8>)
    ensures
        forall|k: int| 0 <= k < comma_positions(s).len() ==> 0 <= #[trigger] comma_positions(s)[k] < s.len(),
        forall|k: int, j: int| 0 <= k < j < comma_positions(s).len() ==> comma_positions(s)[k] < comma_positions(s)[j],
    decreases s.len(),
{
    if s.len() > 0 {
        let t = s.drop_last();
        lemma_comma_positions(t);
        let p = comma_positions(t);
        if s.last() == 44 {
            let q = p.push(s.len() - 1);
            assert(comma_positions(s) == q);
            assert forall|k: int, j: int| 0 <= k < j < q.len() implies q[k] < q[j] by {
                if j == q.len() - 1 {
                    assert(q[k] == p[k]);
                }
            }
        }
    }
}

/// Field `k` of `line`, cut at the commas `c`.
fn field<'a>(line: &'a [u8], c: &Vec<usize>, k: usize) -> (r: &'a [u8])
    requires
        k <= c@.len(),
        c@.len() == comma_positions(line@).len(),
        forall|j: int| 0 <= j < c@.len() ==> c@[j] as int == comma_positions(line@)[j],
    ensures
        r@ == field_of(line@, k as int),
{
    let len = line.len();
    proof {
        lemma_comma_positions(line@);
        if k > 0 {
            assert(comma_positions(line@)[k - 1] < line@.len());
        }
    }
    let from: usize = if k == 0 {
        0
    } else {
        c[k - 1] + 1
    };
    let to: usize = if k < c.len() {
        c[k]
    } else {
        line.len()
    };
    proof {
        if k > 0 && k < c@.len() {
            assert(comma_positions(line@)[k - 1] < comma_positions(line@)[k as int]);
        }
    }
    slice_range(line, from, to)
}

/// `s[from..to]`.
fn slice_range(s: &[u8], from: usize, to: usize) -> (r: &[u8])
    requires
        from <= to <= s@.len(),
    ensures
        r@ == s@.subrange(from as int, to as int),
{
    &s[from..to]
}

/// Whether `s` is exactly `"@BCT"`.
fn is_record_prefix(s: &[u8]) -> (r: bool)
    ensures
        r == (s@ == record_prefix()),
{
    let r = s.len() == 4 && s[0] == 64 && s[1] == 66 && s[2] == 67 && s[3] == 84;
    proof {
        if r {
            assert(s@ =~= record_prefix());
        }
    }
    r
}

/// Checks and parses one UART line (with its newline).
#[verifier::loop_isolation(false)]
pub fn parse_record(bytes: &[u8]) -> (r: Result<Option<CycleRecord>, CycleTraceError>)
    ensures
        record_view(r) == spec_parse_record(bytes@),
{
    if !is_utf8(bytes) {
        return Err(CycleTraceError::NotUtf8);
    }
    let n = trimmed_len(bytes);
    let line = slice_range(bytes, 0, n);
    if !(line.len() >= 4 && is_record_prefix(slice_range(line, 0, 4))) {
        return Ok(None);
    }
    let c = commas(line);
    if c.len() != 7 || !is_record_prefix(field(line, &c, 0)) {
        return Err(CycleTraceError::InvalidRecord);
    }
    let depth = match parse_unsigned(field(line, &c, 1), usize::MAX as u64) {
        Some(d) => d as usize,
        None => {
            return Err(CycleTraceError::InvalidField { field: TraceField::Depth });
        },
    };
    if depth < 1 || depth > MAX_TRACE_PATH_DEPTH {
        return Err(CycleTraceError::DepthOutOfRange { depth });
    }
    let mut all: Vec<i64> = Vec::new();
    let mut k: usize = 0;
    while k < 4
        invariant
            k <= 4,
            c@.len() == 7,
            c@.len() == comma_positions(line@).len(),
            forall|j: int| 0 <= j < c@.len() ==> c@[j] as int == comma_positions(line@)[j],
            all@.len() == k,
            k > 0 ==> spec_parse_i64(field_of(line@, 2)) == Some(all@[0] as int),
            k > 1 ==> spec_parse_i64(field_of(line@, 3)) == Some(all@[1] as int),
            k > 2 ==> spec_parse_i64(field_of(line@, 4)) == Some(all@[2] as int),
            k > 3 ==> spec_parse_i64(field_of(line@, 5)) == Some(all@[3] as int),
        decreases 4 - k,
    {
        match parse_i64(field(line, &c, k + 2)) {
            Some(v) => all.push(v),
            None => {
                proof {
                    assert(first_bad_path_field(line@) == Some(k as int));
                }
                return Err(CycleTraceError::InvalidField { field: TraceField::Path { index: k } });
            },
        }
        k = k + 1;
    }
    assert(first_bad_path_field(line@) is None);
    assert(all@ =~= path_components(line@)) by {
        assert forall|j: int| 0 <= j < 4 implies all@[j] == path_components(line@)[j] by {
            if j == 0 {
                assert(spec_parse_i64(field_of(line@, 2)) == Some(all@[0] as int));
            } else if j == 1 {
                assert(spec_parse_i64(field_of(line@, 3)) == Some(all@[1] as int));
            } else if j == 2 {
                assert(spec_parse_i64(field_of(line@, 4)) == Some(all@[2] as int));
            } else {
                assert(spec_parse_i64(field_of(line@, 5)) == Some(all@[3] as int));
            }
        }
    }
    let mut path: Vec<i64> = Vec::new();
    let mut j: usize = 0;
    while j < depth
        invariant
            j <= depth <= 4,
            all@.len() == 4,
            path@ =~= all@.subrange(0, j as int),
            all@ == path_components(line@),
            forall|q: int| 0 <= q < j ==> all@[q] >= 0,
        decreases depth - j,
    {
        if all[j] < 0 {
            proof {
                let p = path_components(line@).subrange(0, depth as int);
                assert(p[j as int] == all@[j as int]);
                assert(0 <= j < depth && p[j as int] < 0);
            }
            return Err(CycleTraceError::NegativePathComponent);
        }
        path.push(all[j]);
        j = j + 1;
    }
    let start = match parse_unsigned(field(line, &c, 6), u64::MAX) {
        Some(v) => v,
        None => {
            return Err(CycleTraceError::InvalidField { field: TraceField::Start });
        },
    };
    let end = match parse_unsigned(field(line, &c, 7), u64::MAX) {
        Some(v) => v,
        None => {
            return Err(CycleTraceError::InvalidField { field: TraceField::End });
        },
    };
    if end < start {
        return Err(CycleTraceError::EndBeforeStart);
    }
    Ok(Some(CycleRecord { path, start, end }))
}

// ---------------------------------------------------------------------------
// Files
// ---------------------------------------------------------------------------

/// `label`, the decimal digits of `n`, and a newline.
pub open spec fn labelled(label: Seq<u8>, n: nat) -> Seq<u8> {
    label + spec_decimal(n) + seq![10u8]
}

/// Appends `label`, the digits of `n` and a newline to `out`.
fn push_labelled(out: &mut Vec<u8>, label: &[u8], n: u64)
    ensures
        final(out)@ == old(out)@ + labelled(label@, n as nat),
{
    let mut i: usize = 0;
    let ghost start = out@;
    while i < label.len()
        invariant
            i <= label@.len(),
            out@ == start + label@.subrange(0, i as int),
        decreases label@.len() - i,
    {
        out.push(label[i]);
        i = i + 1;
        assert(out@ =~= start + label@.subrange(0, i as int));
    }
    let digits = decimal(n);
    let mut k: usize = 0;
    while k < digits.len()
        invariant
            k <= digits@.len(),
            digits@ == spec_decimal(n as nat),
            out@ == start + label@ + digits@.subrange(0, k as int),
        decreases digits@.len() - k,
    {
        out.push(digits[k]);
        k = k + 1;
        assert(out@ =~= start + label@ + digits@.subrange(0, k as int));
    }
    out.push(10u8);
    assert(out@ =~= start + labelled(label@, n as nat));
}

/// `"trace-"`.
pub open spec fn trace_name_prefix() -> Seq<u8> {
    seq![116u8, 114u8, 97u8, 99u8, 101u8, 45u8]
}

/// `".txt"`.
pub open spec fn txt_suffix() -> Seq<u8> {
    seq![46u8, 116u8, 120u8, 116u8]
}

/// The path components in decimal, joined by `-`.
pub open spec fn path_key(path: Seq<i64>) -> Seq<u8>
    decreases path.len(),
{
    if path.len() == 0 {
        Seq::empty()
    } else if path.len() == 1 {
        spec_decimal(path[0] as nat)
    } else {
        path_key(path.drop_last()) + seq![45u8] + spec_decimal(path.last() as nat)
    }
}

/// The file a record is written to: `trace-<path key>.txt`.
pub open spec fn spec_trace_file_name(path: Seq<i64>) -> Seq<u8> {
    trace_name_prefix() + path_key(path) + txt_suffix()
}

/// The contents of a record's file: its start, end and elapsed cycles.
pub open spec fn spec_trace_contents(start: u64, end: u64) -> Seq<u8> {
    labelled(seq![115u8, 116u8, 97u8, 114u8, 116u8, 32u8], start as nat)
        + labelled(seq![101u8, 110u8, 100u8, 32u8], end as nat)
        + labelled(seq![101u8, 108u8, 97u8, 112u8, 115u8, 101u8, 100u8, 32u8], (end - start) as nat)
}

/// The contents of the summary file.
pub open spec fn spec_summary_contents(s: CycleSummary) -> Seq<u8> {
    labelled(seq![102u8, 105u8, 114u8, 115u8, 116u8, 95u8, 115u8, 116u8, 97u8, 114u8, 116u8, 32u8], s.first_start as nat)
        + labelled(seq![108u8, 97u8, 115u8, 116u8, 95u8, 101u8, 110u8, 100u8, 32u8], s.last_end as nat)
        + labelled(seq![116u8, 114u8, 97u8, 99u8, 101u8, 95u8, 115u8, 112u8, 97u8, 110u8, 32u8], s.trace_span as nat)
        + labelled(
            seq![116u8, 114u8, 97u8, 99u8, 101u8, 100u8, 95u8, 99u8, 121u8, 99u8, 108u8, 101u8, 95u8, 115u8, 117u8, 109u8, 32u8],
            s.traced_cycle_sum as nat,
        )
        + labelled(seq![116u8, 114u8, 97u8, 99u8, 101u8, 95u8, 99u8, 111u8, 117u8, 110u8, 116u8, 32u8], s.trace_count as nat)
}

/// The name of the file a record with `path` is written to.
pub fn trace_file_name(path: &Vec<i64>) -> (r: Vec<u8>)
    requires
        forall|k: int| 0 <= k < path@.len() ==> path@[k] >= 0,
    ensures
        r@ == spec_trace_file_name(path@),
{
    let mut out: Vec<u8> = vec![116u8, 114u8, 97u8, 99u8, 101u8, 45u8];
    assert(out@ =~= trace_name_prefix());
    let mut k: usize = 0;
    while k < path.len()
        invariant
            k <= path@.len(),
            forall|j: int| 0 <= j < path@.len() ==> path@[j] >= 0,
            out@ == trace_name_prefix() + path_key(path@.subrange(0, k as int)),
        decreases path@.len() - k,
    {
        let ghost before = path@.subrange(0, k as int);
        let ghost after = path@.subrange(0, k as int + 1);
        assert(after.drop_last() =~= before);
        assert(after.last() == path@[k as int]);
        if k > 0 {
            out.push(45u8);
        }
        let digits = decimal(path[k] as u64);
        push_all(&mut out, digits.as_slice());
        proof {
            if k == 0 {
                assert(before =~= Seq::<i64>::empty());
                assert(out@ =~= trace_name_prefix() + path_key(after));
            } else {
                assert(out@ =~= trace_name_prefix() + path_key(after));
            }
        }
        k = k + 1;
    }
    assert(path@.subrange(0, k as int) =~= path@);
    let suffix: Vec<u8> = vec![46u8, 116u8, 120u8, 116u8];
    push_all(&mut out, suffix.as_slice());
    assert(suffix@ =~= txt_suffix());
    out
}

/// The contents of the file of a record from `start` to `end`.
pub fn trace_contents(start: u64, end: u64) -> (r: Vec<u8>)
    requires
        start <= end,
    ensures
        r@ == spec_trace_contents(start, end),
{
    let mut out: Vec<u8> = Vec::new();
    let l1: Vec<u8> = vec![115u8, 116u8, 97u8, 114u8, 116u8, 32u8];
    let l2: Vec<u8> = vec![101u8, 110u8, 100u8, 32u8];
    let l3: Vec<u8> = vec![101u8, 108u8, 97u8, 112u8, 115u8, 101u8, 100u8, 32u8];
    push_labelled(&mut out, l1.as_slice(), start);
    push_labelled(&mut out, l2.as_slice(), end);
    push_labelled(&mut out, l3.as_slice(), end - start);
    assert(out@ =~= spec_trace_contents(start, end));
    out
}

/// The contents of the summary file.
pub fn summary_contents(s: &CycleSummary) -> (r: Vec<u8>)
    ensures
        r@ == spec_summary_contents(*s),
{
    let mut out: Vec<u8> = Vec::new();
    let l1: Vec<u8> = vec![102u8, 105u8, 114u8, 115u8, 116u8, 95u8, 115u8, 116u8, 97u8, 114u8, 116u8, 32u8];
    let l2: Vec<u8> = vec![108u8, 97u8, 115u8, 116u8, 95u8, 101u8, 110u8, 100u8, 32u8];
    let l3: Vec<u8> = vec![116u8, 114u8, 97u8, 99u8, 101u8, 95u8, 115u8, 112u8, 97u8, 110u8, 32u8];
    let l4: Vec<u8> = vec![116u8, 114u8, 97u8, 99u8, 101u8, 100u8, 95u8, 99u8, 121u8, 99u8, 108u8, 101u8, 95u8, 115u8, 117u8, 109u8, 32u8];
    let l5: Vec<u8> = vec![116u8, 114u8, 97u8, 99u8, 101u8, 95u8, 99u8, 111u8, 117u8, 110u8, 116u8, 32u8];
    push_labelled(&mut out, l1.as_slice(), s.first_start);
    push_labelled(&mut out, l2.as_slice(), s.last_end);
    push_labelled(&mut out, l3.as_slice(), s.trace_span);
    push_labelled(&mut out, l4.as_slice(), s.traced_cycle_sum);
    push_labelled(&mut out, l5.as_slice(), s.trace_count);
    assert(out@ =~= spec_summary_contents(*s));
    out
}

// ---------------------------------------------------------------------------
// Collector
// ---------------------------------------------------------------------------

/// Cuts each hart's UART stream into lines and sums the records found.
#[derive(Debug)]
pub struct CycleTraceCollector {
    pub uart_lines: HashMap<u32, Vec<u8>>,
    pub first_start: Option<u64>,
    pub last_end: Option<u64>,
    pub elapsed_sum: u64,
    pub trace_count: u64,
}

/// `a + b`, or `u64::MAX` where that overflows.
pub open spec fn sat_add_u64(a: u64, b: u64) -> u64 {
    if a + b > u64::MAX {
        u64::MAX
    } else {
        (a + b) as u64
    }
}

impl CycleTraceCollector {
    /// The bytes of hart `hart` since its last newline.
    pub open spec fn pending(&self, hart: u32) -> Seq<u8> {
        if self.uart_lines@.dom().contains(hart) {
            self.uart_lines@[hart]@
        } else {
            Seq::empty()
        }
    }

    /// No record seen exactly when no first start and no last end are
    /// known; once known, the first start is not after the last end.
    pub open spec fn wf(&self) -> bool {
        &&& (self.trace_count == 0) == (self.first_start is None)
        &&& (self.first_start is None) == (self.last_end is None)
        &&& (self.first_start matches Some(f) ==> (self.last_end matches Some(l) && f <= l))
    }

    /// The statistics after a record from `start` to `end`.
    pub open spec fn counted(self, start: u64, end: u64) -> (Option<u64>, Option<u64>, u64, u64) {
        (
            Some(
                match self.first_start {
                    Some(f) => if start < f {
                        start
                    } else {
                        f
                    },
                    None => start,
                },
            ),
            Some(
                match self.last_end {
                    Some(l) => if end > l {
                        end
                    } else {
                        l
                    },
                    None => end,
                },
            ),
            sat_add_u64(self.elapsed_sum, (end - start) as u64),
            sat_add_u64(self.trace_count, 1),
        )
    }

    /// The statistics as a tuple.
    pub open spec fn stats(self) -> (Option<u64>, Option<u64>, u64, u64) {
        (self.first_start, self.last_end, self.elapsed_sum, self.trace_count)
    }

    /// A collector with no pending bytes and no records.
    pub fn new() -> (r: CycleTraceCollector)
        ensures
            r.wf(),
            forall|h: u32| r.pending(h) == Seq::<u8>::empty(),
            r.stats() == (None::<u64>, None::<u64>, 0u64, 0u64),
    {
        CycleTraceCollector {
            uart_lines: HashMap::new(),
            first_start: None,
            last_end: None,
            elapsed_sum: 0,
            trace_count: 0,
        }
    }

    /// Takes one UART byte of hart `hart_id`. A newline ends the hart's
    /// line, which is then checked: a record is counted and handed back
    /// for its file to be written; other lines are dropped; a malformed
    /// record is an error.
    pub fn push_uart_byte(&mut self, hart_id: u32, byte: u8) -> (r: Result<Option<CycleRecord>, CycleTraceError>)
        requires
            old(self).wf(),
        ensures
            final(self).wf(),
            forall|h: u32| h != hart_id ==> final(self).pending(h) == old(self).pending(h),
            byte != 10 ==> r is Ok && r->Ok_0 is None && final(self).pending(hart_id) == old(self).pending(hart_id).push(byte)
                && final(self).stats() == old(self).stats(),
            byte == 10 ==> record_view(r) == spec_parse_record(old(self).pending(hart_id).push(byte))
                && final(self).pending(hart_id) == Seq::<u8>::empty(),
            r matches Ok(Some(rec)) ==> byte == 10 && rec.start <= rec.end && final(self).stats() == old(self).counted(rec.start, rec.end),
            byte == 10 && !(r matches Ok(Some(_))) ==> final(self).stats() == old(self).stats(),
    {
        let mut line = match self.uart_lines.remove(&hart_id) {
            Some(v) => v,
            None => Vec::new(),
        };
        line.push(byte);
        if byte != 10 {
            self.uart_lines.insert(hart_id, line);
            return Ok(None);
        }
        let r = parse_record(line.as_slice());
        match &r {
            Ok(Some(rec)) => {
                let start = rec.start;
                let end = rec.end;
                self.first_start = Some(
                    match self.first_start {
                        Some(f) => if start < f {
                            start
                        } else {
                            f
                        },
                        None => start,
                    },
                );
                self.last_end = Some(
                    match self.last_end {
                        Some(l) => if end > l {
                            end
                        } else {
                            l
                        },
                        None => end,
                    },
                );
                self.elapsed_sum = self.elapsed_sum.saturating_add(end - start);
                self.trace_count = self.trace_count.saturating_add(1);
            },
            _ => {},
        }
        r
    }

    /// The summary of the records seen, `None` where there were none.
    pub fn finish(self) -> (r: Option<CycleSummary>)
        requires
            self.wf(),
        ensures
            self.trace_count == 0 ==> r is None,
            self.trace_count > 0 ==> r == Some(
                CycleSummary {
                    first_start: self.first_start->Some_0,
                    last_end: self.last_end->Some_0,
                    trace_span: (self.last_end->Some_0 - self.first_start->Some_0) as u64,
                    traced_cycle_sum: self.elapsed_sum,
                    trace_count: self.trace_count,
                },
            ),
    {
        if self.trace_count == 0 {
            return None;
        }
        let first_start = match self.first_start {
            Some(f) => f,
            None => 0,
        };
        let last_end = match self.last_end {
            Some(l) => l,
            None => 0,
        };
        Some(
            CycleSummary {
                first_start,
                last_end,
                trace_span: last_end.saturating_sub(first_start),
                traced_cycle_sum: self.elapsed_sum,
                trace_count: self.trace_count,
            },
        )
    }
}

} // verus!
