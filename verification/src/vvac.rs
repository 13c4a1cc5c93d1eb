//! Text fixes applied to a VVAC build: instantiations of modules that
//! VVAC leaves empty are dropped from the Verilog sources, and the empty
//! modules' files are added to VVAC's filelist.

use vstd::prelude::*;
use vstd::utf8::encode_utf8;
use crate::text::push_all;

verus! {

// ---------------------------------------------------------------------------
// Lines
// ---------------------------------------------------------------------------

/// Offset of the first newline of `s`, or its length when it has none.
pub open spec fn first_newline(s: Seq<u8>) -> nat
    decreases s.len(),
{
    if s.len() == 0 {
        0
    } else if s[0] == 10 {
        0
    } else {
        1 + first_newline(s.subrange(1, s.len() as int))
    }
}

/// `l` without one trailing carriage return.
pub open spec fn strip_cr(l: Seq<u8>) -> Seq<u8> {
    if l.len() > 0 && l.last() == 13 {
        l.drop_last()
    } else {
        l
    }
}

/// The lines of `s` as `str::lines` yields them: split at each newline,
/// a carriage return before a newline dropped, no empty line after a final
/// newline.
pub open spec fn spec_lines(s: Seq<u8>) -> Seq<Seq<u8>>
    decreases s.len(),
{
    if s.len() == 0 {
        Seq::empty()
    } else {
        let i = first_newline(s);
        if i >= s.len() {
            seq![s]
        } else {
            seq![strip_cr(s.subrange(0, i as int))] + spec_lines(s.subrange(i + 1 as int, s.len() as int))
        }
    }
}

/// The lines joined with newlines between them.
pub open spec fn join_lines(ls: Seq<Seq<u8>>) -> Seq<u8>
    decreases ls.len(),
{
    if ls.len() == 0 {
        Seq::empty()
    } else if ls.len() == 1 {
        ls[0]
    } else {
        join_lines(ls.drop_last()) + seq![10u8] + ls.last()
    }
}

/// The first newline of `s` is at `n` when the bytes before `n` are not
/// newlines and `n` ends `s` or holds one.
proof fn lemma_first_newline(s: Seq<u8>, n: int)
    requires
        0 <= n <= s.len(),
        forall|k: int| 0 <= k < n ==> s[k] != 10,
        n < s.len() ==> s[n] == 10,
    ensures
        first_newline(s) == n,
    decreases n,
{
    if n > 0 {
        let t = s.subrange(1, s.len() as int);
        assert forall|k: int| 0 <= k < n - 1 implies t[k] != 10 by {
            assert(t[k] == s[k + 1]);
        }
        if n - 1 < t.len() {
            assert(t[n - 1] == s[n]);
        }
        lemma_first_newline(t, n - 1);
    }
}

// ---------------------------------------------------------------------------
// Empty module instantiations
// ---------------------------------------------------------------------------

/// Whether `c` is ASCII whitespace.
pub open spec fn is_ascii_space(c: u8) -> bool {
    c == 32 || (9 <= c <= 13)
}

/// Whether `a b` is the UTF-8 encoding of a two-byte whitespace character
/// (U+0085 or U+00A0).
pub open spec fn is_space2(a: u8, b: u8) -> bool {
    a == 0xC2 && (b == 0x85 || b == 0xA0)
}

/// Whether `a b c` is the UTF-8 encoding of a three-byte whitespace
/// character (U+1680, U+2000 to U+200A, U+2028, U+2029, U+202F, U+205F or
/// U+3000).
pub open spec fn is_space3(a: u8, b: u8, c: u8) -> bool {
    ||| a == 0xE1 && b == 0x9A && c == 0x80
    ||| a == 0xE2 && b == 0x80 && ((0x80 <= c <= 0x8A) || c == 0xA8 || c == 0xA9 || c == 0xAF)
    ||| a == 0xE2 && b == 0x81 && c == 0x9F
    ||| a == 0xE3 && b == 0x80 && c == 0x80
}

/// Length in bytes of the whitespace character (Unicode `White_Space`) that
/// `s` starts with, or 0 when it starts with none.
pub open spec fn leading_space_len(s: Seq<u8>) -> int {
    if s.len() >= 1 && is_ascii_space(s[0]) {
        1
    } else if s.len() >= 2 && is_space2(s[0], s[1]) {
        2
    } else if s.len() >= 3 && is_space3(s[0], s[1], s[2]) {
        3
    } else {
        0
    }
}

/// Length in bytes of the whitespace character that `s` ends with, or 0
/// when it ends with none.
pub open spec fn trailing_space_len(s: Seq<u8>) -> int {
    let n = s.len() as int;
    if n >= 1 && is_ascii_space(s[n - 1]) {
        1
    } else if n >= 2 && is_space2(s[n - 2], s[n - 1]) {
        2
    } else if n >= 3 && is_space3(s[n - 3], s[n - 2], s[n - 1]) {
        3
    } else {
        0
    }
}

/// `s` without leading whitespace.
pub open spec fn trim_start(s: Seq<u8>) -> Seq<u8>
    decreases s.len(),
{
    let k = leading_space_len(s);
    if k > 0 {
        trim_start(s.subrange(k, s.len() as int))
    } else {
        s
    }
}

/// `s` without trailing whitespace.
pub open spec fn trim_end(s: Seq<u8>) -> Seq<u8>
    decreases s.len(),
{
    let k = trailing_space_len(s);
    if k > 0 {
        trim_end(s.subrange(0, s.len() - k))
    } else {
        s
    }
}

/// `s` without leading and trailing whitespace.
pub open spec fn trim(s: Seq<u8>) -> Seq<u8> {
    trim_end(trim_start(s))
}

/// `s` starts with `p`.
pub open spec fn starts_with(s: Seq<u8>, p: Seq<u8>) -> bool {
    s.len() >= p.len() && s.subrange(0, p.len() as int) == p
}

/// `s` ends with `q`.
pub open spec fn ends_with(s: Seq<u8>, q: Seq<u8>) -> bool {
    s.len() >= q.len() && s.subrange(s.len() - q.len(), s.len() as int) == q
}

/// The modules VVAC leaves empty in the Verilog sources.
pub open spec fn empty_instance_modules() -> Seq<Seq<u8>> {
    seq![
        encode_utf8("IntSyncCrossingSource_n1x1_Registered"@),
        encode_utf8("NullIntSource"@),
        encode_utf8("IntXbar_i0_o0"@),
        encode_utf8("SourceX"@),
        encode_utf8("Queue1_SourceXRequest"@),
    ]
}

/// A line that instantiates an empty module with no ports: trimmed, it
/// starts with the module's name and a space and ends with `();`.
pub open spec fn is_empty_instantiation(line: Seq<u8>) -> bool {
    let t = trim(line);
    ends_with(t, encode_utf8("();"@)) && exists|k: int|
        0 <= k < 5 && starts_with(t, #[trigger] empty_instance_modules()[k] + seq![32u8])
}

/// The lines that are kept.
pub open spec fn kept_lines(ls: Seq<Seq<u8>>) -> Seq<Seq<u8>>
    decreases ls.len(),
{
    if ls.len() == 0 {
        Seq::empty()
    } else if is_empty_instantiation(ls.last()) {
        kept_lines(ls.drop_last())
    } else {
        kept_lines(ls.drop_last()).push(ls.last())
    }
}

/// Length of the whitespace character that starts at `s[i..]`, or 0.
pub fn space_len_at(s: &[u8], i: usize) -> (r: usize)
    requires
        i <= s@.len(),
    ensures
        r == leading_space_len(s@.subrange(i as int, s@.len() as int)),
        r <= s@.len() - i,
{
    let ghost t = s@.subrange(i as int, s@.len() as int);
    let n = s.len() - i;
    if n >= 1 && (s[i] == 32 || (9 <= s[i] && s[i] <= 13)) {
        assert(t[0] == s@[i as int]);
        1
    } else if n >= 2 && s[i] == 0xC2 && (s[i + 1] == 0x85 || s[i + 1] == 0xA0) {
        assert(t[0] == s@[i as int] && t[1] == s@[i + 1]);
        2
    } else if n >= 3 && ((s[i] == 0xE1 && s[i + 1] == 0x9A && s[i + 2] == 0x80) || (s[i] == 0xE2
        && s[i + 1] == 0x80 && ((0x80 <= s[i + 2] && s[i + 2] <= 0x8A) || s[i + 2] == 0xA8 || s[i
        + 2] == 0xA9 || s[i + 2] == 0xAF)) || (s[i] == 0xE2 && s[i + 1] == 0x81 && s[i + 2] == 0x9F)
        || (s[i] == 0xE3 && s[i + 1] == 0x80 && s[i + 2] == 0x80)) {
        assert(t[0] == s@[i as int] && t[1] == s@[i + 1] && t[2] == s@[i + 2]);
        3
    } else {
        proof {
            if n >= 1 {
                assert(t[0] == s@[i as int]);
            }
            if n >= 2 {
                assert(t[1] == s@[i + 1]);
            }
            if n >= 3 {
                assert(t[2] == s@[i + 2]);
            }
        }
        0
    }
}

/// Length of the whitespace character that ends `s[a..b]`, or 0.
fn space_len_before(s: &[u8], a: usize, b: usize) -> (r: usize)
    requires
        a <= b <= s@.len(),
    ensures
        r == trailing_space_len(s@.subrange(a as int, b as int)),
        r <= b - a,
{
    let ghost t = s@.subrange(a as int, b as int);
    let n = b - a;
    if n >= 1 && (s[b - 1] == 32 || (9 <= s[b - 1] && s[b - 1] <= 13)) {
        assert(t[n - 1] == s@[b - 1]);
        1
    } else if n >= 2 && s[b - 2] == 0xC2 && (s[b - 1] == 0x85 || s[b - 1] == 0xA0) {
        assert(t[n - 1] == s@[b - 1] && t[n - 2] == s@[b - 2]);
        2
    } else if n >= 3 && ((s[b - 3] == 0xE1 && s[b - 2] == 0x9A && s[b - 1] == 0x80) || (s[b - 3]
        == 0xE2 && s[b - 2] == 0x80 && ((0x80 <= s[b - 1] && s[b - 1] <= 0x8A) || s[b - 1] == 0xA8
        || s[b - 1] == 0xA9 || s[b - 1] == 0xAF)) || (s[b - 3] == 0xE2 && s[b - 2] == 0x81 && s[b
        - 1] == 0x9F) || (s[b - 3] == 0xE3 && s[b - 2] == 0x80 && s[b - 1] == 0x80)) {
        assert(t[n - 1] == s@[b - 1] && t[n - 2] == s@[b - 2] && t[n - 3] == s@[b - 3]);
        3
    } else {
        proof {
            if n >= 1 {
                assert(t[n - 1] == s@[b - 1]);
            }
            if n >= 2 {
                assert(t[n - 2] == s@[b - 2]);
            }
            if n >= 3 {
                assert(t[n - 3] == s@[b - 3]);
            }
        }
        0
    }
}

/// Offset of the first byte of `s[from..]` that does not begin a whitespace
/// character.
pub fn skip_spaces(s: &[u8], from: usize) -> (r: usize)
    requires
        from <= s@.len(),
    ensures
        from <= r <= s@.len(),
        s@.subrange(r as int, s@.len() as int) == trim_start(s@.subrange(from as int, s@.len() as int)),
{
    let len = s.len();
    let ghost whole = s@.subrange(from as int, len as int);
    let mut a: usize = from;
    let mut k: usize = space_len_at(s, a);
    while k > 0
        invariant
            from <= a <= len == s@.len(),
            k == leading_space_len(s@.subrange(a as int, len as int)),
            k <= len - a,
            trim_start(s@.subrange(a as int, len as int)) == trim_start(whole),
        decreases len - a,
    {
        assert(s@.subrange(a as int, len as int).subrange(k as int, len - a) =~= s@.subrange(
            a + k,
            len as int,
        ));
        a = a + k;
        k = space_len_at(s, a);
    }
    a
}

/// Offsets of the first and past the last byte of `s` that whitespace
/// trimming keeps.
pub fn trim_bounds(s: &[u8]) -> (r: (usize, usize))
    ensures
        r.0 <= r.1 <= s@.len(),
        s@.subrange(r.0 as int, r.1 as int) == trim(s@),
{
    assert(s@.subrange(0, s@.len() as int) =~= s@);
    let a = skip_spaces(s, 0);
    let mut b: usize = s.len();
    let mut k: usize = space_len_before(s, a, b);
    while k > 0
        invariant
            a <= b <= s@.len(),
            k == trailing_space_len(s@.subrange(a as int, b as int)),
            k <= b - a,
            trim_end(s@.subrange(a as int, b as int)) == trim(s@),
        decreases b,
    {
        assert(s@.subrange(a as int, b as int).subrange(0, b - a - k) =~= s@.subrange(
            a as int,
            b - k,
        ));
        b = b - k;
        k = space_len_before(s, a, b);
    }
    (a, b)
}

/// `t` starts with `p`.
pub fn has_prefix(t: &[u8], p: &[u8]) -> (r: bool)
    ensures
        r == starts_with(t@, p@),
{
    if t.len() < p.len() {
        return false;
    }
    let mut i: usize = 0;
    while i < p.len()
        invariant
            i <= p@.len() <= t@.len(),
            forall|k: int| 0 <= k < i ==> t@[k] == p@[k],
        decreases p@.len() - i,
    {
        if t[i] != p[i] {
            return false;
        }
        i = i + 1;
    }
    assert(t@.subrange(0, p@.len() as int) =~= p@);
    true
}

/// `t` ends with `q`.
fn has_suffix(t: &[u8], q: &[u8]) -> (r: bool)
    ensures
        r == ends_with(t@, q@),
{
    if t.len() < q.len() {
        return false;
    }
    let off = t.len() - q.len();
    let mut i: usize = 0;
    while i < q.len()
        invariant
            i <= q@.len(),
            off + q@.len() == t@.len(),
            t@.len() <= usize::MAX,
            forall|k: int| 0 <= k < i ==> t@[off + k] == q@[k],
        decreases q@.len() - i,
    {
        if t[off + i] != q[i] {
            assert(t@.subrange(off as int, t@.len() as int)[i as int] != q@[i as int]);
            return false;
        }
        i = i + 1;
    }
    assert(t@.subrange(off as int, t@.len() as int) =~= q@);
    true
}

/// `t` starts with `name` followed by a space.
fn starts_with_word(t: &[u8], name: &[u8]) -> (r: bool)
    ensures
        r == starts_with(t@, name@ + seq![32u8]),
{
    let r = t.len() > name.len() && has_prefix(t, name) && t[name.len()] == 32;
    proof {
        let p = name@ + seq![32u8];
        if r {
            assert(t@.subrange(0, p.len() as int) =~= p);
        }
        if starts_with(t@, p) {
            assert(t@.subrange(0, name@.len() as int) =~= t@.subrange(0, p.len() as int).subrange(
                0,
                name@.len() as int,
            ));
            assert(p.subrange(0, name@.len() as int) =~= name@);
            assert(t@[name@.len() as int] == t@.subrange(0, p.len() as int)[name@.len() as int]);
        }
    }
    r
}

/// Whether `line` instantiates an empty module with no ports.
pub fn empty_instantiation(line: &[u8]) -> (r: bool)
    ensures
        r == is_empty_instantiation(line@),
{
    let (a, b) = trim_bounds(line);
    let t = &line[a..b];
    if !has_suffix(t, "();".as_bytes()) {
        return false;
    }
    let m0 = starts_with_word(t, "IntSyncCrossingSource_n1x1_Registered".as_bytes());
    let m1 = starts_with_word(t, "NullIntSource".as_bytes());
    let m2 = starts_with_word(t, "IntXbar_i0_o0".as_bytes());
    let m3 = starts_with_word(t, "SourceX".as_bytes());
    let m4 = starts_with_word(t, "Queue1_SourceXRequest".as_bytes());
    proof {
        let names = empty_instance_modules();
        if m0 {
            assert(starts_with(t@, names[0] + seq![32u8]));
        }
        if m1 {
            assert(starts_with(t@, names[1] + seq![32u8]));
        }
        if m2 {
            assert(starts_with(t@, names[2] + seq![32u8]));
        }
        if m3 {
            assert(starts_with(t@, names[3] + seq![32u8]));
        }
        if m4 {
            assert(starts_with(t@, names[4] + seq![32u8]));
        }
    }
    m0 || m1 || m2 || m3 || m4
}

/// Drops the lines of a Verilog source that instantiate an empty module
/// with no ports; the kept lines are joined with newlines. Returns the new
/// text and the number of lines dropped.
pub fn remove_empty_module_instantiations(content: &[u8]) -> (r: (Vec<u8>, usize))
    ensures
        r.0@ == join_lines(kept_lines(spec_lines(content@))),
        r.1 == spec_lines(content@).len() - kept_lines(spec_lines(content@)).len(),
{
    let len = content.len();
    let mut out: Vec<u8> = Vec::new();
    let mut removed: usize = 0;
    let mut pos: usize = 0;
    let mut any_kept = false;
    let ghost mut done: Seq<Seq<u8>> = Seq::empty();
    proof {
        assert(content@.subrange(0, len as int) =~= content@);
        lemma_kept_len(done);
    }
    while pos < len
        invariant
            pos <= len == content@.len(),
            done + spec_lines(content@.subrange(pos as int, len as int)) == spec_lines(content@),
            out@ == join_lines(kept_lines(done)),
            removed == done.len() - kept_lines(done).len(),
            kept_lines(done).len() <= done.len() <= pos,
            any_kept == (kept_lines(done).len() > 0),
        decreases len - pos,
    {
        let mut j: usize = pos;
        while j < len && content[j] != 10
            invariant
                pos <= j <= len == content@.len(),
                forall|k: int| pos <= k < j ==> content@[k] != 10,
            decreases len - j,
        {
            j = j + 1;
        }
        let ghost rest = content@.subrange(pos as int, len as int);
        proof {
            assert forall|k: int| 0 <= k < j - pos implies rest[k] != 10 by {
                assert(rest[k] == content@[pos + k]);
            }
            if j < len {
                assert(rest[j - pos] == content@[j as int]);
            }
            lemma_first_newline(rest, j - pos);
        }
        let end: usize = if j < len && j > pos && content[j - 1] == 13 {
            j - 1
        } else {
            j
        };
        let line = &content[pos..end];
        let ghost next: usize = if j < len {
            (j + 1) as usize
        } else {
            len
        };
        proof {
            if j < len {
                assert(rest.subrange(0, j - pos) =~= content@.subrange(pos as int, j as int));
                assert(rest.subrange(j - pos + 1, rest.len() as int) =~= content@.subrange(j + 1, len as int));
                if j > pos && content@[j - 1] == 13 {
                    assert(content@.subrange(pos as int, j as int).drop_last() =~= line@);
                } else {
                    assert(content@.subrange(pos as int, j as int) =~= line@);
                }
                assert(spec_lines(rest) == seq![line@] + spec_lines(content@.subrange(next as int, len as int)));
            } else {
                assert(rest =~= line@);
                assert(content@.subrange(len as int, len as int) =~= Seq::<u8>::empty());
                assert(spec_lines(rest) == seq![line@]);
            }
            assert(done.push(line@) + spec_lines(content@.subrange(next as int, len as int)) =~= done + spec_lines(
                rest,
            ));
            assert(done.push(line@).drop_last() =~= done);
        }
        if empty_instantiation(line) {
            proof {
                lemma_kept_len(done);
            }
            removed = removed + 1;
        } else {
            proof {
                lemma_kept_len(done);
            }
            if any_kept {
                out.push(10u8);
            }
            push_all(&mut out, line);
            any_kept = true;
            proof {
                let k = kept_lines(done);
                let k2 = k.push(line@);
                assert(k2.drop_last() =~= k);
                if k.len() == 0 {
                    assert(out@ =~= line@);
                } else {
                    assert(out@ =~= join_lines(k) + seq![10u8] + line@);
                }
            }
        }
        proof {
            done = done.push(line@);
        }
        pos = if j < len {
            j + 1
        } else {
            len
        };
    }
    proof {
        assert(content@.subrange(len as int, len as int) =~= Seq::<u8>::empty());
        assert(done =~= spec_lines(content@));
    }
    (out, removed)
}

/// Kept lines are never more than the lines.
proof fn lemma_kept_len(ls: Seq<Seq<u8>>)
    ensures
        kept_lines(ls).len() <= ls.len(),
    decreases ls.len(),
{
    if ls.len() > 0 {
        lemma_kept_len(ls.drop_last());
    }
}

// ---------------------------------------------------------------------------
// Filelist
// ---------------------------------------------------------------------------

/// `needle` occurs in `hay`.
pub open spec fn has_substring(hay: Seq<u8>, needle: Seq<u8>) -> bool {
    exists|i: int| 0 <= i && i + needle.len() <= hay.len() && #[trigger] hay.subrange(i, i + needle.len()) == needle
}

/// Whether `needle` occurs in `hay`.
pub fn contains_bytes(hay: &[u8], needle: &[u8]) -> (r: bool)
    ensures
        r == has_substring(hay@, needle@),
{
    if needle.len() > hay.len() {
        return false;
    }
    if needle.len() == 0 {
        assert(hay@.subrange(0int, 0int + needle@.len()) =~= needle@);
        return true;
    }
    let last = hay.len() - needle.len();
    let mut i: usize = 0;
    while i < last + 1
        invariant
            last + needle@.len() == hay@.len(),
            hay@.len() <= usize::MAX,
            needle@.len() > 0,
            i <= last + 1,
            forall|j: int| 0 <= j < i ==> #[trigger] hay@.subrange(j, j + needle@.len()) != needle@,
        decreases last + 1 - i,
    {
        let window = &hay[i..hay.len()];
        if has_prefix(window, needle) {
            assert(hay@.subrange(i as int, i + needle@.len()) =~= window@.subrange(0, needle@.len() as int));
            return true;
        }
        assert(hay@.subrange(i as int, i + needle@.len()) =~= window@.subrange(0, needle@.len() as int));
        i = i + 1;
    }
    assert forall|j: int| 0 <= j && j + needle@.len() <= hay@.len() implies #[trigger] hay@.subrange(
        j,
        j + needle@.len(),
    ) != needle@ by {
        assert(j <= last);
    }
    false
}

/// The files of the modules VVAC leaves empty, which its filelist needs.
pub open spec fn empty_module_files() -> Seq<Seq<u8>> {
    seq![
        encode_utf8("work_DebugCustomXbar.sv"@),
        encode_utf8("work_IntSyncCrossingSource_n1x1_Registered.sv"@),
        encode_utf8("work_NullIntSource.sv"@),
        encode_utf8("work_SourceX.sv"@),
        encode_utf8("work_Queue1_SourceXRequest.sv"@),
    ]
}

/// File `k` of the empty modules' files.
pub fn empty_module_file(k: usize) -> (r: &'static str)
    requires
        k < 5,
    ensures
        encode_utf8(r@) == empty_module_files()[k as int],
{
    if k == 0 {
        "work_DebugCustomXbar.sv"
    } else if k == 1 {
        "work_IntSyncCrossingSource_n1x1_Registered.sv"
    } else if k == 2 {
        "work_NullIntSource.sv"
    } else if k == 3 {
        "work_SourceX.sv"
    } else {
        "work_Queue1_SourceXRequest.sv"
    }
}

/// The filelist lines to add among the first `k` files: `./<file>` for
/// each file that exists (`present`) and that the filelist does not name.
pub open spec fn added_entries(content: Seq<u8>, present: Seq<bool>, k: int) -> Seq<Seq<u8>>
    decreases k,
{
    if k <= 0 {
        Seq::empty()
    } else {
        let prev = added_entries(content, present, k - 1);
        let file = empty_module_files()[k - 1];
        if present[k - 1] && !has_substring(content, file) {
            prev.push(seq![46u8, 47u8] + file)
        } else {
            prev
        }
    }
}

/// The filelist with the missing files added, each on a line of its own,
/// after a newline that ends the old text.
pub open spec fn spec_updated_filelist(content: Seq<u8>, present: Seq<bool>) -> Seq<u8> {
    let sep = if content.len() > 0 && content.last() == 10 {
        Seq::<u8>::empty()
    } else {
        seq![10u8]
    };
    content + sep + join_lines(added_entries(content, present, 5)) + seq![10u8]
}

/// Adds the files of the empty modules that exist (`present[k]` for file
/// `k`) and that the filelist `content` does not name. Returns the new
/// filelist and the number of files added, or `None` when none is
/// missing.
pub fn add_missing_empty_modules(content: &[u8], present: &Vec<bool>) -> (r: Option<(Vec<u8>, usize)>)
    requires
        present@.len() == 5,
    ensures
        added_entries(content@, present@, 5).len() == 0 ==> r is None,
        added_entries(content@, present@, 5).len() > 0 ==> (r matches Some((text, n)) && text@
            == spec_updated_filelist(content@, present@) && n == added_entries(content@, present@, 5).len()),
{
    let mut lines: Vec<u8> = Vec::new();
    let mut added: usize = 0;
    let mut k: usize = 0;
    while k < 5
        invariant
            k <= 5,
            present@.len() == 5,
            added == added_entries(content@, present@, k as int).len(),
            lines@ == join_lines(added_entries(content@, present@, k as int)),
            added <= k,
        decreases 5 - k,
    {
        let file = empty_module_file(k).as_bytes();
        let ghost prev = added_entries(content@, present@, k as int);
        if present[k] && !contains_bytes(content, file) {
            if added > 0 {
                lines.push(10u8);
            }
            lines.push(46u8);
            lines.push(47u8);
            push_all(&mut lines, file);
            proof {
                let entry = seq![46u8, 47u8] + empty_module_files()[k as int];
                let next = prev.push(entry);
                assert(next.drop_last() =~= prev);
                if prev.len() == 0 {
                    assert(lines@ =~= entry);
                } else {
                    assert(lines@ =~= join_lines(prev) + seq![10u8] + entry);
                }
            }
            added = added + 1;
        }
        k = k + 1;
    }
    if added == 0 {
        return None;
    }
    let mut out: Vec<u8> = Vec::new();
    push_all(&mut out, content);
    if !(content.len() > 0 && content[content.len() - 1] == 10) {
        out.push(10u8);
    }
    push_all(&mut out, lines.as_slice());
    out.push(10u8);
    proof {
        let sep = if content@.len() > 0 && content@.last() == 10 {
            Seq::<u8>::empty()
        } else {
            seq![10u8]
        };
        assert(out@ =~= content@ + sep + lines@ + seq![10u8]);
    }
    Some((out, added))
}

} // verus!
