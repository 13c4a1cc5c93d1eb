//! The inference API service: the models it offers, how a request's head
//! is read, and which answer or inference each request gets.

use vstd::prelude::*;
use serde_json::Value;
use crate::text::{parse_unsigned, push_all, string_from_utf8_lossy, utf8_lossy};
use crate::vvac::{has_prefix, has_substring, leading_space_len, skip_spaces, space_len_at, trim, trim_bounds, trim_start};
use crate::text::spec_parse_unsigned;
use vstd::utf8::encode_utf8;

verus! {

/// A JSON value, carried through as it is.
#[verifier::external_type_specification]
#[verifier::external_body]
pub struct ExJsonValue(serde_json::Value);

/// `text` parsed by `serde_json::from_str`; `Value::Null` where it is not
/// JSON.
#[verifier::external_body]
fn json_value(text: &str) -> Value {
    serde_json::from_str(text).unwrap_or(Value::Null)
}

/// A model the service offers: what it does and the shapes of its input
/// and output.
#[derive(Debug)]
pub struct ModelCapability {
    pub id: String,
    pub version: String,
    pub task: String,
    pub input: Value,
    pub output: Value,
    pub streaming: bool,
}

/// The models the service offers.
#[derive(Debug)]
pub struct ModelRegistry {
    pub models: Vec<ModelCapability>,
}

/// The ids of the models the service offers by default, in order.
pub open spec fn default_model_ids() -> Seq<Seq<char>> {
    seq!["bb-lenet"@, "bb-mobilenetv3"@, "bb-resnet18"@, "bb-yolo26n"@, "bb-qwen3-0.6b"@]
}

/// Whether the registry offers a model with id `model`.
pub open spec fn offers(models: Seq<ModelCapability>, model: Seq<char>) -> bool {
    exists|i: int| 0 <= i < models.len() && #[trigger] models[i].id@ == model
}

/// A model of version 0.1.0 with the given id, task and schemas.
fn capability(id: &str, task: &str, input: &str, output: &str, streaming: bool) -> (r: ModelCapability)
    ensures
        r.id@ == id@,
        r.version@ == "0.1.0"@,
        r.task@ == task@,
        r.streaming == streaming,
{
    ModelCapability {
        id: id.to_owned(),
        version: "0.1.0".to_owned(),
        task: task.to_owned(),
        input: json_value(input),
        output: json_value(output),
        streaming,
    }
}

impl ModelRegistry {
    /// A registry offering `models`.
    pub fn new(models: Vec<ModelCapability>) -> (r: ModelRegistry)
        ensures
            r.models@ == models@,
    {
        ModelRegistry { models }
    }

    /// The models offered.
    pub fn models(&self) -> (r: &[ModelCapability])
        ensures
            r@ == self.models@,
    {
        self.models.as_slice()
    }

    /// Whether a model with id `model` is offered.
    pub fn contains(&self, model: &str) -> (r: bool)
        ensures
            r == offers(self.models@, model@),
    {
        let wanted = model.to_owned();
        let mut i: usize = 0;
        while i < self.models.len()
            invariant
                i <= self.models@.len(),
                wanted@ == model@,
                forall|j: int| 0 <= j < i ==> self.models@[j].id@ != model@,
            decreases self.models@.len() - i,
        {
            if self.models[i].id == wanted {
                return true;
            }
            i = i + 1;
        }
        false
    }

    /// The models offered by default: LeNet, MobileNetV3 and ResNet-18 for
    /// image classification, YOLO26n for object detection, and Qwen3-0.6B
    /// for streamed text generation.
    pub fn default_registry() -> (r: ModelRegistry)
        ensures
            r.models@.len() == 5,
            forall|i: int| 0 <= i < 5 ==> #[trigger] r.models@[i].id@ == default_model_ids()[i],
            forall|i: int| 0 <= i < 5 ==> #[trigger] r.models@[i].version@ == "0.1.0"@,
            forall|i: int| 0 <= i < 3 ==> #[trigger] r.models@[i].task@ == "image-classification"@,
            r.models@[3].task@ == "object-detection"@,
            r.models@[4].task@ == "text-generation"@,
            forall|i: int| 0 <= i < 4 ==> !(#[trigger] r.models@[i].streaming),
            r.models@[4].streaming,
    {
        let mut models: Vec<ModelCapability> = Vec::new();
        models.push(
            capability(
                "bb-lenet",
                "image-classification",
                "{\"type\": \"image\", \"formats\": [\"png\", \"jpeg\", \"bmp\"], \"shape\": [1, 1, 28, 28]}",
                "{\"type\": \"topk\", \"max_k\": 10}",
                false,
            ),
        );
        models.push(
            capability(
                "bb-mobilenetv3",
                "image-classification",
                "{\"type\": \"image\", \"formats\": [\"png\", \"jpeg\", \"bmp\"], \"shape\": [1, 3, 224, 224]}",
                "{\"type\": \"topk\", \"max_k\": 1000}",
                false,
            ),
        );
        models.push(
            capability(
                "bb-resnet18",
                "image-classification",
                "{\"type\": \"image\", \"formats\": [\"png\", \"jpeg\", \"bmp\"], \"shape\": [1, 3, 224, 224]}",
                "{\"type\": \"topk\", \"max_k\": 1000}",
                false,
            ),
        );
        models.push(
            capability(
                "bb-yolo26n",
                "object-detection",
                "{\"type\": \"image\", \"formats\": [\"png\", \"jpeg\", \"bmp\"]}",
                "{\"type\": \"detections\", \"box_format\": \"xyxy\"}",
                false,
            ),
        );
        models.push(
            capability(
                "bb-qwen3-0.6b",
                "text-generation",
                "{\"type\": \"messages\", \"max_context_tokens\": 4096}",
                "{\"type\": \"text\", \"stream_format\": \"sse\"}",
                true,
            ),
        );
        ModelRegistry { models }
    }
}

// ---------------------------------------------------------------------------
// Request heads
// ---------------------------------------------------------------------------

/// Offset of the first occurrence of `needle` in `hay`.
#[verifier::opaque]
pub open spec fn first_occurrence(hay: Seq<u8>, needle: Seq<u8>) -> Option<int> {
    if has_substring(hay, needle) {
        Some(
            choose|i: int|
                #![trigger hay.subrange(i, i + needle.len())]
                0 <= i && i + needle.len() <= hay.len() && hay.subrange(i, i + needle.len()) == needle
                    && forall|j: int| 0 <= j < i ==> #[trigger] hay.subrange(j, j + needle.len()) != needle,
        )
    } else {
        None
    }
}

/// Offset of the first occurrence of `needle` in `haystack`, for a
/// non-empty needle.
pub fn find_bytes(haystack: &[u8], needle: &[u8]) -> (r: Option<usize>)
    requires
        needle@.len() > 0,
    ensures
        match r {
            Some(i) => first_occurrence(haystack@, needle@) == Some(i as int) && i + needle@.len()
                <= haystack@.len(),
            None => first_occurrence(haystack@, needle@) is None,
        },
{
    if needle.len() > haystack.len() {
        proof {
            reveal(first_occurrence);
            assert(!has_substring(haystack@, needle@));
        }
        return None;
    }
    let last = haystack.len() - needle.len();
    let mut i: usize = 0;
    while i < last + 1
        invariant
            last + needle@.len() == haystack@.len(),
            haystack@.len() <= usize::MAX,
            needle@.len() > 0,
            i <= last + 1,
            forall|j: int| 0 <= j < i ==> #[trigger] haystack@.subrange(j, j + needle@.len()) != needle@,
        decreases last + 1 - i,
    {
        let window = &haystack[i..haystack.len()];
        assert(haystack@.subrange(i as int, i + needle@.len()) =~= window@.subrange(0, needle@.len() as int));
        if has_prefix(window, needle) {
            proof {
                reveal(first_occurrence);
                let h = haystack@;
                let n = needle@;
                let w = i as int;
                assert(0 <= w && w + n.len() <= h.len() && h.subrange(w, w + n.len()) == n);
                assert(has_substring(h, n));
                let c = choose|k: int|
                    #![trigger h.subrange(k, k + n.len())]
                    0 <= k && k + n.len() <= h.len() && h.subrange(k, k + n.len()) == n && forall|j: int|
                        0 <= j < k ==> #[trigger] h.subrange(j, j + n.len()) != n;
                assert(0 <= w && w + n.len() <= h.len() && h.subrange(w, w + n.len()) == n && forall|j: int|
                    0 <= j < w ==> #[trigger] h.subrange(j, j + n.len()) != n);
                if c < w {
                    assert(h.subrange(c, c + n.len()) != n);
                } else if c > w {
                    assert(h.subrange(w, w + n.len()) != n);
                }
            }
            return Some(i);
        }
        i = i + 1;
    }
    proof {
        reveal(first_occurrence);
        assert forall|j: int| 0 <= j && j + needle@.len() <= haystack@.len() implies #[trigger] haystack@.subrange(
            j,
            j + needle@.len(),
        ) != needle@ by {
            assert(j <= last);
        }
    }
    None
}

/// Offset of the first `\r\n` of `s`, or its length when it has none.
pub open spec fn first_crlf(s: Seq<u8>) -> nat
    decreases s.len(),
{
    if s.len() < 2 {
        s.len()
    } else if s[0] == 13 && s[1] == 10 {
        0
    } else {
        1 + first_crlf(s.subrange(1, s.len() as int))
    }
}

/// `s` split at each `\r\n`, as `str::split("\r\n")` splits it.
pub open spec fn split_crlf(s: Seq<u8>) -> Seq<Seq<u8>>
    decreases s.len(),
{
    let i = first_crlf(s);
    if i + 2 > s.len() {
        seq![s]
    } else {
        seq![s.subrange(0, i as int)] + split_crlf(s.subrange(i + 2 as int, s.len() as int))
    }
}

/// Offset of the first whitespace character of `s`, or its length.
pub open spec fn first_space(s: Seq<u8>) -> nat
    decreases s.len(),
{
    if s.len() == 0 {
        0
    } else if leading_space_len(s) > 0 {
        0
    } else {
        1 + first_space(s.subrange(1, s.len() as int))
    }
}

/// Offset of the first `:` of `s`, or its length.
pub open spec fn first_colon(s: Seq<u8>) -> nat
    decreases s.len(),
{
    if s.len() == 0 {
        0
    } else if s[0] == 58 {
        0
    } else {
        1 + first_colon(s.subrange(1, s.len() as int))
    }
}

/// The first whitespace-separated word of `s` (empty when there is none)
/// and what follows it.
pub open spec fn first_word(s: Seq<u8>) -> (Seq<u8>, Seq<u8>) {
    let a = trim_start(s);
    let n = first_space(a);
    (a.subrange(0, n as int), a.subrange(n as int, a.len() as int))
}

/// `c` in ASCII lower case.
pub open spec fn ascii_lower(c: u8) -> u8 {
    if 65 <= c <= 90 {
        (c + 32) as u8
    } else {
        c
    }
}

/// `a` and `b` are equal ignoring ASCII case.
pub open spec fn eq_ignore_ascii_case(a: Seq<u8>, b: Seq<u8>) -> bool {
    a.len() == b.len() && forall|i: int| 0 <= i < a.len() ==> ascii_lower(#[trigger] a[i]) == ascii_lower(b[i])
}

/// What a request's head gives: method, path, body length and the
/// `Authorization` header.
#[derive(Debug)]
pub struct RequestHead {
    pub method: Vec<u8>,
    pub path: Vec<u8>,
    pub content_length: usize,
    pub authorization: Vec<u8>,
}

/// Body length and authorization after the header lines `lines`: for each
/// line with a `:`, a `Content-Length` name sets the length (0 where the
/// value is no number) and an `Authorization` name sets the
/// authorization, later lines winning.
pub open spec fn header_fields(lines: Seq<Seq<u8>>) -> (nat, Seq<u8>)
    decreases lines.len(),
{
    if lines.len() == 0 {
        (0, Seq::empty())
    } else {
        header_step(header_fields(lines.drop_last()), lines.last())
    }
}

/// Body length and authorization after one more header line.
pub open spec fn header_step(fields: (nat, Seq<u8>), line: Seq<u8>) -> (nat, Seq<u8>) {
    let (len, auth) = fields;
    let c = first_colon(line);
    if c >= line.len() {
        (len, auth)
    } else {
        let name = line.subrange(0, c as int);
        let value = trim(line.subrange(c + 1 as int, line.len() as int));
        let len2 = if eq_ignore_ascii_case(name, encode_utf8("content-length"@)) {
            match spec_parse_unsigned(value, usize::MAX as nat) {
                Some(v) => v,
                None => 0,
            }
        } else {
            len
        };
        let auth2 = if eq_ignore_ascii_case(name, encode_utf8("authorization"@)) {
            value
        } else {
            auth
        };
        (len2, auth2)
    }
}

/// Whether the head `head` (its text up to and with the blank line) gives
/// `r`: method and path are the first two words of the first line, the
/// other fields come from the lines after it.
pub open spec fn reads_head(head: Seq<u8>, r: RequestHead) -> bool {
    let lines = split_crlf(head);
    let (method, rest) = first_word(lines[0]);
    let (path, _) = first_word(rest);
    let (len, auth) = header_fields(lines.subrange(1, lines.len() as int));
    &&& r.method@ == method
    &&& r.path@ == path
    &&& r.content_length == len
    &&& r.authorization@ == auth
}

/// The first `\r\n` of `s` is at `n` when there is none before `n` and
/// one at `n`; there is none at all when none starts before `n` and `n`
/// leaves no room for one.
proof fn lemma_first_crlf(s: Seq<u8>, n: int)
    requires
        0 <= n <= s.len(),
        forall|k: int| 0 <= k < n && k + 1 < s.len() ==> !(#[trigger] s[k] == 13 && s[k + 1] == 10),
        (n + 1 < s.len() && s[n] == 13 && s[n + 1] == 10) || n + 1 >= s.len(),
    ensures
        (n + 1 < s.len() && s[n] == 13 && s[n + 1] == 10) ==> first_crlf(s) == n,
        !(n + 1 < s.len() && s[n] == 13 && s[n + 1] == 10) ==> first_crlf(s) == s.len(),
    decreases n,
{
    if s.len() >= 2 && n > 0 {
        let t = s.subrange(1, s.len() as int);
        assert forall|k: int| 0 <= k < n - 1 && k + 1 < t.len() implies !(#[trigger] t[k] == 13 && t[k + 1] == 10) by {
            assert(t[k] == s[k + 1] && t[k + 1] == s[k + 2]);
        }
        if n < s.len() {
            assert(t[n - 1] == s[n]);
        }
        if n + 1 < s.len() {
            assert(t[n] == s[n + 1]);
        }
        lemma_first_crlf(t, n - 1);
        assert(!(s[0] == 13 && s[1] == 10));
    }
}

/// No whitespace character starts before `n` in `s`, and one starts at `n`
/// unless `n` is the end.
proof fn lemma_first_space(s: Seq<u8>, n: int)
    requires
        0 <= n <= s.len(),
        forall|k: int| 0 <= k < n ==> leading_space_len(#[trigger] s.subrange(k, s.len() as int)) == 0,
        n < s.len() ==> leading_space_len(s.subrange(n, s.len() as int)) > 0,
    ensures
        first_space(s) == n,
    decreases n,
{
    if n > 0 {
        let t = s.subrange(1, s.len() as int);
        assert(s.subrange(0, s.len() as int) =~= s);
        assert forall|k: int| 0 <= k < n - 1 implies leading_space_len(#[trigger] t.subrange(k, t.len() as int)) == 0 by {
            assert(t.subrange(k, t.len() as int) =~= s.subrange(k + 1, s.len() as int));
        }
        if n < s.len() {
            assert(t.subrange(n - 1, t.len() as int) =~= s.subrange(n, s.len() as int));
        }
        lemma_first_space(t, n - 1);
    } else {
        assert(s.subrange(0, s.len() as int) =~= s);
    }
}

/// The first colon of `s` is at `n`.
proof fn lemma_first_colon(s: Seq<u8>, n: int)
    requires
        0 <= n <= s.len(),
        forall|k: int| 0 <= k < n ==> s[k] != 58,
        n < s.len() ==> s[n] == 58,
    ensures
        first_colon(s) == n,
    decreases n,
{
    if n > 0 {
        let t = s.subrange(1, s.len() as int);
        assert forall|k: int| 0 <= k < n - 1 implies t[k] != 58 by {
            assert(t[k] == s[k + 1]);
        }
        if n < s.len() {
            assert(t[n - 1] == s[n]);
        }
        lemma_first_colon(t, n - 1);
    }
}

/// Offsets of the first word of `s[from..]` and of its end.
fn word_bounds(s: &[u8], from: usize) -> (r: (usize, usize))
    requires
        from <= s@.len(),
    ensures
        from <= r.0 <= r.1 <= s@.len(),
        s@.subrange(r.0 as int, r.1 as int) == first_word(s@.subrange(from as int, s@.len() as int)).0,
        s@.subrange(r.1 as int, s@.len() as int) == first_word(s@.subrange(from as int, s@.len() as int)).1,
{
    let len = s.len();
    let a = skip_spaces(s, from);
    let ghost t = s@.subrange(a as int, len as int);
    let mut b: usize = a;
    let mut k: usize = if b < len {
        space_len_at(s, b)
    } else {
        0
    };
    while b < len && k == 0
        invariant
            a <= b <= len == s@.len(),
            b < len ==> k == leading_space_len(s@.subrange(b as int, len as int)),
            forall|j: int| a <= j < b ==> leading_space_len(#[trigger] s@.subrange(j, len as int)) == 0,
        decreases len - b,
    {
        b = b + 1;
        if b < len {
            k = space_len_at(s, b);
        }
    }
    proof {
        assert forall|j: int| 0 <= j < b - a implies leading_space_len(#[trigger] t.subrange(j, t.len() as int)) == 0 by {
            assert(t.subrange(j, t.len() as int) =~= s@.subrange(a + j, len as int));
        }
        if b < len {
            assert(t.subrange(b - a, t.len() as int) =~= s@.subrange(b as int, len as int));
        }
        lemma_first_space(t, b - a);
        assert(t.subrange(0, b - a) =~= s@.subrange(a as int, b as int));
        assert(t.subrange(b - a, t.len() as int) =~= s@.subrange(b as int, len as int));
    }
    (a, b)
}

/// Whether `a` equals `b` ignoring ASCII case.
fn eq_ascii_nocase(a: &[u8], b: &[u8]) -> (r: bool)
    ensures
        r == eq_ignore_ascii_case(a@, b@),
{
    if a.len() != b.len() {
        return false;
    }
    let mut i: usize = 0;
    while i < a.len()
        invariant
            i <= a@.len() == b@.len(),
            forall|k: int| 0 <= k < i ==> ascii_lower(#[trigger] a@[k]) == ascii_lower(b@[k]),
        decreases a@.len() - i,
    {
        let x = a[i];
        let y = b[i];
        let lx: u8 = if 65 <= x && x <= 90 {
            x + 32
        } else {
            x
        };
        let ly: u8 = if 65 <= y && y <= 90 {
            y + 32
        } else {
            y
        };
        if lx != ly {
            return false;
        }
        i = i + 1;
    }
    true
}

/// The method and path of a request line: its first two words.
fn request_line_words(line: &[u8]) -> (r: (Vec<u8>, Vec<u8>))
    ensures
        r.0@ == first_word(line@).0,
        r.1@ == first_word(first_word(line@).1).0,
{
    let (m0, m1) = word_bounds(line, 0);
    let (p0, p1) = word_bounds(line, m1);
    assert(line@.subrange(0, line@.len() as int) =~= line@);
    (vstd::slice::slice_to_vec(&line[m0..m1]), vstd::slice::slice_to_vec(&line[p0..p1]))
}

/// Applies one header line to the body length and authorization read so
/// far.
fn apply_header_line(line: &[u8], content_length: usize, authorization: Vec<u8>) -> (r: (usize, Vec<u8>))
    ensures
        (r.0 as nat, r.1@) == header_step((content_length as nat, authorization@), line@),
{
    let plen = line.len();
    let mut c: usize = 0;
    while c < plen && line[c] != 58
        invariant
            c <= plen == line@.len(),
            forall|k: int| 0 <= k < c ==> line@[k] != 58,
        decreases plen - c,
    {
        c = c + 1;
    }
    proof {
        lemma_first_colon(line@, c as int);
    }
    if c == plen {
        return (content_length, authorization);
    }
    let name = &line[0..c];
    let raw = &line[c + 1..plen];
    let (v0, v1) = trim_bounds(raw);
    let value = &raw[v0..v1];
    let mut len = content_length;
    let mut auth = authorization;
    if eq_ascii_nocase(name, "content-length".as_bytes()) {
        len = match parse_unsigned(value, usize::MAX as u64) {
            Some(v) => v as usize,
            None => 0,
        };
    }
    if eq_ascii_nocase(name, "authorization".as_bytes()) {
        auth = vstd::slice::slice_to_vec(value);
    }
    (len, auth)
}

/// Reads a request's head: its text up to and with the blank line that
/// ends it, taken as UTF-8 with invalid bytes replaced.
pub fn parse_request_head(head: &[u8]) -> (r: RequestHead)
    ensures
        reads_head(utf8_lossy(head@), r),
{
    let text = string_from_utf8_lossy(head);
    let t = text.as_str().as_bytes();
    let len = t.len();
    let mut method: Vec<u8> = Vec::new();
    let mut path: Vec<u8> = Vec::new();
    let mut content_length: usize = 0;
    let mut authorization: Vec<u8> = Vec::new();
    let mut pos: usize = 0;
    let mut finished = false;
    let mut first = true;
    let ghost mut done: Seq<Seq<u8>> = Seq::empty();
    assert(t@.subrange(0, len as int) =~= t@);
    while !finished
        invariant
            pos <= len == t@.len(),
            t@ == utf8_lossy(head@),
            !finished ==> done + split_crlf(t@.subrange(pos as int, len as int)) == split_crlf(t@),
            finished ==> done == split_crlf(t@),
            finished ==> done.len() >= 1,
            first == (done.len() == 0),
            first ==> content_length == 0 && authorization@ == Seq::<u8>::empty(),
            done.len() >= 1 ==> method@ == first_word(done[0]).0,
            done.len() >= 1 ==> path@ == first_word(first_word(done[0]).1).0,
            done.len() >= 1 ==> (content_length as nat, authorization@) == header_fields(
                done.subrange(1, done.len() as int),
            ),
        decreases 2 * (len - pos) + if finished {
            0int
        } else {
            1int
        },
    {
        let ghost rest = t@.subrange(pos as int, len as int);
        let mut j: usize = pos;
        while j < len && j + 1 < len && !(t[j] == 13 && t[j + 1] == 10)
            invariant
                pos <= j <= len == t@.len(),
                forall|k: int| pos <= k < j && k + 1 < len ==> !(#[trigger] t@[k] == 13 && t@[k + 1] == 10),
            decreases len - j,
        {
            j = j + 1;
        }
        let found = j < len && j + 1 < len;
        proof {
            assert forall|k: int| 0 <= k < j - pos && k + 1 < rest.len() implies !(#[trigger] rest[k] == 13
                && rest[k + 1] == 10) by {
                assert(rest[k] == t@[pos + k] && rest[k + 1] == t@[pos + k + 1]);
            }
            if found {
                assert(rest[j - pos] == t@[j as int] && rest[j - pos + 1] == t@[j + 1]);
            }
            lemma_first_crlf(rest, j - pos);
        }
        let end: usize = if found {
            j
        } else {
            len
        };
        let piece = &t[pos..end];
        proof {
            if found {
                assert(rest.subrange(0, j - pos) =~= piece@);
                assert(rest.subrange(j - pos + 2, rest.len() as int) =~= t@.subrange(j + 2, len as int));
                assert(split_crlf(rest) == seq![piece@] + split_crlf(t@.subrange(j + 2, len as int)));
                assert(done.push(piece@) + split_crlf(t@.subrange(j + 2, len as int)) =~= done + split_crlf(rest));
            } else {
                assert(rest =~= piece@);
                assert(split_crlf(rest) == seq![piece@]);
                assert(done.push(piece@) =~= done + split_crlf(rest));
            }
        }
        let ghost nd = done.push(piece@);
        if first {
            let (m, p) = request_line_words(piece);
            method = m;
            path = p;
            proof {
                assert(nd[0] == piece@);
                assert(nd.subrange(1, nd.len() as int) =~= Seq::<Seq<u8>>::empty());
                assert(header_fields(nd.subrange(1, nd.len() as int)) == (0nat, Seq::<u8>::empty()));
            }
        } else {
            let (l, a) = apply_header_line(piece, content_length, authorization);
            content_length = l;
            authorization = a;
            proof {
                assert(nd.subrange(1, nd.len() as int).drop_last() =~= done.subrange(1, done.len() as int));
                assert(nd.subrange(1, nd.len() as int).last() == piece@);
                assert(nd[0] == done[0]);
            }
        }
        proof {
            done = nd;
        }
        first = false;
        if found {
            pos = j + 2;
        } else {
            finished = true;
        }
    }
    RequestHead { method, path, content_length, authorization }
}

// ---------------------------------------------------------------------------
// Routing
// ---------------------------------------------------------------------------

/// What a request's JSON body gives the router: its `model` string and its
/// `stream` flag, where present.
#[derive(Debug)]
pub struct JsonBody {
    pub model: Option<String>,
    pub stream: Option<bool>,
}

/// A top-level member of a JSON object: its key, its text where it is a
/// string, and its flag where it is a boolean.
#[derive(Debug)]
pub struct JsonMember {
    pub key: String,
    pub text: Option<String>,
    pub flag: Option<bool>,
}

/// A member taken by value.
pub open spec fn member_view(m: JsonMember) -> (Seq<char>, Option<Seq<char>>, Option<bool>) {
    (
        m.key@,
        match m.text {
            Some(t) => Some(t@),
            None => None,
        },
        m.flag,
    )
}

/// Members taken by value.
pub open spec fn members_view(ms: Seq<JsonMember>) -> Seq<(Seq<char>, Option<Seq<char>>, Option<bool>)> {
    Seq::new(ms.len(), |i: int| member_view(ms[i]))
}

/// The top-level members of `body` as `serde_json::from_slice` parses it,
/// in the order the parsed object holds them, each key with its
/// `Value::as_str` and `Value::as_bool`; no members where the body is JSON
/// but not an object, and `None` where it is not JSON.
pub uninterp spec fn json_members(body: Seq<u8>) -> Option<Seq<(Seq<char>, Option<Seq<char>>, Option<bool>)>>;

/// Parses a request body with `serde_json::from_slice` and lists the
/// top-level members of the object it holds; `None` where the body is not
/// JSON. Returns the parsed value too, for the inference to use.
#[verifier::external_body]
fn parse_json_body(body: &[u8]) -> (r: Option<(Vec<JsonMember>, Value)>)
    ensures
        match r {
            None => json_members(body@) is None,
            Some(p) => json_members(body@) == Some(members_view(p.0@)),
        },
{
    let value: Value = match serde_json::from_slice(body) {
        Ok(v) => v,
        Err(_) => return None,
    };
    let mut members = Vec::new();
    if let Some(object) = value.as_object() {
        for (key, member) in object {
            members.push(JsonMember { key: key.clone(), text: member.as_str().map(str::to_owned), flag: member.as_bool() });
        }
    }
    Some((members, value))
}

/// The text and flag of the first member of `ms` named `key`.
pub open spec fn member_named(ms: Seq<(Seq<char>, Option<Seq<char>>, Option<bool>)>, key: Seq<char>) -> Option<
    (Option<Seq<char>>, Option<bool>),
>
    decreases ms.len(),
{
    if ms.len() == 0 {
        None
    } else if ms[0].0 == key {
        Some((ms[0].1, ms[0].2))
    } else {
        member_named(ms.drop_first(), key)
    }
}

/// What a body with members `ms` gives the router: the text of its
/// `model` member and the flag of its `stream` member, where present.
pub open spec fn body_fields(ms: Seq<(Seq<char>, Option<Seq<char>>, Option<bool>)>) -> (Option<Seq<char>>, Option<bool>) {
    (
        match member_named(ms, "model"@) {
            Some(v) => v.0,
            None => None,
        },
        match member_named(ms, "stream"@) {
            Some(v) => v.1,
            None => None,
        },
    )
}

/// The router reads a body's first member named `key`: when member `i` is
/// the first with that key, its text and flag are what the router takes,
/// and with no such member it takes nothing.
pub proof fn law_first_member_named_is_read(
    ms: Seq<(Seq<char>, Option<Seq<char>>, Option<bool>)>,
    key: Seq<char>,
    i: int,
)
    ensures
        0 <= i < ms.len() && ms[i].0 == key && (forall|j: int| 0 <= j < i ==> ms[j].0 != key) ==> member_named(
            ms,
            key,
        ) == Some((ms[i].1, ms[i].2)),
        (forall|j: int| 0 <= j < ms.len() ==> ms[j].0 != key) ==> member_named(ms, key) is None,
    decreases ms.len(),
{
    if ms.len() > 0 {
        let rest = ms.drop_first();
        law_first_member_named_is_read(rest, key, i - 1);
        if 0 <= i < ms.len() && ms[i].0 == key && (forall|j: int| 0 <= j < i ==> ms[j].0 != key) && i > 0 {
            assert(rest[i - 1] == ms[i]);
            assert forall|j: int| 0 <= j < i - 1 implies rest[j].0 != key by {
                assert(rest[j] == ms[j + 1]);
            }
        }
        if forall|j: int| 0 <= j < ms.len() ==> ms[j].0 != key {
            assert forall|j: int| 0 <= j < rest.len() implies rest[j].0 != key by {
                assert(rest[j] == ms[j + 1]);
            }
        }
    }
}

/// What the router takes from a body with members `ms`: the text of its
/// first `model` member and the flag of its first `stream` member; a body
/// whose first `stream` member is not a boolean, or that has none, is not
/// streamed.
pub proof fn law_body_fields_read_model_and_stream(ms: Seq<(Seq<char>, Option<Seq<char>>, Option<bool>)>, i: int)
    ensures
        0 <= i < ms.len() && ms[i].0 == "model"@ && (forall|j: int| 0 <= j < i ==> ms[j].0 != "model"@)
            ==> body_fields(ms).0 == ms[i].1,
        0 <= i < ms.len() && ms[i].0 == "stream"@ && (forall|j: int| 0 <= j < i ==> ms[j].0 != "stream"@)
            ==> body_fields(ms).1 == ms[i].2,
        (forall|j: int| 0 <= j < ms.len() ==> ms[j].0 != "model"@) ==> body_fields(ms).0 is None,
        (forall|j: int| 0 <= j < ms.len() ==> ms[j].0 != "stream"@) ==> body_fields(ms).1 is None,
{
    law_first_member_named_is_read(ms, "model"@, i);
    law_first_member_named_is_read(ms, "stream"@, i);
}

/// What the body `body` gives the router; `None` where it is not JSON.
pub open spec fn json_body_fields(body: Seq<u8>) -> Option<(Option<Seq<char>>, Option<bool>)> {
    match json_members(body) {
        None => None,
        Some(ms) => Some(body_fields(ms)),
    }
}

/// The index of the first member of `ms` named `key`.
fn find_member(ms: &Vec<JsonMember>, key: &str) -> (r: Option<usize>)
    ensures
        match r {
            Some(i) => i < ms@.len() && member_named(members_view(ms@), key@) == Some(
                (members_view(ms@)[i as int].1, members_view(ms@)[i as int].2),
            ),
            None => member_named(members_view(ms@), key@) is None,
        },
{
    let wanted = key.to_owned();
    let mut i: usize = 0;
    assert(members_view(ms@).skip(0) =~= members_view(ms@));
    while i < ms.len()
        invariant
            i <= ms@.len(),
            wanted@ == key@,
            member_named(members_view(ms@).skip(i as int), key@) == member_named(members_view(ms@), key@),
        decreases ms@.len() - i,
    {
        let ghost rest = members_view(ms@).skip(i as int);
        assert(rest[0] == members_view(ms@)[i as int]);
        if ms[i].key == wanted {
            return Some(i);
        }
        assert(rest.drop_first() =~= members_view(ms@).skip(i + 1));
        i = i + 1;
    }
    proof {
        assert(members_view(ms@).skip(i as int).len() == 0);
    }
    None
}

/// What the members `ms` of a body give the router.
fn body_from_members(ms: &Vec<JsonMember>) -> (r: JsonBody)
    ensures
        body_view(Some(r)) == Some(body_fields(members_view(ms@))),
{
    let model = match find_member(ms, "model") {
        Some(i) => match &ms[i].text {
            Some(t) => Some(t.clone()),
            None => None,
        },
        None => None,
    };
    let stream = match find_member(ms, "stream") {
        Some(i) => ms[i].flag,
        None => None,
    };
    JsonBody { model, stream }
}

/// The answer a request gets, or the inference it asks for.
#[derive(Debug)]
pub enum RouteDecision {
    /// `GET /healthz`: the service is up (200).
    Health,
    /// The API key does not match (401).
    InvalidApiKey,
    /// `GET /v1/models`: the models offered (200).
    ListModels,
    /// The body is not JSON (400).
    InvalidJson,
    /// The body names no model (400).
    ModelRequired,
    /// The model is not offered (404).
    ModelNotRegistered { model: String },
    /// No such route (404).
    RouteNotFound,
    /// `POST /v1/vision/classify`: classify an image with `model`.
    Classify { model: String },
    /// `POST /v1/chat/completions`: chat with `model`, streamed or not.
    Chat { model: String, stream: bool },
}

/// The HTTP status of a decision that is answered directly; `None` for an
/// inference, whose status comes from the transport.
pub open spec fn decision_status(d: RouteDecision) -> Option<u16> {
    match d {
        RouteDecision::Health => Some(200),
        RouteDecision::InvalidApiKey => Some(401),
        RouteDecision::ListModels => Some(200),
        RouteDecision::InvalidJson => Some(400),
        RouteDecision::ModelRequired => Some(400),
        RouteDecision::ModelNotRegistered { .. } => Some(404),
        RouteDecision::RouteNotFound => Some(404),
        _ => None,
    }
}

/// The HTTP status of an inference's answer: 200 when the transport gave a
/// result, 502 (bad gateway) when it failed, as the placeholder FPGA
/// transport always does.
pub fn inference_status(transport_succeeded: bool) -> (r: u16)
    ensures
        r == (if transport_succeeded {
            200u16
        } else {
            502u16
        }),
{
    if transport_succeeded {
        200
    } else {
        502
    }
}

impl RouteDecision {
    /// The HTTP status of a decision answered directly.
    pub fn status(&self) -> (r: Option<u16>)
        ensures
            r == decision_status(*self),
    {
        match self {
            RouteDecision::Health => Some(200),
            RouteDecision::InvalidApiKey => Some(401),
            RouteDecision::ListModels => Some(200),
            RouteDecision::InvalidJson => Some(400),
            RouteDecision::ModelRequired => Some(400),
            RouteDecision::ModelNotRegistered { .. } => Some(404),
            RouteDecision::RouteNotFound => Some(404),
            _ => None,
        }
    }
}

/// Bytes of a string literal or string.
pub open spec fn utf8(s: Seq<char>) -> Seq<u8> {
    encode_utf8(s)
}

/// The decision for a request with `method`, `path` and `authorization`
/// whose body gives `body` (`None`: not JSON), for a service offering
/// `models` under the key `api_key`.
pub open spec fn spec_route(
    models: Seq<ModelCapability>,
    api_key: Seq<char>,
    method: Seq<u8>,
    path: Seq<u8>,
    authorization: Seq<u8>,
    body: Option<(Option<Seq<char>>, Option<bool>)>,
) -> RouteDecisionView {
    if path == utf8("/healthz"@) && method == utf8("GET"@) {
        RouteDecisionView::Health
    } else if authorization != utf8("Bearer "@) + utf8(api_key) {
        RouteDecisionView::InvalidApiKey
    } else if path == utf8("/v1/models"@) && method == utf8("GET"@) {
        RouteDecisionView::ListModels
    } else {
        match body {
            None => RouteDecisionView::InvalidJson,
            Some((None, _)) => RouteDecisionView::ModelRequired,
            Some((Some(model), stream)) => if !offers(models, model) {
                RouteDecisionView::ModelNotRegistered { model }
            } else if method == utf8("POST"@) && path == utf8("/v1/vision/classify"@) {
                RouteDecisionView::Classify { model }
            } else if method == utf8("POST"@) && path == utf8("/v1/chat/completions"@) {
                RouteDecisionView::Chat {
                    model,
                    stream: match stream {
                        Some(b) => b,
                        None => false,
                    },
                }
            } else {
                RouteDecisionView::RouteNotFound
            },
        }
    }
}

/// A decision with its strings taken by value.
pub enum RouteDecisionView {
    Health,
    InvalidApiKey,
    ListModels,
    InvalidJson,
    ModelRequired,
    ModelNotRegistered { model: Seq<char> },
    RouteNotFound,
    Classify { model: Seq<char> },
    Chat { model: Seq<char>, stream: bool },
}

/// A decision taken by value.
pub open spec fn decision_view(d: RouteDecision) -> RouteDecisionView {
    match d {
        RouteDecision::Health => RouteDecisionView::Health,
        RouteDecision::InvalidApiKey => RouteDecisionView::InvalidApiKey,
        RouteDecision::ListModels => RouteDecisionView::ListModels,
        RouteDecision::InvalidJson => RouteDecisionView::InvalidJson,
        RouteDecision::ModelRequired => RouteDecisionView::ModelRequired,
        RouteDecision::ModelNotRegistered { model } => RouteDecisionView::ModelNotRegistered { model: model@ },
        RouteDecision::RouteNotFound => RouteDecisionView::RouteNotFound,
        RouteDecision::Classify { model } => RouteDecisionView::Classify { model: model@ },
        RouteDecision::Chat { model, stream } => RouteDecisionView::Chat { model: model@, stream },
    }
}

/// A JSON body's fields taken by value.
pub open spec fn body_view(b: Option<JsonBody>) -> Option<(Option<Seq<char>>, Option<bool>)> {
    match b {
        None => None,
        Some(j) => Some(
            (
                match j.model {
                    Some(m) => Some(m@),
                    None => None,
                },
                j.stream,
            ),
        ),
    }
}

/// Whether `a` and `b` hold the same bytes.
fn bytes_eq(a: &[u8], b: &[u8]) -> (r: bool)
    ensures
        r == (a@ == b@),
{
    if a.len() != b.len() {
        return false;
    }
    let mut i: usize = 0;
    while i < a.len()
        invariant
            i <= a@.len() == b@.len(),
            forall|k: int| 0 <= k < i ==> a@[k] == b@[k],
        decreases a@.len() - i,
    {
        if a[i] != b[i] {
            return false;
        }
        i = i + 1;
    }
    assert(a@ =~= b@);
    true
}

/// Decides what a request gets, from its method, path, authorization and
/// what its body gives.
pub fn decide_route(
    registry: &ModelRegistry,
    api_key: &str,
    method: &[u8],
    path: &[u8],
    authorization: &[u8],
    body: Option<JsonBody>,
) -> (r: RouteDecision)
    ensures
        decision_view(r) == spec_route(registry.models@, api_key@, method@, path@, authorization@, body_view(body)),
{
    let get = bytes_eq(method, "GET".as_bytes());
    if bytes_eq(path, "/healthz".as_bytes()) && get {
        return RouteDecision::Health;
    }
    let mut expected: Vec<u8> = Vec::new();
    push_all(&mut expected, "Bearer ".as_bytes());
    push_all(&mut expected, api_key.as_bytes());
    if !bytes_eq(authorization, expected.as_slice()) {
        return RouteDecision::InvalidApiKey;
    }
    if bytes_eq(path, "/v1/models".as_bytes()) && get {
        return RouteDecision::ListModels;
    }
    let fields = match body {
        None => {
            return RouteDecision::InvalidJson;
        },
        Some(b) => b,
    };
    let model = match fields.model {
        None => {
            return RouteDecision::ModelRequired;
        },
        Some(m) => m,
    };
    if !registry.contains(model.as_str()) {
        return RouteDecision::ModelNotRegistered { model };
    }
    let post = bytes_eq(method, "POST".as_bytes());
    if post && bytes_eq(path, "/v1/vision/classify".as_bytes()) {
        RouteDecision::Classify { model }
    } else if post && bytes_eq(path, "/v1/chat/completions".as_bytes()) {
        let stream = match fields.stream {
            Some(b) => b,
            None => false,
        };
        RouteDecision::Chat { model, stream }
    } else {
        RouteDecision::RouteNotFound
    }
}

/// Routes a request: reads its body as JSON where the route needs it and
/// decides. The parsed body is handed back for an inference to use.
pub fn route_request(registry: &ModelRegistry, api_key: &str, head: &RequestHead, body: &[u8]) -> (r: (
    RouteDecision,
    Option<Value>,
))
    ensures
        decision_view(r.0) == spec_route(
            registry.models@,
            api_key@,
            head.method@,
            head.path@,
            head.authorization@,
            json_body_fields(body@),
        ),
        json_body_fields(body@) is None <==> r.1 is None,
{
    let (fields, value) = match parse_json_body(body) {
        None => (None, None),
        Some((ms, v)) => (Some(body_from_members(&ms)), Some(v)),
    };
    let d = decide_route(
        registry,
        api_key,
        head.method.as_slice(),
        head.path.as_slice(),
        head.authorization.as_slice(),
        fields,
    );
    (d, value)
}

/// A chat request streams exactly when it asks to: whenever a request is
/// routed to chat, the decision's `stream` is true iff the body's `stream`
/// member is the boolean `true` (false when it is `false`, absent, or not a
/// boolean), and the model is the one the body names.
pub proof fn law_chat_streams_only_when_asked(
    models: Seq<ModelCapability>,
    api_key: Seq<char>,
    method: Seq<u8>,
    path: Seq<u8>,
    authorization: Seq<u8>,
    model: Option<Seq<char>>,
    stream: Option<bool>,
)
    ensures
        spec_route(models, api_key, method, path, authorization, Some((model, stream))) matches RouteDecisionView::Chat {
            model: m,
            stream: s,
        } ==> s == (stream == Some(true)) && model == Some(m),
{
}

/// A chat request through the whole router: a body whose `model` member
/// names an offered model, on `POST /v1/chat/completions` with the right
/// key, is routed to chat with that model, streamed iff its `stream` member
/// is `true`.
pub proof fn law_chat_request_routes_to_chat(
    models: Seq<ModelCapability>,
    api_key: Seq<char>,
    model: Seq<char>,
    stream: Option<bool>,
)
    requires
        offers(models, model),
    ensures
        spec_route(
            models,
            api_key,
            utf8("POST"@),
            utf8("/v1/chat/completions"@),
            utf8("Bearer "@) + utf8(api_key),
            Some((Some(model), stream)),
        ) == (RouteDecisionView::Chat { model, stream: stream == Some(true) }),
{
    reveal_strlit("GET");
    reveal_strlit("POST");
    reveal_strlit("/healthz");
    reveal_strlit("/v1/models");
    reveal_strlit("/v1/vision/classify");
    reveal_strlit("/v1/chat/completions");
    let chat = "/v1/chat/completions"@;
    vstd::utf8::encode_utf8_decode_utf8(chat);
    vstd::utf8::encode_utf8_decode_utf8("/healthz"@);
    vstd::utf8::encode_utf8_decode_utf8("/v1/models"@);
    vstd::utf8::encode_utf8_decode_utf8("/v1/vision/classify"@);
    assert(chat.len() != "/healthz"@.len() && chat.len() != "/v1/models"@.len() && chat.len()
        != "/v1/vision/classify"@.len());
    assert(utf8(chat) != utf8("/healthz"@));
    assert(utf8(chat) != utf8("/v1/models"@));
    assert(utf8(chat) != utf8("/v1/vision/classify"@));
}

/// The health check answers without an API key: `GET /healthz` is
/// answered as healthy whatever the authorization and body.
pub proof fn law_health_needs_no_key(
    models: Seq<ModelCapability>,
    api_key: Seq<char>,
    authorization: Seq<u8>,
    body: Option<(Option<Seq<char>>, Option<bool>)>,
)
    ensures
        spec_route(models, api_key, utf8("GET"@), utf8("/healthz"@), authorization, body) == RouteDecisionView::Health,
{
}

/// Only requests that carry the service's key reach anything but the
/// health check.
pub proof fn law_other_routes_need_the_key(
    models: Seq<ModelCapability>,
    api_key: Seq<char>,
    method: Seq<u8>,
    path: Seq<u8>,
    authorization: Seq<u8>,
    body: Option<(Option<Seq<char>>, Option<bool>)>,
)
    requires
        !(path == utf8("/healthz"@) && method == utf8("GET"@)),
        authorization != utf8("Bearer "@) + utf8(api_key),
    ensures
        spec_route(models, api_key, method, path, authorization, body) == RouteDecisionView::InvalidApiKey,
{
}

/// An inference is only ever asked of a model the registry offers.
pub proof fn law_inference_only_for_offered_models(
    models: Seq<ModelCapability>,
    api_key: Seq<char>,
    method: Seq<u8>,
    path: Seq<u8>,
    authorization: Seq<u8>,
    body: Option<(Option<Seq<char>>, Option<bool>)>,
)
    ensures
        spec_route(models, api_key, method, path, authorization, body) matches RouteDecisionView::Classify { model }
            ==> offers(models, model),
        spec_route(models, api_key, method, path, authorization, body) matches RouteDecisionView::Chat { model, .. }
            ==> offers(models, model),
{
}

} // verus!
