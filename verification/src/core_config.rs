//! The chip, tile and core configuration files a build reads: their TOML
//! values, and the topology taken from them. Which files to read is
//! decided here; reading them is left to the caller.

use vstd::prelude::*;
use crate::config::{default_mem_config, BallIdMapping, MemConfig};
use crate::p2e::{join, spec_join};
use crate::chipcrowd::{find_bytes, first_occurrence};
use vstd::utf8::encode_utf8;

verus! {

/// A TOML value. Floats and dates, which no configuration key holds, are
/// `Other`.
#[derive(Debug)]
pub enum TomlValue {
    String(String),
    Integer(i64),
    Boolean(bool),
    Array(Vec<TomlValue>),
    Table(Vec<(String, TomlValue)>),
    Other,
}

/// A parsed TOML document, as the `toml` crate holds it.
#[verifier::external_type_specification]
#[verifier::external_body]
pub struct ExTomlValue(toml::Value);

/// The value `toml`'s parser gives for the document `text`, converted to a
/// `TomlValue`; `None` where `text` is not TOML.
pub uninterp spec fn toml_parsed(text: Seq<char>) -> Option<TomlValue>;

/// A `toml::Value` as a `TomlValue`, one value for one value; floats and
/// dates become `Other`.
#[verifier::external_body]
fn convert_toml(value: &toml::Value) -> TomlValue {
    match value {
        toml::Value::String(s) => TomlValue::String(s.clone()),
        toml::Value::Integer(i) => TomlValue::Integer(*i),
        toml::Value::Boolean(b) => TomlValue::Boolean(*b),
        toml::Value::Array(a) => TomlValue::Array(a.iter().map(convert_toml).collect()),
        toml::Value::Table(t) => TomlValue::Table(t.iter().map(|(k, v)| (k.clone(), convert_toml(v))).collect()),
        _ => TomlValue::Other,
    }
}

/// Parses the TOML document `text` with `str::parse::<toml::Value>`;
/// `None` where it is not TOML.
#[verifier::external_body]
pub fn parse_toml(text: &str) -> (r: Option<TomlValue>)
    ensures
        r == toml_parsed(text@),
{
    match text.parse::<toml::Value>() {
        Ok(v) => Some(convert_toml(&v)),
        Err(_) => None,
    }
}

/// Why a configuration is refused.
#[derive(Debug)]
pub enum ConfigError {
    /// `key` is missing or not a string.
    MissingString { key: &'static str },
    /// `key` is missing or not an integer.
    MissingInteger { key: &'static str },
    /// The integer under `key` is negative or too large.
    OutOfRange { key: &'static str },
    /// `key` is missing or not a boolean.
    MissingBoolean { key: &'static str },
    /// `key` is missing or not a table.
    MissingTable { key: &'static str },
    /// `key` is missing or not an array.
    MissingArray { key: &'static str },
    /// Two ball mappings share a ball id.
    DuplicateBallId,
    /// Two instructions share a funct7.
    DuplicateFunct7,
    /// An instruction names a ball id that no mapping has.
    MissingBid { funct7: u32, bid: u32 },
    /// A tile defines no cores.
    NoCores,
    /// No core of the tile has a ball domain.
    NoBallCore,
    /// The chip defines neither `[[tiles]]` nor `[tileTemplate]`.
    MissingTile,
}

/// The value under `key` among the entries of a table.
pub open spec fn table_lookup(entries: Seq<(String, TomlValue)>, key: Seq<char>) -> Option<TomlValue>
    decreases entries.len(),
{
    if entries.len() == 0 {
        None
    } else if entries[0].0@ == key {
        Some(entries[0].1)
    } else {
        table_lookup(entries.subrange(1, entries.len() as int), key)
    }
}

/// The value under `key` of a table; `None` for other values.
pub open spec fn spec_get(v: TomlValue, key: Seq<char>) -> Option<TomlValue> {
    match v {
        TomlValue::Table(entries) => table_lookup(entries@, key),
        _ => None,
    }
}

/// The value under `key` of a table.
pub fn get<'a>(v: &'a TomlValue, key: &str) -> (r: Option<&'a TomlValue>)
    ensures
        match spec_get(*v, key@) {
            Some(x) => r is Some && *r->Some_0 == x,
            None => r is None,
        },
{
    match v {
        TomlValue::Table(entries) => {
            let wanted = key.to_owned();
            let mut i: usize = 0;
            assert(entries@.subrange(0, entries@.len() as int) =~= entries@);
            while i < entries.len()
                invariant
                    i <= entries@.len(),
                    wanted@ == key@,
                    *v == TomlValue::Table(*entries),
                    table_lookup(entries@.subrange(i as int, entries@.len() as int), key@) == table_lookup(
                        entries@,
                        key@,
                    ),
                decreases entries@.len() - i,
            {
                let ghost rest = entries@.subrange(i as int, entries@.len() as int);
                assert(rest[0] == entries@[i as int]);
                if entries[i].0 == wanted {
                    assert(table_lookup(rest, key@) == Some(entries@[i as int].1));
                    return Some(&entries[i].1);
                }
                assert(rest.subrange(1, rest.len() as int) =~= entries@.subrange(i + 1, entries@.len() as int));
                i = i + 1;
            }
            None
        },
        _ => None,
    }
}

/// The string under `key`.
pub open spec fn spec_string(v: TomlValue, key: &'static str) -> Result<Seq<char>, ConfigError> {
    match spec_get(v, key@) {
        Some(TomlValue::String(s)) => Ok(s@),
        _ => Err(ConfigError::MissingString { key }),
    }
}

/// The integer under `key`, where it is between 0 and `max`.
pub open spec fn spec_unsigned(v: TomlValue, key: &'static str, max: int) -> Result<int, ConfigError> {
    match spec_get(v, key@) {
        Some(TomlValue::Integer(i)) => if 0 <= i <= max {
            Ok(i as int)
        } else {
            Err(ConfigError::OutOfRange { key })
        },
        _ => Err(ConfigError::MissingInteger { key }),
    }
}

/// The boolean under `key`.
pub open spec fn spec_boolean(v: TomlValue, key: &'static str) -> Result<bool, ConfigError> {
    match spec_get(v, key@) {
        Some(TomlValue::Boolean(b)) => Ok(b),
        _ => Err(ConfigError::MissingBoolean { key }),
    }
}

/// The table under `key`.
pub open spec fn spec_table(v: TomlValue, key: &'static str) -> Result<TomlValue, ConfigError> {
    match spec_get(v, key@) {
        Some(TomlValue::Table(e)) => Ok(TomlValue::Table(e)),
        _ => Err(ConfigError::MissingTable { key }),
    }
}

/// The array under `key`.
pub open spec fn spec_array(v: TomlValue, key: &'static str) -> Result<Seq<TomlValue>, ConfigError> {
    match spec_get(v, key@) {
        Some(TomlValue::Array(a)) => Ok(a@),
        _ => Err(ConfigError::MissingArray { key }),
    }
}

/// The string under `key`.
pub fn string(v: &TomlValue, key: &'static str) -> (r: Result<String, ConfigError>)
    ensures
        match spec_string(*v, key) {
            Ok(s) => r is Ok && r->Ok_0@ == s,
            Err(e) => r == Err::<String, ConfigError>(e),
        },
{
    match get(v, key) {
        Some(TomlValue::String(s)) => Ok(s.clone()),
        _ => Err(ConfigError::MissingString { key }),
    }
}

/// The integer under `key`, as a `usize`.
pub fn usize_value(v: &TomlValue, key: &'static str) -> (r: Result<usize, ConfigError>)
    ensures
        match spec_unsigned(*v, key, usize::MAX as int) {
            Ok(i) => r == Ok::<usize, ConfigError>(i as usize),
            Err(e) => r == Err::<usize, ConfigError>(e),
        },
{
    match get(v, key) {
        Some(TomlValue::Integer(i)) => {
            if *i >= 0 && (*i as u64) <= (usize::MAX as u64) {
                Ok(*i as usize)
            } else {
                Err(ConfigError::OutOfRange { key })
            }
        },
        _ => Err(ConfigError::MissingInteger { key }),
    }
}

/// The integer under `key`, as a `u32`.
pub fn integer(v: &TomlValue, key: &'static str) -> (r: Result<u32, ConfigError>)
    ensures
        match spec_unsigned(*v, key, u32::MAX as int) {
            Ok(i) => r == Ok::<u32, ConfigError>(i as u32),
            Err(e) => r == Err::<u32, ConfigError>(e),
        },
{
    match get(v, key) {
        Some(TomlValue::Integer(i)) => {
            if *i >= 0 && *i <= 0xffff_ffff {
                Ok(*i as u32)
            } else {
                Err(ConfigError::OutOfRange { key })
            }
        },
        _ => Err(ConfigError::MissingInteger { key }),
    }
}

/// The boolean under `key`.
pub fn boolean(v: &TomlValue, key: &'static str) -> (r: Result<bool, ConfigError>)
    ensures
        match spec_boolean(*v, key) {
            Ok(b) => r == Ok::<bool, ConfigError>(b),
            Err(e) => r == Err::<bool, ConfigError>(e),
        },
{
    match get(v, key) {
        Some(TomlValue::Boolean(b)) => Ok(*b),
        _ => Err(ConfigError::MissingBoolean { key }),
    }
}

/// The table under `key`.
pub fn table<'a>(v: &'a TomlValue, key: &'static str) -> (r: Result<&'a TomlValue, ConfigError>)
    ensures
        match spec_table(*v, key) {
            Ok(t) => r is Ok && *r->Ok_0 == t,
            Err(e) => r == Err::<&TomlValue, ConfigError>(e),
        },
{
    match get(v, key) {
        Some(t) => match t {
            TomlValue::Table(_) => Ok(t),
            _ => Err(ConfigError::MissingTable { key }),
        },
        None => Err(ConfigError::MissingTable { key }),
    }
}

/// The array under `key`.
pub fn array<'a>(v: &'a TomlValue, key: &'static str) -> (r: Result<&'a Vec<TomlValue>, ConfigError>)
    ensures
        match spec_array(*v, key) {
            Ok(a) => r is Ok && r->Ok_0@ == a,
            Err(e) => r == Err::<&Vec<TomlValue>, ConfigError>(e),
        },
{
    match get(v, key) {
        Some(TomlValue::Array(a)) => Ok(a),
        _ => Err(ConfigError::MissingArray { key }),
    }
}

// ---------------------------------------------------------------------------
// Memory domain
// ---------------------------------------------------------------------------

/// The memory geometry a memory-domain file gives: `[bank]` with `num`,
/// `width`, `entries`, and `[mmio]` with `enable`, `bankNum`,
/// `bankEntries`, `bankWidth`, `readWidth`; the first missing or bad key
/// is the error.
pub open spec fn spec_parse_memory(v: TomlValue) -> Result<MemConfig, ConfigError> {
    let m = usize::MAX as int;
    match spec_table(v, "bank") {
        Err(e) => Err(e),
        Ok(bank) => match spec_table(v, "mmio") {
            Err(e) => Err(e),
            Ok(mmio) => match spec_unsigned(bank, "num", m) {
                Err(e) => Err(e),
                Ok(num) => match spec_unsigned(bank, "width", m) {
                    Err(e) => Err(e),
                    Ok(width) => match spec_unsigned(bank, "entries", m) {
                        Err(e) => Err(e),
                        Ok(entries) => match spec_boolean(mmio, "enable") {
                            Err(e) => Err(e),
                            Ok(enable) => match spec_unsigned(mmio, "bankNum", m) {
                                Err(e) => Err(e),
                                Ok(bank_num) => match spec_unsigned(mmio, "bankEntries", m) {
                                    Err(e) => Err(e),
                                    Ok(bank_entries) => match spec_unsigned(mmio, "bankWidth", m) {
                                        Err(e) => Err(e),
                                        Ok(bank_width) => match spec_unsigned(mmio, "readWidth", m) {
                                            Err(e) => Err(e),
                                            Ok(read_width) => Ok(
                                                MemConfig {
                                                    bank_num: num as usize,
                                                    bank_width: width as usize,
                                                    bank_entries: entries as usize,
                                                    mmio_enable: enable,
                                                    mmio_bank_num: bank_num as usize,
                                                    mmio_bank_entries: bank_entries as usize,
                                                    mmio_bank_width: bank_width as usize,
                                                    mmio_read_width: read_width as usize,
                                                },
                                            ),
                                        },
                                    },
                                },
                            },
                        },
                    },
                },
            },
        },
    }
}

/// Reads the memory geometry of a memory-domain file.
pub fn parse_memory(v: &TomlValue) -> (r: Result<MemConfig, ConfigError>)
    ensures
        r == spec_parse_memory(*v),
{
    let bank = match table(v, "bank") {
        Ok(t) => t,
        Err(e) => return Err(e),
    };
    let mmio = match table(v, "mmio") {
        Ok(t) => t,
        Err(e) => return Err(e),
    };
    let bank_num = match usize_value(bank, "num") {
        Ok(x) => x,
        Err(e) => return Err(e),
    };
    let bank_width = match usize_value(bank, "width") {
        Ok(x) => x,
        Err(e) => return Err(e),
    };
    let bank_entries = match usize_value(bank, "entries") {
        Ok(x) => x,
        Err(e) => return Err(e),
    };
    let mmio_enable = match boolean(mmio, "enable") {
        Ok(x) => x,
        Err(e) => return Err(e),
    };
    let mmio_bank_num = match usize_value(mmio, "bankNum") {
        Ok(x) => x,
        Err(e) => return Err(e),
    };
    let mmio_bank_entries = match usize_value(mmio, "bankEntries") {
        Ok(x) => x,
        Err(e) => return Err(e),
    };
    let mmio_bank_width = match usize_value(mmio, "bankWidth") {
        Ok(x) => x,
        Err(e) => return Err(e),
    };
    let mmio_read_width = match usize_value(mmio, "readWidth") {
        Ok(x) => x,
        Err(e) => return Err(e),
    };
    Ok(
        MemConfig {
            bank_num,
            bank_width,
            bank_entries,
            mmio_enable,
            mmio_bank_num,
            mmio_bank_entries,
            mmio_bank_width,
            mmio_read_width,
        },
    )
}

// ---------------------------------------------------------------------------
// Ball domain
// ---------------------------------------------------------------------------

/// An instruction of a ball domain: its funct7 and the ball id that runs
/// it.
#[derive(Clone, Copy, Debug, PartialEq, Eq, Structural)]
pub struct BallIsaEntry {
    pub funct7: u32,
    pub bid: u32,
}

/// The balls of a core and the instructions they run.
#[derive(Debug)]
pub struct BallDomainConfig {
    pub mappings: Vec<BallIdMapping>,
    pub isa: Vec<BallIsaEntry>,
}

impl BallDomainConfig {
    /// A ball domain with no balls.
    pub fn empty() -> (r: BallDomainConfig)
        ensures
            r.mappings@.len() == 0,
            r.isa@.len() == 0,
    {
        BallDomainConfig { mappings: Vec::new(), isa: Vec::new() }
    }
}

/// A mapping taken by value.
pub open spec fn mapping_view(m: BallIdMapping) -> (u32, Seq<char>) {
    (m.ball_id, m.ball_class@)
}

/// The mappings a `ballIdMappings` array gives, or the first entry's
/// error.
pub open spec fn spec_mappings(entries: Seq<TomlValue>) -> Result<Seq<(u32, Seq<char>)>, ConfigError>
    decreases entries.len(),
{
    if entries.len() == 0 {
        Ok(Seq::empty())
    } else {
        match spec_mappings(entries.drop_last()) {
            Err(e) => Err(e),
            Ok(prev) => match spec_unsigned(entries.last(), "ballId", u32::MAX as int) {
                Err(e) => Err(e),
                Ok(id) => match spec_string(entries.last(), "ballClass") {
                    Err(e) => Err(e),
                    Ok(class) => Ok(prev.push((id as u32, class))),
                },
            },
        }
    }
}

/// The instructions a `ballISA` array gives, or the first entry's error.
pub open spec fn spec_isa(entries: Seq<TomlValue>) -> Result<Seq<BallIsaEntry>, ConfigError>
    decreases entries.len(),
{
    if entries.len() == 0 {
        Ok(Seq::empty())
    } else {
        match spec_isa(entries.drop_last()) {
            Err(e) => Err(e),
            Ok(prev) => match spec_unsigned(entries.last(), "funct7", u32::MAX as int) {
                Err(e) => Err(e),
                Ok(f) => match spec_unsigned(entries.last(), "bid", u32::MAX as int) {
                    Err(e) => Err(e),
                    Ok(b) => Ok(prev.push(BallIsaEntry { funct7: f as u32, bid: b as u32 })),
                },
            },
        }
    }
}

/// The ball ids of the mappings.
pub open spec fn ids_of(mappings: Seq<BallIdMapping>) -> Seq<u32> {
    mappings.map_values(|m: BallIdMapping| m.ball_id)
}

/// The funct7s of the instructions.
pub open spec fn functs_of(isa: Seq<BallIsaEntry>) -> Seq<u32> {
    isa.map_values(|e: BallIsaEntry| e.funct7)
}

/// The first instruction (by position) whose ball id no mapping has.
pub open spec fn first_missing_bid(isa: Seq<BallIsaEntry>, ids: Seq<u32>) -> Option<int>
    decreases isa.len(),
{
    if isa.len() == 0 {
        None
    } else {
        match first_missing_bid(isa.drop_last(), ids) {
            Some(k) => Some(k),
            None => if ids.contains(isa.last().bid) {
                None
            } else {
                Some(isa.len() - 1)
            },
        }
    }
}

/// Whether a ball domain is consistent: ball ids are distinct, funct7s are
/// distinct, and every instruction's ball id has a mapping.
pub open spec fn spec_validate_balls(ids: Seq<u32>, isa: Seq<BallIsaEntry>) -> Result<(), ConfigError> {
    if !ids.no_duplicates() {
        Err(ConfigError::DuplicateBallId)
    } else if !functs_of(isa).no_duplicates() {
        Err(ConfigError::DuplicateFunct7)
    } else {
        match first_missing_bid(isa, ids) {
            Some(k) => Err(ConfigError::MissingBid { funct7: isa[k].funct7, bid: isa[k].bid }),
            None => Ok(()),
        }
    }
}

/// The ball ids of the mappings.
pub open spec fn mapping_ids(m: Seq<(u32, Seq<char>)>) -> Seq<u32> {
    m.map_values(|p: (u32, Seq<char>)| p.0)
}

/// The ball domain a ball-domain file gives, or why it is refused.
pub open spec fn spec_parse_balls(v: TomlValue) -> Result<(Seq<(u32, Seq<char>)>, Seq<BallIsaEntry>), ConfigError> {
    match spec_array(v, "ballIdMappings") {
        Err(e) => Err(e),
        Ok(me) => match spec_mappings(me) {
            Err(e) => Err(e),
            Ok(m) => match spec_array(v, "ballISA") {
                Err(e) => Err(e),
                Ok(ie) => match spec_isa(ie) {
                    Err(e) => Err(e),
                    Ok(isa) => match spec_validate_balls(mapping_ids(m), isa) {
                        Err(e) => Err(e),
                        Ok(()) => Ok((m, isa)),
                    },
                },
            },
        },
    }
}

/// Checks a ball domain: distinct ball ids, distinct funct7s, and a
/// mapping for every instruction's ball id.
pub fn validate_balls(mappings: &Vec<BallIdMapping>, isa: &Vec<BallIsaEntry>) -> (r: Result<(), ConfigError>)
    ensures
        r == spec_validate_balls(ids_of(mappings@), isa@),
{
    let ghost ids = ids_of(mappings@);
    let ghost functs = functs_of(isa@);
    let n = mappings.len();
    let mut i: usize = 0;
    while i < n
        invariant
            n == mappings@.len() == ids.len(),
            ids == ids_of(mappings@),
            forall|a: int, b: int| 0 <= a < b < ids.len() && a < i ==> ids[a] != ids[b],
        decreases n - i,
    {
        let mut j: usize = i + 1;
        while j < n
            invariant
                i < n == mappings@.len() == ids.len(),
                ids == ids_of(mappings@),
                i + 1 <= j <= n,
                forall|b: int| i < b < j ==> ids[i as int] != ids[b],
            decreases n - j,
        {
            if mappings[i].ball_id == mappings[j].ball_id {
                proof {
                    assert(ids[i as int] == ids[j as int]);
                }
                return Err(ConfigError::DuplicateBallId);
            }
            j = j + 1;
        }
        i = i + 1;
    }
    assert(ids.no_duplicates()) by {
        assert forall|a: int, b: int| 0 <= a < ids.len() && 0 <= b < ids.len() && a != b implies ids[a] != ids[b] by {
            if a > b {
                assert(ids[b] != ids[a]);
            }
        }
    }
    let m = isa.len();
    let mut i: usize = 0;
    while i < m
        invariant
            m == isa@.len() == functs.len(),
            functs == functs_of(isa@),
            ids == ids_of(mappings@),
            ids.no_duplicates(),
            forall|a: int, b: int| 0 <= a < b < functs.len() && a < i ==> functs[a] != functs[b],
        decreases m - i,
    {
        let mut j: usize = i + 1;
        while j < m
            invariant
                i < m == isa@.len() == functs.len(),
                functs == functs_of(isa@),
                i + 1 <= j <= m,
                ids == ids_of(mappings@),
                ids.no_duplicates(),
                forall|b: int| i < b < j ==> functs[i as int] != functs[b],
            decreases m - j,
        {
            if isa[i].funct7 == isa[j].funct7 {
                proof {
                    assert(functs[i as int] == functs[j as int]);
                    assert(!functs.no_duplicates());
                }
                return Err(ConfigError::DuplicateFunct7);
            }
            j = j + 1;
        }
        i = i + 1;
    }
    assert(functs.no_duplicates()) by {
        assert forall|a: int, b: int| 0 <= a < functs.len() && 0 <= b < functs.len() && a != b implies functs[a]
            != functs[b] by {
            if a > b {
                assert(functs[b] != functs[a]);
            }
        }
    }
    let mut k: usize = 0;
    while k < m
        invariant
            m == isa@.len(),
            n == mappings@.len(),
            k <= m,
            ids == ids_of(mappings@),
            ids.no_duplicates(),
            functs.no_duplicates(),
            functs == functs_of(isa@),
            first_missing_bid(isa@.subrange(0, k as int), ids) is None,
        decreases m - k,
    {
        let bid = isa[k].bid;
        let mut found = false;
        assert(!(exists|q: int| 0 <= q < 0 && #[trigger] ids[q] == bid));
        let mut j: usize = 0;
        while j < n
            invariant
                n == mappings@.len() == ids.len(),
                ids == ids_of(mappings@),
                j <= n,
                found == (exists|q: int| 0 <= q < j && #[trigger] ids[q] == bid),
            decreases n - j,
        {
            assert(ids[j as int] == mappings@[j as int].ball_id);
            if mappings[j].ball_id == bid {
                found = true;
            }
            j = j + 1;
        }
        proof {
            let s = isa@.subrange(0, k as int + 1);
            assert(s.drop_last() =~= isa@.subrange(0, k as int));
            assert(s.last() == isa@[k as int]);
            if found {
                let q = choose|q: int| 0 <= q < n && ids[q] == bid;
                assert(ids.contains(bid));
            } else {
                assert(!ids.contains(bid));
            }
        }
        if !found {
            proof {
                let s = isa@.subrange(0, k as int + 1);
                assert(first_missing_bid(s, ids) == Some(k as int));
                lemma_first_missing_prefix(isa@, ids, k as int + 1);
            }
            return Err(ConfigError::MissingBid { funct7: isa[k].funct7, bid });
        }
        k = k + 1;
    }
    assert(isa@.subrange(0, m as int) =~= isa@);
    Ok(())
}

/// A missing ball id found in a prefix is the first one of the whole list.
proof fn lemma_first_missing_prefix(isa: Seq<BallIsaEntry>, ids: Seq<u32>, k: int)
    requires
        0 <= k <= isa.len(),
        first_missing_bid(isa.subrange(0, k), ids) is Some,
    ensures
        first_missing_bid(isa, ids) == first_missing_bid(isa.subrange(0, k), ids),
    decreases isa.len() - k,
{
    if k < isa.len() {
        let s = isa.subrange(0, k + 1);
        assert(s.drop_last() =~= isa.subrange(0, k));
        lemma_first_missing_prefix(isa, ids, k + 1);
    } else {
        assert(isa.subrange(0, k) =~= isa);
    }
}

/// The mappings taken by value.
pub open spec fn mappings_view(m: Seq<BallIdMapping>) -> Seq<(u32, Seq<char>)> {
    m.map_values(|x: BallIdMapping| mapping_view(x))
}

/// An error of a prefix of a `ballIdMappings` array is the error of the
/// whole array.
proof fn lemma_mappings_prefix_error(entries: Seq<TomlValue>, k: int)
    requires
        0 <= k <= entries.len(),
        spec_mappings(entries.subrange(0, k)) is Err,
    ensures
        spec_mappings(entries) == spec_mappings(entries.subrange(0, k)),
    decreases entries.len() - k,
{
    if k < entries.len() {
        let s = entries.subrange(0, k + 1);
        assert(s.drop_last() =~= entries.subrange(0, k));
        lemma_mappings_prefix_error(entries, k + 1);
    } else {
        assert(entries.subrange(0, k) =~= entries);
    }
}

/// An error of a prefix of a `ballISA` array is the error of the whole
/// array.
proof fn lemma_isa_prefix_error(entries: Seq<TomlValue>, k: int)
    requires
        0 <= k <= entries.len(),
        spec_isa(entries.subrange(0, k)) is Err,
    ensures
        spec_isa(entries) == spec_isa(entries.subrange(0, k)),
    decreases entries.len() - k,
{
    if k < entries.len() {
        let s = entries.subrange(0, k + 1);
        assert(s.drop_last() =~= entries.subrange(0, k));
        lemma_isa_prefix_error(entries, k + 1);
    } else {
        assert(entries.subrange(0, k) =~= entries);
    }
}

/// Reads the mappings of a `ballIdMappings` array.
fn parse_mappings(entries: &Vec<TomlValue>) -> (r: Result<Vec<BallIdMapping>, ConfigError>)
    ensures
        match spec_mappings(entries@) {
            Ok(m) => r is Ok && mappings_view(r->Ok_0@) == m,
            Err(e) => r is Err && r->Err_0 == e,
        },
{
    let mut out: Vec<BallIdMapping> = Vec::new();
    let mut k: usize = 0;
    assert(entries@.subrange(0, 0) =~= Seq::<TomlValue>::empty());
    assert(mappings_view(out@) =~= Seq::<(u32, Seq<char>)>::empty());
    while k < entries.len()
        invariant
            k <= entries@.len(),
            spec_mappings(entries@.subrange(0, k as int)) == Ok::<Seq<(u32, Seq<char>)>, ConfigError>(
                mappings_view(out@),
            ),
        decreases entries@.len() - k,
    {
        let ghost s = entries@.subrange(0, k as int + 1);
        assert(s.drop_last() =~= entries@.subrange(0, k as int));
        assert(s.last() == entries@[k as int]);
        let e = &entries[k];
        let id = match integer(e, "ballId") {
            Ok(x) => x,
            Err(err) => {
                proof {
                    lemma_mappings_prefix_error(entries@, k as int + 1);
                }
                return Err(err);
            },
        };
        let class = match string(e, "ballClass") {
            Ok(x) => x,
            Err(err) => {
                proof {
                    lemma_mappings_prefix_error(entries@, k as int + 1);
                }
                return Err(err);
            },
        };
        let ghost before = out@;
        out.push(BallIdMapping { ball_id: id, ball_class: class });
        assert(mappings_view(out@) =~= mappings_view(before).push((id, class@)));
        k = k + 1;
    }
    assert(entries@.subrange(0, k as int) =~= entries@);
    Ok(out)
}

/// Reads the instructions of a `ballISA` array.
fn parse_isa(entries: &Vec<TomlValue>) -> (r: Result<Vec<BallIsaEntry>, ConfigError>)
    ensures
        match spec_isa(entries@) {
            Ok(isa) => r is Ok && r->Ok_0@ == isa,
            Err(e) => r is Err && r->Err_0 == e,
        },
{
    let mut out: Vec<BallIsaEntry> = Vec::new();
    let mut k: usize = 0;
    assert(entries@.subrange(0, 0) =~= Seq::<TomlValue>::empty());
    while k < entries.len()
        invariant
            k <= entries@.len(),
            spec_isa(entries@.subrange(0, k as int)) == Ok::<Seq<BallIsaEntry>, ConfigError>(out@),
        decreases entries@.len() - k,
    {
        let ghost s = entries@.subrange(0, k as int + 1);
        assert(s.drop_last() =~= entries@.subrange(0, k as int));
        assert(s.last() == entries@[k as int]);
        let e = &entries[k];
        let funct7 = match integer(e, "funct7") {
            Ok(x) => x,
            Err(err) => {
                proof {
                    lemma_isa_prefix_error(entries@, k as int + 1);
                }
                return Err(err);
            },
        };
        let bid = match integer(e, "bid") {
            Ok(x) => x,
            Err(err) => {
                proof {
                    lemma_isa_prefix_error(entries@, k as int + 1);
                }
                return Err(err);
            },
        };
        out.push(BallIsaEntry { funct7, bid });
        k = k + 1;
    }
    assert(entries@.subrange(0, k as int) =~= entries@);
    Ok(out)
}

/// Reads a ball-domain file: its mappings and instructions, checked.
pub fn parse_balls(v: &TomlValue) -> (r: Result<BallDomainConfig, ConfigError>)
    ensures
        match spec_parse_balls(*v) {
            Ok((m, isa)) => r is Ok && mappings_view(r->Ok_0.mappings@) == m && r->Ok_0.isa@ == isa,
            Err(e) => r is Err && r->Err_0 == e,
        },
{
    let me = match array(v, "ballIdMappings") {
        Ok(a) => a,
        Err(e) => return Err(e),
    };
    let mappings = match parse_mappings(me) {
        Ok(m) => m,
        Err(e) => return Err(e),
    };
    let ie = match array(v, "ballISA") {
        Ok(a) => a,
        Err(e) => return Err(e),
    };
    let isa = match parse_isa(ie) {
        Ok(i) => i,
        Err(e) => return Err(e),
    };
    assert(ids_of(mappings@) =~= mapping_ids(mappings_view(mappings@)));
    match validate_balls(&mappings, &isa) {
        Ok(()) => Ok(BallDomainConfig { mappings, isa }),
        Err(e) => Err(e),
    }
}

// ---------------------------------------------------------------------------
// Paths
// ---------------------------------------------------------------------------

/// `value` resolved against the directory `base`: an absolute path as it
/// is, a relative one below `base`.
pub open spec fn spec_resolve(base: Seq<u8>, value: Seq<u8>) -> Seq<u8> {
    if value.len() > 0 && value[0] == 47 {
        value
    } else {
        spec_join(base, value)
    }
}

/// `value` resolved against the directory `base`.
pub fn resolve(base: &[u8], value: &[u8]) -> (r: Vec<u8>)
    ensures
        r@ == spec_resolve(base@, value@),
{
    if value.len() > 0 && value[0] == 47 {
        vstd::slice::slice_to_vec(value)
    } else {
        join(base, value)
    }
}

/// Offset of the first `/` of `s`, or its length.
pub open spec fn first_slash(s: Seq<u8>) -> nat
    decreases s.len(),
{
    if s.len() == 0 {
        0
    } else if s[0] == 47 {
        0
    } else {
        1 + first_slash(s.subrange(1, s.len() as int))
    }
}

/// `s` split at each `/`.
pub open spec fn split_slash(s: Seq<u8>) -> Seq<Seq<u8>>
    decreases s.len(),
{
    let i = first_slash(s);
    if i >= s.len() {
        seq![s]
    } else {
        seq![s.subrange(0, i as int)] + split_slash(s.subrange(i + 1 as int, s.len() as int))
    }
}

/// A path segment that names something: not empty and not `.`.
pub open spec fn named_segment(seg: Seq<u8>) -> bool {
    seg.len() > 0 && seg != seq![46u8]
}

/// The named segments among `segs`.
pub open spec fn named_segments(segs: Seq<Seq<u8>>) -> Seq<Seq<u8>>
    decreases segs.len(),
{
    if segs.len() == 0 {
        Seq::empty()
    } else if named_segment(segs.last()) {
        named_segments(segs.drop_last()).push(segs.last())
    } else {
        named_segments(segs.drop_last())
    }
}

/// The name of the directory that holds the file at `path`, or `core`
/// where it has none (`Path::parent`, then `Path::file_name`).
pub open spec fn spec_default_core_name(path: Seq<u8>) -> Seq<u8> {
    let n = named_segments(split_slash(path));
    if n.len() >= 2 && n[n.len() - 2] != seq![46u8, 46u8] {
        n[n.len() - 2]
    } else {
        encode_utf8("core"@)
    }
}

/// The first `/` of `s` is at `n`.
proof fn lemma_first_slash(s: Seq<u8>, n: int)
    requires
        0 <= n <= s.len(),
        forall|k: int| 0 <= k < n ==> s[k] != 47,
        n < s.len() ==> s[n] == 47,
    ensures
        first_slash(s) == n,
    decreases n,
{
    if n > 0 {
        let t = s.subrange(1, s.len() as int);
        assert forall|k: int| 0 <= k < n - 1 implies t[k] != 47 by {
            assert(t[k] == s[k + 1]);
        }
        if n < s.len() {
            assert(t[n - 1] == s[n]);
        }
        lemma_first_slash(t, n - 1);
    }
}

/// Whether `seg` is `.`.
fn is_dot(seg: &[u8]) -> (r: bool)
    ensures
        r == (seg@ == seq![46u8]),
{
    let r = seg.len() == 1 && seg[0] == 46;
    if r {
        assert(seg@ =~= seq![46u8]);
    }
    r
}

/// The name of the directory that holds the file at `path`, or `core`.
pub fn default_core_name(path: &[u8]) -> (r: Vec<u8>)
    ensures
        r@ == spec_default_core_name(path@),
{
    let len = path.len();
    let mut pos: usize = 0;
    let mut finished = false;
    let mut last: Vec<u8> = Vec::new();
    let mut prev: Vec<u8> = Vec::new();
    let mut count: usize = 0;
    let ghost mut done: Seq<Seq<u8>> = Seq::empty();
    assert(path@.subrange(0, len as int) =~= path@);
    while !finished
        invariant
            pos <= len == path@.len(),
            !finished ==> done + split_slash(path@.subrange(pos as int, len as int)) == split_slash(path@),
            finished ==> done == split_slash(path@),
            count == named_segments(done).len() || (count == 2 && named_segments(done).len() >= 2),
            count <= 2,
            count >= 1 ==> last@ == named_segments(done).last(),
            count >= 2 ==> prev@ == named_segments(done)[named_segments(done).len() - 2],
        decreases 2 * (len - pos) + if finished {
            0int
        } else {
            1int
        },
    {
        let ghost rest = path@.subrange(pos as int, len as int);
        let mut j: usize = pos;
        while j < len && path[j] != 47
            invariant
                pos <= j <= len == path@.len(),
                forall|k: int| pos <= k < j ==> path@[k] != 47,
            decreases len - j,
        {
            j = j + 1;
        }
        proof {
            assert forall|k: int| 0 <= k < j - pos implies rest[k] != 47 by {
                assert(rest[k] == path@[pos + k]);
            }
            if j < len {
                assert(rest[j - pos] == path@[j as int]);
            }
            lemma_first_slash(rest, j - pos);
        }
        let seg = &path[pos..j];
        proof {
            if j < len {
                assert(rest.subrange(0, j - pos) =~= seg@);
                assert(rest.subrange(j - pos + 1, rest.len() as int) =~= path@.subrange(j + 1, len as int));
                assert(done.push(seg@) + split_slash(path@.subrange(j + 1, len as int)) =~= done + split_slash(rest));
            } else {
                assert(rest =~= seg@);
                assert(done.push(seg@) =~= done + split_slash(rest));
            }
            assert(done.push(seg@).drop_last() =~= done);
        }
        if seg.len() > 0 && !is_dot(seg) {
            if count >= 1 {
                prev = last;
            }
            last = vstd::slice::slice_to_vec(seg);
            if count < 2 {
                count = count + 1;
            }
        }
        proof {
            done = done.push(seg@);
        }
        if j < len {
            pos = j + 1;
        } else {
            finished = true;
        }
    }
    if count >= 2 && !(prev.len() == 2 && prev[0] == 46 && prev[1] == 46) {
        proof {
            if prev@ == seq![46u8, 46u8] {
                assert(prev@[0] == 46 && prev@[1] == 46);
            }
        }
        prev
    } else {
        proof {
            if count >= 2 {
                assert(prev@ =~= seq![46u8, 46u8]);
            }
        }
        vstd::slice::slice_to_vec("core".as_bytes())
    }
}

// ---------------------------------------------------------------------------
// Loading configurations from files
// ---------------------------------------------------------------------------

/// The configuration files read so far: each path with its TOML value.
#[derive(Debug)]
pub struct ConfigFiles {
    pub files: Vec<(Vec<u8>, TomlValue)>,
}

/// The value of the file at `path`, where it has been read.
pub open spec fn spec_file(files: Seq<(Vec<u8>, TomlValue)>, path: Seq<u8>) -> Option<TomlValue>
    decreases files.len(),
{
    if files.len() == 0 {
        None
    } else if files[0].0@ == path {
        Some(files[0].1)
    } else {
        spec_file(files.subrange(1, files.len() as int), path)
    }
}

/// The directory of the file at `path`: what comes before its last `/`
/// (`/` itself for a file in the root, nothing for a bare name).
pub open spec fn spec_parent(path: Seq<u8>) -> Seq<u8>
    decreases path.len(),
{
    if path.len() == 0 {
        Seq::empty()
    } else if path.last() == 47 {
        if path.len() == 1 {
            seq![47u8]
        } else {
            path.drop_last()
        }
    } else {
        spec_parent(path.drop_last())
    }
}

/// A load that needs another file, or failed, or gave `T`.
pub enum Load<T> {
    /// The file at this path must be read first.
    NeedFile(Vec<u8>),
    /// The configuration is refused.
    Failed(ConfigError),
    /// The configuration.
    Done(T),
}

/// A load taken by value, with `V` the value of what it gives.
pub enum LoadView<V> {
    NeedFile(Seq<u8>),
    Failed(ConfigError),
    Done(V),
}

/// A core's topology: memory geometry, ball domain, and the files it was
/// read from.
#[derive(Debug)]
pub struct CoreTopology {
    pub mem_config: MemConfig,
    pub ball_domain: BallDomainConfig,
    pub files_read: Vec<Vec<u8>>,
}

/// A core topology taken by value.
pub struct CoreTopologyView {
    pub mem_config: MemConfig,
    pub mappings: Seq<(u32, Seq<char>)>,
    pub isa: Seq<BallIsaEntry>,
    pub files_read: Seq<Seq<u8>>,
}

/// The files as a sequence of paths taken by value.
pub open spec fn paths_view(v: Seq<Vec<u8>>) -> Seq<Seq<u8>> {
    v.map_values(|p: Vec<u8>| p@)
}

/// A core topology taken by value.
pub open spec fn core_view(c: CoreTopology) -> CoreTopologyView {
    CoreTopologyView {
        mem_config: c.mem_config,
        mappings: mappings_view(c.ball_domain.mappings@),
        isa: c.ball_domain.isa@,
        files_read: paths_view(c.files_read@),
    }
}

/// The file a core configuration names under `key` (`memdomain` or
/// `balldomain`), resolved against the core file's directory `dir`:
/// `None` where the key is absent.
pub open spec fn spec_named_file(core: TomlValue, key: &'static str, dir: Seq<u8>) -> Result<Option<Seq<u8>>, ConfigError> {
    match spec_get(core, key@) {
        None => Ok(None),
        Some(TomlValue::String(s)) => Ok(Some(spec_resolve(dir, encode_utf8(s@)))),
        Some(_) => Err(ConfigError::MissingString { key }),
    }
}

/// The topology of the core whose configuration is at `path`: the memory
/// domain it names (the default geometry where it names none) and the
/// ball domain it names (none where it names none), each file read in
/// turn.
pub open spec fn spec_parse_core(files: Seq<(Vec<u8>, TomlValue)>, path: Seq<u8>) -> LoadView<CoreTopologyView> {
    match spec_file(files, path) {
        None => LoadView::NeedFile(path),
        Some(core) => match spec_core_mem(files, core, path) {
            LoadView::NeedFile(p) => LoadView::NeedFile(p),
            LoadView::Failed(e) => LoadView::Failed(e),
            LoadView::Done((m, reads)) => spec_core_balls(files, core, path, m, reads),
        },
    }
}

/// The memory geometry a core configuration gives, with the files read
/// for it.
pub open spec fn spec_core_mem(files: Seq<(Vec<u8>, TomlValue)>, core: TomlValue, path: Seq<u8>) -> LoadView<
    (MemConfig, Seq<Seq<u8>>),
> {
    match spec_named_file(core, "memdomain", spec_parent(path)) {
        Err(e) => LoadView::Failed(e),
        Ok(None) => LoadView::Done((default_mem_config(), seq![path])),
        Ok(Some(mp)) => match spec_file(files, mp) {
            None => LoadView::NeedFile(mp),
            Some(mv) => match spec_parse_memory(mv) {
                Err(e) => LoadView::Failed(e),
                Ok(m) => LoadView::Done((m, seq![path, mp])),
            },
        },
    }
}

/// The topology of a core configuration once its memory geometry `m` is
/// known from the files `reads`.
pub open spec fn spec_core_balls(
    files: Seq<(Vec<u8>, TomlValue)>,
    core: TomlValue,
    path: Seq<u8>,
    m: MemConfig,
    reads: Seq<Seq<u8>>,
) -> LoadView<CoreTopologyView> {
    match spec_named_file(core, "balldomain", spec_parent(path)) {
        Err(e) => LoadView::Failed(e),
        Ok(None) => LoadView::Done(
            CoreTopologyView { mem_config: m, mappings: Seq::empty(), isa: Seq::empty(), files_read: reads },
        ),
        Ok(Some(bp)) => match spec_file(files, bp) {
            None => LoadView::NeedFile(bp),
            Some(bv) => match spec_parse_balls(bv) {
                Err(e) => LoadView::Failed(e),
                Ok((mappings, isa)) => LoadView::Done(
                    CoreTopologyView { mem_config: m, mappings, isa, files_read: reads.push(bp) },
                ),
            },
        },
    }
}

/// A core load taken by value.
pub open spec fn core_load_view(l: Load<CoreTopology>) -> LoadView<CoreTopologyView> {
    match l {
        Load::NeedFile(p) => LoadView::NeedFile(p@),
        Load::Failed(e) => LoadView::Failed(e),
        Load::Done(c) => LoadView::Done(core_view(c)),
    }
}

impl ConfigFiles {
    /// No files read yet.
    pub fn new() -> (r: ConfigFiles)
        ensures
            r.files@.len() == 0,
    {
        ConfigFiles { files: Vec::new() }
    }

    /// Records the value of the file at `path`.
    pub fn add(&mut self, path: Vec<u8>, value: TomlValue)
        ensures
            final(self).files@ == old(self).files@.push((path, value)),
    {
        self.files.push((path, value));
    }

    /// The value of the file at `path`, where it has been read.
    pub fn file(&self, path: &[u8]) -> (r: Option<&TomlValue>)
        ensures
            match spec_file(self.files@, path@) {
                Some(v) => r is Some && *r->Some_0 == v,
                None => r is None,
            },
    {
        let mut i: usize = 0;
        assert(self.files@.subrange(0, self.files@.len() as int) =~= self.files@);
        while i < self.files.len()
            invariant
                i <= self.files@.len(),
                spec_file(self.files@.subrange(i as int, self.files@.len() as int), path@) == spec_file(
                    self.files@,
                    path@,
                ),
            decreases self.files@.len() - i,
        {
            let ghost rest = self.files@.subrange(i as int, self.files@.len() as int);
            assert(rest[0] == self.files@[i as int]);
            if bytes_equal(self.files[i].0.as_slice(), path) {
                return Some(&self.files[i].1);
            }
            assert(rest.subrange(1, rest.len() as int) =~= self.files@.subrange(i + 1, self.files@.len() as int));
            i = i + 1;
        }
        None
    }
}

/// Whether `a` and `b` hold the same bytes.
fn bytes_equal(a: &[u8], b: &[u8]) -> (r: bool)
    ensures
        r == (a@ == b@),
{
    if a.len() != b.len() {
        return false;
    }
    let mut i: usize = 0;
    while i < a.len()
        invariant
            i <= a@.len() == b@.len(),
            forall|k: int| 0 <= k < i ==> a@[k] == b@[k],
        decreases a@.len() - i,
    {
        if a[i] != b[i] {
            return false;
        }
        i = i + 1;
    }
    assert(a@ =~= b@);
    true
}

/// The directory of the file at `path`.
pub fn parent(path: &[u8]) -> (r: Vec<u8>)
    ensures
        r@ == spec_parent(path@),
{
    let mut n: usize = path.len();
    assert(path@.subrange(0, n as int) =~= path@);
    while n > 0 && path[n - 1] != 47
        invariant
            n <= path@.len(),
            spec_parent(path@.subrange(0, n as int)) == spec_parent(path@),
        decreases n,
    {
        assert(path@.subrange(0, n as int).drop_last() =~= path@.subrange(0, n - 1));
        n = n - 1;
    }
    if n == 0 {
        Vec::new()
    } else if n == 1 {
        assert(path@.subrange(0, 1).last() == 47);
        vec![47u8]
    } else {
        assert(path@.subrange(0, n as int).drop_last() =~= path@.subrange(0, n - 1));
        vstd::slice::slice_to_vec(&path[0..n - 1])
    }
}

/// The file under `key` of a core configuration, resolved against `dir`.
pub fn named_file(core: &TomlValue, key: &'static str, dir: &[u8]) -> (r: Result<Option<Vec<u8>>, ConfigError>)
    ensures
        match spec_named_file(*core, key, dir@) {
            Ok(None) => r is Ok && r->Ok_0 is None,
            Ok(Some(p)) => r is Ok && r->Ok_0 is Some && r->Ok_0->Some_0@ == p,
            Err(e) => r is Err && r->Err_0 == e,
        },
{
    match get(core, key) {
        None => Ok(None),
        Some(TomlValue::String(s)) => Ok(Some(resolve(dir, s.as_str().as_bytes()))),
        Some(_) => Err(ConfigError::MissingString { key }),
    }
}

/// Loads the topology of the core whose configuration is at `path` from
/// the files read so far, or names the file to read next.
pub fn parse_core_config(files: &ConfigFiles, path: &[u8]) -> (r: Load<CoreTopology>)
    ensures
        core_load_view(r) == spec_parse_core(files.files@, path@),
{
    let core = match files.file(path) {
        None => return Load::NeedFile(vstd::slice::slice_to_vec(path)),
        Some(v) => v,
    };
    let dir = parent(path);
    let mut files_read: Vec<Vec<u8>> = Vec::new();
    files_read.push(vstd::slice::slice_to_vec(path));
    assert(paths_view(files_read@) =~= seq![path@]);
    let mem_config = match named_file(core, "memdomain", dir.as_slice()) {
        Err(e) => return Load::Failed(e),
        Ok(None) => {
            let m = MemConfig::default();
            assert(m == default_mem_config());
            m
        },
        Ok(Some(mp)) => {
            let mv = match files.file(mp.as_slice()) {
                None => return Load::NeedFile(mp),
                Some(v) => v,
            };
            match parse_memory(mv) {
                Err(e) => return Load::Failed(e),
                Ok(m) => {
                    let ghost before = files_read@;
                    files_read.push(mp);
                    assert(paths_view(files_read@) =~= paths_view(before).push(mp@));
                    assert(paths_view(files_read@) =~= seq![path@, mp@]);
                    m
                },
            }
        },
    };
    let ghost reads = paths_view(files_read@);
    assert(spec_core_mem(files.files@, *core, path@) == LoadView::Done((mem_config, reads)));
    let ball_domain = match named_file(core, "balldomain", dir.as_slice()) {
        Err(e) => return Load::Failed(e),
        Ok(None) => BallDomainConfig::empty(),
        Ok(Some(bp)) => {
            let bv = match files.file(bp.as_slice()) {
                None => return Load::NeedFile(bp),
                Some(v) => v,
            };
            match parse_balls(bv) {
                Err(e) => return Load::Failed(e),
                Ok(b) => {
                    let ghost before = files_read@;
                    files_read.push(bp);
                    assert(paths_view(files_read@) =~= paths_view(before).push(bp@));
                    b
                },
            }
        },
    };
    let r = CoreTopology { mem_config, ball_domain, files_read };
    assert(mappings_view(Seq::<BallIdMapping>::empty()) =~= Seq::<(u32, Seq<char>)>::empty());
    proof {
        let cv = core_view(r);
        match spec_named_file(*core, "balldomain", spec_parent(path@)) {
            Ok(None) => {
                assert(cv.mappings =~= Seq::<(u32, Seq<char>)>::empty());
                assert(cv.isa =~= Seq::<BallIsaEntry>::empty());
                assert(cv.files_read =~= reads);
            },
            Ok(Some(bp)) => {
                assert(cv.files_read =~= reads.push(bp));
            },
            Err(_) => {},
        }
    }
    Load::Done(r)
}

// ---------------------------------------------------------------------------
// Tiles and chips
// ---------------------------------------------------------------------------

/// A tile's cores (each with its name, its configuration file and its
/// topology), its virtual bank count, and the files it was read from.
#[derive(Debug)]
pub struct TileTopology {
    pub cores: Vec<(Vec<u8>, Vec<u8>, CoreTopology)>,
    pub virtual_bank_count: usize,
    pub files_read: Vec<Vec<u8>>,
}

/// A tile's core taken by value.
pub open spec fn tile_core_view(c: (Vec<u8>, Vec<u8>, CoreTopology)) -> (Seq<u8>, Seq<u8>, CoreTopologyView) {
    (c.0@, c.1@, core_view(c.2))
}

/// A tile's cores taken by value.
pub open spec fn tile_cores_view(cores: Seq<(Vec<u8>, Vec<u8>, CoreTopology)>) -> Seq<(Seq<u8>, Seq<u8>, CoreTopologyView)> {
    cores.map_values(|c: (Vec<u8>, Vec<u8>, CoreTopology)| tile_core_view(c))
}

/// The core a tile entry (`include`, optional `name`) names: its name
/// (the entry's, else its directory's), its file, and its topology.
pub open spec fn spec_core_entry(files: Seq<(Vec<u8>, TomlValue)>, entry: TomlValue, dir: Seq<u8>) -> LoadView<
    (Seq<u8>, Seq<u8>, CoreTopologyView),
> {
    match spec_string(entry, "include") {
        Err(e) => LoadView::Failed(e),
        Ok(inc) => {
            let core_path = spec_resolve(dir, encode_utf8(inc));
            match spec_parse_core(files, core_path) {
                LoadView::NeedFile(p) => LoadView::NeedFile(p),
                LoadView::Failed(e) => LoadView::Failed(e),
                LoadView::Done(c) => {
                    let name = match spec_get(entry, "name"@) {
                        Some(TomlValue::String(n)) => encode_utf8(n@),
                        _ => spec_default_core_name(core_path),
                    };
                    LoadView::Done((name, core_path, c))
                },
            }
        },
    }
}

/// The cores of the tile entries `entries`, in order.
pub open spec fn spec_core_entries(files: Seq<(Vec<u8>, TomlValue)>, entries: Seq<TomlValue>, dir: Seq<u8>) -> LoadView<
    Seq<(Seq<u8>, Seq<u8>, CoreTopologyView)>,
>
    decreases entries.len(),
{
    if entries.len() == 0 {
        LoadView::Done(Seq::empty())
    } else {
        match spec_core_entries(files, entries.drop_last(), dir) {
            LoadView::NeedFile(p) => LoadView::NeedFile(p),
            LoadView::Failed(e) => LoadView::Failed(e),
            LoadView::Done(prev) => match spec_core_entry(files, entries.last(), dir) {
                LoadView::NeedFile(p) => LoadView::NeedFile(p),
                LoadView::Failed(e) => LoadView::Failed(e),
                LoadView::Done(c) => LoadView::Done(prev.push(c)),
            },
        }
    }
}

/// The tile entries under `cores`, where it is an array.
pub open spec fn core_list(tile: TomlValue) -> Seq<TomlValue> {
    match spec_get(tile, "cores"@) {
        Some(TomlValue::Array(a)) => a@,
        _ => Seq::empty(),
    }
}

/// `count` copies of the template entry.
pub open spec fn repeated(entry: TomlValue, count: nat) -> Seq<TomlValue> {
    Seq::new(count, |i: int| entry)
}

/// The entries of a tile: those under `cores`, then `coreTemplate.count`
/// copies of `coreTemplate`.
pub open spec fn spec_tile_entries(tile: TomlValue) -> Result<Seq<TomlValue>, ConfigError> {
    match spec_get(tile, "coreTemplate"@) {
        None => Ok(core_list(tile)),
        Some(t) => match spec_unsigned(t, "count", usize::MAX as int) {
            Err(e) => Err(e),
            Ok(n) => Ok(core_list(tile) + repeated(t, n as nat)),
        },
    }
}

/// The files the cores were read from, in order.
pub open spec fn cores_reads(cores: Seq<(Seq<u8>, Seq<u8>, CoreTopologyView)>) -> Seq<Seq<u8>>
    decreases cores.len(),
{
    if cores.len() == 0 {
        Seq::empty()
    } else {
        cores_reads(cores.drop_last()) + cores.last().2.files_read
    }
}

/// The largest private bank count of the cores.
pub open spec fn max_core_banks(cores: Seq<(Seq<u8>, Seq<u8>, CoreTopologyView)>) -> nat
    decreases cores.len(),
{
    if cores.len() == 0 {
        0
    } else {
        let rest = max_core_banks(cores.drop_last());
        let last = cores.last().2.mem_config.bank_num as nat;
        if last > rest {
            last
        } else {
            rest
        }
    }
}

/// A tile topology taken by value.
pub struct TileTopologyView {
    pub cores: Seq<(Seq<u8>, Seq<u8>, CoreTopologyView)>,
    pub virtual_bank_count: nat,
    pub files_read: Seq<Seq<u8>>,
}

/// The tile whose configuration is at `path`: its cores, its virtual bank
/// count (`sharedMem.virtualBankCount`, else the largest private bank
/// count of its cores), and the files read.
pub open spec fn spec_parse_tile(files: Seq<(Vec<u8>, TomlValue)>, path: Seq<u8>) -> LoadView<TileTopologyView> {
    match spec_file(files, path) {
        None => LoadView::NeedFile(path),
        Some(tile) => {
            let dir = spec_parent(path);
            match spec_core_entries(files, core_list(tile), dir) {
                LoadView::NeedFile(p) => LoadView::NeedFile(p),
                LoadView::Failed(e) => LoadView::Failed(e),
                LoadView::Done(listed) => match spec_tile_entries(tile) {
                    Err(e) => LoadView::Failed(e),
                    Ok(entries) => match spec_core_entries(files, entries, dir) {
                        LoadView::NeedFile(p) => LoadView::NeedFile(p),
                        LoadView::Failed(e) => LoadView::Failed(e),
                        LoadView::Done(cores) => if cores.len() == 0 {
                            LoadView::Failed(ConfigError::NoCores)
                        } else {
                            let vbc = match spec_get(tile, "sharedMem"@) {
                                Some(sm) => match spec_get(sm, "virtualBankCount"@) {
                                    Some(TomlValue::Integer(i)) => if 0 <= i <= usize::MAX {
                                        Ok(i as nat)
                                    } else {
                                        Err(ConfigError::OutOfRange { key: "virtualBankCount" })
                                    },
                                    _ => Ok(max_core_banks(cores)),
                                },
                                None => Ok(max_core_banks(cores)),
                            };
                            match vbc {
                                Err(e) => LoadView::Failed(e),
                                Ok(v) => LoadView::Done(
                                    TileTopologyView {
                                        cores,
                                        virtual_bank_count: v,
                                        files_read: seq![path] + cores_reads(cores),
                                    },
                                ),
                            }
                        },
                    },
                },
            }
        },
    }
}

/// A tile load taken by value.
pub open spec fn tile_load_view(l: Load<TileTopology>) -> LoadView<TileTopologyView> {
    match l {
        Load::NeedFile(p) => LoadView::NeedFile(p@),
        Load::Failed(e) => LoadView::Failed(e),
        Load::Done(t) => LoadView::Done(
            TileTopologyView {
                cores: tile_cores_view(t.cores@),
                virtual_bank_count: t.virtual_bank_count as nat,
                files_read: paths_view(t.files_read@),
            },
        ),
    }
}

/// Loads the core a tile entry names.
fn core_entry(files: &ConfigFiles, entry: &TomlValue, dir: &[u8]) -> (r: Load<(Vec<u8>, Vec<u8>, CoreTopology)>)
    ensures
        match r {
            Load::NeedFile(p) => spec_core_entry(files.files@, *entry, dir@) == LoadView::<
                (Seq<u8>, Seq<u8>, CoreTopologyView),
            >::NeedFile(p@),
            Load::Failed(e) => spec_core_entry(files.files@, *entry, dir@) == LoadView::<
                (Seq<u8>, Seq<u8>, CoreTopologyView),
            >::Failed(e),
            Load::Done(c) => spec_core_entry(files.files@, *entry, dir@) == LoadView::Done(tile_core_view(c)),
        },
{
    let inc = match string(entry, "include") {
        Err(e) => return Load::Failed(e),
        Ok(s) => s,
    };
    let core_path = resolve(dir, inc.as_str().as_bytes());
    let core = match parse_core_config(files, core_path.as_slice()) {
        Load::NeedFile(p) => return Load::NeedFile(p),
        Load::Failed(e) => return Load::Failed(e),
        Load::Done(c) => c,
    };
    let name = match get(entry, "name") {
        Some(TomlValue::String(n)) => vstd::slice::slice_to_vec(n.as_str().as_bytes()),
        _ => default_core_name(core_path.as_slice()),
    };
    Load::Done((name, core_path, core))
}

/// Loads the cores of `entries` in order, appending them to `cores` and
/// their files to `reads`.
fn add_cores(
    files: &ConfigFiles,
    entries: &Vec<TomlValue>,
    dir: &[u8],
    cores: &mut Vec<(Vec<u8>, Vec<u8>, CoreTopology)>,
    reads: &mut Vec<Vec<u8>>,
) -> (r: Option<Load<()>>)
    ensures
        match spec_core_entries(files.files@, entries@, dir@) {
            LoadView::NeedFile(p) => r matches Some(Load::NeedFile(q)) && q@ == p,
            LoadView::Failed(e) => r matches Some(Load::Failed(f)) && f == e,
            LoadView::Done(cs) => r is None && tile_cores_view(final(cores)@) == tile_cores_view(old(cores)@) + cs
                && paths_view(final(reads)@) == paths_view(old(reads)@) + cores_reads(cs),
        },
{
    let ghost cores0 = tile_cores_view(cores@);
    let ghost reads0 = paths_view(reads@);
    let mut k: usize = 0;
    assert(entries@.subrange(0, 0) =~= Seq::<TomlValue>::empty());
    assert(tile_cores_view(cores@) =~= cores0 + Seq::empty());
    assert(paths_view(reads@) =~= reads0 + Seq::empty());
    while k < entries.len()
        invariant
            k <= entries@.len(),
            spec_core_entries(files.files@, entries@.subrange(0, k as int), dir@) matches LoadView::Done(cs) && tile_cores_view(cores@) == cores0 + cs
                && paths_view(reads@) == reads0 + cores_reads(cs),
        decreases entries@.len() - k,
    {
        let ghost prefix = entries@.subrange(0, k as int);
        let ghost s = entries@.subrange(0, k as int + 1);
        assert(s.drop_last() =~= prefix);
        assert(s.last() == entries@[k as int]);
        match core_entry(files, &entries[k], dir) {
            Load::NeedFile(p) => {
                proof {
                    lemma_core_entries_prefix(files.files@, entries@, dir@, k as int + 1);
                }
                return Some(Load::NeedFile(p));
            },
            Load::Failed(e) => {
                proof {
                    lemma_core_entries_prefix(files.files@, entries@, dir@, k as int + 1);
                }
                return Some(Load::Failed(e));
            },
            Load::Done(c) => {
                let ghost cs = match spec_core_entries(files.files@, prefix, dir@) {
                    LoadView::Done(x) => x,
                    _ => Seq::empty(),
                };
                let ghost cv = tile_core_view(c);
                let ghost c_reads = cv.2.files_read;
                let ghost before_cores = cores@;
                let ghost before_reads = reads@;
                let mut i: usize = 0;
                while i < c.2.files_read.len()
                    invariant
                        i <= c.2.files_read@.len(),
                        c_reads == paths_view(c.2.files_read@),
                        paths_view(reads@) == paths_view(before_reads) + c_reads.subrange(0, i as int),
                    decreases c.2.files_read@.len() - i,
                {
                    let ghost b = reads@;
                    reads.push(vstd::slice::slice_to_vec(c.2.files_read[i].as_slice()));
                    assert(paths_view(reads@) =~= paths_view(b).push(c_reads[i as int]));
                    assert(c_reads.subrange(0, i as int + 1) =~= c_reads.subrange(0, i as int).push(c_reads[i as int]));
                    i = i + 1;
                }
                assert(c_reads.subrange(0, i as int) =~= c_reads);
                cores.push(c);
                proof {
                    assert(tile_cores_view(cores@) =~= tile_cores_view(before_cores).push(cv));
                    let ncs = cs.push(cv);
                    assert(ncs.drop_last() =~= cs);
                    assert(cores_reads(ncs) == cores_reads(cs) + c_reads);
                    assert(tile_cores_view(cores@) =~= cores0 + ncs);
                    assert(paths_view(reads@) =~= reads0 + cores_reads(ncs));
                }
                k = k + 1;
            },
        }
    }
    assert(entries@.subrange(0, k as int) =~= entries@);
    None
}

/// A load that stops in a prefix of the entries stops there for all of
/// them.
proof fn lemma_core_entries_prefix(files: Seq<(Vec<u8>, TomlValue)>, entries: Seq<TomlValue>, dir: Seq<u8>, k: int)
    requires
        0 <= k <= entries.len(),
        !(spec_core_entries(files, entries.subrange(0, k), dir) is Done),
    ensures
        spec_core_entries(files, entries, dir) == spec_core_entries(files, entries.subrange(0, k), dir),
    decreases entries.len() - k,
{
    if k < entries.len() {
        let s = entries.subrange(0, k + 1);
        assert(s.drop_last() =~= entries.subrange(0, k));
        lemma_core_entries_prefix(files, entries, dir, k + 1);
    } else {
        assert(entries.subrange(0, k) =~= entries);
    }
}


/// Loads `count` cores of the template entry `t` after the cores of
/// `entries0` (already in `cores`, their files after `path` in `reads`).
fn add_template_cores(
    files: &ConfigFiles,
    t: &TomlValue,
    count: usize,
    dir: &[u8],
    Ghost(entries0): Ghost<Seq<TomlValue>>,
    Ghost(path): Ghost<Seq<u8>>,
    cores: &mut Vec<(Vec<u8>, Vec<u8>, CoreTopology)>,
    reads: &mut Vec<Vec<u8>>,
) -> (r: Option<Load<()>>)
    requires
        spec_core_entries(files.files@, entries0, dir@) matches LoadView::Done(cs) && tile_cores_view(old(cores)@) == cs
            && paths_view(old(reads)@) == seq![path] + cores_reads(cs),
    ensures
        match spec_core_entries(files.files@, entries0 + repeated(*t, count as nat), dir@) {
            LoadView::NeedFile(p) => r matches Some(Load::NeedFile(q)) && q@ == p,
            LoadView::Failed(e) => r matches Some(Load::Failed(f)) && f == e,
            LoadView::Done(cs) => r is None && tile_cores_view(final(cores)@) == cs && paths_view(final(reads)@)
                == seq![path] + cores_reads(cs),
        },
{
    let mut i: usize = 0;
    assert(entries0 + repeated(*t, 0) =~= entries0);
    while i < count
        invariant
            i <= count,
            spec_core_entries(files.files@, entries0 + repeated(*t, i as nat), dir@) matches LoadView::Done(cs)
                && tile_cores_view(cores@) == cs && paths_view(reads@) == seq![path] + cores_reads(cs),
        decreases count - i,
    {
        let ghost es = entries0 + repeated(*t, (i + 1) as nat);
        let ghost all = entries0 + repeated(*t, count as nat);
        assert(es.drop_last() =~= entries0 + repeated(*t, i as nat));
        assert(es.last() == *t);
        assert(all.subrange(0, es.len() as int) =~= es);
        let ghost cs = match spec_core_entries(files.files@, entries0 + repeated(*t, i as nat), dir@) {
            LoadView::Done(x) => x,
            _ => Seq::empty(),
        };
        match core_entry(files, t, dir) {
            Load::NeedFile(p) => {
                proof {
                    lemma_core_entries_prefix(files.files@, all, dir@, es.len() as int);
                }
                return Some(Load::NeedFile(p));
            },
            Load::Failed(e) => {
                proof {
                    lemma_core_entries_prefix(files.files@, all, dir@, es.len() as int);
                }
                return Some(Load::Failed(e));
            },
            Load::Done(c) => {
                let ghost cv = tile_core_view(c);
                let ghost c_reads = cv.2.files_read;
                let ghost before_cores = cores@;
                let ghost before_reads = reads@;
                let mut j: usize = 0;
                while j < c.2.files_read.len()
                    invariant
                        j <= c.2.files_read@.len(),
                        c_reads == paths_view(c.2.files_read@),
                        paths_view(reads@) == paths_view(before_reads) + c_reads.subrange(0, j as int),
                    decreases c.2.files_read@.len() - j,
                {
                    let ghost b = reads@;
                    reads.push(vstd::slice::slice_to_vec(c.2.files_read[j].as_slice()));
                    assert(paths_view(reads@) =~= paths_view(b).push(c_reads[j as int]));
                    assert(c_reads.subrange(0, j as int + 1) =~= c_reads.subrange(0, j as int).push(c_reads[j as int]));
                    j = j + 1;
                }
                assert(c_reads.subrange(0, j as int) =~= c_reads);
                cores.push(c);
                proof {
                    assert(tile_cores_view(cores@) =~= tile_cores_view(before_cores).push(cv));
                    let ncs = cs.push(cv);
                    assert(ncs.drop_last() =~= cs);
                    assert(cores_reads(ncs) == cores_reads(cs) + c_reads);
                    assert(paths_view(reads@) =~= seq![path] + cores_reads(ncs));
                }
                i = i + 1;
            },
        }
    }
    None
}

/// Loads the tile whose configuration is at `path` from the files read so
/// far, or names the file to read next.
pub fn parse_tile_config(files: &ConfigFiles, path: &[u8]) -> (r: Load<TileTopology>)
    ensures
        tile_load_view(r) == spec_parse_tile(files.files@, path@),
{
    let tile = match files.file(path) {
        None => return Load::NeedFile(vstd::slice::slice_to_vec(path)),
        Some(v) => v,
    };
    let dir = parent(path);
    let mut cores: Vec<(Vec<u8>, Vec<u8>, CoreTopology)> = Vec::new();
    let mut reads: Vec<Vec<u8>> = Vec::new();
    reads.push(vstd::slice::slice_to_vec(path));
    assert(paths_view(reads@) =~= seq![path@]);
    assert(tile_cores_view(cores@) =~= Seq::empty());
    let no_entries: Vec<TomlValue> = Vec::new();
    let listed: &Vec<TomlValue> = match get(tile, "cores") {
        Some(TomlValue::Array(a)) => a,
        _ => &no_entries,
    };
    assert(listed@ == core_list(*tile));
    match add_cores(files, listed, dir.as_slice(), &mut cores, &mut reads) {
        Some(Load::NeedFile(p)) => return Load::NeedFile(p),
        Some(Load::Failed(e)) => return Load::Failed(e),
        _ => {},
    }
    let ghost listed_cores = tile_cores_view(cores@);
    match get(tile, "coreTemplate") {
        None => {
            assert(spec_tile_entries(*tile) == Ok::<Seq<TomlValue>, ConfigError>(core_list(*tile)));
        },
        Some(t) => {
            let count = match usize_value(t, "count") {
                Err(e) => return Load::Failed(e),
                Ok(n) => n,
            };
            match add_template_cores(files, t, count, dir.as_slice(), Ghost(listed@), Ghost(path@), &mut cores, &mut reads) {
                Some(Load::NeedFile(p)) => return Load::NeedFile(p),
                Some(Load::Failed(e)) => return Load::Failed(e),
                _ => {},
            }
            assert(spec_tile_entries(*tile) == Ok::<Seq<TomlValue>, ConfigError>(
                core_list(*tile) + repeated(*t, count as nat),
            ));
        },
    }
    if cores.len() == 0 {
        return Load::Failed(ConfigError::NoCores);
    }
    let ghost cs = tile_cores_view(cores@);
    let mut widest: usize = 0;
    let mut k: usize = 0;
    while k < cores.len()
        invariant
            k <= cores@.len(),
            cs == tile_cores_view(cores@),
            widest == max_core_banks(cs.subrange(0, k as int)),
        decreases cores@.len() - k,
    {
        let n = cores[k].2.mem_config.bank_num;
        proof {
            let s = cs.subrange(0, k as int + 1);
            assert(s.drop_last() =~= cs.subrange(0, k as int));
            assert(s.last() == cs[k as int]);
        }
        if n > widest {
            widest = n;
        }
        k = k + 1;
    }
    assert(cs.subrange(0, k as int) =~= cs);
    let shared = get(tile, "sharedMem");
    let mut virtual_bank_count: usize = widest;
    match shared {
        Some(sm) => match get(sm, "virtualBankCount") {
            Some(TomlValue::Integer(i)) => {
                if *i >= 0 && (*i as u64) <= (usize::MAX as u64) {
                    virtual_bank_count = *i as usize;
                } else {
                    return Load::Failed(ConfigError::OutOfRange { key: "virtualBankCount" });
                }
            },
            _ => {},
        },
        None => {},
    }
    Load::Done(TileTopology { cores, virtual_bank_count, files_read: reads })
}

/// The tile entry of a chip: the first of `[[tiles]]`, else
/// `[tileTemplate]`.
pub open spec fn spec_tile_entry(chip: TomlValue) -> Option<TomlValue> {
    match spec_get(chip, "tiles"@) {
        Some(TomlValue::Array(a)) if a@.len() > 0 => Some(a@[0]),
        _ => spec_get(chip, "tileTemplate"@),
    }
}

/// Index of the first core that has balls.
pub open spec fn first_ball_core(cores: Seq<(Seq<u8>, Seq<u8>, CoreTopologyView)>) -> Option<int>
    decreases cores.len(),
{
    if cores.len() == 0 {
        None
    } else {
        match first_ball_core(cores.drop_last()) {
            Some(k) => Some(k),
            None => if cores.last().2.mappings.len() > 0 {
                Some(cores.len() - 1)
            } else {
                None
            },
        }
    }
}

/// The topology a chip configuration gives: the first core with balls of
/// its first tile, with every file read for the chip.
pub open spec fn spec_parse_topology(files: Seq<(Vec<u8>, TomlValue)>, path: Seq<u8>) -> LoadView<CoreTopologyView> {
    match spec_file(files, path) {
        None => LoadView::NeedFile(path),
        Some(chip) => match spec_tile_entry(chip) {
            None => LoadView::Failed(ConfigError::MissingTile),
            Some(entry) => match spec_string(entry, "include") {
                Err(e) => LoadView::Failed(e),
                Ok(inc) => match spec_parse_tile(files, spec_resolve(spec_parent(path), encode_utf8(inc))) {
                    LoadView::NeedFile(p) => LoadView::NeedFile(p),
                    LoadView::Failed(e) => LoadView::Failed(e),
                    LoadView::Done(t) => match first_ball_core(t.cores) {
                        None => LoadView::Failed(ConfigError::NoBallCore),
                        Some(k) => LoadView::Done(
                            CoreTopologyView { files_read: seq![path] + t.files_read, ..t.cores[k].2 },
                        ),
                    },
                },
            },
        },
    }
}

/// Loads the topology of a chip configuration from the files read so far,
/// or names the file to read next.
pub fn parse_topology(files: &ConfigFiles, path: &[u8]) -> (r: Load<CoreTopology>)
    ensures
        core_load_view(r) == spec_parse_topology(files.files@, path@),
{
    let chip = match files.file(path) {
        None => return Load::NeedFile(vstd::slice::slice_to_vec(path)),
        Some(v) => v,
    };
    let entry: &TomlValue = match get(chip, "tiles") {
        Some(TomlValue::Array(a)) if a.len() > 0 => &a[0],
        _ => match get(chip, "tileTemplate") {
            Some(t) => t,
            None => return Load::Failed(ConfigError::MissingTile),
        },
    };
    let inc = match string(entry, "include") {
        Err(e) => return Load::Failed(e),
        Ok(s) => s,
    };
    let dir = parent(path);
    let tile_path = resolve(dir.as_slice(), inc.as_str().as_bytes());
    let tile = match parse_tile_config(files, tile_path.as_slice()) {
        Load::NeedFile(p) => return Load::NeedFile(p),
        Load::Failed(e) => return Load::Failed(e),
        Load::Done(t) => t,
    };
    let ghost cs = tile_cores_view(tile.cores@);
    let mut k: usize = 0;
    let mut found = false;
    while k < tile.cores.len() && !found
        invariant
            k <= tile.cores@.len(),
            cs == tile_cores_view(tile.cores@),
            !found ==> first_ball_core(cs.subrange(0, k as int)) is None,
            found ==> k < tile.cores@.len() && first_ball_core(cs) == Some(k as int),
        decreases tile.cores@.len() - k + if found {
            0int
        } else {
            1int
        },
    {
        let ghost s = cs.subrange(0, k as int + 1);
        assert(s.drop_last() =~= cs.subrange(0, k as int));
        assert(s.last() == cs[k as int]);
        if tile.cores[k].2.ball_domain.mappings.len() > 0 {
            proof {
                assert(first_ball_core(s) == Some(k as int));
                lemma_first_ball_core_prefix(cs, k as int + 1);
            }
            found = true;
        } else {
            k = k + 1;
        }
    }
    if !found {
        assert(cs.subrange(0, k as int) =~= cs);
        return Load::Failed(ConfigError::NoBallCore);
    }
    let mut files_read: Vec<Vec<u8>> = Vec::new();
    files_read.push(vstd::slice::slice_to_vec(path));
    let mut j: usize = 0;
    assert(paths_view(files_read@) =~= seq![path@] + paths_view(tile.files_read@).subrange(0, 0));
    while j < tile.files_read.len()
        invariant
            j <= tile.files_read@.len(),
            paths_view(files_read@) == seq![path@] + paths_view(tile.files_read@).subrange(0, j as int),
        decreases tile.files_read@.len() - j,
    {
        let ghost b = files_read@;
        files_read.push(vstd::slice::slice_to_vec(tile.files_read[j].as_slice()));
        assert(paths_view(files_read@) =~= paths_view(b).push(paths_view(tile.files_read@)[j as int]));
        assert(paths_view(tile.files_read@).subrange(0, j as int + 1) =~= paths_view(tile.files_read@).subrange(
            0,
            j as int,
        ).push(paths_view(tile.files_read@)[j as int]));
        j = j + 1;
    }
    assert(paths_view(tile.files_read@).subrange(0, j as int) =~= paths_view(tile.files_read@));
    let mut cores = tile.cores;
    let chosen = cores.remove(k);
    let r = CoreTopology { mem_config: chosen.2.mem_config, ball_domain: chosen.2.ball_domain, files_read };
    assert(chosen == tile.cores@[k as int]);
    Load::Done(r)
}

/// A core with balls found in a prefix is the first one of all cores.
proof fn lemma_first_ball_core_prefix(cores: Seq<(Seq<u8>, Seq<u8>, CoreTopologyView)>, k: int)
    requires
        0 <= k <= cores.len(),
        first_ball_core(cores.subrange(0, k)) is Some,
    ensures
        first_ball_core(cores) == first_ball_core(cores.subrange(0, k)),
    decreases cores.len() - k,
{
    if k < cores.len() {
        let s = cores.subrange(0, k + 1);
        assert(s.drop_last() =~= cores.subrange(0, k));
        lemma_first_ball_core_prefix(cores, k + 1);
    } else {
        assert(cores.subrange(0, k) =~= cores);
    }
}

/// `BEMU_TOP_CONFIG`, the name the engine's source gives its top
/// configuration under.
pub open spec fn top_config_marker() -> Seq<u8> {
    seq![66u8, 69u8, 77u8, 85u8, 95u8, 84u8, 79u8, 80u8, 95u8, 67u8, 79u8, 78u8, 70u8, 73u8, 71u8]
}

/// `s` up to the first occurrence of `needle` (all of it where there is
/// none).
pub open spec fn before_first(s: Seq<u8>, needle: Seq<u8>) -> Seq<u8> {
    match first_occurrence(s, needle) {
        Some(i) => s.subrange(0, i),
        None => s,
    }
}

/// The top configuration an engine's `src/lib.rs` text names: the first
/// quoted text after `BEMU_TOP_CONFIG` (before any second mention),
/// resolved against `lib_dir`, the directory of `src/lib.rs`.
pub open spec fn spec_top_config(source: Seq<u8>, lib_dir: Seq<u8>) -> Option<Seq<u8>> {
    let m = top_config_marker();
    match first_occurrence(source, m) {
        None => None,
        Some(i) => {
            let seg = before_first(source.subrange(i + m.len(), source.len() as int), m);
            match first_occurrence(seg, seq![34u8]) {
                None => None,
                Some(q) => Some(
                    spec_resolve(lib_dir, before_first(seg.subrange(q + 1, seg.len() as int), seq![34u8])),
                ),
            }
        },
    }
}

/// `s[..first occurrence of needle]`, or all of `s`.
fn cut_before<'a>(s: &'a [u8], needle: &[u8]) -> (r: &'a [u8])
    requires
        needle@.len() > 0,
    ensures
        r@ == before_first(s@, needle@),
{
    match find_bytes(s, needle) {
        Some(i) => &s[0..i],
        None => {
            assert(s@.subrange(0, s@.len() as int) =~= s@);
            &s[0..s.len()]
        },
    }
}

/// The top configuration an engine's `src/lib.rs` text `source` names,
/// resolved against `lib_dir`; `None` where it names none.
#[verifier::rlimit(40)]
pub fn top_config_from_manifest(source: &[u8], lib_dir: &[u8]) -> (r: Option<Vec<u8>>)
    ensures
        match spec_top_config(source@, lib_dir@) {
            Some(p) => r is Some && r->Some_0@ == p,
            None => r is None,
        },
{
    let marker_bytes: Vec<u8> = vec![66u8, 69u8, 77u8, 85u8, 95u8, 84u8, 79u8, 80u8, 95u8, 67u8, 79u8, 78u8, 70u8, 73u8, 71u8];
    assert(marker_bytes@ =~= top_config_marker());
    let marker = marker_bytes.as_slice();
    let quote: Vec<u8> = vec![34u8];
    assert(quote@ =~= seq![34u8]);
    let i = match find_bytes(source, marker) {
        None => return None,
        Some(i) => i,
    };
    let source_len = source.len();
    let rest = &source[i + marker.len()..source_len];
    let seg = cut_before(rest, marker);
    let q = match find_bytes(seg, quote.as_slice()) {
        None => return None,
        Some(q) => q,
    };
    let seg_len = seg.len();
    let after = &seg[q + 1..seg_len];
    let rel = cut_before(after, quote.as_slice());
    let r = resolve(lib_dir, rel);
    proof {
        let m = top_config_marker();
        assert(first_occurrence(source@, m) == Some(i as int));
        assert(rest@ == source@.subrange(i + m.len(), source@.len() as int));
        assert(seg@ == before_first(rest@, m));
        assert(first_occurrence(seg@, seq![34u8]) == Some(q as int));
        assert(after@ == seg@.subrange(q + 1, seg@.len() as int));
    }
    Some(r)
}

} // verus!
