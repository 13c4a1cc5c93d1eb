use bebop::core_config::{
    default_core_name, parse_balls, parse_core_config, parse_memory, parse_tile_config, parse_topology, resolve,
    top_config_from_manifest, validate_balls, BallIsaEntry, ConfigError, ConfigFiles, Load, TomlValue,
};
use bebop::config::BallIdMapping;

fn s(v: &str) -> TomlValue {
    TomlValue::String(v.to_string())
}

fn table(entries: Vec<(&str, TomlValue)>) -> TomlValue {
    TomlValue::Table(entries.into_iter().map(|(k, v)| (k.to_string(), v)).collect())
}

fn memory_file(bank_num: i64) -> TomlValue {
    table(vec![
        ("bank", table(vec![("num", TomlValue::Integer(bank_num)), ("width", TomlValue::Integer(128)), ("entries", TomlValue::Integer(1024))])),
        (
            "mmio",
            table(vec![
                ("enable", TomlValue::Boolean(true)),
                ("bankNum", TomlValue::Integer(16)),
                ("bankEntries", TomlValue::Integer(64)),
                ("bankWidth", TomlValue::Integer(128)),
                ("readWidth", TomlValue::Integer(8)),
            ]),
        ),
    ])
}

fn balls_file() -> TomlValue {
    table(vec![
        ("ballIdMappings", TomlValue::Array(vec![table(vec![("ballId", TomlValue::Integer(1)), ("ballClass", s("Matmul"))])])),
        ("ballISA", TomlValue::Array(vec![table(vec![("funct7", TomlValue::Integer(48)), ("bid", TomlValue::Integer(1))])])),
    ])
}

/// Loads with `files`, reading each file asked for from `disk`.
fn load<T>(disk: &[(&str, fn() -> TomlValue)], mut step: impl FnMut(&ConfigFiles) -> Load<T>) -> (Result<T, ConfigError>, Vec<String>) {
    let mut files = ConfigFiles::new();
    let mut asked = Vec::new();
    loop {
        match step(&files) {
            Load::Done(t) => return (Ok(t), asked),
            Load::Failed(e) => return (Err(e), asked),
            Load::NeedFile(path) => {
                let path = String::from_utf8(path).unwrap();
                let found = disk.iter().find(|(p, _)| *p == path).expect("file exists");
                asked.push(path.clone());
                files.add(path.into_bytes(), (found.1)());
            }
        }
    }
}

fn core_file() -> TomlValue {
    table(vec![("memdomain", s("mem.toml")), ("balldomain", s("/abs/balls.toml"))])
}
fn plain_core_file() -> TomlValue {
    table(vec![])
}
fn mem_file() -> TomlValue {
    memory_file(32)
}
fn tile_file() -> TomlValue {
    table(vec![
        ("cores", TomlValue::Array(vec![table(vec![("include", s("host/core.toml")), ("name", s("cpu"))])])),
        ("coreTemplate", table(vec![("include", s("npu/core.toml")), ("count", TomlValue::Integer(2))])),
    ])
}
fn chip_file() -> TomlValue {
    table(vec![("tiles", TomlValue::Array(vec![table(vec![("include", s("tiles/tile.toml"))])]))])
}

#[test]
fn memory_domain_is_read_key_by_key() {
    let m = parse_memory(&memory_file(8)).unwrap();
    assert_eq!(m.bank_num, 8);
    assert_eq!(m.mmio_read_width, 8);
    assert!(matches!(parse_memory(&memory_file(-1)), Err(ConfigError::OutOfRange { key: "num" })));
    assert!(matches!(parse_memory(&table(vec![])), Err(ConfigError::MissingTable { key: "bank" })));
}

#[test]
fn ball_domains_are_checked() {
    let b = parse_balls(&balls_file()).unwrap();
    assert_eq!(b.mappings[0].ball_class, "Matmul");
    assert_eq!(b.isa, vec![BallIsaEntry { funct7: 48, bid: 1 }]);
    let m = |id| BallIdMapping { ball_id: id, ball_class: "B".to_string() };
    assert!(matches!(validate_balls(&vec![m(1), m(1)], &vec![]), Err(ConfigError::DuplicateBallId)));
    let e = |f, b| BallIsaEntry { funct7: f, bid: b };
    assert!(matches!(validate_balls(&vec![m(1)], &vec![e(3, 1), e(3, 1)]), Err(ConfigError::DuplicateFunct7)));
    assert!(matches!(
        validate_balls(&vec![m(1)], &vec![e(3, 1), e(4, 2), e(5, 7)]),
        Err(ConfigError::MissingBid { funct7: 4, bid: 2 })
    ));
    assert!(matches!(parse_balls(&table(vec![])), Err(ConfigError::MissingArray { key: "ballIdMappings" })));
}

#[test]
fn core_configuration_reads_its_domains() {
    let disk: Vec<(&str, fn() -> TomlValue)> = vec![
        ("cfg/core.toml", core_file),
        ("cfg/mem.toml", mem_file),
        ("/abs/balls.toml", balls_file),
    ];
    let (core, asked) = load(&disk, |files| parse_core_config(files, b"cfg/core.toml"));
    let core = core.unwrap();
    assert_eq!(asked, vec!["cfg/core.toml", "cfg/mem.toml", "/abs/balls.toml"]);
    assert_eq!(core.mem_config.bank_num, 32);
    assert_eq!(core.ball_domain.isa.len(), 1);
    assert_eq!(core.files_read, vec![b"cfg/core.toml".to_vec(), b"cfg/mem.toml".to_vec(), b"/abs/balls.toml".to_vec()]);
}

#[test]
fn a_core_without_domains_has_the_default_geometry_and_no_balls() {
    let disk: Vec<(&str, fn() -> TomlValue)> = vec![("c.toml", plain_core_file)];
    let (core, _) = load(&disk, |files| parse_core_config(files, b"c.toml"));
    let core = core.unwrap();
    assert_eq!(core.mem_config.bank_num, 32);
    assert_eq!(core.mem_config.bank_entries, 1024);
    assert_eq!(core.mem_config.mmio_bank_num, 16);
    assert!(core.ball_domain.mappings.is_empty());
}

#[test]
fn tiles_list_their_cores_and_templates() {
    let disk: Vec<(&str, fn() -> TomlValue)> = vec![
        ("chip/tiles/tile.toml", tile_file),
        ("chip/tiles/host/core.toml", plain_core_file),
        ("chip/tiles/npu/core.toml", core_file),
        ("chip/tiles/npu/mem.toml", mem_file),
        ("/abs/balls.toml", balls_file),
        ("chip/chip.toml", chip_file),
    ];
    let (tile, _) = load(&disk, |files| parse_tile_config(files, b"chip/tiles/tile.toml"));
    let tile = tile.unwrap();
    let names: Vec<Vec<u8>> = tile.cores.iter().map(|c| c.0.clone()).collect();
    assert_eq!(names, vec![b"cpu".to_vec(), b"npu".to_vec(), b"npu".to_vec()]);
    assert_eq!(tile.virtual_bank_count, 32);
    assert_eq!(tile.files_read.len(), 1 + 1 + 3 + 3);
    let (core, _) = load(&disk, |files| parse_topology(files, b"chip/chip.toml"));
    let core = core.unwrap();
    assert_eq!(core.ball_domain.mappings.len(), 1);
    assert_eq!(core.files_read[0], b"chip/chip.toml".to_vec());
    assert_eq!(core.files_read.len(), 1 + 8);
}

#[test]
fn paths_and_names() {
    assert_eq!(resolve(b"/a/b", b"c.toml"), b"/a/b/c.toml".to_vec());
    assert_eq!(resolve(b"/a/b", b"/etc/c.toml"), b"/etc/c.toml".to_vec());
    assert_eq!(default_core_name(b"chip/npu0/core.toml"), b"npu0".to_vec());
    assert_eq!(default_core_name(b"core.toml"), b"core".to_vec());
    assert_eq!(default_core_name(b"../core.toml"), b"core".to_vec());
    assert_eq!(default_core_name(b"/x/./y//core.toml"), b"y".to_vec());
}

#[test]
fn top_configuration_is_named_in_the_engine_source() {
    let source = b"pub const BEMU_TOP_CONFIG: &str = \"../configs/top.toml\";\n";
    assert_eq!(top_config_from_manifest(source, b"/eng/src"), Some(b"/eng/src/../configs/top.toml".to_vec()));
    assert_eq!(top_config_from_manifest(b"nothing here", b"/eng/src"), None);
}
