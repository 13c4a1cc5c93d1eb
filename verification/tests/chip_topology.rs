use bebop::chip_config::{BankGeometry, ChipDescription, CoreInstance, MemDomain, MmioGeometry, TilePlacement};
use bebop::config::{
    bank_num, configure_core, configure_core_with_virtual_bank_count, configure_default, BallDomainConfig,
    BallIdMapping, BallIsaEntry, EmuConfig,
};
use bebop::{bundle_config, chip_config};

fn core_instance(role: &str, banks: u32, balls: bool) -> CoreInstance {
    let (mappings, isa) = if balls {
        (
            vec![BallIdMapping { ball_id: 0, ball_class: "MatmulBall".to_string() }],
            vec![BallIsaEntry { mnemonic: "SMATMUL_OS".to_string(), funct7: 48, bid: 0 }],
        )
    } else {
        (Vec::new(), Vec::new())
    };
    CoreInstance {
        role: role.to_string(),
        balldomain: BallDomainConfig { mappings, isa },
        mem: MemDomain {
            bank: BankGeometry { num: banks, width: 128, entries: 1024 },
            mmio: MmioGeometry { enable: true, bank_num: 16, bank_entries: 64, bank_width: 128, read_width: 8 },
        },
    }
}

fn chip(virtual_bank_count: u32) -> ChipDescription {
    ChipDescription {
        tiles: vec![TilePlacement { virtual_bank_count, core_indices: vec![0, 2] }],
        cores: vec![core_instance("host", 8, false), core_instance("npu0", 32, true), core_instance("npu1", 16, true)],
    }
}

#[test]
fn chip_default_core_is_the_first_core() {
    let t = chip_config::default_core(&chip(4));
    assert_eq!(t.mem_config.bank_num, 8);
    assert!(t.ball_domain.mappings.is_empty());
}

#[test]
fn bundle_default_core_is_the_first_core_with_balls() {
    let t = bundle_config::default_core(&chip(4));
    assert_eq!(t.mem_config.bank_num, 32);
    assert_eq!(t.ball_domain.mappings[0].ball_class, "MatmulBall");
    assert_eq!(t.ball_domain.isa[0].funct7, 48);
}

#[test]
fn topology_for_core_copies_the_core() {
    let t = chip_config::topology_for_core(&chip(4), 2);
    assert_eq!(t.mem_config.bank_num, 16);
    assert_eq!(t.mem_config.mmio_bank_entries, 64);
    assert!(t.mem_config.mmio_enable);
}

#[test]
fn tile_topology_lists_roles_and_indices() {
    let t = chip_config::tile_topology(&chip(40), 0);
    assert_eq!(t.cores, vec![("host".to_string(), 0), ("npu1".to_string(), 2)]);
    assert_eq!(t.virtual_bank_count, 40);
}

#[test]
fn bundle_tile_without_virtual_bank_count_uses_its_widest_core() {
    let t = bundle_config::tile_topology(&chip(0), 0);
    assert_eq!(t.virtual_bank_count, 16);
    let t = bundle_config::tile_topology(&chip(3), 0);
    assert_eq!(t.virtual_bank_count, 3);
}

#[test]
fn configured_workers_see_their_bank_count() {
    let description = chip(4);
    let mut cfg = EmuConfig::new();
    configure_default(&mut cfg, &description);
    assert_eq!(bank_num(&cfg), 8);
    configure_core(&mut cfg, &description, 1);
    assert_eq!(bank_num(&cfg), 32);
    configure_core_with_virtual_bank_count(&mut cfg, &description, 2, 64);
    assert_eq!(bank_num(&cfg), 64);
    configure_core_with_virtual_bank_count(&mut cfg, &description, 2, 4);
    assert_eq!(bank_num(&cfg), 16);
}
