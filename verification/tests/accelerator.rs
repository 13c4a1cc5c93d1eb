use bebop::accelerator::{Accelerator, HostCommand, HostReply};
use bebop::config::{configure_topology, BallDomainConfig, EmuConfig, MemConfig, Topology};
use bebop::inst::ExecError;
use bebop::bank::{dram_offset, mem_read, span_base_of};
use bebop::pk::GuestMap;

fn config() -> EmuConfig {
    let mut cfg = EmuConfig::new();
    configure_topology(
        &mut cfg,
        Topology {
            mem_config: MemConfig {
                bank_num: 4,
                bank_width: 128,
                bank_entries: 16,
                mmio_enable: false,
                mmio_bank_num: 0,
                mmio_bank_entries: 0,
                mmio_bank_width: 0,
                mmio_read_width: 0,
            },
            ball_domain: BallDomainConfig { mappings: Vec::new(), isa: Vec::new() },
        },
    );
    cfg
}

const MSET: u32 = 32;
const ALLOCATE_ONE_COLUMN: u64 = (1 << 5) | (1 << 10);
const TWO_ROWS_OF_BANK_0: u64 = 2 << 30;
const STRIDE_ONE: u64 = 1 << 39;

#[test]
fn rows_stored_from_a_bank_are_the_rows_loaded_into_it() {
    let cfg = config();
    let mut acc = Accelerator::new_host(&cfg);
    assert_eq!(acc.host_execute(&cfg, MSET, 0, ALLOCATE_ONE_COLUMN), Ok(0));
    let src: Vec<u8> = (0..32u8).map(|b| b.wrapping_mul(7).wrapping_add(3)).collect();
    acc.host_mvin(&cfg, TWO_ROWS_OF_BANK_0, STRIDE_ONE, &src).unwrap();
    let mut dst = vec![0u8; 32];
    acc.host_mvout(&cfg, TWO_ROWS_OF_BANK_0, STRIDE_ONE, &mut dst).unwrap();
    assert_eq!(dst, src);
}

#[test]
fn host_transfers_charge_one_cycle_per_row() {
    let cfg = config();
    let mut acc = Accelerator::new_host(&cfg);
    acc.host_execute(&cfg, MSET, 0, ALLOCATE_ONE_COLUMN).unwrap();
    let before = acc.total_lat;
    acc.host_mvin(&cfg, TWO_ROWS_OF_BANK_0, STRIDE_ONE, &vec![1u8; 32]).unwrap();
    assert_eq!(acc.total_lat, before + 2);
}

#[test]
fn transfers_of_unallocated_banks_are_refused_without_change() {
    let cfg = config();
    let mut acc = Accelerator::new_host(&cfg);
    let mut dst = vec![9u8; 32];
    assert_eq!(acc.host_mvout(&cfg, TWO_ROWS_OF_BANK_0, STRIDE_ONE, &mut dst), Err(ExecError::NotAllocated));
    assert_eq!(dst, vec![9u8; 32]);
    assert_eq!(acc.host_execute(&cfg, 127, 0, 0), Err(ExecError::UnknownFunct));
}

#[test]
fn the_worker_serves_host_commands() {
    let cfg = config();
    let mut acc = Accelerator::new_host(&cfg);
    assert!(matches!(
        acc.serve_host_command(&cfg, HostCommand::Execute { funct7: MSET, xs1: 0, xs2: ALLOCATE_ONE_COLUMN }),
        HostReply::Value(0)
    ));
    let src: Vec<u8> = (100..132u8).collect();
    assert!(matches!(
        acc.serve_host_command(&cfg, HostCommand::Mvin { xs1: TWO_ROWS_OF_BANK_0, packed_xs2: STRIDE_ONE, host: src.clone() }),
        HostReply::Loaded
    ));
    match acc.serve_host_command(&cfg, HostCommand::Mvout { xs1: TWO_ROWS_OF_BANK_0, packed_xs2: STRIDE_ONE, host: vec![0; 32] }) {
        HostReply::Stored(out) => assert_eq!(out, src),
        _ => panic!("store refused"),
    }
    let cycles = acc.total_lat;
    assert!(matches!(acc.serve_host_command(&cfg, HostCommand::Cycles), HostReply::Cycles(c) if c == cycles));
    assert!(matches!(
        acc.serve_host_command(&cfg, HostCommand::Shutdown),
        HostReply::Stopped { instructions: 1, matrix: 0, .. }
    ));
}

const MVIN: u32 = 33;
const MVOUT: u32 = 16;
const DRAM: u64 = 0x8000_0000;

#[test]
fn guest_rows_stored_back_equal_the_rows_loaded() {
    let cfg = config();
    let mut memory = vec![0u8; 0x1000];
    for (i, b) in memory[0x100..0x120].iter_mut().enumerate() {
        *b = (i as u8).wrapping_mul(13).wrapping_add(1);
    }
    let mut acc = Accelerator::new(&cfg, memory);
    assert_eq!(acc.exec_traced(&cfg, MSET, 0, ALLOCATE_ONE_COLUMN).unwrap().value, 0);
    let load = acc.exec_traced(&cfg, MVIN, TWO_ROWS_OF_BANK_0, STRIDE_ONE | (DRAM + 0x100)).unwrap();
    assert_eq!(load.mtrace.len(), 1);
    assert!(!load.mtrace[0].is_write);
    assert_eq!(load.mtrace[0].addr, DRAM + 0x100);
    assert_eq!(load.mtrace[0].rows, 2);
    let store = acc.exec_traced(&cfg, MVOUT, TWO_ROWS_OF_BANK_0, STRIDE_ONE | (DRAM + 0x200)).unwrap();
    assert!(store.mtrace[0].is_write);
    let loaded = acc.ctx.memory[0x100..0x120].to_vec();
    assert_eq!(&acc.ctx.memory[0x200..0x220], loaded.as_slice());
}

#[test]
fn guest_transfers_outside_memory_are_refused() {
    let cfg = config();
    let mut acc = Accelerator::new(&cfg, vec![0u8; 0x100]);
    acc.exec_traced(&cfg, MSET, 0, ALLOCATE_ONE_COLUMN).unwrap();
    assert!(acc.exec_traced(&cfg, MVIN, TWO_ROWS_OF_BANK_0, STRIDE_ONE | (DRAM + 0xf0)).is_err());
    assert!(acc.ctx.memory.iter().all(|b| *b == 0));
}

#[test]
fn guest_transfers_go_through_the_installed_mappings() {
    let cfg = config();
    let mut memory = vec![0u8; 0x1000];
    for (i, b) in memory[0x300..0x320].iter_mut().enumerate() {
        *b = (i as u8).wrapping_add(7);
    }
    let mut acc = Accelerator::new(&cfg, memory);
    acc.set_guest_mappings(vec![
        GuestMap { virt: 0x10000, phys: DRAM + 0x300, len: 0x100 },
        GuestMap { virt: 0x20000, phys: DRAM + 0x800, len: 0x100 },
    ]);
    acc.exec_traced(&cfg, MSET, 0, ALLOCATE_ONE_COLUMN).unwrap();
    acc.exec_traced(&cfg, MVIN, TWO_ROWS_OF_BANK_0, STRIDE_ONE | 0x10000).unwrap();
    acc.exec_traced(&cfg, MVOUT, TWO_ROWS_OF_BANK_0, STRIDE_ONE | 0x20000).unwrap();
    let loaded = acc.ctx.memory[0x300..0x320].to_vec();
    assert_eq!(&acc.ctx.memory[0x800..0x820], loaded.as_slice());
    assert_eq!(
        acc.exec_traced(&cfg, MVIN, TWO_ROWS_OF_BANK_0, STRIDE_ONE | 0x100f0).err(),
        Some(ExecError::MemoryOutOfRange)
    );
}

#[test]
fn transfers_across_guest_mappings_translate_each_byte() {
    let cfg = config();
    let mut memory = vec![0u8; 0x1000];
    for i in 0..16 {
        memory[0x300 + i] = i as u8 + 1;
        memory[0x800 + i] = i as u8 + 101;
    }
    let mut acc = Accelerator::new(&cfg, memory);
    acc.set_guest_mappings(vec![
        GuestMap { virt: 0x10000, phys: DRAM + 0x300, len: 0x10 },
        GuestMap { virt: 0x10010, phys: DRAM + 0x800, len: 0x10 },
        GuestMap { virt: 0x20000, phys: DRAM + 0xa00, len: 0x100 },
        GuestMap { virt: 0x30000, phys: DRAM + 0xc00, len: 0x10 },
        GuestMap { virt: 0x30010, phys: DRAM + 0xc00, len: 0x10 },
    ]);
    acc.exec_traced(&cfg, MSET, 0, ALLOCATE_ONE_COLUMN).unwrap();
    acc.exec_traced(&cfg, MVIN, TWO_ROWS_OF_BANK_0, STRIDE_ONE | 0x10000).unwrap();
    acc.exec_traced(&cfg, MVOUT, TWO_ROWS_OF_BANK_0, STRIDE_ONE | 0x20000).unwrap();
    let first: Vec<u8> = (1..=16).collect();
    let second: Vec<u8> = (101..=116).collect();
    assert_eq!(&acc.ctx.memory[0xa00..0xa10], first.as_slice());
    assert_eq!(&acc.ctx.memory[0xa10..0xa20], second.as_slice());
    acc.exec_traced(&cfg, MVOUT, TWO_ROWS_OF_BANK_0, STRIDE_ONE | 0x30000).unwrap();
    assert_eq!(&acc.ctx.memory[0xc00..0xc10], second.as_slice());
}

#[test]
fn guest_bytes_are_read_through_the_most_recent_mapping() {
    let mut memory = vec![0u8; 0x1000];
    memory[0x10] = 5;
    memory[0x20] = 9;
    let maps = vec![
        GuestMap { virt: 0x4000, phys: DRAM + 0x10, len: 0x10 },
        GuestMap { virt: 0x4000, phys: DRAM + 0x20, len: 0x10 },
    ];
    assert_eq!(mem_read(&memory, 0x4000, &maps), 9);
    assert_eq!(mem_read(&memory, DRAM + 0x10, &maps), 5);
    assert_eq!(dram_offset(&maps, memory.len(), 0x4010), None);
    assert_eq!(span_base_of(&maps, 0x4008, 0x4010), None);
}
