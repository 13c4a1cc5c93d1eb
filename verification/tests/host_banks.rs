use bebop::host_banks::{mvin_operation, mvout_operation, transfer_allowed_check, HostBankTable, Selection};
use bebop::rushb::DmaOperation;
use bebop::staging::{capture_host, restore_host, BankConfig};

const SEL: Selection = Selection { accelerator_id: 1, chip_id: 0 };
const OTHER: Selection = Selection { accelerator_id: 2, chip_id: 0 };
const TWO_GROUPS: u64 = (1 << 10) | (2 << 5);

#[test]
fn a_bank_record_reads_back_what_was_written() {
    let mut table = HostBankTable::new();
    assert_eq!(table.bank_config(SEL, 3), BankConfig { allocated: false, groups: 0 });
    table.record_mset(SEL, 3, TWO_GROUPS);
    assert_eq!(table.bank_config(SEL, 3), BankConfig { allocated: true, groups: 2 });
    assert_eq!(table.bank_config(SEL, 4), BankConfig { allocated: false, groups: 0 });
    assert_eq!(table.bank_config(OTHER, 3), BankConfig { allocated: false, groups: 0 });
    table.record_mset(OTHER, 0x403, 1 << 10);
    assert_eq!(table.bank_config(OTHER, 3), BankConfig { allocated: true, groups: 0 });
    table.record_mset(SEL, 3, 0);
    assert_eq!(table.bank_config(SEL, 3), BankConfig { allocated: false, groups: 0 });
}

#[test]
fn transfers_need_a_known_bank_and_a_large_enough_buffer() {
    let two = BankConfig { allocated: true, groups: 2 };
    assert!(transfer_allowed_check(two, 2 << 30, 1 << 39, 64));
    assert!(!transfer_allowed_check(two, 2 << 30, 1 << 39, 63));
    assert!(!transfer_allowed_check(BankConfig { allocated: true, groups: 0 }, 2 << 30, 1 << 39, 64));
    assert!(!transfer_allowed_check(BankConfig { allocated: false, groups: 2 }, 2 << 30, 1 << 39, 64));
    assert!(!transfer_allowed_check(two, 0, 1 << 39, 64));
    assert!(!transfer_allowed_check(two, 2 << 30, 0, 64));
}

#[test]
fn a_move_in_captures_the_spanned_host_bytes() {
    let mut table = HostBankTable::new();
    table.record_mset(SEL, 3, TWO_GROUPS);
    let host: Vec<u8> = (0..64u8).collect();
    match mvin_operation(&table, SEL, 3 | (2 << 30), 1 << 39, &host) {
        DmaOperation::Mvin { spans, chunks } => {
            assert_eq!(spans, vec![(0, 16), (16, 16), (32, 16), (48, 16)]);
            assert_eq!(chunks.len(), 4);
            assert_eq!(chunks[2].offset, 32);
            assert_eq!(chunks[2].data, (32..48u8).collect::<Vec<u8>>());
        }
        _ => panic!("expected a move in"),
    }
    match mvout_operation(&table, SEL, 3 | (1 << 30), 2 << 39, 32) {
        DmaOperation::Mvout { spans } => assert_eq!(spans, vec![(0, 16), (16, 16)]),
        _ => panic!("expected a move out"),
    }
}

#[test]
fn restoring_captured_chunks_returns_exactly_the_spanned_bytes() {
    let src: Vec<u8> = (1..=48u8).collect();
    let chunks = capture_host(&src, &[(0, 8), (24, 8)]);
    let mut dst = vec![0u8; 48];
    restore_host(&mut dst, &chunks);
    assert_eq!(&dst[0..8], &src[0..8]);
    assert_eq!(&dst[24..32], &src[24..32]);
    assert!(dst[8..24].iter().all(|b| *b == 0));
    assert!(dst[32..].iter().all(|b| *b == 0));
}
