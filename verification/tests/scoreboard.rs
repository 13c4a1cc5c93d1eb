use bebop::inst::TrackedBanks;
use bebop::scoreboard::BankScoreboard;
use std::collections::BTreeSet;

#[test]
fn scoreboard_records_idempotent_mutable_access() {
    let storage = vec![vec![0u8; 4]; 2];
    let mut scoreboard = BankScoreboard::new();
    scoreboard.issue(7);
    let mut banks = TrackedBanks::new(storage, Some(scoreboard), 7);
    banks.write_bytes(1, 0, &[0]);
    let (_storage, scoreboard) = banks.into_parts();
    let mut scoreboard = scoreboard.unwrap();
    assert_eq!(scoreboard.complete(7), BTreeSet::from([1]));
}

#[test]
fn reads_and_allocation_initialization_do_not_record_writes() {
    let storage = vec![vec![1u8; 4]; 2];
    let mut scoreboard = BankScoreboard::new();
    scoreboard.issue(8);
    let mut banks = TrackedBanks::new(storage, Some(scoreboard), 8);
    let _ = banks.read_byte(1, 0);
    banks.initialize(0, 0);
    let (storage, scoreboard) = banks.into_parts();
    let mut scoreboard = scoreboard.unwrap();
    assert!(scoreboard.complete(8).is_empty());
    assert_eq!(storage[0], vec![0u8; 4]);
    assert_eq!(storage[1], vec![1u8; 4]);
}

#[test]
fn read_write_records_only_the_written_bank() {
    let storage = vec![vec![3u8; 2], vec![4u8; 2]];
    let mut scoreboard = BankScoreboard::new();
    scoreboard.issue(2);
    let mut banks = TrackedBanks::new(storage, Some(scoreboard), 2);
    let (read, write) = banks.read_write(0, 1);
    assert_eq!(read, &vec![3u8; 2]);
    write[0] = read[1] + 5;
    let (storage, scoreboard) = banks.into_parts();
    assert_eq!(scoreboard.unwrap().complete(2), BTreeSet::from([1]));
    assert_eq!(storage, vec![vec![3u8; 2], vec![8u8, 4u8]]);
}

#[test]
fn read_write_hands_out_a_lower_write_bank_too() {
    let storage = vec![vec![1u8; 2], vec![2u8; 2], vec![7u8; 2]];
    let mut banks = TrackedBanks::new(storage, None, 0);
    let (read, write) = banks.read_write(2, 0);
    write.copy_from_slice(read);
    let (storage, scoreboard) = banks.into_parts();
    assert!(scoreboard.is_none());
    assert_eq!(storage, vec![vec![7u8; 2], vec![2u8; 2], vec![7u8; 2]]);
}
