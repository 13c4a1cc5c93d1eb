use bebop::channels::{ChannelError, ChannelTracker};
use bebop::rushb::{RushCommand, RushEvent, RushEventKind};
use bebop::staging::{
    mset_bank_config, spans, staged_xs2, staging_bytes, BankConfig, StagingAllocator, StagingError,
};

fn command(id: u64, core_id: u32, funct7: u32) -> RushCommand {
    RushCommand { id, core_id, xs1: 0, xs2: 0, funct7 }
}

#[test]
fn spans_walk_rows_then_groups() {
    let config = BankConfig { allocated: true, groups: 2 };
    let got = spans(config, 3 << 30, 1 << 39);
    assert_eq!(got, vec![(0, 16), (16, 16), (32, 16), (48, 16), (64, 16), (80, 16)]);
    let strided = spans(BankConfig { allocated: true, groups: 1 }, 2 << 30, 4 << 39);
    assert_eq!(strided, vec![(0, 16), (64, 16)]);
}

#[test]
fn staging_size_is_the_furthest_end_rounded_to_64() {
    assert_eq!(staging_bytes(&[(0, 16), (80, 16)]), Ok(128));
    assert_eq!(staging_bytes(&[(64, 16), (0, 16)]), Ok(128));
    assert_eq!(staging_bytes(&[(0, 64)]), Ok(64));
    assert_eq!(staging_bytes(&[]), Err(StagingError::NoSpans));
    assert_eq!(staging_bytes(&[(usize::MAX, 1)]), Err(StagingError::SpanOverflow));
}

#[test]
fn staging_grows_down_and_refuses_what_does_not_fit() {
    let mut alloc = StagingAllocator::new();
    assert_eq!(alloc.add_region(0, 0x1000, 0x1000), Ok(()));
    assert_eq!(alloc.add_region(1, u64::MAX, 2), Err(StagingError::RangeOverflow));
    assert_eq!(alloc.find_region(0), Some(0));
    assert_eq!(alloc.find_region(1), None);
    let first = alloc.allocate(0, &[(0, 16), (80, 16)]).unwrap();
    assert_eq!(first, 0x1f80);
    let second = alloc.allocate(0, &[(0, 64)]).unwrap();
    assert_eq!(second, 0x1f40);
    assert!(second + 64 <= first);
    assert_eq!(alloc.allocate(0, &[(0, 0x2000)]), Err(StagingError::Exhausted));
    assert_eq!(alloc.allocate(0, &[(0, 0x1000)]), Err(StagingError::OutsideRange));
    alloc.reset();
    assert_eq!(alloc.find_region(0), None);
}

#[test]
fn staged_operand_keeps_everything_but_the_address() {
    let packed = (3u64 << 39) | 0x1234;
    assert_eq!(staged_xs2(packed, 0x8000), (3u64 << 39) | 0x8000);
}

#[test]
fn bank_allocation_records_its_groups() {
    assert_eq!(mset_bank_config(5, (1 << 10) | (4 << 5)), (5, BankConfig { allocated: true, groups: 4 }));
    assert_eq!(mset_bank_config(0x405, 1 << 10), (5, BankConfig { allocated: true, groups: 0 }));
    assert_eq!(mset_bank_config(7, 4 << 5), (7, BankConfig { allocated: false, groups: 0 }));
}

#[test]
fn counters_become_acceptance_and_completion_events() {
    let mut tracker = ChannelTracker::new();
    assert_eq!(tracker.submit(&command(1, 3, 10), 5, 5), Ok(()));
    assert!(!tracker.channels_idle());
    let i = tracker.find_channel(3).unwrap();
    assert_eq!(tracker.observe(i, 6, 5), Ok(false));
    assert_eq!(
        tracker.pop_event(),
        Some(RushEvent { command_id: 1, core_id: 3, kind: RushEventKind::Accepted })
    );
    assert_eq!(tracker.observe(i, 6, 6), Ok(false));
    assert_eq!(
        tracker.pop_event(),
        Some(RushEvent { command_id: 1, core_id: 3, kind: RushEventKind::Completed })
    );
    assert_eq!(tracker.pop_event(), None);
    assert!(tracker.channels_idle());
}

#[test]
fn an_accepted_fence_asks_for_completion() {
    let mut tracker = ChannelTracker::new();
    tracker.submit(&command(9, 0, 0), 0, 0).unwrap();
    assert_eq!(tracker.observe(0, 1, 0), Ok(true));
}

#[test]
fn counters_that_do_not_fit_are_refused() {
    let mut tracker = ChannelTracker::new();
    tracker.submit(&command(1, 2, 10), 4, 4).unwrap();
    assert_eq!(
        tracker.submit(&command(2, 2, 10), 4, 4),
        Err(ChannelError::PendingExists { command_id: 2, core_id: 2 })
    );
    assert_eq!(
        tracker.observe(0, 3, 4),
        Err(ChannelError::AcceptedBackwards { core_id: 2, before: 4, after: 3 })
    );
    assert_eq!(
        tracker.observe(0, 6, 4),
        Err(ChannelError::AcceptedSkipped { core_id: 2, before: 4, after: 6 })
    );
    assert_eq!(
        tracker.observe(0, 4, 5),
        Err(ChannelError::CompletedNotInFlight { core_id: 2 })
    );
    assert_eq!(
        tracker.observe(0, 4, 3),
        Err(ChannelError::CompletedBackwards { core_id: 2, before: 4, after: 3 })
    );
}
