use bebop::barrier::{BarrierArrival, SharedMemory, TileBarrier};

#[test]
fn last_arrival_opens_the_barrier_for_the_epoch() {
    let mut b = TileBarrier::new(2);
    assert_eq!(b.arrive(0), BarrierArrival::Wait { epoch: 0 });
    assert!(!b.may_leave(0));
    assert_eq!(b.arrive(1), BarrierArrival::Released);
    assert!(b.may_leave(0));
    assert_eq!(b.epoch, 1);
    assert!(b.arrived.is_empty());
}

#[test]
fn a_hart_arriving_twice_is_counted_once() {
    let mut b = TileBarrier::new(2);
    assert_eq!(b.arrive(5), BarrierArrival::Wait { epoch: 0 });
    assert_eq!(b.arrive(5), BarrierArrival::Wait { epoch: 0 });
    assert_eq!(b.arrived, vec![5]);
    assert_eq!(b.arrive(6), BarrierArrival::Released);
}

#[test]
fn an_aborted_barrier_lets_everyone_go() {
    let mut memory = SharedMemory::new(16, 3);
    assert_eq!(memory.data, vec![0u8; 16]);
    assert_eq!(memory.wait_barrier(0), BarrierArrival::Wait { epoch: 0 });
    memory.abort_barrier();
    assert!(memory.barrier.may_leave(0));
    assert_eq!(memory.wait_barrier(1), BarrierArrival::Aborted);
}

#[test]
fn epochs_wrap_around() {
    let mut b = TileBarrier::new(1);
    b.epoch = u64::MAX;
    assert_eq!(b.arrive(0), BarrierArrival::Released);
    assert_eq!(b.epoch, 0);
}

#[test]
fn four_distinct_harts_open_the_barrier_at_the_fourth_arrival() {
    let mut memory = SharedMemory::new(4, 4);
    for hart in [3usize, 1, 2] {
        assert_eq!(memory.wait_barrier(hart), BarrierArrival::Wait { epoch: 0 });
    }
    assert_eq!(memory.wait_barrier(0), BarrierArrival::Released);
    assert_eq!(memory.barrier.epoch, 1);
    assert!(memory.barrier.arrived.is_empty());
    assert_eq!(memory.wait_barrier(2), BarrierArrival::Wait { epoch: 1 });
}
