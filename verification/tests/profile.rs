use bebop::profile::{BemuProfile, OperationCounter};
use std::time::Duration;

fn nanos(d: Duration) -> u128 {
    d.as_nanos()
}

#[test]
fn disabled_profile_has_no_report() {
    assert!(BemuProfile::new(false)
        .report(nanos(Duration::from_secs(1)), nanos(Duration::from_secs(1)))
        .is_none());
}

#[test]
fn report_sorts_operations_by_elapsed_time() {
    let mut profile = BemuProfile::new(true);
    profile.npu = nanos(Duration::from_millis(8));
    profile.operations[1] = OperationCounter {
        calls: 2,
        elapsed: nanos(Duration::from_millis(3)),
    };
    profile.operations[2] = OperationCounter {
        calls: 1,
        elapsed: nanos(Duration::from_millis(5)),
    };

    let report = profile
        .report(nanos(Duration::from_millis(10)), nanos(Duration::from_millis(9)))
        .unwrap();
    assert_eq!(report.spike_guest(), nanos(Duration::from_millis(1)));
    assert_eq!(report.bemu_glue(), nanos(Duration::from_millis(1)));
    assert_eq!(report.operations()[0].funct7, 2);
    assert_eq!(report.operations()[1].funct7, 1);
}

#[test]
fn report_caps_guest_time_at_total_and_npu_at_guest_time() {
    let mut profile = BemuProfile::new(true);
    profile.npu = 50;
    let report = profile.report(30, 40).unwrap();
    assert_eq!(report.total(), 30);
    assert_eq!(report.npu(), 30);
    assert_eq!(report.spike_guest(), 0);
    assert_eq!(report.bemu_glue(), 0);
    assert!(report.operations().is_empty());
}

#[test]
fn recorded_npu_time_accumulates_per_funct7() {
    let mut profile = BemuProfile::new(true);
    profile.record_npu(16, 7);
    profile.record_npu(16, 5);
    profile.record_npu(33, 1);
    assert_eq!(profile.npu, 13);
    assert_eq!(profile.operations[16], OperationCounter { calls: 2, elapsed: 12 });
    let report = profile.report(100, 100).unwrap();
    assert_eq!(report.operations().len(), 2);
    assert_eq!(report.operations()[0].funct7, 16);
    assert_eq!(report.operations()[0].calls, 2);
    assert_eq!(report.operations()[1].funct7, 33);
}

#[test]
fn untimed_operation_is_not_recorded() {
    let mut profile = BemuProfile::new(false);
    let started = profile.begin_npu();
    assert!(started.is_none());
    profile.end_npu(5, started);
    assert_eq!(profile.npu, 0);
    assert_eq!(profile.operations[5], OperationCounter { calls: 0, elapsed: 0 });
}
