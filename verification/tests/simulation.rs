use bebop::cli::RunTarget;
use bebop::simulation::{
    run_verdict, verilator_run_config, DiffOutcome, DigestGeometry, RunConfigError, RunFailure, VerilatorRunConfig,
    VerilatorTraceConfig,
};

fn config(diff: bool, fast: bool) -> VerilatorRunConfig {
    VerilatorRunConfig {
        elf: "a.elf".to_string(),
        log_dir: "log".to_string(),
        wave: true,
        diff,
        fast,
        trace: VerilatorTraceConfig { itrace: true, mtrace: false, pmctrace: false, ctrace: true, banktrace: false },
    }
}

#[test]
fn modes_name_fast_and_diff() {
    assert_eq!(config(true, true).mode(), "fast+diff");
    assert_eq!(config(false, true).mode(), "fast");
    assert_eq!(config(true, false).mode(), "diff");
    assert_eq!(config(false, false).mode(), "run");
}

#[test]
fn fast_runs_and_diff_without_bemu_are_refused() {
    assert_eq!(config(false, true).check(true), Err(RunConfigError::FastUnsupported));
    assert_eq!(config(true, false).check(false), Err(RunConfigError::DiffWithoutBemu));
    assert_eq!(config(true, false).check(true), Ok(()));
    assert_eq!(config(false, false).check(false), Ok(()));
}

#[test]
fn difftest_runs_switch_on_bank_trace_and_digests() {
    let geometry = DigestGeometry { bank_size: 4096, row_bytes: 16 };
    let t = config(true, false).rtl_trace_config(geometry);
    assert!(t.banktrace && t.itrace && t.ctrace && !t.mtrace);
    assert_eq!(t.bank_digest, Some(geometry));
    let t = config(false, false).rtl_trace_config(geometry);
    assert!(!t.banktrace);
    assert_eq!(t.bank_digest, None);
}

#[test]
fn verdict_reports_exit_code_and_difftest() {
    let failed = DiffOutcome { passed: false, mismatch: 2, missing_rtl: 0, unexpected_rtl: 1 };
    let passed = DiffOutcome { passed: true, mismatch: 0, missing_rtl: 0, unexpected_rtl: 0 };
    assert_eq!(run_verdict(0, None), Ok(()));
    assert_eq!(run_verdict(0, Some(passed)), Ok(()));
    assert_eq!(run_verdict(3, None), Err(RunFailure::Exit { code: 3 }));
    assert_eq!(run_verdict(3, Some(passed)), Err(RunFailure::Exit { code: 3 }));
    assert_eq!(run_verdict(3, Some(failed)), Err(RunFailure::ExitAndDiff { code: 3, diff: failed }));
    assert_eq!(run_verdict(0, Some(failed)), Err(RunFailure::Diff { diff: failed }));
}

#[test]
fn verilator_command_turns_no_wave_into_wave() {
    let target = RunTarget::Verilator {
        elf: "w.elf".to_string(),
        log_dir: "out".to_string(),
        no_wave: true,
        diff: false,
        fast: false,
        itrace: false,
        mtrace: true,
        pmctrace: false,
        ctrace: false,
        banktrace: true,
    };
    let c = verilator_run_config(target).unwrap();
    assert!(!c.wave);
    assert_eq!(c.elf, "w.elf");
    assert!(c.trace.mtrace && c.trace.banktrace);
    let other = RunTarget::Bemu {
        elf: "w.elf".to_string(),
        log_dir: "out".to_string(),
        pk: false,
        bank_digest: false,
        disasm: false,
        tool_profile: false,
    };
    assert!(verilator_run_config(other).is_none());
}
