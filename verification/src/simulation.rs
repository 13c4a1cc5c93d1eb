//! The decisions of a Verilator run: which configurations can run, which
//! RTL traces are switched on, and whether a finished run passed.

use vstd::prelude::*;
use crate::cli::RunTarget;

verus! {

/// The RTL traces a run asks for.
#[derive(Clone, Copy, Debug, PartialEq, Eq, Structural)]
pub struct VerilatorTraceConfig {
    pub itrace: bool,
    pub mtrace: bool,
    pub pmctrace: bool,
    pub ctrace: bool,
    pub banktrace: bool,
}

/// A Verilator run: the workload, where its logs go, and its options.
#[derive(Debug)]
pub struct VerilatorRunConfig {
    pub elf: String,
    pub log_dir: String,
    pub wave: bool,
    pub diff: bool,
    pub fast: bool,
    pub trace: VerilatorTraceConfig,
}

/// Why a Verilator run cannot start.
#[derive(Clone, Copy, Debug, PartialEq, Eq, Structural)]
pub enum RunConfigError {
    /// Fast runs are not supported yet.
    FastUnsupported,
    /// A difftest run needs an executable built with BEMU.
    DiffWithoutBemu,
}

/// The bank geometry bank digests are taken over.
#[derive(Clone, Copy, Debug, PartialEq, Eq, Structural)]
pub struct DigestGeometry {
    pub bank_size: usize,
    pub row_bytes: usize,
}

/// The traces the simulator records, and for a difftest run the bank
/// geometry of the bank digests.
#[derive(Clone, Copy, Debug, PartialEq, Eq, Structural)]
pub struct RtlTraceConfig {
    pub itrace: bool,
    pub mtrace: bool,
    pub pmctrace: bool,
    pub ctrace: bool,
    pub banktrace: bool,
    pub bank_digest: Option<DigestGeometry>,
}

/// What the bank difftest of a run found.
#[derive(Clone, Copy, Debug, PartialEq, Eq, Structural)]
pub struct DiffOutcome {
    pub passed: bool,
    pub mismatch: u64,
    pub missing_rtl: u64,
    pub unexpected_rtl: u64,
}

/// Why a finished run failed.
#[derive(Clone, Copy, Debug, PartialEq, Eq, Structural)]
pub enum RunFailure {
    /// The simulator exited with a non-zero code and the difftest failed.
    ExitAndDiff { code: i32, diff: DiffOutcome },
    /// The simulator exited with a non-zero code.
    Exit { code: i32 },
    /// The simulator exited cleanly but the difftest failed.
    Diff { diff: DiffOutcome },
}

/// The Verilator run a `bebop run verilator` command asks for; the
/// waveform is on unless switched off.
pub fn verilator_run_config(target: RunTarget) -> (r: Option<VerilatorRunConfig>)
    ensures
        match target {
            RunTarget::Verilator { elf, log_dir, no_wave, diff, fast, itrace, mtrace, pmctrace, ctrace, banktrace } => r
                == Some(
                VerilatorRunConfig {
                    elf,
                    log_dir,
                    wave: !no_wave,
                    diff,
                    fast,
                    trace: VerilatorTraceConfig { itrace, mtrace, pmctrace, ctrace, banktrace },
                },
            ),
            _ => r is None,
        },
{
    match target {
        RunTarget::Verilator { elf, log_dir, no_wave, diff, fast, itrace, mtrace, pmctrace, ctrace, banktrace } => Some(
            VerilatorRunConfig {
                elf,
                log_dir,
                wave: !no_wave,
                diff,
                fast,
                trace: VerilatorTraceConfig { itrace, mtrace, pmctrace, ctrace, banktrace },
            },
        ),
        _ => None,
    }
}

impl VerilatorRunConfig {
    /// The run's mode as it is reported: `fast+diff`, `fast`, `diff` or
    /// `run`.
    pub fn mode(&self) -> (r: &'static str)
        ensures
            self.fast && self.diff ==> r@ == "fast+diff"@,
            self.fast && !self.diff ==> r@ == "fast"@,
            !self.fast && self.diff ==> r@ == "diff"@,
            !self.fast && !self.diff ==> r@ == "run"@,
    {
        if self.fast && self.diff {
            "fast+diff"
        } else if self.fast {
            "fast"
        } else if self.diff {
            "diff"
        } else {
            "run"
        }
    }

    /// Whether the run can start, in an executable built with BEMU or
    /// without it.
    pub fn check(&self, built_with_bemu: bool) -> (r: Result<(), RunConfigError>)
        ensures
            self.fast ==> r == Err::<(), RunConfigError>(RunConfigError::FastUnsupported),
            !self.fast && self.diff && !built_with_bemu ==> r == Err::<(), RunConfigError>(
                RunConfigError::DiffWithoutBemu,
            ),
            !self.fast && (!self.diff || built_with_bemu) ==> r is Ok,
    {
        if self.fast {
            return Err(RunConfigError::FastUnsupported);
        }
        if self.diff && !built_with_bemu {
            return Err(RunConfigError::DiffWithoutBemu);
        }
        Ok(())
    }

    /// The traces the simulator records: those asked for, with the bank
    /// trace and the bank digests (over `geometry`) on for a difftest run.
    pub fn rtl_trace_config(&self, geometry: DigestGeometry) -> (r: RtlTraceConfig)
        ensures
            r == (RtlTraceConfig {
                itrace: self.trace.itrace,
                mtrace: self.trace.mtrace,
                pmctrace: self.trace.pmctrace,
                ctrace: self.trace.ctrace,
                banktrace: self.trace.banktrace || self.diff,
                bank_digest: if self.diff {
                    Some(geometry)
                } else {
                    None
                },
            }),
    {
        RtlTraceConfig {
            itrace: self.trace.itrace,
            mtrace: self.trace.mtrace,
            pmctrace: self.trace.pmctrace,
            ctrace: self.trace.ctrace,
            banktrace: self.trace.banktrace || self.diff,
            bank_digest: if self.diff {
                Some(geometry)
            } else {
                None
            },
        }
    }
}

/// Whether a finished run passed: the simulator exited with code 0 and
/// the difftest, where there was one, passed.
pub fn run_verdict(code: i32, diff: Option<DiffOutcome>) -> (r: Result<(), RunFailure>)
    ensures
        code != 0 && (diff matches Some(d) && !d.passed) ==> r == Err::<(), RunFailure>(
            RunFailure::ExitAndDiff { code, diff: diff->Some_0 },
        ),
        code != 0 && !(diff matches Some(d) && !d.passed) ==> r == Err::<(), RunFailure>(RunFailure::Exit { code }),
        code == 0 && (diff matches Some(d) && !d.passed) ==> r == Err::<(), RunFailure>(
            RunFailure::Diff { diff: diff->Some_0 },
        ),
        code == 0 && !(diff matches Some(d) && !d.passed) ==> r is Ok,
{
    let failed_diff: Option<DiffOutcome> = match diff {
        Some(d) => if d.passed {
            None
        } else {
            Some(d)
        },
        None => None,
    };
    if code != 0 {
        return match failed_diff {
            Some(d) => Err(RunFailure::ExitAndDiff { code, diff: d }),
            None => Err(RunFailure::Exit { code }),
        };
    }
    match failed_diff {
        Some(d) => Err(RunFailure::Diff { diff: d }),
        None => Ok(()),
    }
}

} // verus!
