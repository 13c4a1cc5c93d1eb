//! The commands of the `bebop` tool: building simulator artifacts and
//! running workloads on them. Paths are carried as strings.

use vstd::prelude::*;

verus! {

/// The parsed command line.
#[derive(Debug)]
pub struct Cli {
    pub command: Commands,
}

/// The top-level commands.
#[derive(Debug)]
pub enum Commands {
    /// Build a simulator artifact.
    Build(BuildCommand),
    /// Run a workload on a built simulator artifact.
    Run(RunCommand),
}

/// `bebop build`.
#[derive(Debug)]
pub struct BuildCommand {
    pub target: BuildTarget,
}

/// What `bebop build` builds.
#[derive(Debug)]
pub enum BuildTarget {
    /// A Verilator-based simulator (with a BEMU difftest instance for
    /// `diff` or `fast`).
    Verilator { rtl_dir: String, out_dir: String, diff: bool, fast: bool },
    /// A P2E simulator artifact.
    P2e { rtl_dir: String, out_dir: String },
}

/// `bebop run`.
#[derive(Debug)]
pub struct RunCommand {
    pub target: RunTarget,
}

/// What `bebop run` runs on.
#[derive(Debug)]
pub enum RunTarget {
    /// A Verilator-based simulator artifact.
    Verilator {
        elf: String,
        log_dir: String,
        no_wave: bool,
        diff: bool,
        fast: bool,
        itrace: bool,
        mtrace: bool,
        pmctrace: bool,
        ctrace: bool,
        banktrace: bool,
    },
    /// BEMU.
    Bemu { elf: String, log_dir: String, pk: bool, bank_digest: bool, disasm: bool, tool_profile: bool },
    /// A P2E simulator artifact.
    P2e {
        image: String,
        bitstream: String,
        log_dir: String,
        multi_fpga: bool,
        wave: bool,
        wave_start: Option<u64>,
        itrace: bool,
        mtrace: bool,
        pmctrace: bool,
        ctrace: bool,
        banktrace: bool,
    },
}

} // verus!
