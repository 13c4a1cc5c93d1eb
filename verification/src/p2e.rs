//! The workload step of a P2E run: its settings, and the TCL script that
//! flashes the bitstream, initialises the FPGA, loads the image and runs
//! the workload.

use vstd::prelude::*;
use vstd::utf8::encode_utf8;
use crate::text::{decimal, push_all, spec_decimal};

verus! {

/// Seconds a workload may run before it is given up, unless set.
pub const DEFAULT_TIMEOUT_SECS: u64 = 300;

/// Cycles the generated script runs the workload for.
pub const RUN_CYCLES: u64 = 1000000;

/// The settings of the workload step of a P2E run.
#[derive(Debug)]
pub struct RunWorkloadStep {
    pub fpga_location: String,
    pub output_dir: String,
    pub image_path: String,
    pub ddr_channel: u32,
    pub timeout_secs: u64,
}

/// UTF-8 bytes of a string.
pub open spec fn bytes_of(s: &String) -> Seq<u8> {
    encode_utf8(s@)
}

/// `rel` below the directory `base`, as `Path::join` forms it for a
/// relative `rel`.
pub open spec fn spec_join(base: Seq<u8>, rel: Seq<u8>) -> Seq<u8> {
    if base.len() == 0 {
        rel
    } else if base.last() == 47 {
        base + rel
    } else {
        base + seq![47u8] + rel
    }
}

/// `rel` below the directory `base`.
pub fn join(base: &[u8], rel: &[u8]) -> (r: Vec<u8>)
    ensures
        r@ == spec_join(base@, rel@),
{
    let mut out: Vec<u8> = Vec::new();
    push_all(&mut out, base);
    if base.len() > 0 && base[base.len() - 1] != 47 {
        out.push(47u8);
    }
    push_all(&mut out, rel);
    proof {
        if base@.len() == 0 {
            assert(out@ =~= rel@);
        } else if base@.last() == 47 {
            assert(out@ =~= base@ + rel@);
        } else {
            assert(out@ =~= base@ + seq![47u8] + rel@);
        }
    }
    out
}

/// The three TCL templates under the package directory `dir`: flashing,
/// initialisation and the workload.
pub open spec fn template_paths(dir: Seq<u8>) -> (Seq<u8>, Seq<u8>, Seq<u8>) {
    (
        spec_join(dir, encode_utf8("src/runner/0_flashbitstream/flash.tcl"@)),
        spec_join(dir, encode_utf8("src/runner/1_init/init.tcl"@)),
        spec_join(dir, encode_utf8("src/runner/2_runworkload/workload.tcl"@)),
    )
}

/// The script's text before the FPGA location.
pub open spec fn tcl_head() -> Seq<u8> {
    encode_utf8("# Main run script for P2E workflow\n# Generated by bebop-p2e\n\nset fpga_location \""@)
}

/// The steps after the modules are sourced.
pub open spec fn tcl_steps() -> Seq<u8> {
    encode_utf8("\n\n# Step 1: Flash bitstream\nputs \"==========================================\"\nputs \"Step 1: Flashing Bitstream\"\nputs \"==========================================\"\nflash_bitstream $fpga_location\n\n# Step 2: Initialize FPGA and check DDR calibration\nputs \"==========================================\"\nputs \"Step 2: Initializing FPGA\"\nputs \"==========================================\"\ninit_fpga $fpga_location\n\n# Step 3: Load image to DDR (after DDR is ready)\nputs \"==========================================\"\nputs \"Step 3: Loading Image to DDR\"\nputs \"==========================================\"\nload_image $fpga_location $ddr_channel $image_path\n\n# Step 4: Run workload\nputs \"==========================================\"\nputs \"Step 4: Running Workload\"\nputs \"==========================================\"\nrun_workload $run_cycles\n\nputs \"==========================================\"\nputs \"P2E Workflow Completed\"\nputs \"==========================================\"\n\nexit\n"@)
}

/// The text of `run.tcl` for a step, with the templates under `dir`.
pub open spec fn spec_run_tcl(step: &RunWorkloadStep, dir: Seq<u8>) -> Seq<u8> {
    let (flash, init, workload) = template_paths(dir);
    tcl_head() + bytes_of(&step.fpga_location) + encode_utf8("\"\nset ddr_channel "@) + spec_decimal(
        step.ddr_channel as nat,
    ) + encode_utf8("\nset image_path \""@) + bytes_of(&step.image_path)
        + encode_utf8("\"\nset run_cycles 1000000\n\nputs \"==========================================\"\nputs \"P2E Workflow Starting\"\nputs \"==========================================\"\n\n# Load TCL modules\nsource "@)
        + flash + encode_utf8("\nsource "@) + init + encode_utf8("\nsource "@) + workload + tcl_steps()
}

impl RunWorkloadStep {
    /// A step on the FPGA at `fpga_location` that writes to `output_dir`
    /// and loads `image_path` into DDR channel 0, given five minutes.
    pub fn new(fpga_location: String, output_dir: String, image_path: String) -> (r: RunWorkloadStep)
        ensures
            r.fpga_location == fpga_location,
            r.output_dir == output_dir,
            r.image_path == image_path,
            r.ddr_channel == 0,
            r.timeout_secs == DEFAULT_TIMEOUT_SECS,
    {
        RunWorkloadStep { fpga_location, output_dir, image_path, ddr_channel: 0, timeout_secs: DEFAULT_TIMEOUT_SECS }
    }

    /// The step with the image loaded into DDR channel `channel`.
    pub fn ddr_channel(self, channel: u32) -> (r: RunWorkloadStep)
        ensures
            r == (RunWorkloadStep { ddr_channel: channel, ..self }),
    {
        RunWorkloadStep { ddr_channel: channel, ..self }
    }

    /// The step given `secs` seconds.
    pub fn timeout(self, secs: u64) -> (r: RunWorkloadStep)
        ensures
            r == (RunWorkloadStep { timeout_secs: secs, ..self }),
    {
        RunWorkloadStep { timeout_secs: secs, ..self }
    }

    /// The text of `run.tcl`, which sources the templates under the
    /// package directory `dir` and runs the four steps in order.
    pub fn generate_run_tcl(&self, dir: &str) -> (r: Vec<u8>)
        ensures
            r@ == spec_run_tcl(self, encode_utf8(dir@)),
    {
        let d = dir.as_bytes();
        let flash = join(d, "src/runner/0_flashbitstream/flash.tcl".as_bytes());
        let init = join(d, "src/runner/1_init/init.tcl".as_bytes());
        let workload = join(d, "src/runner/2_runworkload/workload.tcl".as_bytes());
        let mut out: Vec<u8> = Vec::new();
        push_all(
            &mut out,
            "# Main run script for P2E workflow\n# Generated by bebop-p2e\n\nset fpga_location \"".as_bytes(),
        );
        push_all(&mut out, self.fpga_location.as_str().as_bytes());
        push_all(&mut out, "\"\nset ddr_channel ".as_bytes());
        let channel = decimal(self.ddr_channel as u64);
        push_all(&mut out, channel.as_slice());
        push_all(&mut out, "\nset image_path \"".as_bytes());
        push_all(&mut out, self.image_path.as_str().as_bytes());
        push_all(
            &mut out,
            "\"\nset run_cycles 1000000\n\nputs \"==========================================\"\nputs \"P2E Workflow Starting\"\nputs \"==========================================\"\n\n# Load TCL modules\nsource ".as_bytes(),
        );
        push_all(&mut out, flash.as_slice());
        push_all(&mut out, "\nsource ".as_bytes());
        push_all(&mut out, init.as_slice());
        push_all(&mut out, "\nsource ".as_bytes());
        push_all(&mut out, workload.as_slice());
        push_all(
            &mut out,
            "\n\n# Step 1: Flash bitstream\nputs \"==========================================\"\nputs \"Step 1: Flashing Bitstream\"\nputs \"==========================================\"\nflash_bitstream $fpga_location\n\n# Step 2: Initialize FPGA and check DDR calibration\nputs \"==========================================\"\nputs \"Step 2: Initializing FPGA\"\nputs \"==========================================\"\ninit_fpga $fpga_location\n\n# Step 3: Load image to DDR (after DDR is ready)\nputs \"==========================================\"\nputs \"Step 3: Loading Image to DDR\"\nputs \"==========================================\"\nload_image $fpga_location $ddr_channel $image_path\n\n# Step 4: Run workload\nputs \"==========================================\"\nputs \"Step 4: Running Workload\"\nputs \"==========================================\"\nrun_workload $run_cycles\n\nputs \"==========================================\"\nputs \"P2E Workflow Completed\"\nputs \"==========================================\"\n\nexit\n".as_bytes(),
        );
        out
    }
}

} // verus!
