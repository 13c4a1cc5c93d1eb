use bebop::p2e::{join, RunWorkloadStep, DEFAULT_TIMEOUT_SECS};

#[test]
fn new_step_uses_channel_zero_and_five_minutes() {
    let step = RunWorkloadStep::new("fpga0".to_string(), "out".to_string(), "img.bin".to_string());
    assert_eq!(step.ddr_channel, 0);
    assert_eq!(step.timeout_secs, DEFAULT_TIMEOUT_SECS);
    assert_eq!(DEFAULT_TIMEOUT_SECS, 300);
    let step = step.ddr_channel(3).timeout(60);
    assert_eq!(step.ddr_channel, 3);
    assert_eq!(step.timeout_secs, 60);
    assert_eq!(step.fpga_location, "fpga0");
}

#[test]
fn run_script_sets_the_step_and_sources_the_templates() {
    let step = RunWorkloadStep::new("hw:1".to_string(), "out".to_string(), "/data/img.bin".to_string()).ddr_channel(12);
    let script = String::from_utf8(step.generate_run_tcl("/opt/p2e")).unwrap();
    assert!(script.starts_with("# Main run script for P2E workflow\n"));
    assert!(script.contains("set fpga_location \"hw:1\"\nset ddr_channel 12\nset image_path \"/data/img.bin\"\nset run_cycles 1000000\n"));
    assert!(script.contains("source /opt/p2e/src/runner/0_flashbitstream/flash.tcl\nsource /opt/p2e/src/runner/1_init/init.tcl\nsource /opt/p2e/src/runner/2_runworkload/workload.tcl\n"));
    let steps = ["flash_bitstream $fpga_location", "init_fpga $fpga_location", "load_image $fpga_location $ddr_channel $image_path", "run_workload $run_cycles"];
    let mut last = 0;
    for s in steps {
        let at = script.find(s).unwrap();
        assert!(at > last);
        last = at;
    }
    assert!(script.ends_with("exit\n"));
}

#[test]
fn join_adds_one_separator() {
    assert_eq!(join(b"a/b", b"c"), b"a/b/c".to_vec());
    assert_eq!(join(b"a/b/", b"c"), b"a/b/c".to_vec());
    assert_eq!(join(b"", b"c"), b"c".to_vec());
}
