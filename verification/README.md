# bebop

A verified functional model of the Bebop NPU emulator, its host command
protocol and the tools around it, written in Verus.

## Layout

- `src/` — the library, verified by Verus against the contracts of its
  functions:
  - the accelerator core: banks and their allocation, the scoreboard, the
    instruction decoder and dispatcher, the `mvin`/`mvout` transfers (guest
    addresses reach DRAM through the installed guest mappings) and the
    barrier;
  - chip, bundle and core configuration, and the tile topology derived from
    them;
  - the guest loader: the proxy-kernel page tables (`pk`, `page_walk`) and the
    hart set-up (`pk_setup`);
  - the rushB host runtime (`runtime`, `channels`, `rushb`): command queues,
    acceptance and completion tracking, timeouts, and the decision taken at
    the end of each round of the run loop;
  - profiling counters, cycle-trace records, the chipcrowd request router,
    the netlist clean-up pass (`vvac`) and the simulation and P2E run
    configuration.
  Calls into `serde_json`, `toml` and std that Verus cannot read stand behind
  small `#[verifier::external_body]` wrappers, which are trusted rather than
  proved. Where the outside documentation says what a call returns, the
  wrapper's contract says so or names the result; the clock wrappers and the
  conversions of parsed JSON and TOML values carry no postcondition.
- `tests/` — ordinary Rust tests of the library, run against the compiled
  crate.
- `app/` — the command-line program around the library: argument parsing,
  file and process I/O, threads and the host event loop. It holds no logic
  of its own beyond handing plain values to the library and acting on its
  answers.
