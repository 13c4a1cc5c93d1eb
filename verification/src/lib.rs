//! Functional model of the Bebop NPU emulator and its host command protocol.

pub mod accelerator;
pub mod bank_alloc;
pub mod bank;
pub mod barrier;
pub mod bundle_config;
pub mod channels;
pub mod chipcrowd;
pub mod chip_config;
pub mod cli;
pub mod config;
pub mod core_config;
pub mod cycle_trace;
pub mod dispatch;
pub mod guest;
pub mod host_banks;
pub mod inst;
pub mod instructions;
pub mod mmio_load;
pub mod p2e;
pub mod page_walk;
pub mod pk;
pub mod pk_setup;
pub mod profile;
pub mod runtime;
pub mod rushb;
pub mod scoreboard;
pub mod simulation;
pub mod staging;
pub mod text;
pub mod trace;
pub mod transfer;
pub mod vvac;
