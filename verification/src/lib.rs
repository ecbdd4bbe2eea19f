//! Verified core of the zk-DEAP benchmark harness: the test schedule and its
//! tallies, the metric record of one run, the parsing of the kernel's process
//! statistics and of comma-separated overrides, the fixture-server URLs and the
//! decoding of what the fixture server hands out.

pub mod fixture;
pub mod metrics;
pub mod overrides;
pub mod peers;
pub mod procfs;
pub mod suite;
pub mod text;
