//! Reachability monitoring of network targets: bounded per-target probe
//! histories, exact latency statistics, a failure log, the decisions of the
//! probing engine and the state of the terminal view.
pub mod stats;
pub mod config;
pub mod monitor;
pub mod engine;
pub mod ui;
pub mod text;
pub mod target_list;
pub mod failures;
