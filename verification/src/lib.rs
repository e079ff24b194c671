//! A bounded-concurrency host and port liveness scanner.
//!
//! The crate holds the decisions of a scan: which addresses are probed, which
//! port of a host is tried next and for how long, how many probes may run at
//! once, and what the collected results add up to. Sockets, timers and tasks
//! are left to the program that drives these state machines.

pub mod address;
pub mod config;
pub mod coordinator;
pub mod enumerate;
pub mod limiter;
pub mod probe;
pub mod stats;

pub use address::Target;
pub use config::{Config, DispatchError, NetworkScanner};
pub use coordinator::{Coordinator, Dispatch, Progress};
pub use enumerate::EnumerateError;
pub use probe::{Attempt, Probe, ProbeAction, ScanResult};
pub use stats::ScanStats;
