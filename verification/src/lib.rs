//! Kernel log aggregation and multi-subscriber streaming.
//!
//! The core of this library is a service that reconstructs logical kernel
//! log entries from a raw entry stream (merging continuation lines and
//! assigning monotonic sequence numbers), retains them in an append-only
//! store, and fans each new entry out to any number of subscribers, each of
//! which first receives the full historical snapshot and then every
//! subsequent entry exactly once, in order.
//!
//! Around that core stand the plain data types and the pure decision logic
//! of the surrounding telemetry endpoints: command-line setting parsing,
//! hardware model description, system and network snapshots, serial-port
//! and throttling-event records.

pub mod camera;
pub mod cli;
pub mod kernel;
pub mod model;
pub mod netstat;
pub mod platform;
pub mod recorder;
pub mod registry;
pub mod serial;
pub mod session;
pub mod system;
pub mod text;
pub mod udev;
