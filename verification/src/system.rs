//! System telemetry records: the plain data served by the system endpoints.
//! Collecting them — cpu, disk, memory, network and process queries — is I/O
//! the caller owns; the library defines the records and the current
//! unix-time reading.

use vstd::prelude::*;

verus! {

/// One mounted disk.
pub struct Disk {
    pub name: String,
    pub filesystem_type: String,
    pub disk_type: String,
    pub mount_point: String,
    pub available_space_B: u64,
    pub total_space_B: u64,
}

/// The operating system's identity.
pub struct OsInfo {
    pub system_name: String,
    pub kernel_version: String,
    pub os_version: String,
    pub host_name: String,
}

/// Used and total size of one memory kind, in kilobytes.
pub struct MemoryUsage {
    pub used_kB: u64,
    pub total_kB: u64,
}

/// RAM and swap usage.
pub struct Memory {
    pub ram: MemoryUsage,
    pub swap: MemoryUsage,
}

/// One network interface with its traffic counters.
pub struct Network {
    pub name: String,
    pub description: String,
    pub mac: String,
    pub ips: Vec<String>,
    pub is_up: bool,
    pub is_loopback: bool,
    pub received_B: u64,
    pub total_received_B: u64,
    pub transmitted_B: u64,
    pub total_transmitted_B: u64,
    pub packets_received: u64,
    pub total_packets_received: u64,
    pub packets_transmitted: u64,
    pub total_packets_transmitted: u64,
    pub errors_on_received: u64,
    pub total_errors_on_received: u64,
    pub errors_on_transmitted: u64,
    pub total_errors_on_transmitted: u64,
}

/// One process's disk counters.
pub struct DiskUsage {
    pub total_written_bytes: u64,
    pub written_bytes: u64,
    pub total_read_bytes: u64,
    pub read_bytes: u64,
}

/// Relies on `std::time::SystemTime::now` and `duration_since`: the current
/// system time past the unix epoch, in whole seconds, or nothing when the
/// clock stands before the epoch. Nothing further can be promised of a
/// clock reading.
#[verifier::external_body]
fn clock_unix_seconds() -> (r: Option<u64>)
{
    match std::time::SystemTime::now().duration_since(std::time::UNIX_EPOCH) {
        Ok(d) => Some(d.as_secs()),
        Err(_) => None,
    }
}

/// The seconds a clock reading denotes: the reading itself, or zero for a
/// clock standing before the unix epoch.
pub fn seconds_or_zero(reading: Option<u64>) -> (r: u64)
    ensures
        r == match reading {
            Some(t) => t,
            None => 0u64,
        },
{
    match reading {
        Some(t) => t,
        None => 0,
    }
}

/// The current unix time in whole seconds; zero when the system clock stands
/// before the unix epoch.
pub fn unix_time_seconds() -> u64 {
    seconds_or_zero(clock_unix_seconds())
}

} // verus!