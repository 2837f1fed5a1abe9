//! The data of one sampling cycle, and what a renderer is handed.
//!
//! Every type that owns a string has a view in which the string is a sequence
//! of characters; the contracts of the library speak of those views.

use vstd::prelude::*;
use crate::metrics::{
    clamp_percent, clamped, disk_percent_used, disk_share, memory_percent_used, percent_of,
};

verus! {

/// Name of the host and of its operating system, read once at start-up.
#[derive(Debug, PartialEq, Eq)]
pub struct SystemInfo {
    pub os_name: String,
    pub host_name: String,
}

/// What a `SystemInfo` holds.
pub struct SystemInfoView {
    pub os_name: Seq<char>,
    pub host_name: Seq<char>,
}

impl View for SystemInfo {
    type V = SystemInfoView;

    open spec fn view(&self) -> SystemInfoView {
        SystemInfoView { os_name: self.os_name@, host_name: self.host_name@ }
    }
}

impl Clone for SystemInfo {
    fn clone(&self) -> (copy: Self)
        ensures
            copy@ == self@,
    {
        SystemInfo { os_name: self.os_name.clone(), host_name: self.host_name.clone() }
    }
}

/// Why a metric could not be read.
#[derive(Debug, PartialEq, Eq)]
pub struct QueryError {
    pub cause: String,
}

/// Physical memory, in bytes. A source may report more in use than there is.
#[derive(Clone, Copy, Debug, PartialEq, Eq, Structural)]
pub struct MemoryStat {
    pub used_bytes: u64,
    pub total_bytes: u64,
}

impl MemoryStat {
    /// Percentage of the memory that is in use.
    pub fn percent_used(&self) -> (percent: u64)
        ensures
            percent == percent_of(self.used_bytes as nat, self.total_bytes as nat),
    {
        memory_percent_used(self.used_bytes, self.total_bytes)
    }
}

/// One volume, in bytes.
#[derive(Debug, PartialEq, Eq)]
pub struct DiskStat {
    pub mount_or_device: String,
    pub total_bytes: u64,
    pub free_bytes: u64,
}

/// What a `DiskStat` holds.
pub struct DiskStatView {
    pub mount_or_device: Seq<char>,
    pub total_bytes: u64,
    pub free_bytes: u64,
}

impl View for DiskStat {
    type V = DiskStatView;

    open spec fn view(&self) -> DiskStatView {
        DiskStatView {
            mount_or_device: self.mount_or_device@,
            total_bytes: self.total_bytes,
            free_bytes: self.free_bytes,
        }
    }
}

impl Clone for DiskStat {
    fn clone(&self) -> (copy: Self)
        ensures
            copy@ == self@,
    {
        DiskStat {
            mount_or_device: self.mount_or_device.clone(),
            total_bytes: self.total_bytes,
            free_bytes: self.free_bytes,
        }
    }
}

impl DiskStat {
    /// Percentage of the volume that is in use.
    pub fn percent_used(&self) -> (percent: u64)
        ensures
            percent == disk_share(self.total_bytes as nat, self.free_bytes as nat),
    {
        disk_percent_used(self.total_bytes, self.free_bytes)
    }
}

/// One process. The processor share is held in tenths of a percent, which is
/// the precision it is displayed with.
#[derive(Debug, PartialEq, Eq)]
pub struct ProcessInfo {
    pub pid: u32,
    pub name: String,
    pub cpu_tenths: u32,
    pub memory_bytes: u64,
}

/// What a `ProcessInfo` holds.
pub struct ProcessInfoView {
    pub pid: u32,
    pub name: Seq<char>,
    pub cpu_tenths: u32,
    pub memory_bytes: u64,
}

impl View for ProcessInfo {
    type V = ProcessInfoView;

    open spec fn view(&self) -> ProcessInfoView {
        ProcessInfoView {
            pid: self.pid,
            name: self.name@,
            cpu_tenths: self.cpu_tenths,
            memory_bytes: self.memory_bytes,
        }
    }
}

impl Clone for ProcessInfo {
    fn clone(&self) -> (copy: Self)
        ensures
            copy@ == self@,
    {
        ProcessInfo {
            pid: self.pid,
            name: self.name.clone(),
            cpu_tenths: self.cpu_tenths,
            memory_bytes: self.memory_bytes,
        }
    }
}

/// Traffic of one network interface since it came up, in bytes.
#[derive(Debug, PartialEq, Eq)]
pub struct NetworkStat {
    pub interface_name: String,
    pub bytes_transmitted: u64,
    pub bytes_received: u64,
}

/// What a `NetworkStat` holds.
pub struct NetworkStatView {
    pub interface_name: Seq<char>,
    pub bytes_transmitted: u64,
    pub bytes_received: u64,
}

impl View for NetworkStat {
    type V = NetworkStatView;

    open spec fn view(&self) -> NetworkStatView {
        NetworkStatView {
            interface_name: self.interface_name@,
            bytes_transmitted: self.bytes_transmitted,
            bytes_received: self.bytes_received,
        }
    }
}

/// What the renderer displays.
pub struct DashboardData<'a> {
    pub host_name: &'a str,
    pub os_name: &'a str,
    pub proc_count: usize,
    pub uptime: u64,
    pub cpu: u64,
    /// Memory in use, in bytes.
    pub mem_used: u64,
    /// Memory there is, in bytes.
    pub mem_total: u64,
    pub mem_pct: u64,
    pub top_procs: &'a [ProcessInfo],
}

/// The views of a sequence of disks.
pub open spec fn disk_views(disks: Seq<DiskStat>) -> Seq<DiskStatView> {
    disks.map_values(|d: DiskStat| d@)
}

/// The views of a sequence of processes.
pub open spec fn process_views(processes: Seq<ProcessInfo>) -> Seq<ProcessInfoView> {
    processes.map_values(|p: ProcessInfo| p@)
}

/// The views of a sequence of network interfaces.
pub open spec fn network_views(networks: Seq<NetworkStat>) -> Seq<NetworkStatView> {
    networks.map_values(|n: NetworkStat| n@)
}

/// All that one sampling cycle found.
#[derive(Debug, PartialEq, Eq)]
pub struct Snapshot {
    pub host: SystemInfo,
    /// Processor load in percent, at most 100.
    pub cpu_percent: u64,
    pub memory: MemoryStat,
    /// The volumes that have a size.
    pub disks: Vec<DiskStat>,
    /// The processes that use the processor most, the greediest first.
    pub processes: Vec<ProcessInfo>,
    pub networks: Vec<NetworkStat>,
    pub process_count: usize,
    pub uptime_seconds: u64,
}

/// What a `Snapshot` holds.
pub struct SnapshotView {
    pub host: SystemInfoView,
    pub cpu_percent: u64,
    pub memory: MemoryStat,
    pub disks: Seq<DiskStatView>,
    pub processes: Seq<ProcessInfoView>,
    pub networks: Seq<NetworkStatView>,
    pub process_count: usize,
    pub uptime_seconds: u64,
}

impl View for Snapshot {
    type V = SnapshotView;

    open spec fn view(&self) -> SnapshotView {
        SnapshotView {
            host: self.host@,
            cpu_percent: self.cpu_percent,
            memory: self.memory,
            disks: disk_views(self.disks@),
            processes: process_views(self.processes@),
            networks: network_views(self.networks@),
            process_count: self.process_count,
            uptime_seconds: self.uptime_seconds,
        }
    }
}

impl Snapshot {
    /// What the renderer displays of this snapshot. The memory percentage is
    /// handed over as it is displayed, at most 100.
    pub fn dashboard(&self) -> (data: DashboardData<'_>)
        ensures
            data.host_name@ == self.host.host_name@,
            data.os_name@ == self.host.os_name@,
            data.proc_count == self.process_count,
            data.uptime == self.uptime_seconds,
            data.cpu == self.cpu_percent,
            data.mem_used == self.memory.used_bytes,
            data.mem_total == self.memory.total_bytes,
            data.mem_pct == clamped(
                percent_of(self.memory.used_bytes as nat, self.memory.total_bytes as nat),
            ),
            data.top_procs@ == self.processes@,
    {
        DashboardData {
            host_name: self.host.host_name.as_str(),
            os_name: self.host.os_name.as_str(),
            proc_count: self.process_count,
            uptime: self.uptime_seconds,
            cpu: self.cpu_percent,
            mem_used: self.memory.used_bytes,
            mem_total: self.memory.total_bytes,
            mem_pct: clamp_percent(self.memory.percent_used()),
            top_procs: self.processes.as_slice(),
        }
    }
}

} // verus!
