//! One snapshot of the host per sampling cycle.
//!
//! The collector does not query the host itself. Its caller makes the seven
//! queries, each of which may fail by itself, and hands their outcomes to
//! `Collector::refresh`, which turns them into a snapshot. A query that
//! failed leaves its own part of the snapshot at zero, or empty, and no other
//! part is touched by it.

use vstd::prelude::*;
use crate::metrics::{clamp_percent, clamped};
use crate::models::{
    DiskStat, DiskStatView, MemoryStat, NetworkStat, ProcessInfo, QueryError, Snapshot,
    SnapshotView, SystemInfo, SystemInfoView, disk_views, network_views, process_views,
};
use crate::top::{lemma_top_by_cpu, select_top, top_by_cpu};

verus! {

/// The outcomes of the seven queries of one cycle.
pub struct Readings {
    /// Processor load in percent. A source may report more than 100.
    pub cpu_percent: Result<u64, QueryError>,
    pub memory: Result<MemoryStat, QueryError>,
    pub disks: Result<Vec<DiskStat>, QueryError>,
    pub processes: Result<Vec<ProcessInfo>, QueryError>,
    pub networks: Result<Vec<NetworkStat>, QueryError>,
    pub uptime_seconds: Result<u64, QueryError>,
    pub process_count: Result<usize, QueryError>,
}

/// Whether the collector has produced a snapshot yet.
#[derive(Clone, Copy, Debug, PartialEq, Eq, Structural)]
pub enum CollectorState {
    /// No snapshot yet. The processor load is the difference of two
    /// observations, so before the first cycle the caller has to observe
    /// twice, with the settle delay between.
    Uninitialized,
    /// A snapshot has been produced; from now on one observation per cycle
    /// is enough.
    Ready,
}

/// What a `Collector` holds.
pub struct CollectorView {
    pub host: SystemInfoView,
    pub top_n: usize,
    pub state: CollectorState,
}

/// Produces the snapshots of one run.
pub struct Collector {
    host: SystemInfo,
    top_n: usize,
    state: CollectorState,
}

impl View for Collector {
    type V = CollectorView;

    closed spec fn view(&self) -> CollectorView {
        CollectorView { host: self.host@, top_n: self.top_n, state: self.state }
    }
}

/// Whether a volume has a size. One without is no volume.
pub open spec fn has_size(disk: DiskStatView) -> bool {
    disk.total_bytes > 0
}

/// The volumes among `disks`, in their order.
pub open spec fn volumes(disks: Seq<DiskStatView>) -> Seq<DiskStatView> {
    disks.filter(|d: DiskStatView| has_size(d))
}

/// The snapshot that the readings of one cycle give. Each part of it is made
/// of one reading alone: of what was read, or of zero or nothing where the
/// query failed.
pub open spec fn snapshot_of(host: SystemInfoView, top_n: usize, readings: Readings)
    -> SnapshotView {
    SnapshotView {
        host,
        cpu_percent: match readings.cpu_percent {
            Ok(percent) => clamped(percent as nat) as u64,
            Err(_) => 0,
        },
        memory: match readings.memory {
            Ok(memory) => memory,
            Err(_) => MemoryStat { used_bytes: 0, total_bytes: 0 },
        },
        disks: match readings.disks {
            Ok(disks) => volumes(disk_views(disks@)),
            Err(_) => Seq::empty(),
        },
        processes: match readings.processes {
            Ok(processes) => top_by_cpu(process_views(processes@), top_n as nat),
            Err(_) => Seq::empty(),
        },
        networks: match readings.networks {
            Ok(networks) => network_views(networks@),
            Err(_) => Seq::empty(),
        },
        process_count: match readings.process_count {
            Ok(count) => count,
            Err(_) => 0,
        },
        uptime_seconds: match readings.uptime_seconds {
            Ok(seconds) => seconds,
            Err(_) => 0,
        },
    }
}

/// Every volume of a snapshot has a size, every volume with a size that was
/// read is in the snapshot, and the snapshot holds no more than was read.
pub proof fn lemma_snapshot_disks_have_size(host: SystemInfoView, top_n: usize, readings: Readings)
    ensures
        forall|i: int|
            0 <= i < snapshot_of(host, top_n, readings).disks.len() ==> (#[trigger] snapshot_of(
                host,
                top_n,
                readings,
            ).disks[i]).total_bytes > 0,
        readings.disks matches Ok(disks) ==> {
            &&& snapshot_of(host, top_n, readings).disks.len() <= disks@.len()
            &&& forall|i: int|
                0 <= i < disks@.len() && disks@[i].total_bytes > 0 ==> snapshot_of(
                    host,
                    top_n,
                    readings,
                ).disks.contains(#[trigger] disks@[i]@)
        },
{
    if let Ok(disks) = readings.disks {
        let all = disk_views(disks@);
        all.filter_lemma(|d: DiskStatView| has_size(d));
        assert forall|i: int| 0 <= i < disks@.len() && disks@[i].total_bytes > 0 implies volumes(
            all,
        ).contains(#[trigger] disks@[i]@) by {
            assert(all[i] == disks@[i]@);
            assert(has_size(all[i]));
        }
    }
}

/// A cycle in which the query for the volumes fails gives a snapshot without
/// volumes that is otherwise the snapshot that the cycle would have given
/// had the query succeeded.
pub proof fn lemma_failed_disk_query_is_local(
    host: SystemInfoView,
    top_n: usize,
    readings: Readings,
    failed: Readings,
)
    requires
        failed.disks is Err,
        failed.cpu_percent == readings.cpu_percent,
        failed.memory == readings.memory,
        failed.processes == readings.processes,
        failed.networks == readings.networks,
        failed.uptime_seconds == readings.uptime_seconds,
        failed.process_count == readings.process_count,
    ensures
        snapshot_of(host, top_n, failed).disks == Seq::<DiskStatView>::empty(),
        snapshot_of(host, top_n, failed) == (SnapshotView {
            disks: Seq::empty(),
            ..snapshot_of(host, top_n, readings)
        }),
{
}

/// Whatever was read, and whatever could not be read, the processor load of
/// a snapshot is at most 100 percent, and the snapshot shows no more
/// processes than the collector was made for.
pub proof fn lemma_snapshot_in_range(host: SystemInfoView, top_n: usize, readings: Readings)
    ensures
        snapshot_of(host, top_n, readings).cpu_percent <= 100,
        snapshot_of(host, top_n, readings).processes.len() <= top_n,
        readings.processes matches Ok(processes) ==> snapshot_of(
            host,
            top_n,
            readings,
        ).processes.len() == if top_n <= processes@.len() {
            top_n as nat
        } else {
            processes@.len()
        },
{
    if let Ok(processes) = readings.processes {
        lemma_top_by_cpu(process_views(processes@), top_n as nat);
    }
}

/// The volumes among `disks`.
fn keep_volumes(disks: &Vec<DiskStat>) -> (kept: Vec<DiskStat>)
    ensures
        disk_views(kept@) == volumes(disk_views(disks@)),
{
    let ghost all = disk_views(disks@);
    let ghost keep = |d: DiskStatView| has_size(d);
    let mut kept: Vec<DiskStat> = Vec::new();
    let mut i: usize = 0;
    proof {
        reveal(Seq::filter);
        assert(all.take(0).filter(keep) == Seq::<DiskStatView>::empty());
    }
    while i < disks.len()
        invariant
            i <= disks.len(),
            all == disk_views(disks@),
            keep == |d: DiskStatView| has_size(d),
            disk_views(kept@) == all.take(i as int).filter(keep),
        decreases disks.len() - i,
    {
        let ghost held = kept@;
        proof {
            assert(all.take(i + 1) == all.take(i as int).push(all[i as int]));
            all.take(i as int).lemma_filter_push(all[i as int], keep);
        }
        if disks[i].total_bytes > 0 {
            kept.push(disks[i].clone());
            assert(disk_views(kept@) == disk_views(held).push(all[i as int]));
        }
        i += 1;
    }
    assert(all.take(disks.len() as int) == all);
    kept
}

impl Collector {
    /// A collector for the host `host`, which shows the five greediest
    /// processes.
    pub fn new(host: SystemInfo) -> (collector: Collector)
        ensures
            collector@.host == host@,
            collector@.top_n == 5,
            collector@.state == CollectorState::Uninitialized,
    {
        Collector { host, top_n: 5, state: CollectorState::Uninitialized }
    }

    /// A collector for the host `host`, which shows the `top_n` greediest
    /// processes.
    pub fn with_top_n(host: SystemInfo, top_n: usize) -> (collector: Collector)
        ensures
            collector@.host == host@,
            collector@.top_n == top_n,
            collector@.state == CollectorState::Uninitialized,
    {
        Collector { host, top_n, state: CollectorState::Uninitialized }
    }

    /// Whether a snapshot has been produced yet.
    pub fn state(&self) -> (state: CollectorState)
        ensures
            state == self@.state,
    {
        self.state
    }

    /// Whether the caller has to observe the processor twice, with the settle
    /// delay between, before it reads the load for the next cycle: so it is
    /// until the first snapshot, and never after.
    pub fn needs_priming(&self) -> (b: bool)
        ensures
            b == (self@.state == CollectorState::Uninitialized),
    {
        match self.state {
            CollectorState::Uninitialized => true,
            CollectorState::Ready => false,
        }
    }

    /// The snapshot of one cycle. It never fails: what could not be read is
    /// zero or empty in the snapshot. The collector is ready afterwards, and
    /// otherwise as it was.
    pub fn refresh(&mut self, readings: Readings) -> (snapshot: Snapshot)
        ensures
            snapshot@ == snapshot_of(old(self)@.host, old(self)@.top_n, readings),
            final(self)@.host == old(self)@.host,
            final(self)@.top_n == old(self)@.top_n,
            final(self)@.state == CollectorState::Ready,
    {
        let cpu_percent: u64 = match readings.cpu_percent {
            Ok(percent) => clamp_percent(percent),
            Err(_) => 0,
        };
        let memory = match readings.memory {
            Ok(memory) => memory,
            Err(_) => MemoryStat { used_bytes: 0, total_bytes: 0 },
        };
        let disks = match &readings.disks {
            Ok(disks) => keep_volumes(disks),
            Err(_) => Vec::new(),
        };
        let processes = match &readings.processes {
            Ok(processes) => select_top(processes.as_slice(), self.top_n),
            Err(_) => Vec::new(),
        };
        let networks = match readings.networks {
            Ok(networks) => networks,
            Err(_) => Vec::new(),
        };
        let process_count: usize = match readings.process_count {
            Ok(count) => count,
            Err(_) => 0,
        };
        let uptime_seconds: u64 = match readings.uptime_seconds {
            Ok(seconds) => seconds,
            Err(_) => 0,
        };
        self.state = CollectorState::Ready;
        let snapshot = Snapshot {
            host: self.host.clone(),
            cpu_percent,
            memory,
            disks,
            processes,
            networks,
            process_count,
            uptime_seconds,
        };
        proof {
            let expected = snapshot_of(old(self)@.host, old(self)@.top_n, readings);
            assert(snapshot@.disks == expected.disks);
            assert(snapshot@.processes == expected.processes);
            assert(snapshot@.networks == expected.networks);
        }
        snapshot
    }
}

} // verus!
