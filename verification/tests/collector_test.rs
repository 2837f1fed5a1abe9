use rtop::collector::{Collector, CollectorState, Readings};
use rtop::metrics::{clamp_percent, disk_percent_used, memory_percent_used};
use rtop::models::{
    DiskStat, MemoryStat, NetworkStat, ProcessInfo, QueryError, Snapshot, SystemInfo,
};
use rtop::top::select_top;
use rtop::ui::{render_dashboard, render_disks};

fn host() -> SystemInfo {
    SystemInfo { os_name: "Linux".to_string(), host_name: "box".to_string() }
}

fn failed<T>(cause: &str) -> Result<T, QueryError> {
    Err(QueryError { cause: cause.to_string() })
}

fn process(pid: u32, name: &str, cpu_percent: f32) -> ProcessInfo {
    ProcessInfo {
        pid,
        name: name.to_string(),
        cpu_tenths: (cpu_percent * 10.0).round() as u32,
        memory_bytes: 1024 * 1024 * pid as u64,
    }
}

fn disk(name: &str, total_bytes: u64, free_bytes: u64) -> DiskStat {
    DiskStat { mount_or_device: name.to_string(), total_bytes, free_bytes }
}

fn five_processes() -> Vec<ProcessInfo> {
    vec![
        process(1, "a", 10.0),
        process(2, "b", 90.0),
        process(3, "c", 5.0),
        process(4, "d", 90.0),
        process(5, "e", 50.0),
    ]
}

fn readings() -> Readings {
    Readings {
        cpu_percent: Ok(37),
        memory: Ok(MemoryStat { used_bytes: 8_589_934_592, total_bytes: 17_179_869_184 }),
        disks: Ok(vec![
            disk("C:", 107_374_182_400, 53_687_091_200),
            disk("D:", 0, 0),
            disk("E:", 1000, 250),
        ]),
        processes: Ok(five_processes()),
        networks: Ok(vec![NetworkStat {
            interface_name: "eth0".to_string(),
            bytes_transmitted: 10,
            bytes_received: 20,
        }]),
        uptime_seconds: Ok(90),
        process_count: Ok(5),
    }
}

fn pids(processes: &[ProcessInfo]) -> Vec<u32> {
    processes.iter().map(|p| p.pid).collect()
}

#[test]
fn memory_percent_of_eight_in_sixteen_gib() {
    assert_eq!(memory_percent_used(8_589_934_592, 17_179_869_184), 50);
}

#[test]
fn disk_percent_of_half_free() {
    assert_eq!(disk_percent_used(107374182400, 53687091200), 50);
}

#[test]
fn percent_is_rounded_down() {
    assert_eq!(memory_percent_used(1, 3), 33);
    assert_eq!(memory_percent_used(2, 3), 66);
    assert_eq!(memory_percent_used(199, 200), 99);
    assert_eq!(memory_percent_used(0, 7), 0);
    assert_eq!(memory_percent_used(7, 7), 100);
}

#[test]
fn percent_of_no_capacity_is_zero() {
    assert_eq!(memory_percent_used(5, 0), 0);
    assert_eq!(memory_percent_used(0, 0), 0);
    assert_eq!(disk_percent_used(0, 0), 0);
    assert_eq!(disk_percent_used(0, 9), 0);
}

#[test]
fn percent_of_a_misreporting_source() {
    assert_eq!(memory_percent_used(30, 10), 300);
    assert_eq!(memory_percent_used(u64::MAX, u64::MAX), 100);
    assert_eq!(memory_percent_used(u64::MAX, 100), u64::MAX);
    assert_eq!(memory_percent_used(u64::MAX, 1), u64::MAX);
    assert_eq!(memory_percent_used(u64::MAX, 101), 18264103043276783777);
    assert_eq!(disk_percent_used(10, 30), 0);
    assert_eq!(disk_percent_used(u64::MAX, 0), 100);
    assert_eq!(disk_percent_used(u64::MAX, 1), 99);
}

#[test]
fn shown_percent_is_at_most_100() {
    assert_eq!(clamp_percent(150), 100);
    assert_eq!(clamp_percent(0), 0);
    assert_eq!(clamp_percent(100), 100);
    assert_eq!(clamp_percent(101), 100);
    assert_eq!(clamp_percent(99), 99);
    assert_eq!(clamp_percent(u64::MAX), 100);
}

#[test]
fn top_three_of_five_keeps_ties_in_listed_order() {
    let top = select_top(&five_processes(), 3);
    assert_eq!(pids(&top), vec![2, 4, 5]);
    assert_eq!(top[0].cpu_tenths, 900);
    assert_eq!(top[1].cpu_tenths, 900);
    assert_eq!(top[2].cpu_tenths, 500);
    assert_eq!(top[0].name, "b");
    assert_eq!(top[0].memory_bytes, 2 * 1024 * 1024);
}

#[test]
fn top_five_of_two_is_two() {
    let two = vec![process(1, "a", 1.0), process(2, "b", 2.0)];
    let top = select_top(&two, 5);
    assert_eq!(top.len(), 2);
    assert_eq!(pids(&top), vec![2, 1]);
}

#[test]
fn top_of_nothing_and_top_zero() {
    assert_eq!(select_top(&[], 5).len(), 0);
    assert_eq!(select_top(&five_processes(), 0).len(), 0);
    assert_eq!(select_top(&[], 0).len(), 0);
}

#[test]
fn top_all_is_the_whole_table() {
    assert_eq!(pids(&select_top(&five_processes(), 5)), vec![2, 4, 5, 1, 3]);
    assert_eq!(pids(&select_top(&five_processes(), usize::MAX)), vec![2, 4, 5, 1, 3]);
    assert_eq!(pids(&select_top(&five_processes(), 1)), vec![2]);
}

#[test]
fn top_of_equal_shares_is_the_listed_order() {
    let same: Vec<ProcessInfo> = (1..=6).map(|pid| process(7 - pid, "p", 12.5)).collect();
    assert_eq!(pids(&select_top(&same, 4)), vec![6, 5, 4, 3]);
}

#[test]
fn top_does_not_go_by_pid() {
    let list = vec![process(9, "late", 50.0), process(1, "early", 50.0), process(5, "m", 50.1)];
    assert_eq!(pids(&select_top(&list, 3)), vec![5, 9, 1]);
}

#[test]
fn top_agrees_with_a_stable_sort() {
    let mut list = Vec::new();
    let mut seed: u32 = 12345;
    for pid in 0..200u32 {
        seed = seed.wrapping_mul(1103515245).wrapping_add(12345);
        list.push(ProcessInfo {
            pid,
            name: format!("p{}", pid),
            cpu_tenths: (seed >> 16) % 40,
            memory_bytes: pid as u64,
        });
    }
    let mut sorted: Vec<u32> = (0..200).collect();
    sorted.sort_by(|a, b| list[*b as usize].cpu_tenths.cmp(&list[*a as usize].cpu_tenths));
    for n in [0usize, 1, 5, 17, 199, 200, 201, 1000] {
        let top = select_top(&list, n);
        let expected: Vec<u32> = sorted.iter().take(n).cloned().collect();
        assert_eq!(pids(&top), expected);
    }
}

#[test]
fn new_collector_is_uninitialized_and_ready_after_one_refresh() {
    let mut collector = Collector::new(host());
    assert_eq!(collector.state(), CollectorState::Uninitialized);
    assert!(collector.needs_priming());
    collector.refresh(readings());
    assert_eq!(collector.state(), CollectorState::Ready);
    assert!(!collector.needs_priming());
    collector.refresh(readings());
    assert_eq!(collector.state(), CollectorState::Ready);
    assert!(!collector.needs_priming());
}

#[test]
fn refresh_fills_every_part_of_the_snapshot() {
    let mut collector = Collector::new(host());
    let snapshot = collector.refresh(readings());
    assert_eq!(snapshot.host, host());
    assert_eq!(snapshot.cpu_percent, 37);
    assert_eq!(snapshot.memory.used_bytes, 8_589_934_592);
    assert_eq!(snapshot.memory.total_bytes, 17_179_869_184);
    assert_eq!(snapshot.memory.percent_used(), 50);
    assert_eq!(snapshot.disks, vec![disk("C:", 107_374_182_400, 53_687_091_200), disk("E:", 1000, 250)]);
    assert_eq!(pids(&snapshot.processes), vec![2, 4, 5, 1, 3]);
    assert_eq!(snapshot.networks.len(), 1);
    assert_eq!(snapshot.networks[0].interface_name, "eth0");
    assert_eq!(snapshot.networks[0].bytes_transmitted, 10);
    assert_eq!(snapshot.networks[0].bytes_received, 20);
    assert_eq!(snapshot.process_count, 5);
    assert_eq!(snapshot.uptime_seconds, 90);
}

#[test]
fn refresh_leaves_out_a_disk_without_size() {
    let mut collector = Collector::new(host());
    let snapshot = collector.refresh(readings());
    assert_eq!(snapshot.disks.len(), 2);
    assert!(snapshot.disks.iter().all(|d| d.total_bytes > 0));
    assert_eq!(snapshot.disks[0].mount_or_device, "C:");
    assert_eq!(snapshot.disks[1].mount_or_device, "E:");
}

#[test]
fn refresh_with_failed_disk_query_has_no_disks_and_all_else() {
    let mut collector = Collector::new(host());
    let whole = collector.refresh(readings());
    let snapshot = collector.refresh(Readings { disks: failed("access denied"), ..readings() });
    assert!(snapshot.disks.is_empty());
    assert_eq!(snapshot, Snapshot { disks: Vec::new(), ..whole });
}

#[test]
fn refresh_with_every_query_failed_is_all_zero() {
    let mut collector = Collector::new(host());
    let snapshot = collector.refresh(Readings {
        cpu_percent: failed("io"),
        memory: failed("io"),
        disks: failed("io"),
        processes: failed("denied"),
        networks: failed("parse"),
        uptime_seconds: failed("io"),
        process_count: failed("io"),
    });
    assert_eq!(
        snapshot,
        Snapshot {
            host: host(),
            cpu_percent: 0,
            memory: MemoryStat { used_bytes: 0, total_bytes: 0 },
            disks: Vec::new(),
            processes: Vec::new(),
            networks: Vec::new(),
            process_count: 0,
            uptime_seconds: 0,
        }
    );
    assert_eq!(collector.state(), CollectorState::Ready);
}

#[test]
fn refresh_each_failure_touches_its_own_part_only() {
    let mut collector = Collector::new(host());
    let whole = collector.refresh(readings());
    let s = collector.refresh(Readings { cpu_percent: failed("x"), ..readings() });
    assert_eq!(s, Snapshot { cpu_percent: 0, ..collector.refresh(readings()) });
    let s = collector.refresh(Readings { processes: failed("x"), ..readings() });
    assert_eq!(s, Snapshot { processes: Vec::new(), ..collector.refresh(readings()) });
    let s = collector.refresh(Readings { networks: failed("x"), ..readings() });
    assert_eq!(s, Snapshot { networks: Vec::new(), ..collector.refresh(readings()) });
    let s = collector.refresh(Readings { uptime_seconds: failed("x"), ..readings() });
    assert_eq!(s, Snapshot { uptime_seconds: 0, ..collector.refresh(readings()) });
    let s = collector.refresh(Readings { process_count: failed("x"), ..readings() });
    assert_eq!(s, Snapshot { process_count: 0, ..collector.refresh(readings()) });
    let s = collector.refresh(Readings { memory: failed("x"), ..readings() });
    assert_eq!(
        s,
        Snapshot { memory: MemoryStat { used_bytes: 0, total_bytes: 0 }, ..whole }
    );
}

#[test]
fn refresh_right_after_new_on_one_core_without_disks() {
    let mut collector = Collector::new(host());
    let snapshot = collector.refresh(Readings {
        cpu_percent: Ok(100),
        memory: Ok(MemoryStat { used_bytes: 1, total_bytes: 2 }),
        disks: Ok(Vec::new()),
        processes: Ok(vec![process(1, "init", 100.0)]),
        networks: Ok(Vec::new()),
        uptime_seconds: Ok(0),
        process_count: Ok(1),
    });
    assert_eq!(snapshot.cpu_percent, 100);
    assert!(snapshot.disks.is_empty());
    assert_eq!(snapshot.processes.len(), 1);
    assert_eq!(snapshot.memory.percent_used(), 50);
    assert_eq!(snapshot.process_count, 1);
}

#[test]
fn refresh_clamps_the_processor_load() {
    let mut collector = Collector::new(host());
    let snapshot = collector.refresh(Readings { cpu_percent: Ok(150), ..readings() });
    assert_eq!(snapshot.cpu_percent, 100);
    let snapshot = collector.refresh(Readings { cpu_percent: Ok(u64::MAX), ..readings() });
    assert_eq!(snapshot.cpu_percent, 100);
    let snapshot = collector.refresh(Readings { cpu_percent: Ok(0), ..readings() });
    assert_eq!(snapshot.cpu_percent, 0);
}

#[test]
fn refresh_keeps_memory_of_a_misreporting_source() {
    let mut collector = Collector::new(host());
    let memory = MemoryStat { used_bytes: 30, total_bytes: 10 };
    let snapshot = collector.refresh(Readings { memory: Ok(memory), ..readings() });
    assert_eq!(snapshot.memory, memory);
    assert_eq!(snapshot.memory.percent_used(), 300);
    assert_eq!(snapshot.dashboard().mem_pct, 100);
}

#[test]
fn collector_shows_five_processes_unless_made_for_another_number() {
    let many: Vec<ProcessInfo> = (1..=9).map(|pid| process(pid, "p", pid as f32)).collect();
    let mut collector = Collector::new(host());
    let snapshot = collector.refresh(Readings { processes: Ok(many.clone()), ..readings() });
    assert_eq!(pids(&snapshot.processes), vec![9, 8, 7, 6, 5]);
    let mut collector = Collector::with_top_n(host(), 2);
    let snapshot = collector.refresh(Readings { processes: Ok(many), ..readings() });
    assert_eq!(pids(&snapshot.processes), vec![9, 8]);
}

#[test]
fn dashboard_of_a_snapshot() {
    let mut collector = Collector::new(host());
    let snapshot = collector.refresh(readings());
    let data = snapshot.dashboard();
    assert_eq!(data.host_name, "box");
    assert_eq!(data.os_name, "Linux");
    assert_eq!(data.proc_count, 5);
    assert_eq!(data.uptime, 90);
    assert_eq!(data.cpu, 37);
    assert_eq!(data.mem_used, 8_589_934_592);
    assert_eq!(data.mem_total, 17_179_869_184);
    assert_eq!(data.mem_pct, 50);
    assert_eq!(pids(data.top_procs), vec![2, 4, 5, 1, 3]);
    let mut buffer = String::new();
    render_dashboard(&mut buffer, &data);
    assert!(buffer.contains(" Host: \x1B[32mbox            \x1B[0m | OS: \x1B[32mLinux\x1B[0m\n"));
    assert!(buffer.contains(" | Up: \x1B[32m1m 30s\x1B[0m\n"));
    assert!(buffer.contains("          8.00 GB / 16.00 GB\n"));
    assert!(buffer.contains(" 2        b                         90.0       2.0       \n"));
}

#[test]
fn disks_section_is_exact() {
    let mut buffer = String::from(">");
    render_disks(&mut buffer, &[disk("C:", 107_374_182_400, 53_687_091_200), disk("E:", 10, 30)]);
    let expected = format!(
        "> DSK C: : [ \x1B[33m{}\x1B[0m{} ]  50%\n          50.00 GB / 100.00 GB\n DSK E: : [ \x1B[32m\x1B[0m{} ]   0%\n          0.00 GB / 0.00 GB\n",
        "█".repeat(20),
        "░".repeat(20),
        "░".repeat(40)
    );
    assert_eq!(buffer, expected);
}

#[test]
fn disks_section_without_disks() {
    let mut buffer = String::from(">");
    render_disks(&mut buffer, &[]);
    assert_eq!(buffer, ">No disks found\n");
}

#[test]
fn test_collector_memory() {
    let mut collector = Collector::new(host());
    let snapshot = collector.refresh(readings());
    let total = snapshot.memory.total_bytes as f64 / 1_073_741_824.0;
    let used = snapshot.memory.used_bytes as f64 / 1_073_741_824.0;
    let pct = snapshot.dashboard().mem_pct;
    assert!(total >= 0.0);
    assert!(used <= total);
    assert!(pct <= 100);
}

#[test]
fn test_collector_processes() {
    let mut collector = Collector::with_top_n(host(), 3);
    let snapshot = collector.refresh(readings());
    assert!(snapshot.process_count > 0);

    let top = snapshot.processes;
    assert!(!top.is_empty());
    assert!(top.len() <= 3);
}
