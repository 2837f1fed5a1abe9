use rtop::models::QueryError;
use rtop::sys::{
    get_cpu_load, get_disks, get_memory_usage, get_process_count, get_system_info, get_uptime,
    parse_cpu_load, parse_disks, parse_memory_usage,
};

fn failed(cause: &str) -> QueryError {
    QueryError { cause: cause.to_string() }
}

#[test]
fn test_parse_cpu_load() {
    let input = "\r\nLoadPercentage=45\r\n\r\n";
    assert_eq!(parse_cpu_load(input), 45);

    let input_empty = "";
    assert_eq!(parse_cpu_load(input_empty), 0);
}

#[test]
fn test_parse_memory_usage() {
    // Total: 16GB (16777216 KB), Free: 8GB (8388608 KB) => 50% usage
    let input = "FreePhysicalMemory=8388608\r\nTotalVisibleMemorySize=16777216\r\n";
    let memory = parse_memory_usage(input);
    let percent = memory.percent_used();
    let total = memory.total_bytes as f64 / 1_073_741_824.0;
    let used = memory.used_bytes as f64 / 1_073_741_824.0;

    assert_eq!(percent, 50);
    assert!((total - 16.0).abs() < 0.1);
    assert!((used - 8.0).abs() < 0.1);
}

#[test]
fn test_parse_disks() {
    let input = "\r\nNode,DeviceID,FreeSpace,Size\r\nMYPC,C:,53687091200,107374182400\r\n";
    let disks = parse_disks(input);

    assert_eq!(disks.len(), 1);
    assert_eq!(disks[0].mount_or_device, "C:");
    assert_eq!(disks[0].percent_used(), 50);
    let total_gb = disks[0].total_bytes as f64 / 1_073_741_824.0;
    assert!((total_gb - 100.0).abs() < 0.1);
}

#[test]
fn test_system_info() {
    let info = get_system_info(Err(failed("wmic: not found")));
    assert!(!info.os_name.is_empty());
}

#[test]
fn system_info_without_the_utility_is_unknown() {
    let info = get_system_info(Err(failed("wmic: not found")));
    assert_eq!(info.os_name, "Unknown");
    assert_eq!(info.host_name, "Unknown");
}

#[test]
fn system_info_reads_both_names() {
    let out = "\r\n\r\nCaption=Microsoft Windows 11 Pro\r\nCSName=WORKSTATION\r\n\r\n";
    let info = get_system_info(Ok(out.to_string()));
    assert_eq!(info.os_name, "Microsoft Windows 11 Pro");
    assert_eq!(info.host_name, "WORKSTATION");
}

#[test]
fn system_info_last_line_of_a_kind_counts() {
    let out = "Caption=First\nCSName=alpha\nCaption=Second\n";
    let info = get_system_info(Ok(out.to_string()));
    assert_eq!(info.os_name, "Second");
    assert_eq!(info.host_name, "alpha");
}

#[test]
fn system_info_missing_name_is_unknown() {
    let info = get_system_info(Ok("CSName=box\r\n".to_string()));
    assert_eq!(info.os_name, "Unknown");
    assert_eq!(info.host_name, "box");
}

#[test]
fn system_info_value_ends_at_second_equals_sign() {
    let info = get_system_info(Ok("  Caption=a=b  \nCSName=\n".to_string()));
    assert_eq!(info.os_name, "a");
    assert_eq!(info.host_name, "");
}

#[test]
fn system_info_ignores_nul_characters() {
    let out = "C\0a\0p\0t\0i\0o\0n\0=\0W\0i\0n\0\r\0\n\0C\0S\0N\0a\0m\0e\0=\0p\0c\0\r\0\n\0";
    let info = get_system_info(Ok(out.to_string()));
    assert_eq!(info.os_name, "Win");
    assert_eq!(info.host_name, "pc");
}

#[test]
fn cpu_load_first_matching_line_counts() {
    assert_eq!(parse_cpu_load("LoadPercentage=7\nLoadPercentage=99\n"), 7);
    assert_eq!(parse_cpu_load("Other=1\n   LoadPercentage=12   \n"), 12);
}

#[test]
fn cpu_load_that_is_no_number_is_zero() {
    assert_eq!(parse_cpu_load("LoadPercentage=\n"), 0);
    assert_eq!(parse_cpu_load("LoadPercentage=abc\n"), 0);
    assert_eq!(parse_cpu_load("LoadPercentage= 45\n"), 0);
    assert_eq!(parse_cpu_load("LoadPercentage=-5\n"), 0);
    assert_eq!(parse_cpu_load("LoadPercentage=4.5\n"), 0);
    assert_eq!(parse_cpu_load("LoadPercentage=+45\n"), 45);
    assert_eq!(parse_cpu_load("LoadPercentage=+\n"), 0);
    assert_eq!(parse_cpu_load("LoadPercentage=007\n"), 7);
    assert_eq!(parse_cpu_load("loadpercentage=45\n"), 0);
}

#[test]
fn cpu_load_number_at_the_limit_of_64_bits() {
    assert_eq!(parse_cpu_load("LoadPercentage=18446744073709551615"), u64::MAX);
    assert_eq!(parse_cpu_load("LoadPercentage=18446744073709551616"), 0);
    assert_eq!(parse_cpu_load("LoadPercentage=99999999999999999999999"), 0);
}

#[test]
fn cpu_load_line_without_line_feed_keeps_carriage_return_as_space() {
    assert_eq!(parse_cpu_load("LoadPercentage=45\r"), 45);
    assert_eq!(parse_cpu_load("\u{3000}LoadPercentage=45\u{a0}"), 45);
}

#[test]
fn get_cpu_load_passes_the_failure_on() {
    assert_eq!(get_cpu_load(Err(failed("denied"))), Err(failed("denied")));
    assert_eq!(get_cpu_load(Ok("LoadPercentage=45\r\n".to_string())), Ok(45));
    assert_eq!(get_cpu_load(Ok("L\0oadPercentage=4\05\r\n".to_string())), Ok(45));
}

#[test]
fn get_uptime_reads_the_seconds() {
    assert_eq!(get_uptime(Ok("\r\nSystemUpTime=3661\r\n".to_string())), Ok(3661));
    assert_eq!(get_uptime(Ok("nothing here".to_string())), Ok(0));
    assert_eq!(get_uptime(Ok("SystemUpTime=soon\nSystemUpTime=5".to_string())), Ok(0));
    assert_eq!(get_uptime(Err(failed("io"))), Err(failed("io")));
}

#[test]
fn get_memory_usage_in_bytes() {
    let out = "FreePhysicalMemory=1\r\nTotalVisibleMemorySize=4\r\n".to_string();
    let memory = get_memory_usage(Ok(out)).unwrap();
    assert_eq!(memory.total_bytes, 4096);
    assert_eq!(memory.used_bytes, 3072);
    assert_eq!(memory.percent_used(), 75);
    assert_eq!(get_memory_usage(Err(failed("io"))), Err(failed("io")));
}

#[test]
fn memory_without_a_total_is_all_zero() {
    let memory = parse_memory_usage("FreePhysicalMemory=8388608\r\n");
    assert_eq!(memory.total_bytes, 0);
    assert_eq!(memory.used_bytes, 0);
    assert_eq!(memory.percent_used(), 0);
}

#[test]
fn memory_with_more_free_than_total_has_none_in_use() {
    let memory = parse_memory_usage("TotalVisibleMemorySize=10\nFreePhysicalMemory=20\n");
    assert_eq!(memory.total_bytes, 10240);
    assert_eq!(memory.used_bytes, 0);
}

#[test]
fn memory_last_line_of_a_kind_counts() {
    let memory = parse_memory_usage(
        "TotalVisibleMemorySize=10\nFreePhysicalMemory=5\nTotalVisibleMemorySize=20\n",
    );
    assert_eq!(memory.total_bytes, 20480);
    assert_eq!(memory.used_bytes, 15360);
}

#[test]
fn memory_too_large_for_bytes_is_the_largest_number() {
    let memory = parse_memory_usage("TotalVisibleMemorySize=18446744073709551615\n");
    assert_eq!(memory.total_bytes, u64::MAX);
    assert_eq!(memory.used_bytes, u64::MAX);
    let memory = parse_memory_usage("TotalVisibleMemorySize=18014398509481983\n");
    assert_eq!(memory.total_bytes, 18014398509481983 * 1024);
}

#[test]
fn disks_skip_heading_short_and_empty_lines() {
    let input = "\r\nNode,DeviceID,FreeSpace,Size\r\nPC,C:,10,40\r\nPC,D:,,\r\nPC,E:\r\n\r\nPC, F: , 5 , 20 ,x\r\n";
    let disks = parse_disks(input);
    assert_eq!(disks.len(), 2);
    assert_eq!(disks[0].mount_or_device, "C:");
    assert_eq!(disks[0].total_bytes, 40);
    assert_eq!(disks[0].free_bytes, 10);
    assert_eq!(disks[0].percent_used(), 75);
    assert_eq!(disks[1].mount_or_device, "F:");
    assert_eq!(disks[1].total_bytes, 20);
    assert_eq!(disks[1].free_bytes, 5);
}

#[test]
fn disk_without_size_is_left_out() {
    assert_eq!(parse_disks("PC,C:,10,0\nPC,D:,10,none\nPC,E:,none,8\n").len(), 1);
    let disks = parse_disks("PC,C:,10,0\nPC,D:,10,none\nPC,E:,none,8\n");
    assert_eq!(disks[0].mount_or_device, "E:");
    assert_eq!(disks[0].free_bytes, 0);
    assert_eq!(disks[0].percent_used(), 100);
}

#[test]
fn disk_heading_is_told_by_the_untrimmed_column() {
    let disks = parse_disks("PC, DeviceID,1,2\n");
    assert_eq!(disks.len(), 1);
    assert_eq!(disks[0].mount_or_device, "DeviceID");
}

#[test]
fn get_disks_passes_the_failure_on() {
    assert_eq!(get_disks(Err(failed("no wmic"))), Err(failed("no wmic")));
    let disks = get_disks(Ok("P\0C\0,\0C\0:\0,\x001\0,\x004\0\r\0\n\0".to_string())).unwrap();
    assert_eq!(disks.len(), 1);
    assert_eq!(disks[0].percent_used(), 75);
}

#[test]
fn process_count_leaves_out_three_lines_of_heading() {
    let listing = "\r\nImage Name   PID\r\n========== =====\r\nSystem 4\r\nsmss.exe 400\r\n";
    assert_eq!(get_process_count(Ok(listing.to_string())), Ok(2));
    assert_eq!(get_process_count(Ok("a\nb\nc\n".to_string())), Ok(0));
    assert_eq!(get_process_count(Ok("a\nb\nc\nd".to_string())), Ok(1));
    assert_eq!(get_process_count(Ok("\n\n\n\n".to_string())), Ok(1));
    assert_eq!(get_process_count(Ok(String::new())), Ok(0));
    assert_eq!(get_process_count(Err(failed("io"))), Err(failed("io")));
}
