//! The dashboard as text.

use vstd::prelude::*;
use crate::decimal::{decimal, digit_char, push_decimal};
use crate::metrics::{clamp_percent, clamped, disk_share};
use crate::models::{
    DashboardData, DiskStat, DiskStatView, ProcessInfo, ProcessInfoView, disk_views, process_views,
};

verus! {

/// Ends whatever colour or weight is in force.
pub const C_RESET: &'static str = "\x1B[0m";

pub const C_CYAN: &'static str = "\x1B[36m";

pub const C_GREEN: &'static str = "\x1B[32m";

pub const C_YELLOW: &'static str = "\x1B[33m";

pub const C_MAGENTA: &'static str = "\x1B[35m";

pub const C_RED: &'static str = "\x1B[31m";

pub const C_BOLD: &'static str = "\x1B[1m";

/// `n` times the character `c`.
pub open spec fn repeat(c: char, n: nat) -> Seq<char> {
    Seq::new(n, |i: int| c)
}

/// `s`, followed by as many spaces as it is shorter than `width`.
pub open spec fn pad_right(s: Seq<char>, width: nat) -> Seq<char> {
    if s.len() < width {
        s + repeat(' ', (width - s.len()) as nat)
    } else {
        s
    }
}

/// `s`, with as many spaces before it as it is shorter than `width`.
pub open spec fn pad_left(s: Seq<char>, width: nat) -> Seq<char> {
    if s.len() < width {
        repeat(' ', (width - s.len()) as nat) + s
    } else {
        s
    }
}

/// A time in seconds as it is displayed: days, hours and minutes from one
/// day on; hours, minutes and seconds from one hour on; minutes and seconds
/// below that.
pub open spec fn uptime_text(seconds: nat) -> Seq<char> {
    let days = seconds / 86400;
    let hours = (seconds % 86400) / 3600;
    let minutes = (seconds % 3600) / 60;
    let secs = seconds % 60;
    if days > 0 {
        decimal(days) + "d "@ + decimal(hours) + "h "@ + decimal(minutes) + "m"@
    } else if hours > 0 {
        decimal(hours) + "h "@ + decimal(minutes) + "m "@ + decimal(secs) + "s"@
    } else {
        decimal(minutes) + "m "@ + decimal(secs) + "s"@
    }
}

/// The quotient `num / den` as the nearest whole number; of two that are
/// equally near, the even one.
pub open spec fn rounded_div(num: nat, den: nat) -> nat {
    let q = num / den;
    let r = num % den;
    if 2 * r > den || (2 * r == den && q % 2 == 1) {
        q + 1
    } else {
        q
    }
}

/// A count of tenths, written with one digit after the point.
pub open spec fn one_decimal(tenths: nat) -> Seq<char> {
    decimal(tenths / 10) + "."@ + seq![digit_char(tenths % 10)]
}

/// A count of hundredths, written with two digits after the point.
pub open spec fn two_decimals(hundredths: nat) -> Seq<char> {
    decimal(hundredths / 100) + "."@ + seq![
        digit_char(hundredths / 10 % 10),
        digit_char(hundredths % 10),
    ]
}

/// A count of bytes in gibibytes, written with two digits after the point.
pub open spec fn gib_text(bytes: nat) -> Seq<char> {
    two_decimals(rounded_div(bytes * 100, 0x4000_0000))
}

/// A count of bytes in mebibytes, written with one digit after the point.
pub open spec fn mib_text(bytes: nat) -> Seq<char> {
    one_decimal(rounded_div(bytes * 10, 0x10_0000))
}

/// The colour of a bar: green below 50 percent, yellow below 80, red from
/// there on.
pub open spec fn bar_color(shown: nat) -> Seq<char> {
    if shown < 50 {
        C_GREEN@
    } else if shown < 80 {
        C_YELLOW@
    } else {
        C_RED@
    }
}

/// One line with a bar of 40 cells, of which as many are filled as the
/// percentage, cut off at 100, makes of 40, rounded down.
pub open spec fn bar_line(label: Seq<char>, percent: nat) -> Seq<char> {
    let shown = clamped(percent);
    let filled = shown * 40 / 100;
    " "@ + pad_right(label, 7) + ": [ "@ + bar_color(shown) + repeat('█', filled) + C_RESET@
        + repeat('░', (40 - filled) as nat) + " ] "@ + pad_left(decimal(shown), 3) + "%\n"@
}

/// The three lines of the box that holds the title.
pub open spec fn banner() -> Seq<char> {
    C_BOLD@ + C_CYAN@ + "╔"@ + repeat('═', 72) + "╗"@ + C_RESET@ + "\n"@ + C_BOLD@ + C_CYAN@
        + "║ "@ + repeat(' ', 26) + "RUST TOP DASHBOARD"@ + repeat(' ', 26) + " ║"@ + C_RESET@
        + "\n"@ + C_BOLD@ + C_CYAN@ + "╚"@ + repeat('═', 72) + "╝"@ + C_RESET@ + "\n"@
}

/// The line that names the host and its operating system.
pub open spec fn host_line(host_name: Seq<char>, os_name: Seq<char>) -> Seq<char> {
    " Host: "@ + C_GREEN@ + pad_right(host_name, 15) + C_RESET@ + " | OS: "@ + C_GREEN@ + os_name
        + C_RESET@ + "\n"@
}

/// The line with the number of processes and the time since start-up.
pub open spec fn proc_line(proc_count: nat, uptime: nat) -> Seq<char> {
    " Proc: "@ + C_YELLOW@ + pad_right(decimal(proc_count), 15) + C_RESET@ + " | Up: "@ + C_GREEN@
        + uptime_text(uptime) + C_RESET@ + "\n"@
}

/// A horizontal rule.
pub open spec fn rule_line() -> Seq<char> {
    repeat('━', 74) + "\n"@
}

/// The line under the memory bar: memory in use and memory there is.
pub open spec fn memory_line(used: nat, total: nat) -> Seq<char> {
    "          "@ + gib_text(used) + " GB / "@ + gib_text(total) + " GB\n"@
}

/// The two lines above the table of processes.
pub open spec fn table_head() -> Seq<char> {
    " "@ + C_BOLD@ + C_RED@ + "TOP PROCESSES (CPU)"@ + C_RESET@ + repeat(' ', 52) + "\n"@ + " "@
        + pad_right("PID"@, 8) + " "@ + pad_right("NAME"@, 25) + " "@ + pad_right("CPU %"@, 10)
        + " "@ + pad_right("MEM (MB)"@, 10) + "\n"@
}

/// A process name as it is displayed: its first 25 characters.
pub open spec fn shown_name(name: Seq<char>) -> Seq<char> {
    if name.len() > 25 {
        name.subrange(0, 25)
    } else {
        name
    }
}

/// The line of the table for one process.
pub open spec fn process_row(process: ProcessInfoView) -> Seq<char> {
    " "@ + pad_right(decimal(process.pid as nat), 8) + " "@ + pad_right(
        shown_name(process.name),
        25,
    ) + " "@ + pad_right(one_decimal(process.cpu_tenths as nat), 10) + " "@ + pad_right(
        mib_text(process.memory_bytes as nat),
        10,
    ) + "\n"@
}

/// The lines of the table for `processes`, in their order.
pub open spec fn process_rows(processes: Seq<ProcessInfoView>) -> Seq<char>
    decreases processes.len(),
{
    if processes.len() == 0 {
        Seq::empty()
    } else {
        process_rows(processes.drop_last()) + process_row(processes.last())
    }
}

/// The dashboard for `data`.
pub open spec fn dashboard_text(data: DashboardData) -> Seq<char> {
    banner() + host_line(data.host_name@, data.os_name@) + proc_line(
        data.proc_count as nat,
        data.uptime as nat,
    ) + rule_line() + bar_line("CPU"@, data.cpu as nat) + bar_line("MEM"@, data.mem_pct as nat)
        + memory_line(data.mem_used as nat, data.mem_total as nat) + rule_line() + table_head()
        + process_rows(process_views(data.top_procs@)) + rule_line()
        + " Press Ctrl+C to exit.\n"@
}

/// The label of the bar of a volume.
pub open spec fn disk_label(mount_or_device: Seq<char>) -> Seq<char> {
    "DSK "@ + mount_or_device
}

/// The two lines for one volume: its bar, and under it what is in use and
/// what there is.
pub open spec fn disk_lines(disk: DiskStatView) -> Seq<char> {
    bar_line(
        disk_label(disk.mount_or_device),
        disk_share(disk.total_bytes as nat, disk.free_bytes as nat),
    ) + memory_line(
        if disk.free_bytes > disk.total_bytes {
            0
        } else {
            (disk.total_bytes - disk.free_bytes) as nat
        },
        disk.total_bytes as nat,
    )
}

/// The lines for `disks`, in their order.
pub open spec fn disk_rows(disks: Seq<DiskStatView>) -> Seq<char>
    decreases disks.len(),
{
    if disks.len() == 0 {
        Seq::empty()
    } else {
        disk_rows(disks.drop_last()) + disk_lines(disks.last())
    }
}

/// The part of the dashboard that shows the volumes.
pub open spec fn disks_text(disks: Seq<DiskStatView>) -> Seq<char> {
    if disks.len() == 0 {
        "No disks found\n"@
    } else {
        disk_rows(disks)
    }
}

/// Whatever is at or above 100 percent gives the bar of 100 percent.
pub proof fn lemma_bar_line_clamps(label: Seq<char>, percent: nat)
    requires
        percent >= 100,
    ensures
        bar_line(label, percent) == bar_line(label, 100),
{
}

/// Appends `n` times the character `c` to `out`.
fn push_repeat(out: &mut String, c: char, n: usize)
    ensures
        final(out)@ == old(out)@ + repeat(c, n as nat),
{
    let mut i: usize = 0;
    assert(out@ == old(out)@ + repeat(c, 0));
    while i < n
        invariant
            i <= n,
            out@ == old(out)@ + repeat(c, i as nat),
        decreases n - i,
    {
        out.push(c);
        i += 1;
        assert(out@ == old(out)@ + repeat(c, i as nat));
    }
}

/// Formats a time in seconds for display.
pub fn format_uptime(seconds: u64) -> (text: String)
    ensures
        text@ == uptime_text(seconds as nat),
{
    let days: u64 = seconds / 86400;
    let hours: u64 = (seconds % 86400) / 3600;
    let minutes: u64 = (seconds % 3600) / 60;
    let secs: u64 = seconds % 60;
    let mut text = String::new();
    assert(text@ + decimal(days as nat) == decimal(days as nat));
    assert(text@ + decimal(hours as nat) == decimal(hours as nat));
    assert(text@ + decimal(minutes as nat) == decimal(minutes as nat));
    if days > 0 {
        push_decimal(&mut text, days);
        text.append("d ");
        push_decimal(&mut text, hours);
        text.append("h ");
        push_decimal(&mut text, minutes);
        text.append("m");
    } else if hours > 0 {
        push_decimal(&mut text, hours);
        text.append("h ");
        push_decimal(&mut text, minutes);
        text.append("m ");
        push_decimal(&mut text, secs);
        text.append("s");
    } else {
        push_decimal(&mut text, minutes);
        text.append("m ");
        push_decimal(&mut text, secs);
        text.append("s");
    }
    text
}

/// Appends `s` to `out`, and spaces after it up to `width` characters.
fn push_padded(out: &mut String, s: &str, width: usize)
    ensures
        final(out)@ == old(out)@ + pad_right(s@, width as nat),
{
    out.append(s);
    let n: usize = s.unicode_len();
    if n < width {
        push_repeat(out, ' ', width - n);
    }
    assert(out@ == old(out)@ + pad_right(s@, width as nat));
}

/// Appends `n` in decimal notation to `out`, and spaces after it up to
/// `width` characters.
fn push_padded_number(out: &mut String, n: u64, width: usize)
    ensures
        final(out)@ == old(out)@ + pad_right(decimal(n as nat), width as nat),
{
    let mut number = String::new();
    push_decimal(&mut number, n);
    assert(number@ == decimal(n as nat));
    push_padded(out, number.as_str(), width);
}

/// `num / den` as the nearest whole number, the even one of two.
fn div_rounded(num: u128, den: u128) -> (q: u128)
    requires
        0 < den <= 0x4000_0000,
        num < u128::MAX,
    ensures
        q == rounded_div(num as nat, den as nat),
{
    let q: u128 = num / den;
    let r: u128 = num % den;
    if 2 * r > den || (2 * r == den && q % 2 == 1) {
        assert(num / den <= num) by (nonlinear_arith)
            requires
                den > 0,
        ;
        q + 1
    } else {
        q
    }
}

/// Appends a count of tenths to `out`, with one digit after the point.
fn push_one_decimal(out: &mut String, tenths: u64)
    ensures
        final(out)@ == old(out)@ + one_decimal(tenths as nat),
{
    push_decimal(out, tenths / 10);
    out.append(".");
    let d: u8 = (tenths % 10) as u8;
    out.push((0x30u8 + d) as char);
    assert(out@ == old(out)@ + one_decimal(tenths as nat));
}

/// A count of tenths, with one digit after the point.
fn one_decimal_string(tenths: u64) -> (s: String)
    ensures
        s@ == one_decimal(tenths as nat),
{
    let mut s = String::new();
    push_one_decimal(&mut s, tenths);
    assert(s@ == one_decimal(tenths as nat));
    s
}

/// A count of bytes in gibibytes, with two digits after the point.
fn gib_string(bytes: u64) -> (s: String)
    ensures
        s@ == gib_text(bytes as nat),
{
    let hundredths: u128 = div_rounded(bytes as u128 * 100, 0x4000_0000);
    assert(hundredths <= u64::MAX);
    let h: u64 = hundredths as u64;
    let mut s = String::new();
    push_decimal(&mut s, h / 100);
    s.append(".");
    let tens: u8 = (h / 10 % 10) as u8;
    let ones: u8 = (h % 10) as u8;
    s.push((0x30u8 + tens) as char);
    s.push((0x30u8 + ones) as char);
    assert(s@ == gib_text(bytes as nat));
    s
}

/// A count of bytes in mebibytes, with one digit after the point.
fn mib_string(bytes: u64) -> (s: String)
    ensures
        s@ == mib_text(bytes as nat),
{
    let tenths: u128 = div_rounded(bytes as u128 * 10, 0x10_0000);
    assert(tenths <= u64::MAX);
    one_decimal_string(tenths as u64)
}

/// Appends to `buffer` one line with a bar for `percent`, which is displayed
/// as 100 where it is above. The colour of the bar goes by the percentage
/// alone.
pub fn push_bar(buffer: &mut String, label: &str, percent: usize, _default_color: &str)
    ensures
        final(buffer)@ == old(buffer)@ + bar_line(label@, percent as nat),
{
    let width: usize = 40;
    let shown: usize = if percent > 100 {
        100
    } else {
        percent
    };
    let color_code: &str = if shown < 50 {
        C_GREEN
    } else if shown < 80 {
        C_YELLOW
    } else {
        C_RED
    };
    let filled: usize = (shown * width) / 100;
    let empty: usize = width - filled;

    let mut line = String::from_str(" ");
    push_padded(&mut line, label, 7);
    line.append(": [ ");
    line.append(color_code);
    push_repeat(&mut line, '█', filled);
    line.append(C_RESET);
    push_repeat(&mut line, '░', empty);
    line.append(" ] ");
    let ghost head = line@;
    let mut number = String::new();
    push_decimal(&mut number, shown as u64);
    assert(number@ == decimal(shown as nat));
    let digits: usize = number.as_str().unicode_len();
    if digits < 3 {
        push_repeat(&mut line, ' ', 3 - digits);
    }
    line.append(number.as_str());
    assert(line@ == head + pad_left(decimal(shown as nat), 3));
    line.append("%\n");
    buffer.append(line.as_str());
}

/// The three lines of the box that holds the title.
fn banner_string() -> (s: String)
    ensures
        s@ == banner(),
{
    let mut s = String::from_str(C_BOLD);
    s.append(C_CYAN);
    s.append("╔");
    push_repeat(&mut s, '═', 72);
    s.append("╗");
    s.append(C_RESET);
    s.append("\n");
    s.append(C_BOLD);
    s.append(C_CYAN);
    s.append("║ ");
    push_repeat(&mut s, ' ', 26);
    s.append("RUST TOP DASHBOARD");
    push_repeat(&mut s, ' ', 26);
    s.append(" ║");
    s.append(C_RESET);
    s.append("\n");
    s.append(C_BOLD);
    s.append(C_CYAN);
    s.append("╚");
    push_repeat(&mut s, '═', 72);
    s.append("╝");
    s.append(C_RESET);
    s.append("\n");
    s
}

/// Appends the line that names the host and its operating system.
fn push_host_line(out: &mut String, host_name: &str, os_name: &str)
    ensures
        final(out)@ == old(out)@ + host_line(host_name@, os_name@),
{
    let mut line = String::from_str(" Host: ");
    line.append(C_GREEN);
    push_padded(&mut line, host_name, 15);
    line.append(C_RESET);
    line.append(" | OS: ");
    line.append(C_GREEN);
    line.append(os_name);
    line.append(C_RESET);
    line.append("\n");
    out.append(line.as_str());
}

/// Appends the line with the number of processes and the time since
/// start-up.
fn push_proc_line(out: &mut String, proc_count: usize, uptime: u64)
    ensures
        final(out)@ == old(out)@ + proc_line(proc_count as nat, uptime as nat),
{
    let mut line = String::from_str(" Proc: ");
    line.append(C_YELLOW);
    push_padded_number(&mut line, proc_count as u64, 15);
    line.append(C_RESET);
    line.append(" | Up: ");
    line.append(C_GREEN);
    let uptime_string = format_uptime(uptime);
    line.append(uptime_string.as_str());
    line.append(C_RESET);
    line.append("\n");
    out.append(line.as_str());
}

/// Appends a horizontal rule.
fn push_rule(out: &mut String)
    ensures
        final(out)@ == old(out)@ + rule_line(),
{
    let mut line = String::new();
    push_repeat(&mut line, '━', 74);
    assert(line@ == repeat('━', 74));
    line.append("\n");
    out.append(line.as_str());
}

/// Appends the line under the memory bar.
fn push_memory_line(out: &mut String, used: u64, total: u64)
    ensures
        final(out)@ == old(out)@ + memory_line(used as nat, total as nat),
{
    let mut line = String::from_str("          ");
    let used_string = gib_string(used);
    line.append(used_string.as_str());
    line.append(" GB / ");
    let total_string = gib_string(total);
    line.append(total_string.as_str());
    line.append(" GB\n");
    out.append(line.as_str());
}

/// Appends the two lines above the table of processes.
fn push_table_head(out: &mut String)
    ensures
        final(out)@ == old(out)@ + table_head(),
{
    let mut line = String::from_str(" ");
    line.append(C_BOLD);
    line.append(C_RED);
    line.append("TOP PROCESSES (CPU)");
    line.append(C_RESET);
    push_repeat(&mut line, ' ', 52);
    line.append("\n");
    line.append(" ");
    push_padded(&mut line, "PID", 8);
    line.append(" ");
    push_padded(&mut line, "NAME", 25);
    line.append(" ");
    push_padded(&mut line, "CPU %", 10);
    line.append(" ");
    push_padded(&mut line, "MEM (MB)", 10);
    line.append("\n");
    out.append(line.as_str());
}

/// Appends the line of the table for one process.
fn push_process_row(out: &mut String, process: &ProcessInfo)
    ensures
        final(out)@ == old(out)@ + process_row(process@),
{
    let mut line = String::from_str(" ");
    push_padded_number(&mut line, process.pid as u64, 8);
    line.append(" ");
    let name: &str = process.name.as_str();
    let name: &str = if name.unicode_len() > 25 {
        name.substring_char(0, 25)
    } else {
        name
    };
    push_padded(&mut line, name, 25);
    line.append(" ");
    let cpu = one_decimal_string(process.cpu_tenths as u64);
    push_padded(&mut line, cpu.as_str(), 10);
    line.append(" ");
    let memory = mib_string(process.memory_bytes);
    push_padded(&mut line, memory.as_str(), 10);
    line.append("\n");
    out.append(line.as_str());
}

/// Appends the lines of the table for `processes`.
fn push_process_rows(out: &mut String, processes: &[ProcessInfo])
    ensures
        final(out)@ == old(out)@ + process_rows(process_views(processes@)),
{
    let ghost views = process_views(processes@);
    let mut i: usize = 0;
    assert(out@ == old(out)@ + process_rows(views.take(0)));
    while i < processes.len()
        invariant
            i <= processes.len(),
            views == process_views(processes@),
            out@ == old(out)@ + process_rows(views.take(i as int)),
        decreases processes.len() - i,
    {
        let ghost before = out@;
        push_process_row(out, &processes[i]);
        proof {
            let done = views.take(i as int);
            let more = views.take(i + 1);
            assert(more.drop_last() == done);
            assert(more.last() == processes@[i as int]@);
            assert(old(out)@ + process_rows(done) + process_row(more.last()) == old(out)@ + (
            process_rows(done) + process_row(more.last())));
        }
        i += 1;
    }
    assert(views.take(processes.len() as int) == views);
}

/// Appends the dashboard for `data` to `buffer`.
pub fn render_dashboard(buffer: &mut String, data: &DashboardData)
    ensures
        final(buffer)@ == old(buffer)@ + dashboard_text(*data),
{
    let mut page = banner_string();
    push_host_line(&mut page, data.host_name, data.os_name);
    push_proc_line(&mut page, data.proc_count, data.uptime);
    push_rule(&mut page);
    let cpu: u64 = clamp_percent(data.cpu);
    push_bar(&mut page, "CPU", cpu as usize, C_YELLOW);
    let mem_pct: u64 = clamp_percent(data.mem_pct);
    push_bar(&mut page, "MEM", mem_pct as usize, C_MAGENTA);
    push_memory_line(&mut page, data.mem_used, data.mem_total);
    push_rule(&mut page);
    push_table_head(&mut page);
    push_process_rows(&mut page, data.top_procs);
    push_rule(&mut page);
    page.append(" Press Ctrl+C to exit.\n");
    buffer.append(page.as_str());
}

/// Appends the two lines for one volume.
fn push_disk_lines(out: &mut String, disk: &DiskStat)
    ensures
        final(out)@ == old(out)@ + disk_lines(disk@),
{
    let mut label = String::from_str("DSK ");
    label.append(disk.mount_or_device.as_str());
    let percent: u64 = clamp_percent(disk.percent_used());
    let used: u64 = if disk.free_bytes > disk.total_bytes {
        0
    } else {
        disk.total_bytes - disk.free_bytes
    };
    let mut lines = String::new();
    push_bar(&mut lines, label.as_str(), percent as usize, C_CYAN);
    assert(lines@ == bar_line(
        disk_label(disk@.mount_or_device),
        disk_share(disk.total_bytes as nat, disk.free_bytes as nat),
    ));
    push_memory_line(&mut lines, used, disk.total_bytes);
    out.append(lines.as_str());
}

/// Appends to `buffer` the part of the dashboard that shows the volumes: two
/// lines for each, or one line that says that there are none.
pub fn render_disks(buffer: &mut String, disks: &[DiskStat])
    ensures
        final(buffer)@ == old(buffer)@ + disks_text(disk_views(disks@)),
{
    if disks.len() == 0 {
        buffer.append("No disks found\n");
        return;
    }
    let ghost views = disk_views(disks@);
    let mut i: usize = 0;
    assert(buffer@ == old(buffer)@ + disk_rows(views.take(0)));
    while i < disks.len()
        invariant
            i <= disks.len(),
            views == disk_views(disks@),
            buffer@ == old(buffer)@ + disk_rows(views.take(i as int)),
        decreases disks.len() - i,
    {
        push_disk_lines(buffer, &disks[i]);
        proof {
            let done = views.take(i as int);
            let more = views.take(i + 1);
            assert(more.drop_last() == done);
            assert(more.last() == disks@[i as int]@);
            assert(old(buffer)@ + disk_rows(done) + disk_lines(more.last()) == old(buffer)@ + (
            disk_rows(done) + disk_lines(more.last())));
        }
        i += 1;
    }
    assert(views.take(disks.len() as int) == views);
}

} // verus!
