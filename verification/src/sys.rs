//! What the platform's management utilities print, turned into metrics.
//!
//! Running a utility is left to the caller. It hands over what the utility
//! printed, or the reason why it could not be run, and gets the metric or
//! that same reason back.

use vstd::prelude::*;
use crate::decimal::{parse_decimal, parse_u64};
use crate::models::{DiskStat, DiskStatView, MemoryStat, QueryError, SystemInfo, disk_views};
use crate::text::{
    chars_of, field_range, lines, next_line, nth_field, starts_with, string_of, trim, trim_range,
};

verus! {

/// `s` without its NUL characters, which a utility that prints in a wider
/// encoding leaves between the characters of its output.
pub open spec fn without_nul(s: Seq<char>) -> Seq<char>
    decreases s.len(),
{
    if s.len() == 0 {
        s
    } else if s.last() == '\0' {
        without_nul(s.drop_last())
    } else {
        without_nul(s.drop_last()).push(s.last())
    }
}

/// The value of a line of the form `key=value`, where `key` ends in the
/// equals sign: what stands after the key and before the next equals sign,
/// the white space round the line not counted. `None` for any other line.
pub open spec fn keyed_value(line: Seq<char>, key: Seq<char>) -> Option<Seq<char>> {
    if key.is_prefix_of(trim(line)) {
        nth_field(trim(line), '=', 1)
    } else {
        None
    }
}

/// The value of the first of `ls` that has one under `key`.
pub open spec fn first_keyed(ls: Seq<Seq<char>>, key: Seq<char>) -> Option<Seq<char>>
    decreases ls.len(),
{
    if ls.len() == 0 {
        None
    } else if keyed_value(ls[0], key) is Some {
        keyed_value(ls[0], key)
    } else {
        first_keyed(ls.drop_first(), key)
    }
}

/// The value of the last of `ls` that has one under `key`.
pub open spec fn last_keyed(ls: Seq<Seq<char>>, key: Seq<char>) -> Option<Seq<char>>
    decreases ls.len(),
{
    if ls.len() == 0 {
        None
    } else if keyed_value(ls.last(), key) is Some {
        keyed_value(ls.last(), key)
    } else {
        last_keyed(ls.drop_last(), key)
    }
}

/// The number written in `value`; zero where there is no value or it is not
/// a number.
pub open spec fn number_or_zero(value: Option<Seq<char>>) -> u64 {
    match value {
        Some(s) => match parse_decimal(s) {
            Some(n) => n,
            None => 0,
        },
        None => 0,
    }
}

/// `value`, or the word `Unknown` where there is none.
pub open spec fn name_or_unknown(value: Option<Seq<char>>) -> Seq<char> {
    match value {
        Some(s) => s,
        None => "Unknown"@,
    }
}

/// The processor load that a listing of `LoadPercentage` reports.
pub open spec fn cpu_load_in(text: Seq<char>) -> u64 {
    number_or_zero(first_keyed(lines(text), "LoadPercentage="@))
}

/// The seconds since start-up that a listing of `SystemUpTime` reports.
pub open spec fn uptime_in(text: Seq<char>) -> u64 {
    number_or_zero(first_keyed(lines(text), "SystemUpTime="@))
}

/// A count of kibibytes in bytes, or the largest 64-bit number where the
/// bytes do not fit.
pub open spec fn kib_to_bytes(kib: u64) -> u64 {
    if kib * 1024 > u64::MAX {
        u64::MAX
    } else {
        (kib * 1024) as u64
    }
}

/// The memory that a listing of `TotalVisibleMemorySize` and
/// `FreePhysicalMemory`, both in kibibytes, reports. Where the listing holds
/// several lines of one kind, the last counts. More free than visible memory
/// leaves none in use.
pub open spec fn memory_in(text: Seq<char>) -> MemoryStat {
    let total = number_or_zero(last_keyed(lines(text), "TotalVisibleMemorySize="@));
    let free = number_or_zero(last_keyed(lines(text), "FreePhysicalMemory="@));
    let used = if free > total {
        0u64
    } else {
        (total - free) as u64
    };
    MemoryStat { used_bytes: kib_to_bytes(used), total_bytes: kib_to_bytes(total) }
}

/// The number of processes in a task listing, which has three lines of
/// heading before the first process.
pub open spec fn process_count_in(text: Seq<char>) -> nat {
    if lines(text).len() > 3 {
        (lines(text).len() - 3) as nat
    } else {
        0
    }
}

/// The volume that one line of a listing in comma-separated form describes:
/// the device in the second column, the free bytes in the third, the size in
/// the fourth. The heading, a line with fewer columns, one with an empty
/// number and one with a size that is zero or no number describe none.
pub open spec fn disk_in_line(line: Seq<char>) -> Option<DiskStatView> {
    match (nth_field(line, ',', 1), nth_field(line, ',', 2), nth_field(line, ',', 3)) {
        (Some(device), Some(free), Some(size)) => {
            if device != "DeviceID"@ && trim(free).len() > 0 && trim(size).len() > 0
                && number_or_zero(Some(trim(size))) > 0 {
                Some(
                    DiskStatView {
                        mount_or_device: trim(device),
                        total_bytes: number_or_zero(Some(trim(size))),
                        free_bytes: number_or_zero(Some(trim(free))),
                    },
                )
            } else {
                None
            }
        },
        _ => None,
    }
}

/// The volumes that the lines `ls` describe, in their order.
pub open spec fn disks_in(ls: Seq<Seq<char>>) -> Seq<DiskStatView>
    decreases ls.len(),
{
    if ls.len() == 0 {
        Seq::empty()
    } else {
        match disk_in_line(ls[0]) {
            Some(disk) => seq![disk] + disks_in(ls.drop_first()),
            None => disks_in(ls.drop_first()),
        }
    }
}

/// What `first_keyed` gives is the value of a line before which no line has
/// a value under `key`; it gives none only where no line has one. The number
/// of that line is returned.
pub proof fn lemma_first_keyed(ls: Seq<Seq<char>>, key: Seq<char>) -> (at: int)
    ensures
        0 <= at <= ls.len(),
        forall|i: int| 0 <= i < at ==> keyed_value(#[trigger] ls[i], key) is None,
        at < ls.len() ==> keyed_value(ls[at], key) is Some && first_keyed(ls, key) == keyed_value(
            ls[at],
            key,
        ),
        at == ls.len() ==> first_keyed(ls, key) is None,
    decreases ls.len(),
{
    if ls.len() == 0 || keyed_value(ls[0], key) is Some {
        0
    } else {
        let rest = ls.drop_first();
        let at = lemma_first_keyed(rest, key);
        assert forall|i: int| 0 <= i < at + 1 implies keyed_value(#[trigger] ls[i], key)
            is None by {
            if i > 0 {
                assert(ls[i] == rest[i - 1]);
            }
        }
        assert(at < rest.len() ==> rest[at] == ls[at + 1]);
        at + 1
    }
}

/// What `last_keyed` gives is the value of a line after which no line has a
/// value under `key`; it gives none only where no line has one. The number
/// of that line is returned, or -1 where there is none.
pub proof fn lemma_last_keyed(ls: Seq<Seq<char>>, key: Seq<char>) -> (at: int)
    ensures
        -1 <= at < ls.len(),
        forall|i: int| at < i < ls.len() ==> keyed_value(#[trigger] ls[i], key) is None,
        0 <= at ==> keyed_value(ls[at], key) is Some && last_keyed(ls, key) == keyed_value(
            ls[at],
            key,
        ),
        at == -1 ==> last_keyed(ls, key) is None,
    decreases ls.len(),
{
    if ls.len() == 0 {
        -1
    } else if keyed_value(ls.last(), key) is Some {
        ls.len() - 1
    } else {
        let rest = ls.drop_last();
        let at = lemma_last_keyed(rest, key);
        assert forall|i: int| at < i < ls.len() implies keyed_value(#[trigger] ls[i], key)
            is None by {
            if i < ls.len() - 1 {
                assert(ls[i] == rest[i]);
            }
        }
        assert(0 <= at ==> rest[at] == ls[at]);
        at
    }
}

/// Every volume that `disks_in` gives is described by one of the lines, and
/// every line that describes a volume gives one.
pub proof fn lemma_disks_in(ls: Seq<Seq<char>>)
    ensures
        forall|k: int|
            0 <= k < disks_in(ls).len() ==> exists|i: int|
                0 <= i < ls.len() && disk_in_line(ls[i]) == Some(#[trigger] disks_in(ls)[k]),
        forall|i: int|
            0 <= i < ls.len() && disk_in_line(#[trigger] ls[i]) is Some ==> disks_in(ls).contains(
                disk_in_line(ls[i])->0,
            ),
        forall|k: int| 0 <= k < disks_in(ls).len() ==> (#[trigger] disks_in(ls)[k]).total_bytes > 0,
    decreases ls.len(),
{
    if ls.len() > 0 {
        let rest = ls.drop_first();
        let all = disks_in(ls);
        lemma_disks_in(rest);
        let shift: int = if disk_in_line(ls[0]) is Some {
            1
        } else {
            0
        };
        assert forall|k: int| 0 <= k < all.len() implies exists|i: int|
            0 <= i < ls.len() && disk_in_line(ls[i]) == Some(#[trigger] all[k]) by {
            if k < shift {
                assert(disk_in_line(ls[0]) == Some(all[k]));
            } else {
                assert(all[k] == disks_in(rest)[k - shift]);
                let i = choose|i: int|
                    0 <= i < rest.len() && disk_in_line(rest[i]) == Some(disks_in(rest)[k - shift]);
                assert(rest[i] == ls[i + 1]);
            }
        }
        assert forall|i: int|
            0 <= i < ls.len() && disk_in_line(#[trigger] ls[i]) is Some implies all.contains(
            disk_in_line(ls[i])->0,
        ) by {
            if i == 0 {
                assert(all[0] == disk_in_line(ls[0])->0);
            } else {
                assert(ls[i] == rest[i - 1]);
                let found = disk_in_line(rest[i - 1])->0;
                assert(disks_in(rest).contains(found));
                let k = choose|k: int| 0 <= k < disks_in(rest).len() && disks_in(rest)[k] == found;
                assert(all[k + shift] == found);
            }
        }
        assert forall|k: int| 0 <= k < all.len() implies (#[trigger] all[k]).total_bytes > 0 by {
            if k >= shift {
                assert(all[k] == disks_in(rest)[k - shift]);
            }
        }
    }
}

/// The range of the value of the line `text[start..end]` under `key`.
fn keyed_value_range(text: &[char], start: usize, end: usize, key: &str) -> (r: Option<
    (usize, usize),
>)
    requires
        start <= end <= text.len(),
    ensures
        match r {
            Some((from, to)) => from <= to <= text.len() && keyed_value(
                text@.subrange(start as int, end as int),
                key@,
            ) == Some(text@.subrange(from as int, to as int)),
            None => keyed_value(text@.subrange(start as int, end as int), key@) is None,
        },
{
    let (from, to) = trim_range(text, start, end);
    if starts_with(text, from, to, key) {
        field_range(text, from, to, '=', 1)
    } else {
        None
    }
}

/// The range of the value of the first line of `text` that has one under
/// `key`.
fn first_keyed_range(text: &[char], key: &str) -> (r: Option<(usize, usize)>)
    ensures
        match r {
            Some((from, to)) => from <= to <= text.len() && first_keyed(lines(text@), key@)
                == Some(text@.subrange(from as int, to as int)),
            None => first_keyed(lines(text@), key@) is None,
        },
{
    let len: usize = text.len();
    let mut pos: usize = 0;
    assert(text@.subrange(0, len as int) == text@);
    while pos < len
        invariant
            pos <= len == text.len(),
            first_keyed(lines(text@), key@) == first_keyed(
                lines(text@.subrange(pos as int, len as int)),
                key@,
            ),
        decreases len - pos,
    {
        let (line_end, next) = next_line(text, pos);
        let found = keyed_value_range(text, pos, line_end, key);
        proof {
            let line = text@.subrange(pos as int, line_end as int);
            let rest = lines(text@.subrange(next as int, len as int));
            assert((seq![line] + rest)[0] == line);
            assert((seq![line] + rest).drop_first() == rest);
        }
        if found.is_some() {
            return found;
        }
        pos = next;
    }
    assert(lines(text@.subrange(len as int, len as int)).len() == 0);
    None
}

/// The range of the value of the last line of `text` that has one under
/// `key`.
fn last_keyed_range(text: &[char], key: &str) -> (r: Option<(usize, usize)>)
    ensures
        match r {
            Some((from, to)) => from <= to <= text.len() && last_keyed(lines(text@), key@)
                == Some(text@.subrange(from as int, to as int)),
            None => last_keyed(lines(text@), key@) is None,
        },
{
    let len: usize = text.len();
    let mut pos: usize = 0;
    let mut latest: Option<(usize, usize)> = None;
    let ghost mut seen: Seq<Seq<char>> = Seq::empty();
    assert(text@.subrange(0, len as int) == text@);
    while pos < len
        invariant
            pos <= len == text.len(),
            lines(text@) == seen + lines(text@.subrange(pos as int, len as int)),
            match latest {
                Some((from, to)) => from <= to <= text.len() && last_keyed(seen, key@) == Some(
                    text@.subrange(from as int, to as int),
                ),
                None => last_keyed(seen, key@) is None,
            },
        decreases len - pos,
    {
        let (line_end, next) = next_line(text, pos);
        let found = keyed_value_range(text, pos, line_end, key);
        proof {
            let line = text@.subrange(pos as int, line_end as int);
            let rest = lines(text@.subrange(next as int, len as int));
            assert(seen + (seq![line] + rest) == seen.push(line) + rest);
            assert(seen.push(line).last() == line);
            assert(seen.push(line).drop_last() == seen);
            seen = seen.push(line);
        }
        if found.is_some() {
            latest = found;
        }
        pos = next;
    }
    assert(lines(text@.subrange(len as int, len as int)).len() == 0);
    assert(seen + Seq::<Seq<char>>::empty() == seen);
    latest
}

/// The number written in `text[from..to]` for `Some((from, to))`, and zero
/// where there is no range or no number in it.
fn number_in(text: &[char], value: Option<(usize, usize)>) -> (n: u64)
    requires
        value matches Some((from, to)) ==> from <= to <= text.len(),
    ensures
        n == number_or_zero(
            match value {
                Some((from, to)) => Some(text@.subrange(from as int, to as int)),
                None => None,
            },
        ),
{
    match value {
        Some((from, to)) => match parse_u64(text, from, to) {
            Some(n) => n,
            None => 0,
        },
        None => 0,
    }
}

/// The characters of `s` without the NUL characters.
fn chars_without_nul(s: &str) -> (chars: Vec<char>)
    ensures
        chars@ == without_nul(s@),
{
    let all = chars_of(s);
    let mut chars: Vec<char> = Vec::new();
    let mut i: usize = 0;
    while i < all.len()
        invariant
            i <= all.len(),
            all@ == s@,
            chars@ == without_nul(all@.take(i as int)),
        decreases all.len() - i,
    {
        proof {
            assert(all@.take(i + 1).drop_last() == all@.take(i as int));
        }
        let c: char = all[i];
        if c != '\0' {
            chars.push(c);
        }
        i += 1;
    }
    assert(all@.take(all.len() as int) == all@);
    chars
}

/// The processor load that the listing `text` reports.
fn cpu_load_of(text: &[char]) -> (load: u64)
    ensures
        load == cpu_load_in(text@),
{
    let value = first_keyed_range(text, "LoadPercentage=");
    number_in(text, value)
}

/// Reads the processor load, in percent, from what `wmic cpu get
/// loadpercentage /Value` printed. A listing without a load gives zero.
pub fn parse_cpu_load(output: &str) -> (load: u64)
    ensures
        load == cpu_load_in(output@),
{
    let text = chars_of(output);
    cpu_load_of(text.as_slice())
}

/// A count of kibibytes in bytes.
fn bytes_of_kib(kib: u64) -> (bytes: u64)
    ensures
        bytes == kib_to_bytes(kib),
{
    if kib > u64::MAX / 1024 {
        u64::MAX
    } else {
        kib * 1024
    }
}

/// The memory that the listing `text` reports.
fn memory_of(text: &[char]) -> (memory: MemoryStat)
    ensures
        memory == memory_in(text@),
{
    let total_value = last_keyed_range(text, "TotalVisibleMemorySize=");
    let free_value = last_keyed_range(text, "FreePhysicalMemory=");
    let total: u64 = number_in(text, total_value);
    let free: u64 = number_in(text, free_value);
    let used: u64 = if free > total {
        0
    } else {
        total - free
    };
    MemoryStat { used_bytes: bytes_of_kib(used), total_bytes: bytes_of_kib(total) }
}

/// Reads the memory in use and the memory there is from what `wmic OS get
/// FreePhysicalMemory,TotalVisibleMemorySize /Value` printed.
pub fn parse_memory_usage(output: &str) -> (memory: MemoryStat)
    ensures
        memory == memory_in(output@),
{
    let text = chars_of(output);
    memory_of(text.as_slice())
}

/// Whether `text[start..end]` is the word `word`.
fn range_is(text: &[char], start: usize, end: usize, word: &str) -> (b: bool)
    requires
        start <= end <= text.len(),
    ensures
        b == (text@.subrange(start as int, end as int) == word@),
{
    let n: usize = word.unicode_len();
    if end - start != n {
        return false;
    }
    let b = starts_with(text, start, end, word);
    proof {
        let piece = text@.subrange(start as int, end as int);
        assert(piece.subrange(0, n as int) == piece);
    }
    b
}

/// The volume that the line `text[start..end]` describes.
fn disk_in_range(text: &[char], start: usize, end: usize) -> (r: Option<DiskStat>)
    requires
        start <= end <= text.len(),
    ensures
        match r {
            Some(disk) => disk_in_line(text@.subrange(start as int, end as int)) == Some(disk@),
            None => disk_in_line(text@.subrange(start as int, end as int)) is None,
        },
{
    let device = field_range(text, start, end, ',', 1);
    let free = field_range(text, start, end, ',', 2);
    let size = field_range(text, start, end, ',', 3);
    match (device, free, size) {
        (Some((device_from, device_to)), Some((free_from, free_to)), Some((size_from, size_to))) => {
            if range_is(text, device_from, device_to, "DeviceID") {
                return None;
            }
            let (name_from, name_to) = trim_range(text, device_from, device_to);
            let (free_from, free_to) = trim_range(text, free_from, free_to);
            let (size_from, size_to) = trim_range(text, size_from, size_to);
            if size_from == size_to || free_from == free_to {
                return None;
            }
            let free_bytes: u64 = number_in(text, Some((free_from, free_to)));
            let total_bytes: u64 = number_in(text, Some((size_from, size_to)));
            if total_bytes > 0 {
                Some(
                    DiskStat {
                        mount_or_device: string_of(text, name_from, name_to),
                        total_bytes,
                        free_bytes,
                    },
                )
            } else {
                None
            }
        },
        _ => None,
    }
}

/// The volumes that the listing `text` describes.
fn disks_of(text: &[char]) -> (disks: Vec<DiskStat>)
    ensures
        disk_views(disks@) == disks_in(lines(text@)),
{
    let len: usize = text.len();
    let mut disks: Vec<DiskStat> = Vec::new();
    let mut pos: usize = 0;
    assert(text@.subrange(0, len as int) == text@);
    while pos < len
        invariant
            pos <= len == text.len(),
            disks_in(lines(text@)) == disk_views(disks@) + disks_in(
                lines(text@.subrange(pos as int, len as int)),
            ),
        decreases len - pos,
    {
        let (line_end, next) = next_line(text, pos);
        let found = disk_in_range(text, pos, line_end);
        let ghost before = disks@;
        proof {
            let line = text@.subrange(pos as int, line_end as int);
            let rest = lines(text@.subrange(next as int, len as int));
            assert((seq![line] + rest)[0] == line);
            assert((seq![line] + rest).drop_first() == rest);
        }
        match found {
            Some(disk) => {
                let ghost row = disk@;
                disks.push(disk);
                proof {
                    assert(disk_views(disks@) == disk_views(before) + seq![row]);
                    assert(disk_views(before) + (seq![row] + disks_in(
                        lines(text@.subrange(next as int, len as int)),
                    )) == disk_views(disks@) + disks_in(
                        lines(text@.subrange(next as int, len as int)),
                    ));
                }
            },
            None => {},
        }
        pos = next;
    }
    assert(lines(text@.subrange(len as int, len as int)).len() == 0);
    assert(disk_views(disks@) + Seq::<DiskStatView>::empty() == disk_views(disks@));
    disks
}

/// Reads the volumes from what `wmic logicaldisk get DeviceID,FreeSpace,Size
/// /Format:CSV` printed. A volume without a size is left out.
pub fn parse_disks(output: &str) -> (disks: Vec<DiskStat>)
    ensures
        disk_views(disks@) == disks_in(lines(output@)),
{
    let text = chars_of(output);
    disks_of(text.as_slice())
}

/// The number of lines of `text`.
fn count_lines(text: &[char]) -> (count: usize)
    ensures
        count == lines(text@).len(),
{
    let len: usize = text.len();
    let mut pos: usize = 0;
    let mut count: usize = 0;
    assert(text@.subrange(0, len as int) == text@);
    while pos < len
        invariant
            pos <= len == text.len(),
            count <= pos,
            lines(text@).len() == count + lines(text@.subrange(pos as int, len as int)).len(),
        decreases len - pos,
    {
        let (_line_end, next) = next_line(text, pos);
        count += 1;
        pos = next;
    }
    assert(lines(text@.subrange(len as int, len as int)).len() == 0);
    count
}

/// The names of the host and of its operating system, from what `wmic os get
/// Caption,CSName /Value` printed, its NUL characters not counted. Where the
/// listing holds several lines of one kind, the last counts. A name that the
/// listing does not hold, and both names when the utility could not be run,
/// are the word `Unknown`.
pub fn get_system_info(output: Result<String, QueryError>) -> (info: SystemInfo)
    ensures
        match output {
            Ok(s) => {
                &&& info.os_name@ == name_or_unknown(
                    last_keyed(lines(without_nul(s@)), "Caption="@),
                )
                &&& info.host_name@ == name_or_unknown(
                    last_keyed(lines(without_nul(s@)), "CSName="@),
                )
            },
            Err(_) => info.os_name@ == "Unknown"@ && info.host_name@ == "Unknown"@,
        },
{
    match output {
        Ok(s) => {
            let chars = chars_without_nul(s.as_str());
            let text = chars.as_slice();
            let os_name = match last_keyed_range(text, "Caption=") {
                Some((from, to)) => string_of(text, from, to),
                None => String::from_str("Unknown"),
            };
            let host_name = match last_keyed_range(text, "CSName=") {
                Some((from, to)) => string_of(text, from, to),
                None => String::from_str("Unknown"),
            };
            SystemInfo { os_name, host_name }
        },
        Err(_) => SystemInfo {
            os_name: String::from_str("Unknown"),
            host_name: String::from_str("Unknown"),
        },
    }
}

/// The number of processes in what `tasklist` printed, or the reason why it
/// could not be run.
pub fn get_process_count(output: Result<String, QueryError>) -> (r: Result<usize, QueryError>)
    ensures
        match output {
            Ok(s) => r == Ok::<usize, QueryError>(process_count_in(s@) as usize),
            Err(e) => r == Err::<usize, QueryError>(e),
        },
{
    match output {
        Ok(s) => {
            let text = chars_of(s.as_str());
            let n: usize = count_lines(text.as_slice());
            Ok(
                if n > 3 {
                    n - 3
                } else {
                    0
                },
            )
        },
        Err(e) => Err(e),
    }
}

/// The processor load in percent that `wmic cpu get loadpercentage /Value`
/// printed, its NUL characters not counted, or the reason why it could not be
/// run.
pub fn get_cpu_load(output: Result<String, QueryError>) -> (r: Result<u64, QueryError>)
    ensures
        match output {
            Ok(s) => r == Ok::<u64, QueryError>(cpu_load_in(without_nul(s@))),
            Err(e) => r == Err::<u64, QueryError>(e),
        },
{
    match output {
        Ok(s) => {
            let text = chars_without_nul(s.as_str());
            Ok(cpu_load_of(text.as_slice()))
        },
        Err(e) => Err(e),
    }
}

/// The memory in use and the memory there is that `wmic OS get
/// FreePhysicalMemory,TotalVisibleMemorySize /Value` printed, its NUL
/// characters not counted, or the reason why it could not be run.
pub fn get_memory_usage(output: Result<String, QueryError>) -> (r: Result<MemoryStat, QueryError>)
    ensures
        match output {
            Ok(s) => r == Ok::<MemoryStat, QueryError>(memory_in(without_nul(s@))),
            Err(e) => r == Err::<MemoryStat, QueryError>(e),
        },
{
    match output {
        Ok(s) => {
            let text = chars_without_nul(s.as_str());
            Ok(memory_of(text.as_slice()))
        },
        Err(e) => Err(e),
    }
}

/// The seconds since start-up that `wmic path
/// Win32_PerfFormattedData_PerfOS_System get SystemUpTime /Value` printed,
/// its NUL characters not counted, or the reason why it could not be run. A
/// listing without them gives zero.
pub fn get_uptime(output: Result<String, QueryError>) -> (r: Result<u64, QueryError>)
    ensures
        match output {
            Ok(s) => r == Ok::<u64, QueryError>(uptime_in(without_nul(s@))),
            Err(e) => r == Err::<u64, QueryError>(e),
        },
{
    match output {
        Ok(s) => {
            let chars = chars_without_nul(s.as_str());
            let text = chars.as_slice();
            let value = first_keyed_range(text, "SystemUpTime=");
            Ok(number_in(text, value))
        },
        Err(e) => Err(e),
    }
}

/// The volumes that `wmic logicaldisk get DeviceID,FreeSpace,Size
/// /Format:CSV` printed, its NUL characters not counted, or the reason why it
/// could not be run.
pub fn get_disks(output: Result<String, QueryError>) -> (r: Result<Vec<DiskStat>, QueryError>)
    ensures
        match output {
            Ok(s) => r matches Ok(disks) && disk_views(disks@) == disks_in(
                lines(without_nul(s@)),
            ),
            Err(e) => r == Err::<Vec<DiskStat>, QueryError>(e),
        },
{
    match output {
        Ok(s) => {
            let text = chars_without_nul(s.as_str());
            Ok(disks_of(text.as_slice()))
        },
        Err(e) => Err(e),
    }
}

} // verus!
