//! What the kernel's process, memory and control group files say.

use vstd::prelude::*;
use crate::key_values::{
    count_in, count_of, equals_key_values, memory_key_values, number, number_in,
    numeric_key_values, pairs_in, whitespace_key_values, PairForm,
};
use crate::metrics::{add_counter, capped, counter_sum, wide_product};
use crate::process_tree::include_pid;
use crate::resources::{MemoryUsage, ProcessIo};
use crate::text::{
    append, begins_with, chars_of, copy_range, digit_char, ends_with, find, find_chars, find_last,
    finishes_with, is_ascii_digit, last_index, lines, parse_decimal, parse_u32, parse_u64, pieces,
    same_chars, split_chars, split_lines, split_on, split_words, starts_with, string_of,
    strip_prefix, texts, trim, trim_chars, trim_start_matches, without_beginnings, without_prefix,
    words,
};

verus! {

// ---------------------------------------------------------------------
// Processes

/// The counters of a process since it started.
#[derive(Debug, Clone, Copy, PartialEq, Eq)]
pub struct ProcessStat {
    pub parent_pid: u32,
    pub total_ticks: u64,
    pub start_ticks: u64,
    pub major_faults: u64,
    pub thread_count: u64,
}

/// The fields of a process's `stat` line after the command, which stands in
/// round brackets and may hold spaces and brackets itself.
pub open spec fn stat_fields(stat: Seq<char>) -> Option<Seq<Seq<char>>> {
    if last_index(stat, ')') == -1 {
        None
    } else {
        Some(words(stat.skip(last_index(stat, ')') + 1)))
    }
}

/// The number in a field, if there is such a field and it holds one.
pub open spec fn field(fields: Seq<Seq<char>>, index: int, max: nat) -> Option<nat> {
    if index < fields.len() {
        parse_decimal(fields[index], max)
    } else {
        None
    }
}

/// What a process's `stat` line says.
pub open spec fn stat_in(stat: Seq<char>) -> Option<ProcessStat> {
    match stat_fields(stat) {
        None => None,
        Some(fields) => {
            let max = u64::MAX as nat;
            let parent = field(fields, 1, u32::MAX as nat);
            let user = field(fields, 11, max);
            let system = field(fields, 12, max);
            let start = field(fields, 19, max);
            let faults = field(fields, 9, max);
            let threads = field(fields, 17, max);
            if parent is Some && user is Some && system is Some && start is Some && faults is Some
                && threads is Some {
                Some(
                    ProcessStat {
                        parent_pid: parent->0 as u32,
                        total_ticks: counter_sum(user->0 as u64, system->0 as u64),
                        start_ticks: start->0 as u64,
                        major_faults: faults->0 as u64,
                        thread_count: threads->0 as u64,
                    },
                )
            } else {
                None
            }
        },
    }
}

fn field_number(fields: &Vec<Vec<char>>, index: usize) -> (n: Option<u64>)
    ensures
        match n {
            Some(value) => field(pieces(fields@), index as int, u64::MAX as nat) == Some(
                value as nat,
            ),
            None => field(pieces(fields@), index as int, u64::MAX as nat) is None,
        },
{
    if index < fields.len() {
        assert(pieces(fields@)[index as int] == fields@[index as int]@);
        parse_u64(fields[index].as_slice())
    } else {
        None
    }
}

pub fn parse_process_stat(value: &str) -> (stat: Option<ProcessStat>)
    ensures
        stat == stat_in(value@),
{
    let chars = chars_of(value);
    let length = chars.len();
    let end = match find_last(chars.as_slice(), ')') {
        Some(end) => end,
        None => {
            return None;
        },
    };
    let rest = vstd::slice::slice_subrange(chars.as_slice(), end + 1, length);
    assert(rest@ =~= value@.skip(end + 1));
    let fields = split_words(rest);
    let parent = if 1 < fields.len() {
        assert(pieces(fields@)[1] == fields@[1]@);
        parse_u32(fields[1].as_slice())
    } else {
        None
    };
    let user = field_number(&fields, 11);
    let system = field_number(&fields, 12);
    let start = field_number(&fields, 19);
    let faults = field_number(&fields, 9);
    let threads = field_number(&fields, 17);
    match (parent, user, system, start, faults, threads) {
        (
            Some(parent_pid),
            Some(user),
            Some(system),
            Some(start_ticks),
            Some(major_faults),
            Some(thread_count),
        ) => {
            let mut total_ticks = user;
            add_counter(&mut total_ticks, system);
            Some(ProcessStat { parent_pid, total_ticks, start_ticks, major_faults, thread_count })
        },
        _ => None,
    }
}

/// What a process's `io` file says.
pub open spec fn io_in(text: Seq<char>) -> ProcessIo {
    let values = pairs_in(PairForm::Colon, lines(text));
    ProcessIo {
        physical_read_bytes: count_in(values, "read_bytes"@),
        physical_write_bytes: count_in(values, "write_bytes"@),
        logical_read_bytes: count_in(values, "rchar"@),
        logical_write_bytes: count_in(values, "wchar"@),
        read_operations: count_in(values, "syscr"@),
        write_operations: count_in(values, "syscw"@),
        cancelled_write_bytes: count_in(values, "cancelled_write_bytes"@),
    }
}

pub fn parse_process_io(text: &str) -> (io: ProcessIo)
    ensures
        io == io_in(text@),
{
    let values = numeric_key_values(text);
    ProcessIo {
        physical_read_bytes: count_of(&values, "read_bytes"),
        physical_write_bytes: count_of(&values, "write_bytes"),
        logical_read_bytes: count_of(&values, "rchar"),
        logical_write_bytes: count_of(&values, "wchar"),
        read_operations: count_of(&values, "syscr"),
        write_operations: count_of(&values, "syscw"),
        cancelled_write_bytes: count_of(&values, "cancelled_write_bytes"),
    }
}

/// Kibibytes as bytes.
pub open spec fn kibibytes(n: u64) -> u64 {
    capped((n * 1024) as nat)
}

fn to_bytes(n: u64) -> (bytes: u64)
    ensures
        bytes == kibibytes(n),
{
    let product = wide_product(n, 1024);
    if product > u64::MAX as u128 {
        u64::MAX
    } else {
        product as u64
    }
}

/// A process's memory as its `smaps_rollup` file gives it.
pub open spec fn rollup_memory(text: Seq<char>) -> MemoryUsage {
    let values = pairs_in(PairForm::Measured, lines(text));
    MemoryUsage {
        rss_bytes: kibibytes(count_in(values, "Rss"@)),
        pss_bytes: kibibytes(count_in(values, "Pss"@)),
        private_bytes: kibibytes(
            counter_sum(
                counter_sum(count_in(values, "Private_Clean"@), count_in(values, "Private_Dirty"@)),
                count_in(values, "Private_Hugetlb"@),
            ),
        ),
        swap_bytes: kibibytes(
            if values.contains_key("SwapPss"@) {
                values["SwapPss"@]
            } else {
                count_in(values, "Swap"@)
            },
        ),
        rss_available: values.contains_key("Rss"@),
        pss_available: values.contains_key("Pss"@),
    }
}

/// A process's memory as its `status` file gives it.
pub open spec fn status_memory(text: Seq<char>) -> MemoryUsage {
    let values = pairs_in(PairForm::Measured, lines(text));
    MemoryUsage {
        rss_bytes: kibibytes(count_in(values, "VmRSS"@)),
        pss_bytes: 0,
        private_bytes: 0,
        swap_bytes: kibibytes(count_in(values, "VmSwap"@)),
        rss_available: values.contains_key("VmRSS"@),
        pss_available: false,
    }
}

fn rollup_usage(text: &str) -> (memory: MemoryUsage)
    ensures
        memory == rollup_memory(text@),
{
    let values = memory_key_values(text);
    let mut private = count_of(&values, "Private_Clean");
    add_counter(&mut private, count_of(&values, "Private_Dirty"));
    add_counter(&mut private, count_of(&values, "Private_Hugetlb"));
    let swap = if values.contains(&"SwapPss".to_owned()) {
        count_of(&values, "SwapPss")
    } else {
        count_of(&values, "Swap")
    };
    MemoryUsage {
        rss_bytes: to_bytes(count_of(&values, "Rss")),
        pss_bytes: to_bytes(count_of(&values, "Pss")),
        private_bytes: to_bytes(private),
        swap_bytes: to_bytes(swap),
        rss_available: values.contains(&"Rss".to_owned()),
        pss_available: values.contains(&"Pss".to_owned()),
    }
}

fn status_usage(text: &str) -> (memory: MemoryUsage)
    ensures
        memory == status_memory(text@),
{
    let values = memory_key_values(text);
    MemoryUsage {
        rss_bytes: to_bytes(count_of(&values, "VmRSS")),
        pss_bytes: 0,
        private_bytes: 0,
        swap_bytes: to_bytes(count_of(&values, "VmSwap")),
        rss_available: values.contains(&"VmRSS".to_owned()),
        pss_available: false,
    }
}

/// The memory of a process: from `smaps_rollup` where that could be read, else
/// from `status`.
pub fn parse_process_memory(rollup: Option<&str>, status: Option<&str>) -> (memory: MemoryUsage)
    ensures
        memory == (match (rollup, status) {
            (Some(text), _) => rollup_memory(text@),
            (None, Some(text)) => status_memory(text@),
            (None, None) => MemoryUsage::none(),
        }),
{
    match rollup {
        Some(text) => rollup_usage(text),
        None => match status {
            Some(text) => status_usage(text),
            None => MemoryUsage::default(),
        },
    }
}

// ---------------------------------------------------------------------
// The processors

/// The numbers among the given words.
pub open spec fn numbers_in(list: Seq<Seq<char>>) -> Seq<u64>
    decreases list.len(),
{
    if list.len() == 0 {
        Seq::empty()
    } else {
        let before = numbers_in(list.drop_last());
        match number_in(list.last()) {
            Some(n) => before.push(n),
            None => before,
        }
    }
}

/// The sum of the first eight counters, which count steal time, but not guest
/// time: that is already part of user and nice time.
pub open spec fn first_eight(counters: Seq<u64>, n: int) -> u64
    decreases n,
{
    if n <= 0 || counters.len() == 0 {
        0
    } else if n > counters.len() {
        first_eight(counters, counters.len() as int)
    } else {
        counter_sum(first_eight(counters, n - 1), counters[n - 1])
    }
}

/// A line that names one processor, such as `cpu3`.
pub open spec fn names_processor(line: Seq<char>) -> bool {
    match strip_prefix(line, "cpu"@) {
        None => false,
        Some(rest) => words(rest).len() > 0 && forall|i: int|
            0 <= i < words(rest)[0].len() ==> is_ascii_digit(#[trigger] words(rest)[0][i]),
    }
}

/// The clock ticks of all processors together and the number of processors, as
/// the lines of the `stat` file give them.
pub open spec fn system_cpu_in(list: Seq<Seq<char>>) -> (u64, nat)
    decreases list.len(),
{
    if list.len() == 0 {
        (0, 0)
    } else {
        let (total, processors) = system_cpu_in(list.drop_last());
        match strip_prefix(list.last(), "cpu "@) {
            Some(values) => (first_eight(numbers_in(words(values)), 8), processors),
            None => if names_processor(list.last()) {
                (total, processors + 1)
            } else {
                (total, processors)
            },
        }
    }
}

fn parse_numbers(list: &Vec<Vec<char>>) -> (numbers: Vec<u64>)
    ensures
        numbers@ == numbers_in(pieces(list@)),
{
    let mut numbers: Vec<u64> = Vec::new();
    for i in 0..list.len()
        invariant
            numbers@ == numbers_in(pieces(list@).take(i as int)),
    {
        proof {
            assert(pieces(list@).take(i + 1).drop_last() =~= pieces(list@).take(i as int));
            assert(pieces(list@).take(i + 1).last() == list@[i as int]@);
        }
        if let Some(n) = number(list[i].as_slice()) {
            numbers.push(n);
        }
    }
    assert(pieces(list@).take(list@.len() as int) =~= pieces(list@));
    numbers
}

fn sum_eight(counters: &Vec<u64>) -> (total: u64)
    ensures
        total == first_eight(counters@, 8),
{
    let count: usize = if counters.len() < 8 {
        counters.len()
    } else {
        8
    };
    let mut total: u64 = 0;
    for i in 0..count
        invariant
            count <= counters@.len(),
            total == first_eight(counters@, i as int),
    {
        add_counter(&mut total, counters[i]);
    }
    total
}

fn is_processor_line(line: &[char]) -> (yes: bool)
    ensures
        yes == names_processor(line@),
{
    match without_prefix(line, "cpu") {
        None => false,
        Some(rest) => {
            let list = split_words(rest);
            if list.len() == 0 {
                return false;
            }
            assert(pieces(list@)[0] == list@[0]@);
            let word = list[0].as_slice();
            for i in 0..word.len()
                invariant
                    strip_prefix(line@, "cpu"@) == Some(rest@),
                    words(rest@).len() > 0,
                    words(rest@)[0] == word@,
                    forall|k: int| 0 <= k < i ==> is_ascii_digit(#[trigger] word@[k]),
            {
                if !digit_char(word[i]) {
                    assert(!is_ascii_digit(words(rest@)[0][i as int]));
                    return false;
                }
            }
            true
        },
    }
}

/// The clock ticks of all processors together and the number of processors.
pub fn parse_system_cpu(stat: Option<&str>) -> (cpu: (u64, u64))
    ensures
        cpu == (match stat {
            None => (0u64, 1u64),
            Some(text) => {
                let (total, processors) = system_cpu_in(lines(text@));
                (
                    total,
                    if processors == 0 {
                        1
                    } else {
                        capped(processors)
                    },
                )
            },
        }),
{
    let text = match stat {
        None => {
            return (0, 1);
        },
        Some(text) => text,
    };
    let chars = chars_of(text);
    let list = split_lines(chars.as_slice());
    let mut total: u64 = 0;
    let mut processors: u64 = 0;
    for i in 0..list.len()
        invariant
            pieces(list@) == lines(text@),
            processors <= i,
            (total, processors as nat) == system_cpu_in(pieces(list@).take(i as int)),
    {
        proof {
            assert(pieces(list@).take(i + 1).drop_last() =~= pieces(list@).take(i as int));
            assert(pieces(list@).take(i + 1).last() == list@[i as int]@);
        }
        let line = list[i].as_slice();
        match without_prefix(line, "cpu ") {
            Some(values) => {
                total = sum_eight(&parse_numbers(&split_words(values)));
            },
            None => {
                if is_processor_line(line) {
                    processors = processors + 1;
                }
            },
        }
    }
    assert(pieces(list@).take(list@.len() as int) =~= pieces(list@));
    if processors == 0 {
        (total, 1)
    } else {
        (total, processors)
    }
}

// ---------------------------------------------------------------------
// Control groups

/// The control group of a process: the first line of its `cgroup` file that
/// belongs to the unified hierarchy.
pub open spec fn cgroup_in(list: Seq<Seq<char>>) -> Option<Seq<char>>
    decreases list.len(),
{
    if list.len() == 0 {
        None
    } else {
        match strip_prefix(list[0], "0::"@) {
            Some(path) => Some(path),
            None => cgroup_in(list.skip(1)),
        }
    }
}

pub fn parse_process_cgroup(text: &str) -> (path: Option<String>)
    ensures
        match path {
            Some(p) => cgroup_in(lines(text@)) == Some(p@),
            None => cgroup_in(lines(text@)) is None,
        },
{
    let chars = chars_of(text);
    let list = split_lines(chars.as_slice());
    let ghost all = pieces(list@);
    assert(all.skip(0) =~= all);
    for i in 0..list.len()
        invariant
            all == pieces(list@),
            all == lines(text@),
            cgroup_in(all) == cgroup_in(all.skip(i as int)),
    {
        assert(all.skip(i as int)[0] == list@[i as int]@);
        assert(all.skip(i as int).skip(1) =~= all.skip(i + 1));
        if let Some(path) = without_prefix(list[i].as_slice(), "0::") {
            return Some(string_of(path));
        }
    }
    None
}

/// The last named part of a path: empty where there is none or where the path
/// ends by going up.
pub open spec fn file_name(segments: Seq<Seq<char>>) -> Seq<char>
    decreases segments.len(),
{
    if segments.len() == 0 {
        Seq::empty()
    } else if segments.last() == ""@ || segments.last() == "."@ {
        file_name(segments.drop_last())
    } else if segments.last() == ".."@ {
        Seq::empty()
    } else {
        segments.last()
    }
}

/// The control group belongs to one application.
pub open spec fn is_application_cgroup(path: Seq<char>) -> bool {
    let name = file_name(split_on(path, '/'));
    (ends_with(name, ".scope"@) || ends_with(name, ".service"@)) && (starts_with(name, "app-"@)
        || find(name, "flatpak"@) is Some || find(name, "snap."@) is Some)
}

/// The last named part of a path.
pub fn path_file_name(path: &[char]) -> (name: Vec<char>)
    ensures
        name@ == file_name(split_on(path@, '/')),
{
    let segments = split_chars(path, '/');
    let ghost all = pieces(segments@);
    let mut count = segments.len();
    assert(all.take(count as int) =~= all);
    proof {
        reveal_strlit("");
    }
    while count > 0
        invariant
            count <= segments@.len(),
            all == pieces(segments@),
            all == split_on(path@, '/'),
            ""@.len() == 0,
            file_name(all) == file_name(all.take(count as int)),
        decreases count,
    {
        let segment = segments[count - 1].as_slice();
        assert(all.take(count as int).last() == segment@);
        assert(all.take(count as int).drop_last() =~= all.take(count - 1));
        let dot = chars_of(".");
        let up = chars_of("..");
        if segment.len() == 0 || same_chars(segment, dot.as_slice()) {
            assert(segment@.len() == 0 ==> segment@ =~= ""@);
            count = count - 1;
        } else if same_chars(segment, up.as_slice()) {
            return Vec::new();
        } else {
            let length = segment.len();
            assert(segment@.subrange(0, length as int) =~= segment@);
            return copy_range(segment, 0, length);
        }
    }
    Vec::new()
}

pub fn specific_application_cgroup(path: &str) -> (yes: bool)
    ensures
        yes == is_application_cgroup(path@),
{
    let path = chars_of(path);
    let name = path_file_name(path.as_slice());
    let name = name.as_slice();
    let scope = chars_of(".scope");
    let service = chars_of(".service");
    let app = chars_of("app-");
    let flatpak = chars_of("flatpak");
    let snap = chars_of("snap.");
    (finishes_with(name, scope.as_slice()) || finishes_with(name, service.as_slice())) && (
    begins_with(name, app.as_slice()) || find_chars(name, flatpak.as_slice()).is_some()
        || find_chars(name, snap.as_slice()).is_some())
}

/// The directory of a control group.
pub fn cgroup_directory(path: &str) -> (directory: String)
    ensures
        directory@ == "/sys/fs/cgroup/"@ + trim_start_matches(path@, "/"@),
{
    let path = chars_of(path);
    let mut chars = chars_of("/sys/fs/cgroup/");
    append(&mut chars, without_beginnings(path.as_slice(), "/"));
    string_of(chars.as_slice())
}

/// The counters of a control group.
#[derive(Debug, Clone, Copy, PartialEq, Eq)]
pub struct CgroupCounters {
    pub cpu_usage_usec: u64,
    pub read_bytes: u64,
    pub write_bytes: u64,
    pub read_operations: u64,
    pub write_operations: u64,
    pub memory_bytes: u64,
    pub swap_bytes: u64,
}

/// A file that holds one number: zero where it cannot be read.
pub open spec fn number_of(text: Option<&str>) -> u64 {
    match text {
        None => 0,
        Some(t) => match number_in(trim(t@)) {
            Some(n) => n,
            None => 0,
        },
    }
}

pub fn parse_number(text: Option<&str>) -> (n: u64)
    ensures
        n == number_of(text),
{
    match text {
        None => 0,
        Some(t) => {
            let chars = chars_of(t);
            match number(trim_chars(chars.as_slice())) {
                Some(n) => n,
                None => 0,
            }
        },
    }
}

/// A counter summed over the devices of an `io.stat` file.
pub open spec fn device_total(list: Seq<Seq<char>>, name: Seq<char>) -> u64
    decreases list.len(),
{
    if list.len() == 0 {
        0
    } else {
        counter_sum(
            device_total(list.drop_last(), name),
            count_in(pairs_in(PairForm::Equals, words(list.last())), name),
        )
    }
}

/// What the files of a control group say. Without `cpu.stat` nothing is known.
pub open spec fn cgroup_counters_in(
    cpu: Option<&str>,
    memory: Option<&str>,
    swap: Option<&str>,
    io: Option<&str>,
) -> Option<CgroupCounters> {
    match cpu {
        None => None,
        Some(cpu) => {
            let devices = match io {
                Some(text) => lines(text@),
                None => Seq::empty(),
            };
            Some(
                CgroupCounters {
                    cpu_usage_usec: count_in(
                        pairs_in(PairForm::Spaced, lines(cpu@)),
                        "usage_usec"@,
                    ),
                    read_bytes: device_total(devices, "rbytes"@),
                    write_bytes: device_total(devices, "wbytes"@),
                    read_operations: device_total(devices, "rios"@),
                    write_operations: device_total(devices, "wios"@),
                    memory_bytes: number_of(memory),
                    swap_bytes: number_of(swap),
                },
            )
        },
    }
}

pub fn parse_cgroup_counters(
    cpu: Option<&str>,
    memory: Option<&str>,
    swap: Option<&str>,
    io: Option<&str>,
) -> (counters: Option<CgroupCounters>)
    ensures
        counters == cgroup_counters_in(cpu, memory, swap, io),
{
    let cpu = match cpu {
        None => {
            return None;
        },
        Some(text) => whitespace_key_values(text),
    };
    let mut counters = CgroupCounters {
        cpu_usage_usec: count_of(&cpu, "usage_usec"),
        read_bytes: 0,
        write_bytes: 0,
        read_operations: 0,
        write_operations: 0,
        memory_bytes: parse_number(memory),
        swap_bytes: parse_number(swap),
    };
    let ghost start = counters;
    if let Some(text) = io {
        let chars = chars_of(text);
        let list = split_lines(chars.as_slice());
        let ghost all = pieces(list@);
        for i in 0..list.len()
            invariant
                all == pieces(list@),
                all == lines(text@),
                counters == (CgroupCounters {
                    read_bytes: device_total(all.take(i as int), "rbytes"@),
                    write_bytes: device_total(all.take(i as int), "wbytes"@),
                    read_operations: device_total(all.take(i as int), "rios"@),
                    write_operations: device_total(all.take(i as int), "wios"@),
                    ..start
                }),
        {
            proof {
                assert(all.take(i + 1).drop_last() =~= all.take(i as int));
                assert(all.take(i + 1).last() == list@[i as int]@);
            }
            let line = string_of(list[i].as_slice());
            let values = equals_key_values(line.as_str());
            add_counter(&mut counters.read_bytes, count_of(&values, "rbytes"));
            add_counter(&mut counters.write_bytes, count_of(&values, "wbytes"));
            add_counter(&mut counters.read_operations, count_of(&values, "rios"));
            add_counter(&mut counters.write_operations, count_of(&values, "wios"));
        }
        assert(all.take(all.len() as int) =~= all);
    }
    Some(counters)
}

/// One of the texts has a line that is this number.
pub open spec fn lists_member(files: Seq<Seq<char>>, pid: u32) -> bool {
    exists|i: int, k: int|
        0 <= i < files.len() && 0 <= k < lines(files[i]).len() && parse_decimal(
            #[trigger] lines(files[i])[k],
            u32::MAX as nat,
        ) == Some(pid as nat)
}

/// The processes that `cgroup.procs` files list, each once.
pub fn parse_cgroup_members(files: &Vec<String>) -> (pids: Vec<u32>)
    ensures
        pids@.no_duplicates(),
        forall|pid: u32| #[trigger] pids@.contains(pid) == lists_member(texts(files@), pid),
{
    let ghost all = texts(files@);
    let mut pids: Vec<u32> = Vec::new();
    for i in 0..files.len()
        invariant
            all == texts(files@),
            pids@.no_duplicates(),
            forall|pid: u32| #[trigger]
                pids@.contains(pid) == lists_member(all.take(i as int), pid),
    {
        let ghost before = pids@;
        let chars = chars_of(files[i].as_str());
        let list = split_lines(chars.as_slice());
        assert(all[i as int] == files@[i as int]@);
        for k in 0..list.len()
            invariant
                pids@.no_duplicates(),
                pieces(list@) == lines(all[i as int]),
                forall|pid: u32| #[trigger]
                    pids@.contains(pid) == (before.contains(pid) || exists|m: int|
                        0 <= m < k && parse_decimal(
                            #[trigger] pieces(list@)[m],
                            u32::MAX as nat,
                        ) == Some(pid as nat)),
        {
            let ghost earlier = pids@;
            assert(pieces(list@)[k as int] == list@[k as int]@);
            if let Some(found) = parse_u32(list[k].as_slice()) {
                let _ = include_pid(&mut pids, found);
                proof {
                    assert forall|pid: u32| pids@.contains(pid) == (earlier.contains(pid) || pid
                        == found) by {
                        assert(pids@.to_set().contains(pid) == earlier.to_set().insert(
                            found,
                        ).contains(pid));
                    }
                }
            }
            proof {
                assert forall|pid: u32| #[trigger]
                    pids@.contains(pid) == (before.contains(pid) || exists|m: int|
                        0 <= m < k + 1 && parse_decimal(
                            #[trigger] pieces(list@)[m],
                            u32::MAX as nat,
                        ) == Some(pid as nat)) by {
                    let here = parse_decimal(pieces(list@)[k as int], u32::MAX as nat) == Some(
                        pid as nat,
                    );
                    assert(pids@.contains(pid) == (earlier.contains(pid) || here));
                    if earlier.contains(pid) && !before.contains(pid) {
                        let m = choose|m: int|
                            0 <= m < k && parse_decimal(
                                #[trigger] pieces(list@)[m],
                                u32::MAX as nat,
                            ) == Some(pid as nat);
                        assert(parse_decimal(pieces(list@)[m], u32::MAX as nat) == Some(
                            pid as nat,
                        ));
                    }
                }
            }
        }
        proof {
            let now = all.take(i + 1);
            let earlier = all.take(i as int);
            assert forall|pid: u32| #[trigger] pids@.contains(pid) == lists_member(now, pid) by {
                if before.contains(pid) {
                    let (a, b) = choose|a: int, b: int|
                        0 <= a < earlier.len() && 0 <= b < lines(earlier[a]).len()
                            && parse_decimal(
                            #[trigger] lines(earlier[a])[b],
                            u32::MAX as nat,
                        ) == Some(pid as nat);
                    assert(now[a] == earlier[a]);
                    assert(parse_decimal(lines(now[a])[b], u32::MAX as nat) == Some(pid as nat));
                } else if pids@.contains(pid) {
                    let m = choose|m: int|
                        0 <= m < list@.len() && parse_decimal(
                            #[trigger] pieces(list@)[m],
                            u32::MAX as nat,
                        ) == Some(pid as nat);
                    assert(parse_decimal(lines(now[i as int])[m], u32::MAX as nat) == Some(
                        pid as nat,
                    ));
                }
                if lists_member(now, pid) {
                    let (a, b) = choose|a: int, b: int|
                        0 <= a < now.len() && 0 <= b < lines(now[a]).len() && parse_decimal(
                            #[trigger] lines(now[a])[b],
                            u32::MAX as nat,
                        ) == Some(pid as nat);
                    if a < i {
                        assert(now[a] == earlier[a]);
                        assert(parse_decimal(lines(earlier[a])[b], u32::MAX as nat) == Some(
                            pid as nat,
                        ));
                        assert(lists_member(earlier, pid));
                        assert(before.contains(pid));
                    } else {
                        assert(parse_decimal(pieces(list@)[b], u32::MAX as nat) == Some(
                            pid as nat,
                        ));
                    }
                }
            }
        }
    }
    assert(all.take(all.len() as int) =~= all);
    pids
}

} // verus!
