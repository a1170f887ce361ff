//! One sample of what the processes of the machine used, and what of it belongs
//! to a given application.

use vstd::prelude::*;
use crate::metrics::{add_counter, counter_sum};
use crate::table::{lemma_map_of, map_of, Table, TableKey};

verus! {

/// Input and output of a process since it started, or during an interval.
#[derive(Debug, Clone, Copy, PartialEq, Eq)]
pub struct ProcessIo {
    pub physical_read_bytes: u64,
    pub physical_write_bytes: u64,
    pub logical_read_bytes: u64,
    pub logical_write_bytes: u64,
    pub read_operations: u64,
    pub write_operations: u64,
    pub cancelled_write_bytes: u64,
}

impl ProcessIo {
    pub open spec fn none() -> Self {
        ProcessIo {
            physical_read_bytes: 0,
            physical_write_bytes: 0,
            logical_read_bytes: 0,
            logical_write_bytes: 0,
            read_operations: 0,
            write_operations: 0,
            cancelled_write_bytes: 0,
        }
    }
}

impl Default for ProcessIo {
    fn default() -> (io: Self)
        ensures
            io == ProcessIo::none(),
    {
        ProcessIo {
            physical_read_bytes: 0,
            physical_write_bytes: 0,
            logical_read_bytes: 0,
            logical_write_bytes: 0,
            read_operations: 0,
            write_operations: 0,
            cancelled_write_bytes: 0,
        }
    }
}

/// The memory of a process.
#[derive(Debug, Clone, Copy, PartialEq, Eq)]
pub struct MemoryUsage {
    pub rss_bytes: u64,
    pub pss_bytes: u64,
    pub private_bytes: u64,
    pub swap_bytes: u64,
    pub rss_available: bool,
    pub pss_available: bool,
}

impl MemoryUsage {
    pub open spec fn none() -> Self {
        MemoryUsage {
            rss_bytes: 0,
            pss_bytes: 0,
            private_bytes: 0,
            swap_bytes: 0,
            rss_available: false,
            pss_available: false,
        }
    }

    /// The proportional set size where it could be read, else the resident one.
    pub open spec fn best_bytes(self) -> u64 {
        if self.pss_available {
            self.pss_bytes
        } else {
            self.rss_bytes
        }
    }
}

impl Default for MemoryUsage {
    fn default() -> (memory: Self)
        ensures
            memory == MemoryUsage::none(),
    {
        MemoryUsage {
            rss_bytes: 0,
            pss_bytes: 0,
            private_bytes: 0,
            swap_bytes: 0,
            rss_available: false,
            pss_available: false,
        }
    }
}

/// A file on disk, whatever names it has.
#[derive(Debug, Clone, Copy, PartialEq, Eq, Structural)]
pub struct DiskFileId {
    pub device: u64,
    pub inode: u64,
}

impl View for DiskFileId {
    type V = DiskFileId;

    open spec fn view(&self) -> DiskFileId {
        *self
    }
}

impl TableKey for DiskFileId {
    fn same_key(&self, other: &Self) -> (same: bool) {
        *self == *other
    }

    fn copy_key(&self) -> (copy: Self) {
        *self
    }
}

/// The allocated size of a file, and whether it lies in a temporary place.
#[derive(Debug, Clone, Copy, PartialEq, Eq)]
pub struct DiskFile {
    pub bytes: u64,
    pub temporary: bool,
}

/// One file seen twice: the larger size, temporary where either sight says so.
pub open spec fn merge_file(a: DiskFile, b: DiskFile) -> DiskFile {
    DiskFile {
        bytes: if a.bytes >= b.bytes {
            a.bytes
        } else {
            b.bytes
        },
        temporary: a.temporary || b.temporary,
    }
}

/// Two sets of files together, each file once.
pub open spec fn merge_files(
    a: Map<DiskFileId, DiskFile>,
    b: Map<DiskFileId, DiskFile>,
) -> Map<DiskFileId, DiskFile> {
    Map::new(
        |id: DiskFileId| a.contains_key(id) || b.contains_key(id),
        |id: DiskFileId|
            if a.contains_key(id) && b.contains_key(id) {
                merge_file(a[id], b[id])
            } else if a.contains_key(id) {
                a[id]
            } else {
                b[id]
            },
    )
}

pub fn merge_disk_files(target: &mut Table<DiskFileId, DiskFile>, source: &Table<DiskFileId, DiskFile>)
    requires
        old(target).wf(),
        source.wf(),
    ensures
        final(target).wf(),
        final(target)@ == merge_files(old(target)@, source@),
{
    let ghost before = target@;
    assert(map_of(source.pairs().take(0)) =~= Map::empty());
    assert(before =~= merge_files(before, map_of(source.pairs().take(0))));
    let count = source.len();
    for i in 0..count
        invariant
            count == source.pairs().len(),
            source.wf(),
            target.wf(),
            target@ == merge_files(before, map_of(source.pairs().take(i as int))),
    {
        let ghost taken = source.pairs().take(i as int);
        let ghost next = source.pairs().take(i + 1);
        proof {
            assert(next.drop_last() =~= taken);
            lemma_map_of(taken);
        }
        let id = *source.key_at(i);
        let file = *source.value_at(i);
        proof {
            assert(!map_of(taken).contains_key(id)) by {
                if map_of(taken).contains_key(id) {
                    let j = choose|j: int| 0 <= j < taken.len() && (#[trigger] taken[j]).0@ == id;
                    assert(source.pairs()[j].0@ != source.pairs()[i as int].0@);
                }
            }
        }
        let merged = match target.get(&id) {
            Some(known) => DiskFile {
                bytes: if known.bytes >= file.bytes {
                    known.bytes
                } else {
                    file.bytes
                },
                temporary: known.temporary || file.temporary,
            },
            None => file,
        };
        let _ = target.insert(id, merged);
        assert(target@ =~= merge_files(before, map_of(next)));
    }
    assert(source.pairs().take(source.pairs().len() as int) =~= source.pairs());
}

fn copy_files(files: &Table<DiskFileId, DiskFile>) -> (copy: Table<DiskFileId, DiskFile>)
    requires
        files.wf(),
    ensures
        copy.wf(),
        copy.pairs() == files.pairs(),
{
    let ghost pairs = files.pairs();
    let mut copy: Table<DiskFileId, DiskFile> = Table::new();
    let count = files.len();
    for i in 0..count
        invariant
            files.wf(),
            copy.wf(),
            pairs == files.pairs(),
            count == pairs.len(),
            copy.pairs() == pairs.take(i as int),
    {
        let id = *files.key_at(i);
        proof {
            lemma_map_of(copy.pairs());
            if copy@.contains_key(id) {
                let j = choose|j: int|
                    0 <= j < copy.pairs().len() && (#[trigger] copy.pairs()[j]).0@ == id;
                assert(pairs[j].0@ != pairs[i as int].0@);
            }
        }
        let _ = copy.insert(id, *files.value_at(i));
        assert(pairs.take(i + 1) =~= pairs.take(i as int).push(pairs[i as int]));
    }
    assert(pairs.take(count as int) =~= pairs);
    copy
}

/// The files and sockets of a process.
pub struct ProcessFiles {
    pub open: Table<DiskFileId, DiskFile>,
    pub referenced: Table<DiskFileId, DiskFile>,
    pub sockets: Vec<u64>,
    pub fd_available: bool,
}

impl ProcessFiles {
    pub open spec fn wf(&self) -> bool {
        self.open.wf() && self.referenced.wf()
    }

    /// The same files and sockets in the same order.
    pub open spec fn same(&self, other: Self) -> bool {
        &&& self.open.pairs() == other.open.pairs()
        &&& self.referenced.pairs() == other.referenced.pairs()
        &&& self.sockets@ == other.sockets@
        &&& self.fd_available == other.fd_available
    }

    /// Nothing is known of the process's files.
    pub open spec fn is_unavailable(&self) -> bool {
        &&& self.open.pairs().len() == 0
        &&& self.referenced.pairs().len() == 0
        &&& self.sockets@.len() == 0
        &&& !self.fd_available
    }

    pub fn copied(&self) -> (copy: Self)
        requires
            self.wf(),
        ensures
            copy.wf(),
            copy.same(*self),
    {
        let mut sockets: Vec<u64> = Vec::new();
        for i in 0..self.sockets.len()
            invariant
                sockets@ == self.sockets@.take(i as int),
        {
            sockets.push(self.sockets[i]);
            assert(self.sockets@.take(i + 1) =~= self.sockets@.take(i as int).push(
                self.sockets@[i as int],
            ));
        }
        assert(self.sockets@.take(self.sockets@.len() as int) =~= self.sockets@);
        ProcessFiles {
            open: copy_files(&self.open),
            referenced: copy_files(&self.referenced),
            sockets,
            fd_available: self.fd_available,
        }
    }

    /// A process whose files could not be read.
    pub fn unavailable() -> (files: Self)
        ensures
            files.wf(),
            files.open@ == Map::<DiskFileId, DiskFile>::empty(),
            files.referenced@ == Map::<DiskFileId, DiskFile>::empty(),
            files.sockets@.len() == 0,
            !files.fd_available,
            files.is_unavailable(),
    {
        ProcessFiles {
            open: Table::new(),
            referenced: Table::new(),
            sockets: Vec::new(),
            fd_available: false,
        }
    }
}

/// What a process used during the interval.
pub struct ProcessUsage {
    pub parent_pid: u32,
    /// Clock ticks that the process ran.
    pub cpu_ticks: u64,
    pub memory: MemoryUsage,
    pub thread_count: u64,
    pub major_faults: u64,
    pub gpu_available: bool,
    /// Time that all GPU engines together worked for the process.
    pub gpu_nanoseconds: u64,
    /// Time that the busiest GPU engine worked for the process.
    pub gpu_busiest_nanoseconds: u64,
    pub gpu_memory_resident_bytes: u64,
    pub gpu_memory_allocated_bytes: u64,
    pub io: ProcessIo,
    pub files: ProcessFiles,
    pub storage_available: bool,
}

/// What a control group used during the interval.
#[derive(Debug, Clone, Copy, PartialEq, Eq)]
pub struct CgroupUsage {
    pub cpu_percent_tenths: u64,
    pub read_bytes: u64,
    pub write_bytes: u64,
    pub read_operations: u64,
    pub write_operations: u64,
    pub memory_bytes: u64,
    pub swap_bytes: u64,
}

impl CgroupUsage {
    pub open spec fn none() -> Self {
        CgroupUsage {
            cpu_percent_tenths: 0,
            read_bytes: 0,
            write_bytes: 0,
            read_operations: 0,
            write_operations: 0,
            memory_bytes: 0,
            swap_bytes: 0,
        }
    }

    pub open spec fn plus(self, other: Self) -> Self {
        CgroupUsage {
            cpu_percent_tenths: counter_sum(self.cpu_percent_tenths, other.cpu_percent_tenths),
            read_bytes: counter_sum(self.read_bytes, other.read_bytes),
            write_bytes: counter_sum(self.write_bytes, other.write_bytes),
            read_operations: counter_sum(self.read_operations, other.read_operations),
            write_operations: counter_sum(self.write_operations, other.write_operations),
            memory_bytes: counter_sum(self.memory_bytes, other.memory_bytes),
            swap_bytes: counter_sum(self.swap_bytes, other.swap_bytes),
        }
    }

    pub fn add_usage(&mut self, other: &Self)
        ensures
            *final(self) == old(self).plus(*other),
    {
        add_counter(&mut self.cpu_percent_tenths, other.cpu_percent_tenths);
        add_counter(&mut self.read_bytes, other.read_bytes);
        add_counter(&mut self.write_bytes, other.write_bytes);
        add_counter(&mut self.read_operations, other.read_operations);
        add_counter(&mut self.write_operations, other.write_operations);
        add_counter(&mut self.memory_bytes, other.memory_bytes);
        add_counter(&mut self.swap_bytes, other.swap_bytes);
    }
}

impl Default for CgroupUsage {
    fn default() -> (usage: Self)
        ensures
            usage == CgroupUsage::none(),
    {
        CgroupUsage {
            cpu_percent_tenths: 0,
            read_bytes: 0,
            write_bytes: 0,
            read_operations: 0,
            write_operations: 0,
            memory_bytes: 0,
            swap_bytes: 0,
        }
    }
}

/// The disk space of an application's own directories.
#[derive(Debug, Clone, Copy, PartialEq, Eq)]
pub struct DiskBreakdown {
    pub total_bytes: u64,
    pub temporary_bytes: u64,
    pub permanent_bytes: u64,
}

/// Bytes that a socket carried.
#[derive(Debug, Clone, Copy, PartialEq, Eq)]
pub struct NetworkCounters {
    pub received_bytes: u64,
    pub transmitted_bytes: u64,
}

/// The counters of several processes added up.
#[derive(Debug, Clone, Copy, PartialEq, Eq)]
pub struct UsageTotals {
    pub cpu_ticks: u64,
    pub memory_bytes: u64,
    pub memory_rss_bytes: u64,
    pub memory_pss_bytes: u64,
    pub memory_private_bytes: u64,
    pub memory_swap_bytes: u64,
    pub process_count: u64,
    pub thread_count: u64,
    pub major_faults: u64,
    pub gpu_nanoseconds: u64,
    pub gpu_busiest_nanoseconds: u64,
    pub gpu_memory_bytes: u64,
    pub gpu_memory_resident_bytes: u64,
    pub gpu_memory_allocated_bytes: u64,
    pub io: ProcessIo,
    pub memory_processes: u64,
    pub pss_processes: u64,
    pub gpu_processes: u64,
    pub network_processes: u64,
    pub storage_processes: u64,
}

pub open spec fn one_if(yes: bool) -> u64 {
    if yes {
        1
    } else {
        0
    }
}

fn count_one(yes: bool) -> (n: u64)
    ensures
        n == one_if(yes),
{
    if yes {
        1
    } else {
        0
    }
}

/// Resident GPU memory, or the allocated memory where nothing is resident.
pub open spec fn best_gpu_bytes(process: ProcessUsage) -> u64 {
    if process.gpu_memory_resident_bytes == 0 {
        process.gpu_memory_allocated_bytes
    } else {
        process.gpu_memory_resident_bytes
    }
}

impl UsageTotals {
    pub open spec fn none() -> Self {
        UsageTotals {
            cpu_ticks: 0,
            memory_bytes: 0,
            memory_rss_bytes: 0,
            memory_pss_bytes: 0,
            memory_private_bytes: 0,
            memory_swap_bytes: 0,
            process_count: 0,
            thread_count: 0,
            major_faults: 0,
            gpu_nanoseconds: 0,
            gpu_busiest_nanoseconds: 0,
            gpu_memory_bytes: 0,
            gpu_memory_resident_bytes: 0,
            gpu_memory_allocated_bytes: 0,
            io: ProcessIo::none(),
            memory_processes: 0,
            pss_processes: 0,
            gpu_processes: 0,
            network_processes: 0,
            storage_processes: 0,
        }
    }

    /// The totals with one more process.
    pub open spec fn plus(self, process: ProcessUsage) -> Self {
        UsageTotals {
            cpu_ticks: counter_sum(self.cpu_ticks, process.cpu_ticks),
            memory_bytes: counter_sum(self.memory_bytes, process.memory.best_bytes()),
            memory_rss_bytes: counter_sum(self.memory_rss_bytes, process.memory.rss_bytes),
            memory_pss_bytes: counter_sum(self.memory_pss_bytes, process.memory.pss_bytes),
            memory_private_bytes: counter_sum(
                self.memory_private_bytes,
                process.memory.private_bytes,
            ),
            memory_swap_bytes: counter_sum(self.memory_swap_bytes, process.memory.swap_bytes),
            process_count: counter_sum(self.process_count, 1),
            thread_count: counter_sum(self.thread_count, process.thread_count),
            major_faults: counter_sum(self.major_faults, process.major_faults),
            gpu_nanoseconds: counter_sum(self.gpu_nanoseconds, process.gpu_nanoseconds),
            gpu_busiest_nanoseconds: if process.gpu_busiest_nanoseconds
                >= self.gpu_busiest_nanoseconds {
                process.gpu_busiest_nanoseconds
            } else {
                self.gpu_busiest_nanoseconds
            },
            gpu_memory_bytes: counter_sum(self.gpu_memory_bytes, best_gpu_bytes(process)),
            gpu_memory_resident_bytes: counter_sum(
                self.gpu_memory_resident_bytes,
                process.gpu_memory_resident_bytes,
            ),
            gpu_memory_allocated_bytes: counter_sum(
                self.gpu_memory_allocated_bytes,
                process.gpu_memory_allocated_bytes,
            ),
            io: ProcessIo {
                physical_read_bytes: counter_sum(
                    self.io.physical_read_bytes,
                    process.io.physical_read_bytes,
                ),
                physical_write_bytes: counter_sum(
                    self.io.physical_write_bytes,
                    process.io.physical_write_bytes,
                ),
                logical_read_bytes: counter_sum(
                    self.io.logical_read_bytes,
                    process.io.logical_read_bytes,
                ),
                logical_write_bytes: counter_sum(
                    self.io.logical_write_bytes,
                    process.io.logical_write_bytes,
                ),
                read_operations: counter_sum(self.io.read_operations, process.io.read_operations),
                write_operations: counter_sum(
                    self.io.write_operations,
                    process.io.write_operations,
                ),
                cancelled_write_bytes: counter_sum(
                    self.io.cancelled_write_bytes,
                    process.io.cancelled_write_bytes,
                ),
            },
            memory_processes: counter_sum(
                self.memory_processes,
                one_if(process.memory.rss_available),
            ),
            pss_processes: counter_sum(self.pss_processes, one_if(process.memory.pss_available)),
            gpu_processes: counter_sum(self.gpu_processes, one_if(process.gpu_available)),
            network_processes: counter_sum(
                self.network_processes,
                one_if(process.files.fd_available),
            ),
            storage_processes: counter_sum(
                self.storage_processes,
                one_if(process.storage_available),
            ),
        }
    }

    pub fn add_process(&mut self, process: &ProcessUsage)
        ensures
            *final(self) == old(self).plus(*process),
    {
        let memory = process.memory;
        add_counter(&mut self.cpu_ticks, process.cpu_ticks);
        add_counter(
            &mut self.memory_bytes,
            if memory.pss_available {
                memory.pss_bytes
            } else {
                memory.rss_bytes
            },
        );
        add_counter(&mut self.memory_rss_bytes, memory.rss_bytes);
        add_counter(&mut self.memory_pss_bytes, memory.pss_bytes);
        add_counter(&mut self.memory_private_bytes, memory.private_bytes);
        add_counter(&mut self.memory_swap_bytes, memory.swap_bytes);
        add_counter(&mut self.process_count, 1);
        add_counter(&mut self.thread_count, process.thread_count);
        add_counter(&mut self.major_faults, process.major_faults);
        add_counter(&mut self.gpu_nanoseconds, process.gpu_nanoseconds);
        if process.gpu_busiest_nanoseconds >= self.gpu_busiest_nanoseconds {
            self.gpu_busiest_nanoseconds = process.gpu_busiest_nanoseconds;
        }
        add_counter(
            &mut self.gpu_memory_bytes,
            if process.gpu_memory_resident_bytes == 0 {
                process.gpu_memory_allocated_bytes
            } else {
                process.gpu_memory_resident_bytes
            },
        );
        add_counter(&mut self.gpu_memory_resident_bytes, process.gpu_memory_resident_bytes);
        add_counter(&mut self.gpu_memory_allocated_bytes, process.gpu_memory_allocated_bytes);
        add_counter(&mut self.io.physical_read_bytes, process.io.physical_read_bytes);
        add_counter(&mut self.io.physical_write_bytes, process.io.physical_write_bytes);
        add_counter(&mut self.io.logical_read_bytes, process.io.logical_read_bytes);
        add_counter(&mut self.io.logical_write_bytes, process.io.logical_write_bytes);
        add_counter(&mut self.io.read_operations, process.io.read_operations);
        add_counter(&mut self.io.write_operations, process.io.write_operations);
        add_counter(&mut self.io.cancelled_write_bytes, process.io.cancelled_write_bytes);
        add_counter(&mut self.memory_processes, count_one(memory.rss_available));
        add_counter(&mut self.pss_processes, count_one(memory.pss_available));
        add_counter(&mut self.gpu_processes, count_one(process.gpu_available));
        add_counter(&mut self.network_processes, count_one(process.files.fd_available));
        add_counter(&mut self.storage_processes, count_one(process.storage_available));
    }
}

impl Default for UsageTotals {
    fn default() -> (totals: Self)
        ensures
            totals == UsageTotals::none(),
    {
        UsageTotals {
            cpu_ticks: 0,
            memory_bytes: 0,
            memory_rss_bytes: 0,
            memory_pss_bytes: 0,
            memory_private_bytes: 0,
            memory_swap_bytes: 0,
            process_count: 0,
            thread_count: 0,
            major_faults: 0,
            gpu_nanoseconds: 0,
            gpu_busiest_nanoseconds: 0,
            gpu_memory_bytes: 0,
            gpu_memory_resident_bytes: 0,
            gpu_memory_allocated_bytes: 0,
            io: ProcessIo::default(),
            memory_processes: 0,
            pss_processes: 0,
            gpu_processes: 0,
            network_processes: 0,
            storage_processes: 0,
        }
    }
}

} // verus!
