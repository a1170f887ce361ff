//! What an application's usage has to do with its processes, files, sockets and
//! control groups.

use vstd::prelude::*;
use crate::metrics::{capped, rated};
use crate::metrics_laws::{is_nearest, lemma_capped_sum, lemma_rated};
use crate::process_tree::{descends, is_child, is_descent};
use crate::resources::{CgroupUsage, DiskFile, DiskFileId, ProcessUsage, UsageTotals};
use crate::snapshot::{
    cgroups_total, files_of, received_if, size_if, totals_of, transmitted_if, ResourceSnapshot,
};
use crate::table::map_total;

verus! {

// ---------------------------------------------------------------------
// Which processes are an application's

/// A line of processes, each a child of the one before.
pub open spec fn is_line(snapshot: ResourceSnapshot, line: Seq<u32>) -> bool {
    line.len() > 0 && forall|i: int|
        0 <= i < line.len() - 1 ==> snapshot.children@.contains_key(#[trigger] line[i])
            && snapshot.children@[line[i]]@.contains(line[i + 1])
}

proof fn lemma_line(snapshot: ResourceSnapshot, line: Seq<u32>)
    ensures
        is_line(snapshot, line) == is_descent(snapshot.children@, line),
{
    if is_line(snapshot, line) {
        assert forall|i: int| 0 <= i < line.len() - 1 implies is_child(
            snapshot.children@,
            #[trigger] line[i],
            line[i + 1],
        ) by {}
    }
    if is_descent(snapshot.children@, line) {
        assert forall|i: int| 0 <= i < line.len() - 1 implies snapshot.children@.contains_key(
            #[trigger] line[i],
        ) && snapshot.children@[line[i]]@.contains(line[i + 1]) by {
            assert(is_child(snapshot.children@, line[i], line[i + 1]));
        }
    }
}

/// A process in the control group of a root belongs to the application.
pub proof fn lemma_members_belong(snapshot: ResourceSnapshot, roots: Set<u32>, root: u32, pid: u32)
    requires
        roots.contains(root),
        root > 0,
        snapshot.cgroup_members_by_root@.contains_key(root),
        snapshot.cgroup_members_by_root@[root]@.contains(pid),
    ensures
        snapshot.attributed_set(roots).contains(pid),
{
    assert(snapshot.in_cgroup_of(root, pid));
}

/// A running process at or below a root belongs to the application, also where it
/// has left the root's control group.
pub proof fn lemma_descendants_belong(
    snapshot: ResourceSnapshot,
    roots: Set<u32>,
    line: Seq<u32>,
)
    requires
        is_line(snapshot, line),
        roots.contains(line[0]),
        line[0] > 0,
        snapshot.processes@.contains_key(line.last()) || !snapshot.cgroup_members_by_root@.contains_key(
            line[0],
        ),
    ensures
        snapshot.attributed_set(roots).contains(line.last()),
{
    lemma_line(snapshot, line);
    if snapshot.processes@.contains_key(line.last()) {
        assert(descends(snapshot.children@, roots, line.last()));
    } else {
        assert(snapshot.loose_roots(roots).contains(line[0]));
        assert(descends(snapshot.children@, snapshot.loose_roots(roots), line.last()));
    }
}

/// Nothing else belongs to the application: a process of it is in the control group
/// of a root, or it stands at or below a root.
pub proof fn lemma_only_own_processes(snapshot: ResourceSnapshot, roots: Set<u32>, pid: u32)
    requires
        snapshot.attributed_set(roots).contains(pid),
    ensures
        (exists|root: u32|
            roots.contains(root) && root > 0 && #[trigger]
                snapshot.cgroup_members_by_root@.contains_key(root)
                && snapshot.cgroup_members_by_root@[root]@.contains(pid)) || (exists|line: Seq<u32>|
            #[trigger]
            is_line(snapshot, line) && roots.contains(line[0]) && line[0] > 0 && line.last() == pid
                && (snapshot.processes@.contains_key(pid)
                || !snapshot.cgroup_members_by_root@.contains_key(line[0]))),
{
    if snapshot.in_cgroup(roots, pid) {
        let root = choose|root: u32|
            roots.contains(root) && #[trigger] snapshot.in_cgroup_of(root, pid);
        assert(snapshot.cgroup_members_by_root@.contains_key(root));
    } else if descends(snapshot.children@, snapshot.loose_roots(roots), pid) {
        let line = choose|line: Seq<u32>| #[trigger]
            is_descent(snapshot.children@, line) && snapshot.loose_roots(roots).contains(line[0])
                && line[0] > 0 && line.last() == pid;
        lemma_line(snapshot, line);
        assert(is_line(snapshot, line));
    } else {
        let line = choose|line: Seq<u32>| #[trigger]
            is_descent(snapshot.children@, line) && roots.contains(line[0]) && line[0] > 0
                && line.last() == pid;
        lemma_line(snapshot, line);
        assert(is_line(snapshot, line));
    }
}

// ---------------------------------------------------------------------
// Totals over processes

/// What is added up over the processes of an application.
pub enum Quantity {
    CpuTicks,
    /// The proportional set size where it is known, else the resident one.
    Memory,
    MemoryResident,
    MemoryProportional,
    MemoryPrivate,
    MemorySwapped,
    Processes,
    Threads,
    MajorFaults,
    GpuTime,
    /// The resident GPU memory where there is any, else the allocated one.
    GpuMemory,
    GpuMemoryResident,
    GpuMemoryAllocated,
    DiskRead,
    DiskWritten,
    LogicalRead,
    LogicalWritten,
    ReadOperations,
    WriteOperations,
    CancelledWrites,
    WithMemory,
    WithProportionalMemory,
    WithGpu,
    WithFiles,
    WithStorage,
}

/// What one process adds.
pub open spec fn amount(quantity: Quantity, p: ProcessUsage) -> nat {
    match quantity {
        Quantity::CpuTicks => p.cpu_ticks as nat,
        Quantity::Memory => if p.memory.pss_available {
            p.memory.pss_bytes as nat
        } else {
            p.memory.rss_bytes as nat
        },
        Quantity::MemoryResident => p.memory.rss_bytes as nat,
        Quantity::MemoryProportional => p.memory.pss_bytes as nat,
        Quantity::MemoryPrivate => p.memory.private_bytes as nat,
        Quantity::MemorySwapped => p.memory.swap_bytes as nat,
        Quantity::Processes => 1,
        Quantity::Threads => p.thread_count as nat,
        Quantity::MajorFaults => p.major_faults as nat,
        Quantity::GpuTime => p.gpu_nanoseconds as nat,
        Quantity::GpuMemory => if p.gpu_memory_resident_bytes > 0 {
            p.gpu_memory_resident_bytes as nat
        } else {
            p.gpu_memory_allocated_bytes as nat
        },
        Quantity::GpuMemoryResident => p.gpu_memory_resident_bytes as nat,
        Quantity::GpuMemoryAllocated => p.gpu_memory_allocated_bytes as nat,
        Quantity::DiskRead => p.io.physical_read_bytes as nat,
        Quantity::DiskWritten => p.io.physical_write_bytes as nat,
        Quantity::LogicalRead => p.io.logical_read_bytes as nat,
        Quantity::LogicalWritten => p.io.logical_write_bytes as nat,
        Quantity::ReadOperations => p.io.read_operations as nat,
        Quantity::WriteOperations => p.io.write_operations as nat,
        Quantity::CancelledWrites => p.io.cancelled_write_bytes as nat,
        Quantity::WithMemory => if p.memory.rss_available {
            1
        } else {
            0
        },
        Quantity::WithProportionalMemory => if p.memory.pss_available {
            1
        } else {
            0
        },
        Quantity::WithGpu => if p.gpu_available {
            1
        } else {
            0
        },
        Quantity::WithFiles => if p.files.fd_available {
            1
        } else {
            0
        },
        Quantity::WithStorage => if p.storage_available {
            1
        } else {
            0
        },
    }
}

spec fn total(quantity: Quantity, t: UsageTotals) -> u64 {
    match quantity {
        Quantity::CpuTicks => t.cpu_ticks,
        Quantity::Memory => t.memory_bytes,
        Quantity::MemoryResident => t.memory_rss_bytes,
        Quantity::MemoryProportional => t.memory_pss_bytes,
        Quantity::MemoryPrivate => t.memory_private_bytes,
        Quantity::MemorySwapped => t.memory_swap_bytes,
        Quantity::Processes => t.process_count,
        Quantity::Threads => t.thread_count,
        Quantity::MajorFaults => t.major_faults,
        Quantity::GpuTime => t.gpu_nanoseconds,
        Quantity::GpuMemory => t.gpu_memory_bytes,
        Quantity::GpuMemoryResident => t.gpu_memory_resident_bytes,
        Quantity::GpuMemoryAllocated => t.gpu_memory_allocated_bytes,
        Quantity::DiskRead => t.io.physical_read_bytes,
        Quantity::DiskWritten => t.io.physical_write_bytes,
        Quantity::LogicalRead => t.io.logical_read_bytes,
        Quantity::LogicalWritten => t.io.logical_write_bytes,
        Quantity::ReadOperations => t.io.read_operations,
        Quantity::WriteOperations => t.io.write_operations,
        Quantity::CancelledWrites => t.io.cancelled_write_bytes,
        Quantity::WithMemory => t.memory_processes,
        Quantity::WithProportionalMemory => t.pss_processes,
        Quantity::WithGpu => t.gpu_processes,
        Quantity::WithFiles => t.network_processes,
        Quantity::WithStorage => t.storage_processes,
    }
}

/// What the processes of a set add up to.
pub open spec fn added_up(
    processes: Seq<(u32, ProcessUsage)>,
    pids: Set<u32>,
    quantity: Quantity,
) -> nat
    decreases processes.len(),
{
    if processes.len() == 0 {
        0
    } else {
        added_up(processes.drop_last(), pids, quantity) + if pids.contains(processes.last().0) {
            amount(quantity, processes.last().1)
        } else {
            0
        }
    }
}

proof fn lemma_total(processes: Seq<(u32, ProcessUsage)>, pids: Set<u32>, quantity: Quantity)
    ensures
        total(quantity, totals_of(processes, pids)) == capped(added_up(processes, pids, quantity)),
    decreases processes.len(),
{
    if processes.len() > 0 {
        let front = processes.drop_last();
        lemma_total(front, pids, quantity);
        lemma_capped_sum(
            added_up(front, pids, quantity),
            amount(quantity, processes.last().1),
        );
    }
}

proof fn lemma_all_totals(processes: Seq<(u32, ProcessUsage)>, pids: Set<u32>)
    ensures
        forall|quantity: Quantity| #[trigger]
            total(quantity, totals_of(processes, pids)) == capped(
                added_up(processes, pids, quantity),
            ),
{
    assert forall|quantity: Quantity| #[trigger]
        total(quantity, totals_of(processes, pids)) == capped(
            added_up(processes, pids, quantity),
        ) by {
        lemma_total(processes, pids, quantity);
    }
}

/// What the processes of an application add up to.
pub open spec fn charged(snapshot: ResourceSnapshot, roots: Set<u32>, quantity: Quantity) -> u64 {
    capped(added_up(snapshot.processes.pairs(), snapshot.attributed_set(roots), quantity))
}

proof fn lemma_charged(snapshot: ResourceSnapshot, roots: Set<u32>)
    ensures
        forall|quantity: Quantity| #[trigger]
            charged(snapshot, roots, quantity) == total(
                quantity,
                totals_of(snapshot.processes.pairs(), snapshot.attributed_set(roots)),
            ),
{
    lemma_all_totals(snapshot.processes.pairs(), snapshot.attributed_set(roots));
}

/// Memory, processes, threads and GPU memory of an application are the sums over
/// its processes.
pub proof fn lemma_compute_adds_up(snapshot: ResourceSnapshot, roots: Set<u32>)
    ensures
        ({
            let compute = snapshot.usage_of(roots).compute;
            &&& compute.memory_bytes == charged(snapshot, roots, Quantity::Memory)
            &&& compute.memory_rss_bytes == charged(snapshot, roots, Quantity::MemoryResident)
            &&& compute.memory_pss_bytes == charged(snapshot, roots, Quantity::MemoryProportional)
            &&& compute.memory_private_bytes == charged(snapshot, roots, Quantity::MemoryPrivate)
            &&& compute.memory_swap_bytes == charged(snapshot, roots, Quantity::MemorySwapped)
            &&& compute.process_count == charged(snapshot, roots, Quantity::Processes)
            &&& compute.thread_count == charged(snapshot, roots, Quantity::Threads)
            &&& compute.gpu_memory_bytes == charged(snapshot, roots, Quantity::GpuMemory)
            &&& compute.gpu_memory_resident_bytes == charged(
                snapshot,
                roots,
                Quantity::GpuMemoryResident,
            )
            &&& compute.gpu_memory_allocated_bytes == charged(
                snapshot,
                roots,
                Quantity::GpuMemoryAllocated,
            )
        }),
{
    lemma_charged(snapshot, roots);
    assert(charged(snapshot, roots, Quantity::Memory) == total(
        Quantity::Memory,
        totals_of(snapshot.processes.pairs(), snapshot.attributed_set(roots)),
    ));
}

/// Logical input and output of an application are always the sums over its
/// processes.
pub proof fn lemma_logical_io_adds_up(snapshot: ResourceSnapshot, roots: Set<u32>)
    ensures
        ({
            let storage = snapshot.usage_of(roots).storage;
            &&& storage.logical_read_bytes == charged(snapshot, roots, Quantity::LogicalRead)
            &&& storage.logical_write_bytes == charged(snapshot, roots, Quantity::LogicalWritten)
            &&& storage.cancelled_write_bytes == charged(snapshot, roots, Quantity::CancelledWrites)
        }),
{
    lemma_charged(snapshot, roots);
}

// ---------------------------------------------------------------------
// Control groups

/// The control group at this path is that of one of the roots.
pub open spec fn is_used(snapshot: ResourceSnapshot, roots: Set<u32>, path: Seq<char>) -> bool {
    exists|root: u32|
        roots.contains(root) && root > 0 && snapshot.cgroup_members_by_root@.contains_key(root)
            && #[trigger] snapshot.cgroup_path_by_root@.contains_key(root)
            && snapshot.cgroup_path_by_root@[root]@ == path
}

/// Control groups account for the whole application: there is a root, every root has
/// a control group, one whose path is known was measured, and every running process
/// of the application is in the control group of a root.
pub open spec fn is_grouped(snapshot: ResourceSnapshot, roots: Set<u32>) -> bool {
    &&& exists|root: u32| #[trigger] roots.contains(root) && root > 0
    &&& forall|root: u32| #[trigger]
        roots.contains(root) && root > 0 ==> snapshot.cgroup_members_by_root@.contains_key(root) && (
        snapshot.cgroup_path_by_root@.contains_key(root) ==> snapshot.cgroup_usage@.contains_key(
            snapshot.cgroup_path_by_root@[root]@,
        ))
    &&& forall|pid: u32| #[trigger]
        snapshot.processes@.contains_key(pid) && snapshot.attributed_set(roots).contains(pid)
            ==> exists|root: u32|
            roots.contains(root) && root > 0 && #[trigger]
                snapshot.cgroup_members_by_root@.contains_key(root)
                && snapshot.cgroup_members_by_root@[root]@.contains(pid)
}

proof fn lemma_grouped(snapshot: ResourceSnapshot, roots: Set<u32>)
    ensures
        snapshot.complete_cgroup(roots) == is_grouped(snapshot, roots),
{
    if snapshot.complete_cgroup(roots) {
        assert forall|root: u32| #[trigger] roots.contains(root) && root > 0 implies snapshot.cgroup_members_by_root@.contains_key(
            root,
        ) && (snapshot.cgroup_path_by_root@.contains_key(root)
            ==> snapshot.cgroup_usage@.contains_key(snapshot.cgroup_path_by_root@[root]@)) by {
            assert(snapshot.measured_root(root));
        }
        assert forall|pid: u32| #[trigger]
            snapshot.processes@.contains_key(pid) && snapshot.attributed_set(roots).contains(
                pid,
            ) implies exists|root: u32|
            roots.contains(root) && root > 0 && #[trigger]
                snapshot.cgroup_members_by_root@.contains_key(root)
                && snapshot.cgroup_members_by_root@[root]@.contains(pid) by {
            assert(snapshot.attributed(roots, pid));
            assert(snapshot.in_cgroup(roots, pid));
            let root = choose|root: u32|
                roots.contains(root) && #[trigger] snapshot.in_cgroup_of(root, pid);
            assert(snapshot.cgroup_members_by_root@.contains_key(root));
        }
    }
    if is_grouped(snapshot, roots) {
        assert forall|pid: u32| #[trigger]
            snapshot.attributed(roots, pid) && snapshot.processes@.contains_key(
                pid,
            ) implies snapshot.in_cgroup(roots, pid) by {
            assert(snapshot.attributed_set(roots).contains(pid));
            let root = choose|root: u32|
                roots.contains(root) && root > 0 && #[trigger]
                    snapshot.cgroup_members_by_root@.contains_key(root)
                    && snapshot.cgroup_members_by_root@[root]@.contains(pid);
            assert(snapshot.in_cgroup_of(root, pid));
        }
    }
}

/// What is added up over the control groups of an application.
pub enum GroupQuantity {
    Cpu,
    Read,
    Written,
    ReadOperations,
    WriteOperations,
    Memory,
}

pub open spec fn group_amount(quantity: GroupQuantity, g: CgroupUsage) -> nat {
    match quantity {
        GroupQuantity::Cpu => g.cpu_percent_tenths as nat,
        GroupQuantity::Read => g.read_bytes as nat,
        GroupQuantity::Written => g.write_bytes as nat,
        GroupQuantity::ReadOperations => g.read_operations as nat,
        GroupQuantity::WriteOperations => g.write_operations as nat,
        GroupQuantity::Memory => g.memory_bytes as nat,
    }
}

/// What the control groups of an application add up to.
pub open spec fn groups_added_up(
    snapshot: ResourceSnapshot,
    roots: Set<u32>,
    usages: Seq<(String, CgroupUsage)>,
    quantity: GroupQuantity,
) -> nat
    decreases usages.len(),
{
    if usages.len() == 0 {
        0
    } else {
        groups_added_up(snapshot, roots, usages.drop_last(), quantity) + if is_used(
            snapshot,
            roots,
            usages.last().0@,
        ) {
            group_amount(quantity, usages.last().1)
        } else {
            0
        }
    }
}

pub open spec fn group_charged(
    snapshot: ResourceSnapshot,
    roots: Set<u32>,
    quantity: GroupQuantity,
) -> u64 {
    capped(groups_added_up(snapshot, roots, snapshot.cgroup_usage.pairs(), quantity))
}

proof fn lemma_used(snapshot: ResourceSnapshot, roots: Set<u32>, path: Seq<char>)
    ensures
        snapshot.uses_path(roots, path) == is_used(snapshot, roots, path),
{
    if snapshot.uses_path(roots, path) {
        let root = choose|root: u32| #[trigger]
            roots.contains(root) && root > 0 && snapshot.cgroup_members_by_root@.contains_key(root)
                && snapshot.cgroup_path_by_root@.contains_key(root)
                && snapshot.cgroup_path_by_root@[root]@ == path;
        assert(snapshot.cgroup_path_by_root@.contains_key(root));
    }
}

proof fn lemma_groups(
    snapshot: ResourceSnapshot,
    roots: Set<u32>,
    usages: Seq<(String, CgroupUsage)>,
    used: spec_fn(Seq<char>) -> bool,
)
    requires
        forall|path: Seq<char>| #[trigger] used(path) == snapshot.uses_path(roots, path),
    ensures
        ({
            let g = cgroups_total(usages, used);
            let sum = |quantity: GroupQuantity|
                capped(groups_added_up(snapshot, roots, usages, quantity));
            &&& g.cpu_percent_tenths == sum(GroupQuantity::Cpu)
            &&& g.read_bytes == sum(GroupQuantity::Read)
            &&& g.write_bytes == sum(GroupQuantity::Written)
            &&& g.read_operations == sum(GroupQuantity::ReadOperations)
            &&& g.write_operations == sum(GroupQuantity::WriteOperations)
            &&& g.memory_bytes == sum(GroupQuantity::Memory)
        }),
    decreases usages.len(),
{
    if usages.len() > 0 {
        lemma_groups(snapshot, roots, usages.drop_last(), used);
        lemma_used(snapshot, roots, usages.last().0@);
        assert(used(usages.last().0@) == snapshot.uses_path(roots, usages.last().0@));
    }
}

/// Where control groups account for the whole application, their counters tell its
/// processor time, its input and output and its memory in the groups: the work of
/// processes that have ended is in them.
pub proof fn lemma_groups_are_preferred(snapshot: ResourceSnapshot, roots: Set<u32>)
    requires
        is_grouped(snapshot, roots),
    ensures
        ({
            let usage = snapshot.usage_of(roots);
            &&& usage.compute.cpu_percent_tenths == group_charged(
                snapshot,
                roots,
                GroupQuantity::Cpu,
            )
            &&& usage.compute.memory_cgroup_bytes == group_charged(
                snapshot,
                roots,
                GroupQuantity::Memory,
            )
            &&& usage.storage.disk_read_bytes == group_charged(snapshot, roots, GroupQuantity::Read)
            &&& usage.storage.disk_write_bytes == group_charged(
                snapshot,
                roots,
                GroupQuantity::Written,
            )
            &&& usage.storage.read_operations == group_charged(
                snapshot,
                roots,
                GroupQuantity::ReadOperations,
            )
            &&& usage.storage.write_operations == group_charged(
                snapshot,
                roots,
                GroupQuantity::WriteOperations,
            )
            &&& usage.measurement.attribution_method@ == "cgroup"@
            &&& usage.measurement.storage_available
            &&& usage.measurement.coverage_part == usage.measurement.coverage_whole
            &&& usage.measurement.coverage_whole > 0
        }),
{
    lemma_grouped(snapshot, roots);
    lemma_groups(
        snapshot,
        roots,
        snapshot.cgroup_usage.pairs(),
        |path: Seq<char>| snapshot.uses_path(roots, path),
    );
}

/// Where control groups do not account for the whole application, the counters of
/// its processes do: a hundred percent is all time of one of the processors.
pub proof fn lemma_processes_otherwise(snapshot: ResourceSnapshot, roots: Set<u32>)
    requires
        !is_grouped(snapshot, roots),
    ensures
        ({
            let usage = snapshot.usage_of(roots);
            let ticks = charged(snapshot, roots, Quantity::CpuTicks);
            &&& 0 < snapshot.system_ticks && snapshot.logical_cpus * 1000 <= u64::MAX
                && usage.compute.cpu_percent_tenths < u64::MAX ==> is_nearest(
                usage.compute.cpu_percent_tenths as int,
                ticks * (snapshot.logical_cpus * 1000),
                snapshot.system_ticks as int,
            )
            &&& snapshot.system_ticks == 0 ==> usage.compute.cpu_percent_tenths == 0
            &&& usage.compute.memory_cgroup_bytes == 0
            &&& usage.storage.disk_read_bytes == charged(snapshot, roots, Quantity::DiskRead)
            &&& usage.storage.disk_write_bytes == charged(snapshot, roots, Quantity::DiskWritten)
            &&& usage.storage.read_operations == charged(snapshot, roots, Quantity::ReadOperations)
            &&& usage.storage.write_operations == charged(
                snapshot,
                roots,
                Quantity::WriteOperations,
            )
            &&& usage.measurement.attribution_method@ == (if exists|root: u32|
                roots.contains(root) && root > 0 && #[trigger]
                    snapshot.cgroup_members_by_root@.contains_key(root) {
                "mixed"@
            } else {
                "process-tree"@
            })
            &&& usage.measurement.storage_available == (charged(
                snapshot,
                roots,
                Quantity::WithStorage,
            ) > 0)
            &&& usage.measurement.coverage_part == charged(snapshot, roots, Quantity::Processes)
            &&& usage.measurement.coverage_whole == capped(snapshot.attributed_set(roots).len())
        }),
{
    lemma_grouped(snapshot, roots);
    lemma_charged(snapshot, roots);
    let ticks = charged(snapshot, roots, Quantity::CpuTicks);
    if 0 < snapshot.system_ticks && snapshot.logical_cpus * 1000 <= u64::MAX {
        assert(ticks * (snapshot.logical_cpus * 1000) >= 0) by (nonlinear_arith);
        lemma_rated(
            (ticks * (snapshot.logical_cpus * 1000)) as nat,
            snapshot.system_ticks as nat,
        );
    }
    if snapshot.some_cgroup(roots) {
        let root = choose|root: u32| #[trigger]
            roots.contains(root) && root > 0 && snapshot.cgroup_members_by_root@.contains_key(root);
        assert(snapshot.cgroup_members_by_root@.contains_key(root));
    }
}

/// The share of the machine is the processor time divided by the processors, however
/// it was measured: one busy processor of `n` is a hundred percent of one and a
/// hundred `n`-th percent of the machine. It is never above the whole machine.
pub proof fn lemma_machine_share(snapshot: ResourceSnapshot, roots: Set<u32>)
    requires
        snapshot.logical_cpus > 0,
        snapshot.logical_cpus * 1000 <= u64::MAX,
        snapshot.usage_of(roots).compute.cpu_percent_tenths < u64::MAX,
    ensures
        ({
            let n = snapshot.logical_cpus as int;
            let one = snapshot.usage_of(roots).compute.cpu_percent_tenths as int;
            let all = snapshot.usage_of(roots).compute.cpu_percent_of_machine_tenths as int;
            &&& 0 <= all <= 1000
            &&& 2 * n * all <= 2 * one + n + 1
            &&& all < 1000 ==> 2 * one <= 2 * n * all + n + 1
        }),
{
    let n = snapshot.logical_cpus as int;
    let usage = snapshot.usage_of(roots);
    let one = usage.compute.cpu_percent_tenths as int;
    let all = usage.compute.cpu_percent_of_machine_tenths as int;
    lemma_charged(snapshot, roots);
    lemma_grouped(snapshot, roots);
    let ticks = charged(snapshot, roots, Quantity::CpuTicks) as int;
    let system = snapshot.system_ticks as int;
    if snapshot.complete_cgroup(roots) {
        let share = rated(one as nat, n as nat) as int;
        lemma_rated(one as nat, n as nat);
        assert(2 * one + n < 2 * u64::MAX * n) by (nonlinear_arith)
            requires
                n >= 1,
                0 <= one < u64::MAX,
        ;
        assert(2 * share * n == 2 * n * share) by (nonlinear_arith);
        if share > 1000 {
            assert(2 * n * 1000 <= 2 * n * share) by (nonlinear_arith)
                requires
                    n >= 1,
                    share > 1000,
            ;
        }
    } else if system > 0 {
        let share = rated((ticks * 1000) as nat, system as nat) as int;
        assert(ticks * (n * 1000) >= 0) by (nonlinear_arith)
            requires
                ticks >= 0,
                n >= 1,
        ;
        lemma_rated((ticks * (n * 1000)) as nat, system as nat);
        lemma_rated((ticks * 1000) as nat, system as nat);
        assert(one == rated((ticks * (n * 1000)) as nat, system as nat));
        assert(share < u64::MAX) by {
            assert(2 * (ticks * 1000) + system < 2 * u64::MAX * system) by (nonlinear_arith)
                requires
                    2 * (ticks * (n * 1000)) + system < 2 * one * system + 2 * system,
                    one < u64::MAX,
                    n >= 1,
                    ticks >= 0,
                    system > 0,
            {
                assert(ticks * 1000 <= ticks * (n * 1000));
                assert(2 * one * system + 2 * system <= 2 * u64::MAX * system);
            }
        }
        let product = ticks * 1000;
        assert(ticks * (n * 1000) == n * product) by (nonlinear_arith)
            requires
                product == ticks * 1000,
        ;
        lemma_two_roundings(product, system, n, one, share);
        if share > 1000 {
            assert(2 * n * 1000 <= 2 * n * share) by (nonlinear_arith)
                requires
                    n >= 1,
                    share > 1000,
            ;
        }
    }
}

/// A quotient rounded before and after multiplying.
proof fn lemma_two_roundings(p: int, s: int, n: int, one: int, share: int)
    requires
        s > 0,
        n >= 1,
        is_nearest(one, n * p, s),
        is_nearest(share, p, s),
    ensures
        2 * n * share <= 2 * one + n + 1,
        2 * one <= 2 * n * share + n + 1,
{
    let up = 2 * n * share;
    let sum = n * p;
    assert(up * s <= 2 * sum + n * s) by (nonlinear_arith)
        requires
            up == 2 * n * share,
            sum == n * p,
            n >= 1,
            2 * share * s <= 2 * p + s,
    ;
    assert(up * s > 2 * sum - n * s) by (nonlinear_arith)
        requires
            up == 2 * n * share,
            sum == n * p,
            n >= 1,
            2 * p + s < 2 * share * s + 2 * s,
    ;
    assert(up <= 2 * one + n + 1) by (nonlinear_arith)
        requires
            s > 0,
            up * s <= 2 * sum + n * s,
            2 * sum + s < 2 * one * s + 2 * s,
    ;
    assert(2 * one <= up + n + 1) by (nonlinear_arith)
        requires
            s > 0,
            up * s > 2 * sum - n * s,
            2 * one * s <= 2 * sum + s,
    ;
}

// ---------------------------------------------------------------------
// Rates

/// `tenths` is `count` per second, in tenths.
pub open spec fn is_rate(tenths: u64, count: u64, nanoseconds: u64) -> bool {
    if nanoseconds == 0 {
        tenths == 0
    } else {
        tenths == u64::MAX || is_nearest(
            tenths as int,
            count * 10_000_000_000,
            nanoseconds as int,
        )
    }
}

proof fn lemma_rate(count: u64, nanoseconds: u64)
    ensures
        is_rate(crate::snapshot::per_second(count, nanoseconds), count, nanoseconds),
{
    if nanoseconds > 0 {
        lemma_rated((count * 10_000_000_000) as nat, nanoseconds as nat);
    }
}

/// Every rate is the amount beside it divided by the length of the interval.
pub proof fn lemma_rates(snapshot: ResourceSnapshot, roots: Set<u32>)
    ensures
        ({
            let storage = snapshot.usage_of(roots).storage;
            let network = snapshot.usage_of(roots).network;
            let interval = snapshot.interval_nanoseconds;
            &&& is_rate(
                storage.disk_read_bytes_per_second_tenths,
                storage.disk_read_bytes,
                interval,
            )
            &&& is_rate(
                storage.disk_write_bytes_per_second_tenths,
                storage.disk_write_bytes,
                interval,
            )
            &&& is_rate(
                storage.logical_read_bytes_per_second_tenths,
                storage.logical_read_bytes,
                interval,
            )
            &&& is_rate(
                storage.logical_write_bytes_per_second_tenths,
                storage.logical_write_bytes,
                interval,
            )
            &&& is_rate(
                storage.read_operations_per_second_tenths,
                storage.read_operations,
                interval,
            )
            &&& is_rate(
                storage.write_operations_per_second_tenths,
                storage.write_operations,
                interval,
            )
            &&& is_rate(
                network.network_receive_bytes_per_second_tenths,
                network.network_receive_bytes,
                interval,
            )
            &&& is_rate(
                network.network_transmit_bytes_per_second_tenths,
                network.network_transmit_bytes,
                interval,
            )
        }),
{
    let storage = snapshot.usage_of(roots).storage;
    let network = snapshot.usage_of(roots).network;
    let interval = snapshot.interval_nanoseconds;
    lemma_rate(storage.disk_read_bytes, interval);
    lemma_rate(storage.disk_write_bytes, interval);
    lemma_rate(storage.logical_read_bytes, interval);
    lemma_rate(storage.logical_write_bytes, interval);
    lemma_rate(storage.read_operations, interval);
    lemma_rate(storage.write_operations, interval);
    lemma_rate(network.network_receive_bytes, interval);
    lemma_rate(network.network_transmit_bytes, interval);
}

/// Major faults are counted per second, in hundredths.
pub proof fn lemma_fault_rate(snapshot: ResourceSnapshot, roots: Set<u32>)
    ensures
        ({
            let rate = snapshot.usage_of(roots).compute.major_faults_per_second_hundredths;
            let faults = charged(snapshot, roots, Quantity::MajorFaults);
            if snapshot.interval_nanoseconds == 0 {
                rate == 0
            } else {
                rate == u64::MAX || is_nearest(
                    rate as int,
                    faults * 100_000_000_000,
                    snapshot.interval_nanoseconds as int,
                )
            }
        }),
{
    lemma_charged(snapshot, roots);
    let faults = charged(snapshot, roots, Quantity::MajorFaults);
    if snapshot.interval_nanoseconds > 0 {
        lemma_rated(
            (faults * 100_000_000_000) as nat,
            snapshot.interval_nanoseconds as nat,
        );
    }
}

// ---------------------------------------------------------------------
// GPU

proof fn lemma_busiest(processes: Seq<(u32, ProcessUsage)>, pids: Set<u32>)
    ensures
        forall|i: int|
            0 <= i < processes.len() && pids.contains((#[trigger] processes[i]).0)
                ==> processes[i].1.gpu_busiest_nanoseconds <= totals_of(
                processes,
                pids,
            ).gpu_busiest_nanoseconds,
        totals_of(processes, pids).gpu_busiest_nanoseconds > 0 ==> exists|i: int|
            0 <= i < processes.len() && pids.contains((#[trigger] processes[i]).0)
                && processes[i].1.gpu_busiest_nanoseconds == totals_of(
                processes,
                pids,
            ).gpu_busiest_nanoseconds,
    decreases processes.len(),
{
    if processes.len() > 0 {
        let front = processes.drop_last();
        lemma_busiest(front, pids);
        let busiest = totals_of(processes, pids).gpu_busiest_nanoseconds;
        assert forall|i: int|
            0 <= i < processes.len() && pids.contains(
                (#[trigger] processes[i]).0,
            ) implies processes[i].1.gpu_busiest_nanoseconds <= busiest by {
            if i < front.len() {
                assert(front[i] == processes[i]);
            }
        }
        if busiest > 0 {
            if busiest == totals_of(front, pids).gpu_busiest_nanoseconds {
                let i = choose|i: int|
                    0 <= i < front.len() && pids.contains((#[trigger] front[i]).0)
                        && front[i].1.gpu_busiest_nanoseconds == busiest;
                assert(processes[i] == front[i]);
            } else {
                assert(processes[processes.len() - 1] == processes.last());
            }
        }
    }
}

/// The GPU load is the time of all engines together over the interval, in tenths of
/// a percent, and may be above a hundred percent.
pub proof fn lemma_gpu_load(snapshot: ResourceSnapshot, roots: Set<u32>)
    requires
        snapshot.interval_nanoseconds > 0,
        snapshot.usage_of(roots).compute.gpu_percent_tenths < u64::MAX,
    ensures
        is_nearest(
            snapshot.usage_of(roots).compute.gpu_percent_tenths as int,
            charged(snapshot, roots, Quantity::GpuTime) * 1000,
            snapshot.interval_nanoseconds as int,
        ),
{
    lemma_charged(snapshot, roots);
    let time = charged(snapshot, roots, Quantity::GpuTime);
    lemma_rated((time * 1000) as nat, snapshot.interval_nanoseconds as nat);
}

/// The busy part of the GPU is that of the process whose engine was busiest, and at
/// most the whole.
pub proof fn lemma_gpu_busy(snapshot: ResourceSnapshot, roots: Set<u32>, i: int)
    requires
        snapshot.interval_nanoseconds > 0,
        0 <= i < snapshot.processes.pairs().len(),
        snapshot.attributed_set(roots).contains(snapshot.processes.pairs()[i].0),
        forall|k: int|
            0 <= k < snapshot.processes.pairs().len() && snapshot.attributed_set(roots).contains(
                (#[trigger] snapshot.processes.pairs()[k]).0,
            ) ==> snapshot.processes.pairs()[k].1.gpu_busiest_nanoseconds
                <= snapshot.processes.pairs()[i].1.gpu_busiest_nanoseconds,
    ensures
        ({
            let busy = snapshot.usage_of(roots).compute.gpu_busy_percent_tenths as int;
            let time = snapshot.processes.pairs()[i].1.gpu_busiest_nanoseconds as int;
            let interval = snapshot.interval_nanoseconds as int;
            &&& time <= interval ==> is_nearest(busy, time * 1000, interval)
            &&& time >= interval ==> busy == 1000
        }),
{
    let processes = snapshot.processes.pairs();
    let pids = snapshot.attributed_set(roots);
    lemma_busiest(processes, pids);
    let busiest = totals_of(processes, pids).gpu_busiest_nanoseconds as int;
    let time = processes[i].1.gpu_busiest_nanoseconds as int;
    assert(busiest == time) by {
        if busiest > 0 {
            let k = choose|k: int|
                0 <= k < processes.len() && pids.contains((#[trigger] processes[k]).0)
                    && processes[k].1.gpu_busiest_nanoseconds == busiest;
            assert(processes[k].1.gpu_busiest_nanoseconds <= time);
        }
        assert(processes[i].1.gpu_busiest_nanoseconds <= busiest);
    }
    let interval = snapshot.interval_nanoseconds as int;
    lemma_rated((time * 1000) as nat, interval as nat);
    let share = rated((time * 1000) as nat, interval as nat) as int;
    if time <= interval {
        assert(2 * (time * 1000) + interval < 2 * u64::MAX * interval) by (nonlinear_arith)
            requires
                0 <= time <= interval,
                interval > 0,
        ;
        assert(share <= 1000) by (nonlinear_arith)
            requires
                2 * share * interval <= 2 * (time * 1000) + interval,
                0 <= time <= interval,
                interval > 0,
        ;
    }
    if time >= interval && share < u64::MAX {
        assert(share >= 1000) by (nonlinear_arith)
            requires
                2 * (time * 1000) + interval < 2 * share * interval + 2 * interval,
                time >= interval,
                interval > 0,
        ;
    }
}

// ---------------------------------------------------------------------
// Files and sockets

/// A process of the application holds this file open, or refers to it in any way.
pub open spec fn holds_file(
    processes: Seq<(u32, ProcessUsage)>,
    pids: Set<u32>,
    referenced: bool,
    id: DiskFileId,
    i: int,
) -> bool {
    0 <= i < processes.len() && pids.contains(processes[i].0) && file_table(
        processes[i].1,
        referenced,
    ).contains_key(id)
}

pub open spec fn file_table(process: ProcessUsage, referenced: bool) -> Map<DiskFileId, DiskFile> {
    if referenced {
        process.files.referenced@
    } else {
        process.files.open@
    }
}

/// The files of the processes, each once: with the largest size seen, and temporary
/// where anyone says so.
pub open spec fn are_files_of(
    files: Map<DiskFileId, DiskFile>,
    processes: Seq<(u32, ProcessUsage)>,
    pids: Set<u32>,
    referenced: bool,
) -> bool {
    &&& forall|id: DiskFileId| #[trigger]
        files.contains_key(id) <==> exists|i: int| holds_file(processes, pids, referenced, id, i)
    &&& forall|id: DiskFileId, i: int| #[trigger]
        holds_file(processes, pids, referenced, id, i) ==> file_table(
            processes[i].1,
            referenced,
        )[id].bytes <= files[id].bytes && (file_table(processes[i].1, referenced)[id].temporary
            ==> files[id].temporary)
    &&& forall|id: DiskFileId| #[trigger]
        files.contains_key(id) ==> exists|i: int|
            holds_file(processes, pids, referenced, id, i) && file_table(
                processes[i].1,
                referenced,
            )[id].bytes == files[id].bytes
    &&& forall|id: DiskFileId| #[trigger]
        files.contains_key(id) && files[id].temporary ==> exists|i: int|
            holds_file(processes, pids, referenced, id, i) && file_table(
                processes[i].1,
                referenced,
            )[id].temporary
}

proof fn lemma_files_of(processes: Seq<(u32, ProcessUsage)>, pids: Set<u32>, referenced: bool)
    ensures
        are_files_of(files_of(processes, pids, referenced), processes, pids, referenced),
    decreases processes.len(),
{
    let now = files_of(processes, pids, referenced);
    if processes.len() == 0 {
    } else {
        let front = processes.drop_last();
        let before = files_of(front, pids, referenced);
        let n = processes.len() - 1;
        let own = file_table(processes[n].1, referenced);
        lemma_files_of(front, pids, referenced);
        assert forall|id: DiskFileId, i: int|
            i < n implies #[trigger] holds_file(processes, pids, referenced, id, i) == holds_file(
            front,
            pids,
            referenced,
            id,
            i,
        ) by {
            if 0 <= i < n {
                assert(front[i] == processes[i]);
            }
        }
        assert forall|id: DiskFileId| #[trigger] now.contains_key(id) == (exists|i: int|
            holds_file(processes, pids, referenced, id, i)) by {
            if now.contains_key(id) {
                if before.contains_key(id) {
                    let i = choose|i: int| holds_file(front, pids, referenced, id, i);
                    assert(holds_file(processes, pids, referenced, id, i));
                } else {
                    assert(holds_file(processes, pids, referenced, id, n));
                }
            }
            if exists|i: int| holds_file(processes, pids, referenced, id, i) {
                let i = choose|i: int| holds_file(processes, pids, referenced, id, i);
                if i < n {
                    assert(holds_file(front, pids, referenced, id, i));
                    assert(before.contains_key(id));
                }
            }
        }
        assert forall|id: DiskFileId, i: int| #[trigger]
            holds_file(processes, pids, referenced, id, i) implies file_table(
            processes[i].1,
            referenced,
        )[id].bytes <= now[id].bytes && (file_table(processes[i].1, referenced)[id].temporary
            ==> now[id].temporary) by {
            if i < n {
                assert(front[i] == processes[i]);
                assert(holds_file(front, pids, referenced, id, i));
                assert(before.contains_key(id));
            }
        }
        assert forall|id: DiskFileId| #[trigger] now.contains_key(id) implies exists|i: int|
            holds_file(processes, pids, referenced, id, i) && file_table(
                processes[i].1,
                referenced,
            )[id].bytes == now[id].bytes by {
            if before.contains_key(id) && before[id].bytes == now[id].bytes {
                let i = choose|i: int|
                    holds_file(front, pids, referenced, id, i) && file_table(
                        front[i].1,
                        referenced,
                    )[id].bytes == before[id].bytes;
                assert(front[i] == processes[i]);
                assert(holds_file(processes, pids, referenced, id, i));
            } else {
                assert(holds_file(processes, pids, referenced, id, n));
            }
        }
        assert forall|id: DiskFileId| #[trigger]
            now.contains_key(id) && now[id].temporary implies exists|i: int|
            holds_file(processes, pids, referenced, id, i) && file_table(
                processes[i].1,
                referenced,
            )[id].temporary by {
            if before.contains_key(id) && before[id].temporary {
                let i = choose|i: int|
                    holds_file(front, pids, referenced, id, i) && file_table(
                        front[i].1,
                        referenced,
                    )[id].temporary;
                assert(front[i] == processes[i]);
                assert(holds_file(processes, pids, referenced, id, i));
            } else {
                assert(holds_file(processes, pids, referenced, id, n));
            }
        }
    }
}

/// There is only one such collection of files.
proof fn lemma_files_once(
    a: Map<DiskFileId, DiskFile>,
    b: Map<DiskFileId, DiskFile>,
    processes: Seq<(u32, ProcessUsage)>,
    pids: Set<u32>,
    referenced: bool,
)
    requires
        are_files_of(a, processes, pids, referenced),
        are_files_of(b, processes, pids, referenced),
    ensures
        a == b,
{
    assert forall|id: DiskFileId| a.contains_key(id) == b.contains_key(id) by {
        assert(a.contains_key(id) <==> exists|i: int|
            holds_file(processes, pids, referenced, id, i));
        assert(b.contains_key(id) <==> exists|i: int|
            holds_file(processes, pids, referenced, id, i));
    }
    assert forall|id: DiskFileId| a.contains_key(id) implies a[id] == b[id] by {
        assert(b.contains_key(id));
        let i = choose|i: int|
            holds_file(processes, pids, referenced, id, i) && file_table(
                processes[i].1,
                referenced,
            )[id].bytes == a[id].bytes;
        let j = choose|j: int|
            holds_file(processes, pids, referenced, id, j) && file_table(
                processes[j].1,
                referenced,
            )[id].bytes == b[id].bytes;
        assert(holds_file(processes, pids, referenced, id, i));
        assert(holds_file(processes, pids, referenced, id, j));
        if a[id].temporary {
            let k = choose|k: int|
                holds_file(processes, pids, referenced, id, k) && file_table(
                    processes[k].1,
                    referenced,
                )[id].temporary;
            assert(holds_file(processes, pids, referenced, id, k));
        }
        if b[id].temporary {
            let k = choose|k: int|
                holds_file(processes, pids, referenced, id, k) && file_table(
                    processes[k].1,
                    referenced,
                )[id].temporary;
            assert(holds_file(processes, pids, referenced, id, k));
        }
    }
    assert(a =~= b);
}

/// The size of a file; of a temporary one; of one that is not.
pub open spec fn any_size() -> spec_fn(DiskFileId, DiskFile) -> nat {
    |id: DiskFileId, file: DiskFile| file.bytes as nat
}

pub open spec fn temporary_size() -> spec_fn(DiskFileId, DiskFile) -> nat {
    |id: DiskFileId, file: DiskFile|
        if file.temporary {
            file.bytes as nat
        } else {
            0
        }
}

pub open spec fn permanent_size() -> spec_fn(DiskFileId, DiskFile) -> nat {
    |id: DiskFileId, file: DiskFile|
        if file.temporary {
            0
        } else {
            file.bytes as nat
        }
}

/// Each file that processes of the application hold counts once, with its size.
pub proof fn lemma_files_count_once(
    snapshot: ResourceSnapshot,
    roots: Set<u32>,
    open: Map<DiskFileId, DiskFile>,
    referenced: Map<DiskFileId, DiskFile>,
)
    requires
        are_files_of(open, snapshot.processes.pairs(), snapshot.attributed_set(roots), false),
        are_files_of(referenced, snapshot.processes.pairs(), snapshot.attributed_set(roots), true),
    ensures
        ({
            let storage = snapshot.usage_of(roots).storage;
            &&& storage.open_file_disk_bytes == capped(map_total(open, any_size()))
            &&& storage.referenced_file_disk_bytes == capped(map_total(referenced, any_size()))
            &&& storage.referenced_file_temporary_bytes == capped(
                map_total(referenced, temporary_size()),
            )
            &&& storage.referenced_file_permanent_bytes == capped(
                map_total(referenced, permanent_size()),
            )
        }),
{
    let processes = snapshot.processes.pairs();
    let pids = snapshot.attributed_set(roots);
    lemma_files_of(processes, pids, false);
    lemma_files_of(processes, pids, true);
    lemma_files_once(open, files_of(processes, pids, false), processes, pids, false);
    lemma_files_once(referenced, files_of(processes, pids, true), processes, pids, true);
    assert(size_if(true, true) =~= any_size());
    assert(size_if(true, false) =~= temporary_size());
    assert(size_if(false, true) =~= permanent_size());
}

/// The sockets that processes of the application hold, each once.
pub open spec fn are_sockets_of(
    sockets: Set<u64>,
    snapshot: ResourceSnapshot,
    roots: Set<u32>,
) -> bool {
    forall|socket: u64| #[trigger]
        sockets.contains(socket) <==> exists|i: int|
            0 <= i < snapshot.processes.pairs().len() && snapshot.attributed_set(roots).contains(
                (#[trigger] snapshot.processes.pairs()[i]).0,
            ) && snapshot.processes.pairs()[i].1.files.sockets@.contains(socket)
}

/// Connections are the application's sockets, each once, and its traffic is what
/// those sockets carried.
pub proof fn lemma_sockets_count_once(
    snapshot: ResourceSnapshot,
    roots: Set<u32>,
    sockets: Set<u64>,
)
    requires
        are_sockets_of(sockets, snapshot, roots),
    ensures
        ({
            let network = snapshot.usage_of(roots).network;
            &&& network.network_connection_count == capped(sockets.len())
            &&& network.network_receive_bytes == capped(
                map_total(snapshot.network_deltas@, carried_in(sockets)),
            )
            &&& network.network_transmit_bytes == capped(
                map_total(snapshot.network_deltas@, carried_out(sockets)),
            )
        }),
{
    let own = snapshot.socket_set(snapshot.attributed_set(roots));
    assert forall|socket: u64| own.contains(socket) == sockets.contains(socket) by {}
    assert(own =~= sockets);
    assert(received_if(sockets) =~= carried_in(sockets));
    assert(transmitted_if(sockets) =~= carried_out(sockets));
}

/// What one of these sockets received.
pub open spec fn carried_in(sockets: Set<u64>) -> spec_fn(
    u64,
    crate::resources::NetworkCounters,
) -> nat {
    |socket: u64, counters: crate::resources::NetworkCounters|
        if sockets.contains(socket) {
            counters.received_bytes as nat
        } else {
            0
        }
}

/// What one of these sockets transmitted.
pub open spec fn carried_out(sockets: Set<u64>) -> spec_fn(
    u64,
    crate::resources::NetworkCounters,
) -> nat {
    |socket: u64, counters: crate::resources::NetworkCounters|
        if sockets.contains(socket) {
            counters.transmitted_bytes as nat
        } else {
            0
        }
}

// ---------------------------------------------------------------------
// What is known of a measurement

/// The labels of a usage tell what could be measured of the application's processes.
pub proof fn lemma_measurement(snapshot: ResourceSnapshot, roots: Set<u32>)
    ensures
        ({
            let m = snapshot.usage_of(roots).measurement;
            let processes = charged(snapshot, roots, Quantity::Processes);
            let proportional = charged(snapshot, roots, Quantity::WithProportionalMemory);
            let resident = charged(snapshot, roots, Quantity::WithMemory);
            let files = charged(snapshot, roots, Quantity::WithFiles);
            &&& processes > 0 && proportional == processes ==> m.memory_source@ == "pss"@
            &&& proportional < processes && resident > 0 ==> m.memory_source@ == "rss-fallback"@
            &&& processes == 0 ==> m.memory_source@ == "unavailable"@ || resident > 0
            &&& proportional < processes && resident == 0 ==> m.memory_source@ == "unavailable"@
            &&& m.gpu_available == (charged(snapshot, roots, Quantity::WithGpu) > 0)
            &&& m.network_available == (files > 0)
            &&& m.network_connections_available == (files > 0)
            &&& m.network_bytes_available == (files > 0 && snapshot.network_counters_available)
            &&& m.resources_shared == (exists|pid: u32| #[trigger]
                snapshot.attributed_set(roots).contains(pid) && snapshot.shared_pids@.contains(pid))
            &&& is_nearest(
                m.sample_interval_ms as int,
                snapshot.interval_nanoseconds as int,
                1_000_000,
            )
        }),
{
    lemma_charged(snapshot, roots);
    lemma_rated(snapshot.interval_nanoseconds as nat, 1_000_000);
    let pids = snapshot.attributed_set(roots);
    let m = snapshot.usage_of(roots).measurement;
    if m.resources_shared {
        let i = choose|i: int|
            0 <= i < snapshot.shared_pids@.len() && pids.contains(
                #[trigger] snapshot.shared_pids@[i],
            );
        assert(snapshot.shared_pids@.contains(snapshot.shared_pids@[i]));
    }
    if exists|pid: u32| #[trigger] pids.contains(pid) && snapshot.shared_pids@.contains(pid) {
        let pid = choose|pid: u32| #[trigger]
            pids.contains(pid) && snapshot.shared_pids@.contains(pid);
        let i = choose|i: int|
            0 <= i < snapshot.shared_pids@.len() && snapshot.shared_pids@[i] == pid;
        assert(pids.contains(snapshot.shared_pids@[i]));
    }
}

/// An application's own directories add their sizes to its usage and change nothing
/// else of it.
pub proof fn lemma_own_directories(
    snapshot: ResourceSnapshot,
    target: Seq<char>,
    roots: Set<u32>,
)
    ensures
        ({
            let usage = snapshot.usage_of(roots);
            let all = snapshot.usage_of_target(target, roots);
            &&& all.compute == usage.compute
            &&& all.network == usage.network
            &&& all.energy == usage.energy
            &&& all.storage.disk_read_bytes == usage.storage.disk_read_bytes
            &&& all.storage.disk_write_bytes == usage.storage.disk_write_bytes
            &&& all.storage.open_file_disk_bytes == usage.storage.open_file_disk_bytes
            &&& all.storage.referenced_file_disk_bytes == usage.storage.referenced_file_disk_bytes
            &&& all.measurement.attribution_method == usage.measurement.attribution_method
            &&& all.measurement.coverage_part == usage.measurement.coverage_part
            &&& all.measurement.coverage_whole == usage.measurement.coverage_whole
            &&& if snapshot.app_disk_by_target@.contains_key(target) {
                let disk = snapshot.app_disk_by_target@[target];
                &&& all.storage.disk_space_total_bytes == disk.total_bytes
                &&& all.storage.disk_space_temporary_bytes == disk.temporary_bytes
                &&& all.storage.disk_space_permanent_bytes == disk.permanent_bytes
                &&& all.measurement.disk_space_scope@ == "identified-app-directories"@
            } else {
                &&& all.storage.disk_space_total_bytes == 0
                &&& all.storage.disk_space_temporary_bytes == 0
                &&& all.storage.disk_space_permanent_bytes == 0
                &&& all.measurement.disk_space_scope@ == "unavailable"@
            }
        }),
{
}

// ---------------------------------------------------------------------
// Energy

/// Where the processors' energy counters were read, an application is charged the
/// part of the energy that is its part of all processes' time.
pub proof fn lemma_energy_share(snapshot: ResourceSnapshot, roots: Set<u32>)
    requires
        snapshot.energy_source@ == "rapl"@,
        snapshot.logical_cpus > 0,
        snapshot.total_process_ticks > 0,
        charged(snapshot, roots, Quantity::CpuTicks) <= snapshot.total_process_ticks,
    ensures
        ({
            let energy = snapshot.usage_of(roots).energy;
            let ticks = charged(snapshot, roots, Quantity::CpuTicks);
            let all = snapshot.total_process_ticks;
            &&& is_nearest(energy.attributed_fraction_e4 as int, ticks * 10_000, all as int)
            &&& energy.energy_mwh_e4 < u64::MAX ==> is_nearest(
                energy.energy_mwh_e4 as int,
                snapshot.system_energy_microjoules * ticks,
                360 * all,
            )
            &&& energy.energy_source == snapshot.energy_source
            &&& energy.energy_confidence@ == "low"@
        }),
{
    lemma_charged(snapshot, roots);
    let ticks = charged(snapshot, roots, Quantity::CpuTicks);
    let all = snapshot.total_process_ticks;
    let system = snapshot.system_energy_microjoules;
    lemma_rated((ticks * 10_000) as nat, all as nat);
    assert(2 * (ticks * 10_000) + all < 2 * u64::MAX * all) by (nonlinear_arith)
        requires
            ticks <= all,
            all > 0,
    ;
    assert(system * ticks >= 0) by (nonlinear_arith);
    lemma_rated((system * ticks) as nat, (360 * all) as nat);
}

/// Power is energy over time, and the part of the battery is that of its full
/// charge.
pub proof fn lemma_power(snapshot: ResourceSnapshot, roots: Set<u32>)
    ensures
        ({
            let energy = snapshot.usage_of(roots).energy;
            let interval = snapshot.interval_nanoseconds;
            let full = snapshot.battery_full_picowatt_hours;
            &&& energy.estimated_app_power_watts_e3 == energy.power_watts_e3
            &&& interval == 0 ==> energy.power_watts_e3 == 0
            &&& interval > 0 && energy.power_watts_e3 < u64::MAX ==> is_nearest(
                energy.power_watts_e3 as int,
                energy.energy_mwh_e4 * 360_000_000,
                interval as int,
            )
            &&& full == 0 ==> energy.battery_percent_e6 == 0 && energy.battery_percent_per_hour_e4
                == 0
            &&& full > 0 && energy.battery_percent_e6 < u64::MAX ==> is_nearest(
                energy.battery_percent_e6 as int,
                energy.energy_mwh_e4 * 10_000_000_000_000,
                full as int,
            )
            &&& full > 0 && energy.battery_percent_per_hour_e4 < u64::MAX ==> is_nearest(
                energy.battery_percent_per_hour_e4 as int,
                energy.power_watts_e3 * 1_000_000_000_000_000,
                full as int,
            )
        }),
{
    let energy = snapshot.usage_of(roots).energy;
    let interval = snapshot.interval_nanoseconds;
    let full = snapshot.battery_full_picowatt_hours;
    if interval > 0 {
        lemma_rated((energy.energy_mwh_e4 * 360_000_000) as nat, interval as nat);
    }
    if full > 0 {
        lemma_rated((energy.energy_mwh_e4 * 10_000_000_000_000) as nat, full as nat);
        lemma_rated((energy.power_watts_e3 * 1_000_000_000_000_000) as nat, full as nat);
    }
}

/// The power of the system is the batteries' discharge where there is one, else the
/// counted energy over the interval, in thousandths of a watt.
pub proof fn lemma_system_power(snapshot: ResourceSnapshot, roots: Set<u32>)
    requires
        snapshot.interval_nanoseconds > 0,
        snapshot.usage_of(roots).energy.system_power_watts_e3 < u64::MAX,
    ensures
        ({
            let power = snapshot.usage_of(roots).energy.system_power_watts_e3 as int;
            &&& snapshot.system_discharge_picowatts > 0 ==> is_nearest(
                power,
                snapshot.system_discharge_picowatts as int,
                1_000_000_000,
            )
            &&& snapshot.system_discharge_picowatts == 0 ==> is_nearest(
                power,
                snapshot.system_energy_microjoules * 1_000_000,
                snapshot.interval_nanoseconds as int,
            )
        }),
{
    lemma_rated(snapshot.system_discharge_picowatts as nat, 1_000_000_000);
    lemma_rated(
        (snapshot.system_energy_microjoules * 1_000_000) as nat,
        snapshot.interval_nanoseconds as nat,
    );
}

} // verus!
