//! What a sample says of what changed since the one before.

use vstd::prelude::*;
use crate::counter_laws::fitting;
use crate::gpu::EngineTime;
use crate::metrics_laws::{is_nearest, lemma_rated};
use crate::process_tree::is_child;
use crate::procfs::{CgroupCounters, ProcessStat};
use crate::resources::{NetworkCounters, ProcessUsage};
use crate::sampler::{
    cgroup_increase, cgroup_usages, engine_increase, engine_increases, is_active_root,
    is_child_of, is_family, is_shared, is_usage, kept_processes, socket_increases, wanted,
    Reading, ResourceSampler, SampleCache,
};
use crate::snapshot::ResourceSnapshot;

verus! {

// ---------------------------------------------------------------------
// Processes

/// The process that ran under this number at the sample before is this one.
pub open spec fn was_there(sampler: ResourceSampler, pid: u32, stat: ProcessStat) -> bool {
    sampler.previous_processes@.contains_key(pid)
        && sampler.previous_processes@[pid].start_ticks == stat.start_ticks
}

/// A process that was there before has run for as long as its counter went up, and it
/// had as many faults; one that was not there shows nothing yet.
pub proof fn lemma_process_time(
    sampler: ResourceSampler,
    reading: Reading,
    pid: u32,
    stat: ProcessStat,
    usage: ProcessUsage,
    system: u64,
)
    requires
        is_usage(sampler, reading, pid, stat, usage),
    ensures
        was_there(sampler, pid, stat) && sampler.previous_system_ticks == Some(system) && system
            < reading.system_ticks && sampler.previous_processes@[pid].total_ticks
            <= stat.total_ticks ==> sampler.previous_processes@[pid].total_ticks + usage.cpu_ticks
            == stat.total_ticks,
        was_there(sampler, pid, stat) && sampler.previous_processes@[pid].major_faults
            <= stat.major_faults ==> sampler.previous_processes@[pid].major_faults
            + usage.major_faults == stat.major_faults,
        !was_there(sampler, pid, stat) ==> usage.cpu_ticks == 0 && usage.major_faults == 0,
        sampler.previous_system_ticks is None ==> usage.cpu_ticks == 0,
        usage.parent_pid == stat.parent_pid,
        usage.thread_count == stat.thread_count,
{
}

/// It has read and written as much as its counters went up, each of them for itself.
pub proof fn lemma_process_io(
    sampler: ResourceSampler,
    reading: Reading,
    pid: u32,
    stat: ProcessStat,
    usage: ProcessUsage,
)
    requires
        is_usage(sampler, reading, pid, stat, usage),
    ensures
        was_there(sampler, pid, stat) && sampler.previous_processes@[pid].io is Some
            && reading.details@.contains_key(pid) && reading.details@[pid].io is Some ==> ({
            let before = sampler.previous_processes@[pid].io->0;
            let after = reading.details@[pid].io->0;
            &&& before.physical_read_bytes <= after.physical_read_bytes
                ==> before.physical_read_bytes + usage.io.physical_read_bytes
                == after.physical_read_bytes
            &&& before.physical_write_bytes <= after.physical_write_bytes
                ==> before.physical_write_bytes + usage.io.physical_write_bytes
                == after.physical_write_bytes
            &&& before.logical_read_bytes <= after.logical_read_bytes
                ==> before.logical_read_bytes + usage.io.logical_read_bytes
                == after.logical_read_bytes
            &&& before.logical_write_bytes <= after.logical_write_bytes
                ==> before.logical_write_bytes + usage.io.logical_write_bytes
                == after.logical_write_bytes
            &&& before.read_operations <= after.read_operations ==> before.read_operations
                + usage.io.read_operations == after.read_operations
            &&& before.write_operations <= after.write_operations ==> before.write_operations
                + usage.io.write_operations == after.write_operations
            &&& before.cancelled_write_bytes <= after.cancelled_write_bytes
                ==> before.cancelled_write_bytes + usage.io.cancelled_write_bytes
                == after.cancelled_write_bytes
        }),
        !was_there(sampler, pid, stat) || sampler.previous_processes@[pid].io is None
            ==> usage.io.physical_read_bytes == 0 && usage.io.physical_write_bytes == 0
            && usage.io.logical_read_bytes == 0 && usage.io.logical_write_bytes == 0,
        usage.storage_available == (reading.details@.contains_key(pid)
            && reading.details@[pid].io is Some),
{
}

/// Its memory is what was read of it, and so is that on graphics devices.
pub proof fn lemma_process_memory(
    sampler: ResourceSampler,
    reading: Reading,
    pid: u32,
    stat: ProcessStat,
    usage: ProcessUsage,
)
    requires
        is_usage(sampler, reading, pid, stat, usage),
    ensures
        reading.details@.contains_key(pid) ==> usage.memory == reading.details@[pid].memory,
        !reading.details@.contains_key(pid) ==> !usage.memory.rss_available
            && !usage.memory.pss_available && usage.memory.rss_bytes == 0 && usage.memory.pss_bytes
            == 0 && usage.memory.private_bytes == 0 && usage.memory.swap_bytes == 0,
        usage.gpu_available == reading.gpu@.contains_key(pid),
        reading.gpu@.contains_key(pid) ==> usage.gpu_memory_resident_bytes
            == reading.gpu@[pid].resident_memory_bytes && usage.gpu_memory_allocated_bytes
            == reading.gpu@[pid].allocated_memory_bytes,
        !reading.gpu@.contains_key(pid) ==> usage.gpu_nanoseconds == 0
            && usage.gpu_busiest_nanoseconds == 0 && usage.gpu_memory_resident_bytes == 0
            && usage.gpu_memory_allocated_bytes == 0,
        sampler.open_files.samples@.contains_key(pid) ==> usage.files.sockets@
            == sampler.open_files.samples@[pid].sockets@ && usage.files.open.pairs()
            == sampler.open_files.samples@[pid].open.pairs() && usage.files.referenced.pairs()
            == sampler.open_files.samples@[pid].referenced.pairs(),
        !sampler.open_files.samples@.contains_key(pid) ==> !usage.files.fd_available
            && usage.files.sockets@.len() == 0,
{
}

/// How long an engine of a graphics device worked: as much as its counter went up,
/// where the same engine of the same client of the same process was seen before.
pub open spec fn worked(
    previous: Map<(u32, u64, Seq<char>, Seq<char>), u64>,
    pid: u32,
    start_ticks: u64,
    time: EngineTime,
) -> int {
    let key = (pid, start_ticks, time.client@, time.engine@);
    if previous.contains_key(key) && previous[key] <= time.nanoseconds {
        time.nanoseconds - previous[key]
    } else {
        0
    }
}

/// The engines together.
pub open spec fn all_worked(
    previous: Map<(u32, u64, Seq<char>, Seq<char>), u64>,
    pid: u32,
    start_ticks: u64,
    engines: Seq<EngineTime>,
) -> int
    decreases engines.len(),
{
    if engines.len() == 0 {
        0
    } else {
        all_worked(previous, pid, start_ticks, engines.drop_last()) + worked(
            previous,
            pid,
            start_ticks,
            engines.last(),
        )
    }
}

proof fn lemma_all_worked(
    previous: Map<(u32, u64, Seq<char>, Seq<char>), u64>,
    pid: u32,
    start_ticks: u64,
    engines: Seq<EngineTime>,
)
    ensures
        all_worked(previous, pid, start_ticks, engines) >= 0,
        engine_increases(previous, pid, start_ticks, engines).0 == fitting(
            all_worked(previous, pid, start_ticks, engines),
        ),
        forall|k: int|
            0 <= k < engines.len() ==> worked(
                previous,
                pid,
                start_ticks,
                #[trigger] engines[k],
            ) <= engine_increases(previous, pid, start_ticks, engines).1,
        engines.len() > 0 ==> exists|k: int|
            0 <= k < engines.len() && worked(previous, pid, start_ticks, #[trigger] engines[k])
                == engine_increases(previous, pid, start_ticks, engines).1,
    decreases engines.len(),
{
    if engines.len() > 0 {
        let front = engines.drop_last();
        lemma_all_worked(previous, pid, start_ticks, front);
        let last = engines.last();
        assert(worked(previous, pid, start_ticks, last) == engine_increase(
            previous,
            pid,
            start_ticks,
            last,
        ));
        let busiest = engine_increases(previous, pid, start_ticks, engines).1;
        let before = engine_increases(previous, pid, start_ticks, front).1;
        assert forall|k: int| 0 <= k < engines.len() implies worked(
            previous,
            pid,
            start_ticks,
            #[trigger] engines[k],
        ) <= busiest by {
            if k < front.len() {
                assert(front[k] == engines[k]);
            }
        }
        if busiest == engine_increase(previous, pid, start_ticks, last) {
            assert(worked(previous, pid, start_ticks, engines[engines.len() - 1]) == busiest);
        } else {
            assert(front.len() > 0) by {
                if front.len() == 0 {
                    assert(before == 0);
                }
            }
            let k = choose|k: int|
                0 <= k < front.len() && worked(previous, pid, start_ticks, #[trigger] front[k])
                    == before;
            assert(engines[k] == front[k]);
            assert(worked(previous, pid, start_ticks, engines[k]) == busiest);
        }
    }
}

/// Engines' times add up, and the busiest is the one that worked longest.
pub proof fn lemma_engines(
    sampler: ResourceSampler,
    reading: Reading,
    pid: u32,
    stat: ProcessStat,
    usage: ProcessUsage,
    previous: u64,
    k: int,
)
    requires
        is_usage(sampler, reading, pid, stat, usage),
        reading.gpu@.contains_key(pid),
        sampler.previous_sample == Some(previous),
        previous < reading.now_nanoseconds,
        0 <= k < reading.gpu@[pid].engines@.len(),
    ensures
        usage.gpu_nanoseconds == fitting(
            all_worked(
                sampler.previous_gpu_engines@,
                pid,
                stat.start_ticks,
                reading.gpu@[pid].engines@,
            ),
        ),
        worked(
            sampler.previous_gpu_engines@,
            pid,
            stat.start_ticks,
            reading.gpu@[pid].engines@[k],
        ) <= usage.gpu_busiest_nanoseconds,
        exists|m: int|
            0 <= m < reading.gpu@[pid].engines@.len() && worked(
                sampler.previous_gpu_engines@,
                pid,
                stat.start_ticks,
                #[trigger] reading.gpu@[pid].engines@[m],
            ) == usage.gpu_busiest_nanoseconds,
{
    lemma_all_worked(
        sampler.previous_gpu_engines@,
        pid,
        stat.start_ticks,
        reading.gpu@[pid].engines@,
    );
}

/// What is kept of a process is what the next sample is compared with.
pub proof fn lemma_kept(reading: Reading, pid: u32)
    ensures
        kept_processes(reading).contains_key(pid) == reading.processes@.contains_key(pid),
        reading.processes@.contains_key(pid) ==> ({
            let kept = kept_processes(reading)[pid];
            let stat = reading.processes@[pid];
            &&& kept.total_ticks == stat.total_ticks
            &&& kept.start_ticks == stat.start_ticks
            &&& kept.major_faults == stat.major_faults
            &&& reading.details@.contains_key(pid) ==> kept.io == reading.details@[pid].io
            &&& !reading.details@.contains_key(pid) ==> kept.io is None
        }),
{
}

/// The time between two samples is the difference of their times.
pub proof fn lemma_interval(sampler: ResourceSampler, now: u64, previous: u64)
    ensures
        sampler.previous_sample is None ==> sampler.interval(now) == 0,
        sampler.previous_sample == Some(previous) && previous <= now ==> previous
            + sampler.interval(now) == now,
        sampler.previous_system_ticks is None ==> sampler.system_increase(now) == 0,
        sampler.previous_system_ticks == Some(previous) && previous <= now ==> previous
            + sampler.system_increase(now) == now,
{
}

// ---------------------------------------------------------------------
// Control groups and sockets

/// A control group's share of a processor is its processor time per time, in tenths of
/// a percent; what it read and wrote is what its counters went up by; its memory is
/// what it has now.
pub proof fn lemma_control_group(
    before: Map<Seq<char>, CgroupCounters>,
    after: Map<Seq<char>, CgroupCounters>,
    nanoseconds: u64,
    path: Seq<char>,
)
    requires
        after.contains_key(path),
        nanoseconds > 0,
    ensures
        cgroup_usages(before, after, nanoseconds).contains_key(path),
        before.contains_key(path) ==> ({
            let a = before[path];
            let b = after[path];
            let usage = cgroup_usages(before, after, nanoseconds)[path];
            &&& a.cpu_usage_usec <= b.cpu_usage_usec && usage.cpu_percent_tenths < u64::MAX
                ==> is_nearest(
                usage.cpu_percent_tenths as int,
                (b.cpu_usage_usec - a.cpu_usage_usec) * 1_000 * 1_000,
                nanoseconds as int,
            )
            &&& a.read_bytes <= b.read_bytes ==> a.read_bytes + usage.read_bytes == b.read_bytes
            &&& a.write_bytes <= b.write_bytes ==> a.write_bytes + usage.write_bytes
                == b.write_bytes
            &&& a.read_operations <= b.read_operations ==> a.read_operations
                + usage.read_operations == b.read_operations
            &&& a.write_operations <= b.write_operations ==> a.write_operations
                + usage.write_operations == b.write_operations
            &&& usage.memory_bytes == b.memory_bytes
            &&& usage.swap_bytes == b.swap_bytes
        }),
        !before.contains_key(path) ==> ({
            let usage = cgroup_usages(before, after, nanoseconds)[path];
            &&& usage.cpu_percent_tenths == 0
            &&& usage.read_bytes == 0
            &&& usage.write_bytes == 0
            &&& usage.memory_bytes == 0
        }),
{
    if before.contains_key(path) && before[path].cpu_usage_usec <= after[path].cpu_usage_usec {
        let used = (after[path].cpu_usage_usec - before[path].cpu_usage_usec) * 1_000_000;
        lemma_rated(used as nat, nanoseconds as nat);
        assert(cgroup_usages(before, after, nanoseconds)[path] == cgroup_increase(
            before[path],
            after[path],
            nanoseconds,
        ));
    }
}

/// A socket carried what its counters went up by, each way for itself.
pub proof fn lemma_socket_traffic(
    before: Map<u64, NetworkCounters>,
    after: Map<u64, NetworkCounters>,
    socket: u64,
)
    ensures
        socket_increases(before, after).contains_key(socket) == after.contains_key(socket),
        before.contains_key(socket) && after.contains_key(socket) ==> ({
            let carried = socket_increases(before, after)[socket];
            let a = before[socket];
            let b = after[socket];
            &&& a.received_bytes <= b.received_bytes ==> a.received_bytes + carried.received_bytes
                == b.received_bytes
            &&& a.transmitted_bytes <= b.transmitted_bytes ==> a.transmitted_bytes
                + carried.transmitted_bytes == b.transmitted_bytes
            &&& a.received_bytes > b.received_bytes ==> carried.received_bytes == 0
            &&& a.transmitted_bytes > b.transmitted_bytes ==> carried.transmitted_bytes == 0
        }),
        !before.contains_key(socket) && after.contains_key(socket) ==> socket_increases(
            before,
            after,
        )[socket].received_bytes == 0 && socket_increases(before, after)[socket].transmitted_bytes
            == 0,
{
}

// ---------------------------------------------------------------------
// What is sampled

/// Where the period has passed everything is sampled, else only what is missing.
pub proof fn lemma_wanted<A, V>(samples: Map<A, V>, keys: Seq<A>, key: A)
    ensures
        wanted(samples, true, keys) == keys,
        wanted(samples, false, keys).contains(key) == (keys.contains(key) && !samples.contains_key(
            key,
        )),
    decreases keys.len(),
{
    if keys.len() > 0 {
        let front = keys.drop_last();
        lemma_wanted(samples, front, key);
        assert(front.push(keys.last()) =~= keys);
        let before = wanted(samples, false, front);
        let all = wanted(samples, false, keys);
        if front.contains(key) {
            let i = choose|i: int| 0 <= i < front.len() && front[i] == key;
            assert(keys[i] == key);
        }
        if keys.contains(key) && key != keys.last() {
            let i = choose|i: int| 0 <= i < keys.len() && keys[i] == key;
            assert(front[i] == key);
        }
        if before.contains(key) {
            let i = choose|i: int| 0 <= i < before.len() && before[i] == key;
            assert(all[i] == key);
        }
        if !samples.contains_key(keys.last()) {
            assert(all[all.len() - 1] == keys.last());
            if all.contains(key) && key != keys.last() {
                let i = choose|i: int| 0 <= i < all.len() && all[i] == key;
                assert(before[i] == key);
            }
        }
    } else {
        assert(wanted(samples, true, keys) =~= keys);
    }
}

/// A period has passed when its end is reached; before the first sample there is none.
pub proof fn lemma_due<K: crate::table::TableKey, V>(cache: SampleCache<K, V>, now: u64, end: u64)
    ensures
        cache.next_refresh is None ==> cache.due(now),
        cache.next_refresh == Some(end) ==> cache.due(now) == (end <= now),
{
}

/// A process has as its children those that name it as their parent.
pub proof fn lemma_children(
    children: Map<u32, Vec<u32>>,
    processes: Seq<(u32, ProcessStat)>,
    parent: u32,
    pid: u32,
    i: int,
)
    requires
        is_family(children, processes),
    ensures
        0 <= i < processes.len() && processes[i].0 == pid && processes[i].1.parent_pid == parent
            ==> children.contains_key(parent) && children[parent]@.contains(pid),
        children.contains_key(parent) && children[parent]@.contains(pid) ==> exists|j: int|
            0 <= j < processes.len() && (#[trigger] processes[j]).0 == pid
                && processes[j].1.parent_pid == parent,
{
    assert(is_child(children, parent, pid) == is_child_of(processes, parent, pid));
}

/// The roots are the processes of the applications' windows; there is no process zero.
pub proof fn lemma_roots(targets: Seq<(String, Vec<u32>)>, i: int, pid: u32)
    requires
        0 <= i < targets.len(),
        targets[i].1@.contains(pid),
    ensures
        is_active_root(targets, pid) == (pid != 0),
{
}

/// A process is shared where it belongs to two applications, and not where it belongs
/// to one or none.
pub proof fn lemma_shared(
    snapshot: ResourceSnapshot,
    targets: Seq<(String, Vec<u32>)>,
    i: int,
    j: int,
    pid: u32,
)
    requires
        0 <= i < targets.len(),
        0 <= j < targets.len(),
    ensures
        i != j && snapshot.attributed(targets[i].1@.to_set(), pid) && snapshot.attributed(
            targets[j].1@.to_set(),
            pid,
        ) ==> is_shared(snapshot, targets, pid),
        (forall|k: int|
            0 <= k < targets.len() && k != i ==> !snapshot.attributed(
                (#[trigger] targets[k]).1@.to_set(),
                pid,
            )) ==> !is_shared(snapshot, targets, pid),
{
    if i != j && snapshot.attributed(targets[i].1@.to_set(), pid) && snapshot.attributed(
        targets[j].1@.to_set(),
        pid,
    ) {
        let (a, b) = if i < j {
            (i, j)
        } else {
            (j, i)
        };
        assert(0 <= a < b < targets.len() && snapshot.attributed(targets[a].1@.to_set(), pid)
            && snapshot.attributed(targets[b].1@.to_set(), pid));
    }
}

} // verus!
