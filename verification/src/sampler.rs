//! From one sample of the machine to the next: what to read, and how far the
//! counters rose.

use vstd::prelude::*;
use crate::energy::{energy_sample, BatterySample, EnergySampler};
use crate::gpu::{distinct_engines, lists_engine, EngineTime, GpuProcessStat};
use crate::metrics::{
    add_counter, capped, counter_increase, counter_sum, increase, rate, rated, wide_product,
};
use crate::process_tree::{descendants, descends, include_pid, is_child};
use crate::procfs::{
    is_application_cgroup, specific_application_cgroup, CgroupCounters, ProcessStat,
};
use crate::resources::{
    CgroupUsage, DiskBreakdown, MemoryUsage, NetworkCounters, ProcessFiles, ProcessIo, ProcessUsage,
};
use crate::snapshot::{add_child, ResourceSnapshot};
use crate::table::{
    key_views, lemma_map_of, lemma_push_contains, lemma_take_next, lists_key, map_of, restricted,
    seq_sum, Table, TableKey,
};

verus! {

// ---------------------------------------------------------------------
// Values that are costly to read

/// Samples that are taken anew when a period has passed; in between only those
/// that are missing are taken.
pub struct SampleCache<K, V> {
    pub samples: Table<K, V>,
    pub next_refresh: Option<u64>,
}

/// The keys to take a sample of.
pub open spec fn wanted<A, V>(samples: Map<A, V>, due: bool, keys: Seq<A>) -> Seq<A>
    decreases keys.len(),
{
    if keys.len() == 0 {
        Seq::empty()
    } else {
        let before = wanted(samples, due, keys.drop_last());
        if due || !samples.contains_key(keys.last()) {
            before.push(keys.last())
        } else {
            before
        }
    }
}

impl<K: TableKey, V> SampleCache<K, V> {
    pub open spec fn wf(&self) -> bool {
        self.samples.wf()
    }

    /// The period has passed, or nothing was sampled yet.
    pub open spec fn due(&self, now: u64) -> bool {
        match self.next_refresh {
            Some(deadline) => now >= deadline,
            None => true,
        }
    }

    pub fn new() -> (cache: Self)
        ensures
            cache.wf(),
            cache.samples@ == Map::<K::V, V>::empty(),
            cache.next_refresh is None,
    {
        SampleCache { samples: Table::new(), next_refresh: None }
    }

    fn is_due(&self, now: u64) -> (yes: bool)
        ensures
            yes == self.due(now),
    {
        match self.next_refresh {
            Some(deadline) => now >= deadline,
            None => true,
        }
    }

    /// The keys that have to be sampled: all when the period has passed, else the
    /// new ones.
    pub fn requested(&self, keys: &[K], now: u64) -> (list: Vec<K>)
        requires
            self.wf(),
        ensures
            key_views(list@) == wanted(self.samples@, self.due(now), key_views(keys@)),
    {
        let due = self.is_due(now);
        let ghost all = key_views(keys@);
        let mut list: Vec<K> = Vec::new();
        assert(key_views(list@) =~= wanted(self.samples@, due, all.take(0)));
        for i in 0..keys.len()
            invariant
                self.wf(),
                all == key_views(keys@),
                key_views(list@) == wanted(self.samples@, due, all.take(i as int)),
        {
            let ghost before = key_views(list@);
            assert(all.take(i + 1).drop_last() =~= all.take(i as int));
            assert(all.take(i + 1).last() == keys@[i as int]@);
            if due || !self.samples.contains(&keys[i]) {
                let key = keys[i].copy_key();
                list.push(key);
                assert(key_views(list@) =~= before.push(key@));
            }
        }
        assert(all.take(all.len() as int) =~= all);
        list
    }

    /// Takes in the samples that were requested, and forgets those of other keys.
    pub fn absorb(&mut self, keys: &[K], sampled: Table<K, V>, now: u64, period: u64)
        requires
            old(self).wf(),
            sampled.wf(),
        ensures
            final(self).wf(),
            final(self).samples@ == (if old(self).due(now) {
                sampled@
            } else {
                restricted(old(self).samples@, key_views(keys@)).union_prefer_right(sampled@)
            }),
            final(self).next_refresh == (if old(self).due(now) {
                Some(counter_sum(now, period))
            } else {
                old(self).next_refresh
            }),
    {
        if self.is_due(now) {
            self.samples = sampled;
            let mut deadline = now;
            add_counter(&mut deadline, period);
            self.next_refresh = Some(deadline);
        } else {
            self.samples.retain(keys);
            self.samples.extend(sampled);
        }
    }
}

// ---------------------------------------------------------------------
// What to read

/// One of the applications has this root.
pub open spec fn is_active_root(targets: Seq<(String, Vec<u32>)>, pid: u32) -> bool {
    pid > 0 && exists|i: int|
        0 <= i < targets.len() && (#[trigger] targets[i]).1@.contains(pid)
}

/// The roots of all applications, each once.
pub fn active_roots(targets: &Table<String, Vec<u32>>) -> (roots: Vec<u32>)
    ensures
        roots@.no_duplicates(),
        forall|pid: u32| #[trigger]
            roots@.contains(pid) == is_active_root(targets.pairs(), pid),
{
    let ghost pairs = targets.pairs();
    let mut roots: Vec<u32> = Vec::new();
    let count = targets.len();
    for i in 0..count
        invariant
            pairs == targets.pairs(),
            count == pairs.len(),
            roots@.no_duplicates(),
            forall|pid: u32| #[trigger]
                roots@.contains(pid) == is_active_root(pairs.take(i as int), pid),
    {
        let ghost before = roots@;
        let list = targets.value_at(i);
        for j in 0..list.len()
            invariant
                roots@.no_duplicates(),
                forall|pid: u32| #[trigger]
                    roots@.contains(pid) == (before.contains(pid) || (pid > 0 && list@.take(
                        j as int,
                    ).contains(pid))),
        {
            let ghost earlier = roots@;
            let root = list[j];
            proof {
                lemma_take_next(list@, j as int);
            }
            if root > 0 {
                let _ = include_pid(&mut roots, root);
                proof {
                    assert forall|pid: u32| #[trigger] roots@.contains(pid) == (earlier.contains(
                        pid,
                    ) || pid == root) by {
                        assert(roots@.to_set().contains(pid) == earlier.to_set().insert(
                            root,
                        ).contains(pid));
                    }
                }
            }
        }
        proof {
            assert(list@.take(list@.len() as int) =~= list@);
            let earlier = pairs.take(i as int);
            let now = pairs.take(i + 1);
            assert(now[i as int] == pairs[i as int]);
            assert forall|pid: u32| #[trigger] roots@.contains(pid) == is_active_root(now, pid) by {
                if is_active_root(earlier, pid) {
                    let k = choose|k: int|
                        0 <= k < earlier.len() && (#[trigger] earlier[k]).1@.contains(pid);
                    assert(now[k] == earlier[k]);
                }
                if is_active_root(now, pid) {
                    let k = choose|k: int|
                        0 <= k < now.len() && (#[trigger] now[k]).1@.contains(pid);
                    if k < i {
                        assert(earlier[k] == now[k]);
                        assert(is_active_root(earlier, pid));
                        assert(before.contains(pid));
                    }
                }
                if before.contains(pid) {
                    assert(is_active_root(earlier, pid));
                }
            }
        }
    }
    assert(pairs.take(count as int) =~= pairs);
    roots
}

/// A parent's list of children is exactly the processes that name it as parent.
pub open spec fn is_family(children: Map<u32, Vec<u32>>, processes: Seq<(u32, ProcessStat)>) -> bool {
    forall|parent: u32, pid: u32| #[trigger]
        is_child(children, parent, pid) == is_child_of(processes, parent, pid)
}

pub open spec fn is_child_of(processes: Seq<(u32, ProcessStat)>, parent: u32, pid: u32) -> bool {
    exists|i: int|
        0 <= i < processes.len() && (#[trigger] processes[i]).0 == pid
            && processes[i].1.parent_pid == parent
}

proof fn lemma_family_grows(
    before: Map<u32, Vec<u32>>,
    after: Map<u32, Vec<u32>>,
    processes: Seq<(u32, ProcessStat)>,
    i: int,
)
    requires
        0 <= i < processes.len(),
        is_family(before, processes.take(i)),
        after.dom() == before.dom().insert(processes[i].1.parent_pid),
        after[processes[i].1.parent_pid]@ == (if before.contains_key(processes[i].1.parent_pid) {
            before[processes[i].1.parent_pid]@
        } else {
            Seq::empty()
        }).push(processes[i].0),
        forall|other: u32|
            other != processes[i].1.parent_pid && #[trigger] before.contains_key(other)
                ==> after[other] == before[other],
    ensures
        is_family(after, processes.take(i + 1)),
{
    let parent = processes[i].1.parent_pid;
    let new = processes[i].0;
    let shorter = processes.take(i);
    let longer = processes.take(i + 1);
    let list = if before.contains_key(parent) {
        before[parent]@
    } else {
        Seq::empty()
    };
    assert forall|p: u32, pid: u32| #[trigger] is_child(after, p, pid) == is_child_of(
        longer,
        p,
        pid,
    ) by {
        assert(is_child(before, p, pid) == is_child_of(shorter, p, pid));
        assert(is_child(after, p, pid) == (is_child(before, p, pid) || (p == parent && pid == new)))
            by {
            if p == parent {
                let now = list.push(new);
                assert(now[list.len() as int] == new);
                if list.contains(pid) {
                    let k = choose|k: int| 0 <= k < list.len() && list[k] == pid;
                    assert(now[k] == pid);
                }
            } else {
                assert(after.contains_key(p) == before.contains_key(p));
            }
        }
        if is_child_of(shorter, p, pid) {
            let k = choose|k: int|
                0 <= k < shorter.len() && (#[trigger] shorter[k]).0 == pid
                    && shorter[k].1.parent_pid == p;
            assert(longer[k] == shorter[k]);
        }
        if p == parent && pid == new {
            assert(longer[i].0 == pid);
        }
        if is_child_of(longer, p, pid) {
            let k = choose|k: int|
                0 <= k < longer.len() && (#[trigger] longer[k]).0 == pid
                    && longer[k].1.parent_pid == p;
            if k < i {
                assert(shorter[k] == longer[k]);
            }
        }
    }
}

/// The children of each process.
pub fn process_children(processes: &Table<u32, ProcessStat>) -> (children: Table<u32, Vec<u32>>)
    ensures
        children.wf(),
        is_family(children@, processes.pairs()),
{
    let ghost pairs = processes.pairs();
    let mut children: Table<u32, Vec<u32>> = Table::new();
    let count = processes.len();
    for i in 0..count
        invariant
            pairs == processes.pairs(),
            count == pairs.len(),
            children.wf(),
            is_family(children@, pairs.take(i as int)),
    {
        let ghost before = children@;
        add_child(&mut children, processes.value_at(i).parent_pid, *processes.key_at(i));
        proof {
            lemma_family_grows(before, children@, pairs, i as int);
        }
    }
    assert(pairs.take(count as int) =~= pairs);
    children
}

/// The control groups of the roots that belong to one application each.
pub fn cgroup_paths_for_roots(roots: &Vec<u32>, cgroups: &Vec<Option<String>>) -> (paths: Table<
    u32,
    String,
>)
    requires
        roots@.no_duplicates(),
        cgroups@.len() == roots@.len(),
    ensures
        paths.wf(),
        forall|i: int|
            0 <= i < roots@.len() ==> match cgroups@[i] {
                Some(path) if is_application_cgroup(path@) => paths@.contains_key(
                    #[trigger] roots@[i],
                ) && paths@[roots@[i]]@ == path@,
                _ => !paths@.contains_key(roots@[i]),
            },
        forall|root: u32| #[trigger] paths@.contains_key(root) ==> roots@.contains(root),
{
    let mut paths: Table<u32, String> = Table::new();
    for i in 0..roots.len()
        invariant
            roots@.no_duplicates(),
            cgroups@.len() == roots@.len(),
            paths.wf(),
            forall|k: int|
                0 <= k < i ==> match cgroups@[k] {
                    Some(path) if is_application_cgroup(path@) => paths@.contains_key(
                        #[trigger] roots@[k],
                    ) && paths@[roots@[k]]@ == path@,
                    _ => !paths@.contains_key(roots@[k]),
                },
            forall|root: u32| #[trigger]
                paths@.contains_key(root) ==> exists|k: int| 0 <= k < i && roots@[k] == root,
    {
        let ghost before = paths@;
        assert(!before.contains_key(roots@[i as int]));
        if let Some(path) = &cgroups[i] {
            if specific_application_cgroup(path.as_str()) {
                let _ = paths.insert(roots[i], path.clone());
            }
        }
        proof {
            assert forall|root: u32| #[trigger] paths@.contains_key(root) implies exists|k: int|
                0 <= k < i + 1 && roots@[k] == root by {
                if root == roots@[i as int] {
                    assert(roots@[i as int] == root);
                } else {
                    assert(before.contains_key(root));
                    let k = choose|k: int| 0 <= k < i && roots@[k] == root;
                    assert(roots@[k] == root);
                }
            }
        }
    }
    paths
}

fn copy_pids(pids: &Vec<u32>) -> (copy: Vec<u32>)
    ensures
        copy@ == pids@,
{
    let mut copy: Vec<u32> = Vec::new();
    for i in 0..pids.len()
        invariant
            copy@ == pids@.take(i as int),
    {
        copy.push(pids[i]);
        assert(pids@.take(i + 1) =~= pids@.take(i as int).push(pids@[i as int]));
    }
    assert(pids@.take(pids@.len() as int) =~= pids@);
    copy
}

/// The members of each root's control group, where it has any.
pub fn cgroup_members_for_paths(
    paths: &Table<u32, String>,
    members: &Table<String, Vec<u32>>,
) -> (by_root: Table<u32, Vec<u32>>)
    requires
        paths.wf(),
        members.wf(),
    ensures
        by_root.wf(),
        forall|root: u32| #[trigger]
            by_root@.contains_key(root) == (paths@.contains_key(root) && members@.contains_key(
                paths@[root]@,
            ) && members@[paths@[root]@]@.len() > 0),
        forall|root: u32| #[trigger]
            by_root@.contains_key(root) ==> by_root@[root]@ == members@[paths@[root]@]@,
{
    let ghost pairs = paths.pairs();
    let mut by_root: Table<u32, Vec<u32>> = Table::new();
    let count = paths.len();
    proof {
        lemma_map_of(pairs);
    }
    for i in 0..count
        invariant
            paths.wf(),
            members.wf(),
            by_root.wf(),
            pairs == paths.pairs(),
            count == pairs.len(),
            forall|k: int|
                0 <= k < pairs.len() ==> paths@.contains_key((#[trigger] pairs[k]).0)
                    && paths@[pairs[k].0] == pairs[k].1,
            forall|root: u32| #[trigger]
                by_root@.contains_key(root) == exists|k: int|
                    0 <= k < i && (#[trigger] pairs[k]).0 == root && members@.contains_key(
                        pairs[k].1@,
                    ) && members@[pairs[k].1@]@.len() > 0,
            forall|root: u32| #[trigger]
                by_root@.contains_key(root) ==> by_root@[root]@ == members@[paths@[root]@]@,
    {
        let ghost before = by_root@;
        let root = *paths.key_at(i);
        if let Some(list) = members.get(paths.value_at(i)) {
            if list.len() > 0 {
                let _ = by_root.insert(root, copy_pids(list));
            }
        }
        proof {
            assert(paths@[pairs[i as int].0] == pairs[i as int].1);
            assert forall|r: u32| #[trigger] by_root@.contains_key(r) == exists|k: int|
                0 <= k < i + 1 && (#[trigger] pairs[k]).0 == r && members@.contains_key(
                    pairs[k].1@,
                ) && members@[pairs[k].1@]@.len() > 0 by {
                let here = pairs[i as int].0 == r && members@.contains_key(pairs[i as int].1@)
                    && members@[pairs[i as int].1@]@.len() > 0;
                assert(by_root@.contains_key(r) == (before.contains_key(r) || here));
                if before.contains_key(r) {
                    let k = choose|k: int|
                        0 <= k < i && (#[trigger] pairs[k]).0 == r && members@.contains_key(
                            pairs[k].1@,
                        ) && members@[pairs[k].1@]@.len() > 0;
                    assert(pairs[k].0 == r);
                }
            }
        }
    }
    proof {
        assert forall|root: u32| #[trigger] by_root@.contains_key(root) == (paths@.contains_key(
            root,
        ) && members@.contains_key(paths@[root]@) && members@[paths@[root]@]@.len() > 0) by {
            if paths@.contains_key(root) {
                let k = choose|k: int| 0 <= k < pairs.len() && (#[trigger] pairs[k]).0@ == root;
                assert(pairs[k].0 == root);
            }
        }
    }
    by_root
}

/// The process is in one of the control groups.
pub open spec fn is_listed_member(members: Seq<(u32, Vec<u32>)>, pid: u32) -> bool {
    exists|i: int| 0 <= i < members.len() && (#[trigger] members[i]).1@.contains(pid)
}

/// The processes of all applications, each once: only of these the costly
/// details are read.
pub fn active_processes(
    roots: &Vec<u32>,
    children: &Table<u32, Vec<u32>>,
    members_by_root: &Table<u32, Vec<u32>>,
) -> (pids: Vec<u32>)
    requires
        children.wf(),
    ensures
        pids@.no_duplicates(),
        forall|pid: u32| #[trigger]
            pids@.contains(pid) == (descends(children@, roots@.to_set(), pid) || is_listed_member(
                members_by_root.pairs(),
                pid,
            )),
{
    let mut pids = descendants(roots.as_slice(), children);
    let ghost below = pids@;
    let ghost pairs = members_by_root.pairs();
    let count = members_by_root.len();
    for i in 0..count
        invariant
            pairs == members_by_root.pairs(),
            count == pairs.len(),
            pids@.no_duplicates(),
            forall|pid: u32| #[trigger]
                pids@.contains(pid) == (below.contains(pid) || is_listed_member(
                    pairs.take(i as int),
                    pid,
                )),
    {
        let ghost before = pids@;
        let list = members_by_root.value_at(i);
        for j in 0..list.len()
            invariant
                pids@.no_duplicates(),
                forall|pid: u32| #[trigger]
                    pids@.contains(pid) == (before.contains(pid) || list@.take(j as int).contains(
                        pid,
                    )),
        {
            let ghost earlier = pids@;
            let member = list[j];
            let _ = include_pid(&mut pids, member);
            proof {
                lemma_take_next(list@, j as int);
                assert forall|pid: u32| #[trigger] pids@.contains(pid) == (before.contains(pid)
                    || list@.take(j + 1).contains(pid)) by {
                    assert(pids@.to_set().contains(pid) == earlier.to_set().insert(
                        member,
                    ).contains(pid));
                }
            }
        }
        proof {
            assert(list@.take(list@.len() as int) =~= list@);
            let earlier = pairs.take(i as int);
            let now = pairs.take(i + 1);
            assert(now[i as int] == pairs[i as int]);
            assert forall|pid: u32| #[trigger]
                pids@.contains(pid) == (below.contains(pid) || is_listed_member(now, pid)) by {
                if is_listed_member(earlier, pid) {
                    let k = choose|k: int|
                        0 <= k < earlier.len() && (#[trigger] earlier[k]).1@.contains(pid);
                    assert(now[k] == earlier[k]);
                }
                if is_listed_member(now, pid) {
                    let k = choose|k: int|
                        0 <= k < now.len() && (#[trigger] now[k]).1@.contains(pid);
                    if k < i {
                        assert(earlier[k] == now[k]);
                        assert(is_listed_member(earlier, pid));
                        assert(before.contains(pid));
                    }
                }
            }
        }
    }
    assert(pairs.take(count as int) =~= pairs);
    pids
}


// ---------------------------------------------------------------------
// Counters from sample to sample

/// The counters of a process at the sample before.
#[derive(Debug, Clone, Copy, PartialEq, Eq)]
pub struct PreviousProcess {
    pub total_ticks: u64,
    pub start_ticks: u64,
    pub major_faults: u64,
    pub io: Option<ProcessIo>,
}

/// The memory of a process, and its input and output where they could be read.
#[derive(Debug, Clone, Copy, PartialEq, Eq)]
pub struct ProcessDetails {
    pub memory: MemoryUsage,
    pub io: Option<ProcessIo>,
}

/// An engine of the GPU working for one client of one process.
#[derive(Debug)]
pub struct GpuEngine {
    pub pid: u32,
    pub start_ticks: u64,
    pub client: String,
    pub engine: String,
}

impl View for GpuEngine {
    type V = (u32, u64, Seq<char>, Seq<char>);

    open spec fn view(&self) -> (u32, u64, Seq<char>, Seq<char>) {
        (self.pid, self.start_ticks, self.client@, self.engine@)
    }
}

impl TableKey for GpuEngine {
    fn same_key(&self, other: &Self) -> (same: bool) {
        self.pid == other.pid && self.start_ticks == other.start_ticks && self.client
            == other.client && self.engine == other.engine
    }

    fn copy_key(&self) -> (copy: Self) {
        GpuEngine {
            pid: self.pid,
            start_ticks: self.start_ticks,
            client: self.client.clone(),
            engine: self.engine.clone(),
        }
    }
}

/// Everything read for one sample, apart from the files of processes and the
/// directories of applications, which are cached.
pub struct Reading {
    pub now_nanoseconds: u64,
    pub system_ticks: u64,
    pub logical_cpus: u64,
    pub processes: Table<u32, ProcessStat>,
    pub cgroup_path_by_root: Table<u32, String>,
    pub cgroup_members_by_root: Table<u32, Vec<u32>>,
    pub cgroup_counters: Table<String, CgroupCounters>,
    pub details: Table<u32, ProcessDetails>,
    pub gpu: Table<u32, GpuProcessStat>,
    pub power_zones: Table<String, (u64, u64)>,
    pub battery: BatterySample,
    /// `None` where the kernel would not list its sockets.
    pub network: Option<Table<u64, NetworkCounters>>,
}

impl Reading {
    pub open spec fn wf(&self) -> bool {
        &&& self.processes.wf()
        &&& self.cgroup_path_by_root.wf()
        &&& self.cgroup_members_by_root.wf()
        &&& self.cgroup_counters.wf()
        &&& self.details.wf()
        &&& self.gpu.wf()
        &&& self.power_zones.wf()
        &&& (self.network is Some ==> self.network->0.wf())
        &&& forall|pid: u32| #[trigger]
            self.gpu@.contains_key(pid) ==> distinct_engines(self.gpu@[pid].engines@)
    }

    /// The counters of the sockets that were listed.
    pub open spec fn sockets(&self) -> Map<u64, NetworkCounters> {
        match self.network {
            Some(counters) => counters@,
            None => Map::empty(),
        }
    }

    /// What a process read and wrote since it started, where that is known.
    pub open spec fn io_of(&self, pid: u32) -> Option<ProcessIo> {
        if self.details@.contains_key(pid) {
            self.details@[pid].io
        } else {
            None
        }
    }
}

/// The increase of each counter.
pub open spec fn io_increase(before: ProcessIo, after: ProcessIo) -> ProcessIo {
    ProcessIo {
        physical_read_bytes: counter_increase(
            before.physical_read_bytes,
            after.physical_read_bytes,
        ),
        physical_write_bytes: counter_increase(
            before.physical_write_bytes,
            after.physical_write_bytes,
        ),
        logical_read_bytes: counter_increase(before.logical_read_bytes, after.logical_read_bytes),
        logical_write_bytes: counter_increase(
            before.logical_write_bytes,
            after.logical_write_bytes,
        ),
        read_operations: counter_increase(before.read_operations, after.read_operations),
        write_operations: counter_increase(before.write_operations, after.write_operations),
        cancelled_write_bytes: counter_increase(
            before.cancelled_write_bytes,
            after.cancelled_write_bytes,
        ),
    }
}

/// What a control group used since its counters stood at `before`.
pub open spec fn cgroup_increase(
    before: CgroupCounters,
    after: CgroupCounters,
    nanoseconds: u64,
) -> CgroupUsage {
    CgroupUsage {
        cpu_percent_tenths: rated(
            (counter_increase(before.cpu_usage_usec, after.cpu_usage_usec) * 1_000_000) as nat,
            nanoseconds as nat,
        ),
        read_bytes: counter_increase(before.read_bytes, after.read_bytes),
        write_bytes: counter_increase(before.write_bytes, after.write_bytes),
        read_operations: counter_increase(before.read_operations, after.read_operations),
        write_operations: counter_increase(before.write_operations, after.write_operations),
        memory_bytes: after.memory_bytes,
        swap_bytes: after.swap_bytes,
    }
}

/// The usage of every control group; one that was not seen before shows none.
pub open spec fn cgroup_usages(
    before: Map<Seq<char>, CgroupCounters>,
    after: Map<Seq<char>, CgroupCounters>,
    nanoseconds: u64,
) -> Map<Seq<char>, CgroupUsage> {
    Map::new(
        |path: Seq<char>| after.contains_key(path),
        |path: Seq<char>|
            if before.contains_key(path) {
                cgroup_increase(before[path], after[path], nanoseconds)
            } else {
                CgroupUsage::none()
            },
    )
}

/// What every socket carried; one that was not seen before shows nothing.
pub open spec fn socket_increases(
    before: Map<u64, NetworkCounters>,
    after: Map<u64, NetworkCounters>,
) -> Map<u64, NetworkCounters> {
    Map::new(
        |socket: u64| after.contains_key(socket),
        |socket: u64|
            if before.contains_key(socket) {
                NetworkCounters {
                    received_bytes: counter_increase(
                        before[socket].received_bytes,
                        after[socket].received_bytes,
                    ),
                    transmitted_bytes: counter_increase(
                        before[socket].transmitted_bytes,
                        after[socket].transmitted_bytes,
                    ),
                }
            } else {
                NetworkCounters { received_bytes: 0, transmitted_bytes: 0 }
            },
    )
}

/// How long one engine worked since the sample before.
pub open spec fn engine_increase(
    previous: Map<(u32, u64, Seq<char>, Seq<char>), u64>,
    pid: u32,
    start_ticks: u64,
    time: EngineTime,
) -> u64 {
    let key = (pid, start_ticks, time.client@, time.engine@);
    if previous.contains_key(key) {
        counter_increase(previous[key], time.nanoseconds)
    } else {
        0
    }
}

/// How long all engines together and the busiest of them worked.
pub open spec fn engine_increases(
    previous: Map<(u32, u64, Seq<char>, Seq<char>), u64>,
    pid: u32,
    start_ticks: u64,
    engines: Seq<EngineTime>,
) -> (u64, u64)
    decreases engines.len(),
{
    if engines.len() == 0 {
        (0, 0)
    } else {
        let (total, busiest) = engine_increases(previous, pid, start_ticks, engines.drop_last());
        let last = engine_increase(previous, pid, start_ticks, engines.last());
        (
            counter_sum(total, last),
            if last >= busiest {
                last
            } else {
                busiest
            },
        )
    }
}

/// What the sampler keeps between samples.
pub struct ResourceSampler {
    pub previous_processes: Table<u32, PreviousProcess>,
    pub previous_gpu_engines: Table<GpuEngine, u64>,
    pub previous_system_ticks: Option<u64>,
    pub previous_cgroups: Table<String, CgroupCounters>,
    pub previous_sockets: Table<u64, NetworkCounters>,
    pub previous_sample: Option<u64>,
    pub open_files: SampleCache<u32, ProcessFiles>,
    pub app_disk: SampleCache<String, DiskBreakdown>,
    pub energy: EnergySampler,
}

/// How often the files of processes are listed anew: ten seconds.
pub const OPEN_FILES_PERIOD: u64 = 10_000_000_000;

/// How often the directories of applications are measured anew: thirty seconds.
pub const APP_DISK_PERIOD: u64 = 30_000_000_000;

impl ResourceSampler {
    pub open spec fn wf(&self) -> bool {
        &&& self.previous_processes.wf()
        &&& self.previous_gpu_engines.wf()
        &&& self.previous_cgroups.wf()
        &&& self.previous_sockets.wf()
        &&& self.open_files.wf()
        &&& self.app_disk.wf()
        &&& self.energy.wf()
        &&& forall|pid: u32| #[trigger]
            self.open_files.samples@.contains_key(pid) ==> self.open_files.samples@[pid].wf()
    }

    pub fn new() -> (sampler: Self)
        ensures
            sampler.wf(),
            sampler.previous_processes@ == Map::<u32, PreviousProcess>::empty(),
            sampler.previous_gpu_engines@ == Map::<
                (u32, u64, Seq<char>, Seq<char>),
                u64,
            >::empty(),
            sampler.previous_system_ticks is None,
            sampler.previous_cgroups@ == Map::<Seq<char>, CgroupCounters>::empty(),
            sampler.previous_sockets@ == Map::<u64, NetworkCounters>::empty(),
            sampler.previous_sample is None,
            sampler.open_files.samples@ == Map::<u32, ProcessFiles>::empty(),
            sampler.open_files.next_refresh is None,
            sampler.app_disk.samples@ == Map::<Seq<char>, DiskBreakdown>::empty(),
            sampler.app_disk.next_refresh is None,
            sampler.energy.previous_rapl@ == Map::<Seq<char>, (u64, u64)>::empty(),
    {
        ResourceSampler {
            previous_processes: Table::new(),
            previous_gpu_engines: Table::new(),
            previous_system_ticks: None,
            previous_cgroups: Table::new(),
            previous_sockets: Table::new(),
            previous_sample: None,
            open_files: SampleCache::new(),
            app_disk: SampleCache::new(),
            energy: EnergySampler::new(),
        }
    }

    /// The time since the sample before.
    pub open spec fn interval(&self, now: u64) -> u64 {
        match self.previous_sample {
            Some(previous) => counter_increase(previous, now),
            None => 0,
        }
    }

    /// The clock ticks of all processors since the sample before.
    pub open spec fn system_increase(&self, ticks: u64) -> u64 {
        match self.previous_system_ticks {
            Some(previous) => counter_increase(previous, ticks),
            None => 0,
        }
    }

    /// The same process was there at the sample before: a process id that was
    /// given to another process in between does not count.
    pub open spec fn knows(&self, pid: u32, process: ProcessStat) -> bool {
        self.previous_processes@.contains_key(pid)
            && self.previous_processes@[pid].start_ticks == process.start_ticks
    }

    /// The clock ticks that a process ran since the sample before.
    pub open spec fn ticks_of(&self, pid: u32, process: ProcessStat, system: u64) -> u64 {
        if self.knows(pid, process) && system > 0 {
            counter_increase(self.previous_processes@[pid].total_ticks, process.total_ticks)
        } else {
            0
        }
    }

    /// What a process read and wrote since the sample before.
    pub open spec fn io_since(&self, pid: u32, process: ProcessStat, current: ProcessIo) -> ProcessIo {
        if self.knows(pid, process) && self.previous_processes@[pid].io is Some {
            io_increase(self.previous_processes@[pid].io->0, current)
        } else {
            ProcessIo::none()
        }
    }

    /// The major faults of a process since the sample before.
    pub open spec fn faults_of(&self, pid: u32, process: ProcessStat) -> u64 {
        if self.knows(pid, process) {
            counter_increase(self.previous_processes@[pid].major_faults, process.major_faults)
        } else {
            0
        }
    }

    fn previous(&self, pid: u32, process: &ProcessStat) -> (found: Option<PreviousProcess>)
        requires
            self.wf(),
        ensures
            found == (if self.knows(pid, *process) {
                Some(self.previous_processes@[pid])
            } else {
                None
            }),
    {
        match self.previous_processes.get(&pid) {
            Some(previous) => if previous.start_ticks == process.start_ticks {
                Some(*previous)
            } else {
                None
            },
            None => None,
        }
    }

    pub fn cpu_ticks(&self, pid: u32, process: &ProcessStat, system: u64) -> (ticks: u64)
        requires
            self.wf(),
        ensures
            ticks == self.ticks_of(pid, *process, system),
    {
        match self.previous(pid, process) {
            Some(previous) if system > 0 => increase(previous.total_ticks, process.total_ticks),
            _ => 0,
        }
    }

    pub fn io_delta(&self, pid: u32, process: &ProcessStat, current: ProcessIo) -> (delta: ProcessIo)
        requires
            self.wf(),
        ensures
            delta == self.io_since(pid, *process, current),
    {
        let before = match self.previous(pid, process) {
            Some(previous) => match previous.io {
                Some(io) => io,
                None => {
                    return ProcessIo::default();
                },
            },
            None => {
                return ProcessIo::default();
            },
        };
        ProcessIo {
            physical_read_bytes: increase(before.physical_read_bytes, current.physical_read_bytes),
            physical_write_bytes: increase(
                before.physical_write_bytes,
                current.physical_write_bytes,
            ),
            logical_read_bytes: increase(before.logical_read_bytes, current.logical_read_bytes),
            logical_write_bytes: increase(before.logical_write_bytes, current.logical_write_bytes),
            read_operations: increase(before.read_operations, current.read_operations),
            write_operations: increase(before.write_operations, current.write_operations),
            cancelled_write_bytes: increase(
                before.cancelled_write_bytes,
                current.cancelled_write_bytes,
            ),
        }
    }

    pub fn major_fault_delta(&self, pid: u32, process: &ProcessStat) -> (faults: u64)
        requires
            self.wf(),
        ensures
            faults == self.faults_of(pid, *process),
    {
        match self.previous(pid, process) {
            Some(previous) => increase(previous.major_faults, process.major_faults),
            None => 0,
        }
    }

    /// How long the GPU worked for a process since the sample before.
    pub fn gpu_time(&self, pid: u32, start_ticks: u64, engines: &Vec<EngineTime>) -> (time: (u64, u64))
        requires
            self.wf(),
        ensures
            time == engine_increases(self.previous_gpu_engines@, pid, start_ticks, engines@),
    {
        let mut total: u64 = 0;
        let mut busiest: u64 = 0;
        for i in 0..engines.len()
            invariant
                self.wf(),
                (total, busiest) == engine_increases(
                    self.previous_gpu_engines@,
                    pid,
                    start_ticks,
                    engines@.take(i as int),
                ),
        {
            assert(engines@.take(i + 1).drop_last() =~= engines@.take(i as int));
            let time = &engines[i];
            let key = GpuEngine {
                pid,
                start_ticks,
                client: time.client.clone(),
                engine: time.engine.clone(),
            };
            let elapsed = match self.previous_gpu_engines.get(&key) {
                Some(before) => increase(*before, time.nanoseconds),
                None => 0,
            };
            add_counter(&mut total, elapsed);
            if elapsed >= busiest {
                busiest = elapsed;
            }
        }
        assert(engines@.take(engines@.len() as int) =~= engines@);
        (total, busiest)
    }

    /// What every control group used since the sample before.
    pub fn cgroup_usage(&self, current: &Table<String, CgroupCounters>, nanoseconds: u64) -> (usage:
        Table<String, CgroupUsage>)
        requires
            self.wf(),
            current.wf(),
        ensures
            usage.wf(),
            usage@ == cgroup_usages(self.previous_cgroups@, current@, nanoseconds),
    {
        let ghost pairs = current.pairs();
        let mut usages: Table<String, CgroupUsage> = Table::new();
        let count = current.len();
        assert(usages@ =~= cgroup_usages(
            self.previous_cgroups@,
            map_of(pairs.take(0)),
            nanoseconds,
        ));
        for i in 0..count
            invariant
                self.wf(),
                current.wf(),
                usages.wf(),
                pairs == current.pairs(),
                count == pairs.len(),
                usages@ == cgroup_usages(
                    self.previous_cgroups@,
                    map_of(pairs.take(i as int)),
                    nanoseconds,
                ),
        {
            assert(pairs.take(i + 1).drop_last() =~= pairs.take(i as int));
            let path = current.key_at(i);
            let counters = *current.value_at(i);
            let usage = match self.previous_cgroups.get(path) {
                Some(before) => CgroupUsage {
                    cpu_percent_tenths: rate(
                        wide_product(
                            increase(before.cpu_usage_usec, counters.cpu_usage_usec),
                            1_000_000,
                        ),
                        nanoseconds as u128,
                    ),
                    read_bytes: increase(before.read_bytes, counters.read_bytes),
                    write_bytes: increase(before.write_bytes, counters.write_bytes),
                    read_operations: increase(before.read_operations, counters.read_operations),
                    write_operations: increase(before.write_operations, counters.write_operations),
                    memory_bytes: counters.memory_bytes,
                    swap_bytes: counters.swap_bytes,
                },
                None => CgroupUsage::default(),
            };
            let _ = usages.insert(path.clone(), usage);
            assert(usages@ =~= cgroup_usages(
                self.previous_cgroups@,
                map_of(pairs.take(i + 1)),
                nanoseconds,
            ));
        }
        assert(pairs.take(count as int) =~= pairs);
        usages
    }

    fn network_deltas(&self, current: &Table<u64, NetworkCounters>) -> (deltas: Table<
        u64,
        NetworkCounters,
    >)
        requires
            self.wf(),
            current.wf(),
        ensures
            deltas.wf(),
            deltas@ == socket_increases(self.previous_sockets@, current@),
    {
        let ghost pairs = current.pairs();
        let mut deltas: Table<u64, NetworkCounters> = Table::new();
        let count = current.len();
        assert(deltas@ =~= socket_increases(self.previous_sockets@, map_of(pairs.take(0))));
        for i in 0..count
            invariant
                self.wf(),
                current.wf(),
                deltas.wf(),
                pairs == current.pairs(),
                count == pairs.len(),
                deltas@ == socket_increases(self.previous_sockets@, map_of(pairs.take(i as int))),
        {
            assert(pairs.take(i + 1).drop_last() =~= pairs.take(i as int));
            let socket = *current.key_at(i);
            let after = *current.value_at(i);
            let delta = match self.previous_sockets.get(&socket) {
                Some(before) => NetworkCounters {
                    received_bytes: increase(before.received_bytes, after.received_bytes),
                    transmitted_bytes: increase(before.transmitted_bytes, after.transmitted_bytes),
                },
                None => NetworkCounters { received_bytes: 0, transmitted_bytes: 0 },
            };
            let _ = deltas.insert(socket, delta);
            assert(deltas@ =~= socket_increases(
                self.previous_sockets@,
                map_of(pairs.take(i + 1)),
            ));
        }
        assert(pairs.take(count as int) =~= pairs);
        deltas
    }
}


// ---------------------------------------------------------------------
// A sample

/// A process belongs to two of the applications.
pub open spec fn is_shared(
    snapshot: ResourceSnapshot,
    targets: Seq<(String, Vec<u32>)>,
    pid: u32,
) -> bool {
    exists|i: int, j: int|
        0 <= i < j < targets.len() && snapshot.attributed(
            (#[trigger] targets[i]).1@.to_set(),
            pid,
        ) && snapshot.attributed((#[trigger] targets[j]).1@.to_set(), pid)
}

/// A process belongs to one of the applications.
pub open spec fn is_owned(
    snapshot: ResourceSnapshot,
    targets: Seq<(String, Vec<u32>)>,
    pid: u32,
) -> bool {
    exists|i: int|
        0 <= i < targets.len() && snapshot.attributed((#[trigger] targets[i]).1@.to_set(), pid)
}

/// The processes that belong to more than one application, each once.
pub fn shared_target_pids(snapshot: &ResourceSnapshot, targets: &Table<String, Vec<u32>>) -> (shared:
    Vec<u32>)
    requires
        snapshot.wf(),
    ensures
        shared@.no_duplicates(),
        forall|pid: u32| #[trigger]
            shared@.contains(pid) == is_shared(*snapshot, targets.pairs(), pid),
{
    let ghost pairs = targets.pairs();
    let mut owned: Vec<u32> = Vec::new();
    let mut shared: Vec<u32> = Vec::new();
    let count = targets.len();
    for i in 0..count
        invariant
            snapshot.wf(),
            pairs == targets.pairs(),
            count == pairs.len(),
            owned@.no_duplicates(),
            shared@.no_duplicates(),
            forall|pid: u32| #[trigger]
                owned@.contains(pid) == is_owned(*snapshot, pairs.take(i as int), pid),
            forall|pid: u32| #[trigger]
                shared@.contains(pid) == is_shared(*snapshot, pairs.take(i as int), pid),
    {
        let ghost owned_before = owned@;
        let ghost shared_before = shared@;
        let pids = snapshot.attributed_pids(targets.value_at(i).as_slice());
        for j in 0..pids.len()
            invariant
                owned@.no_duplicates(),
                shared@.no_duplicates(),
                pids@.no_duplicates(),
                forall|pid: u32| #[trigger]
                    owned@.contains(pid) == (owned_before.contains(pid) || pids@.take(
                        j as int,
                    ).contains(pid)),
                forall|pid: u32| #[trigger]
                    shared@.contains(pid) == (shared_before.contains(pid) || (
                    owned_before.contains(pid) && pids@.take(j as int).contains(pid))),
        {
            let ghost owned_earlier = owned@;
            let ghost shared_earlier = shared@;
            let pid = pids[j];
            proof {
                lemma_take_next(pids@, j as int);
            }
            let new = include_pid(&mut owned, pid);
            proof {
                assert forall|p: u32| #[trigger] owned@.contains(p) == (owned_earlier.contains(p)
                    || p == pid) by {
                    assert(owned@.to_set().contains(p) == owned_earlier.to_set().insert(
                        pid,
                    ).contains(p));
                }
            }
            if !new {
                let _ = include_pid(&mut shared, pid);
                proof {
                    assert forall|p: u32| #[trigger] shared@.contains(p) == (
                    shared_earlier.contains(p) || p == pid) by {
                        assert(shared@.to_set().contains(p) == shared_earlier.to_set().insert(
                            pid,
                        ).contains(p));
                    }
                }
            }
        }
        proof {
            assert(pids@.take(pids@.len() as int) =~= pids@);
            let earlier = pairs.take(i as int);
            let now = pairs.take(i + 1);
            let here = pairs[i as int].1@.to_set();
            assert(now[i as int] == pairs[i as int]);
            assert forall|pid: u32| #[trigger] owned@.contains(pid) == is_owned(
                *snapshot,
                now,
                pid,
            ) by {
                assert(pids@.contains(pid) == snapshot.attributed(here, pid));
                if is_owned(*snapshot, earlier, pid) {
                    let k = choose|k: int|
                        0 <= k < earlier.len() && snapshot.attributed(
                            (#[trigger] earlier[k]).1@.to_set(),
                            pid,
                        );
                    assert(now[k] == earlier[k]);
                }
                if is_owned(*snapshot, now, pid) {
                    let k = choose|k: int|
                        0 <= k < now.len() && snapshot.attributed(
                            (#[trigger] now[k]).1@.to_set(),
                            pid,
                        );
                    if k < i {
                        assert(earlier[k] == now[k]);
                        assert(is_owned(*snapshot, earlier, pid));
                        assert(owned_before.contains(pid));
                    }
                }
            }
            assert forall|pid: u32| #[trigger] shared@.contains(pid) == is_shared(
                *snapshot,
                now,
                pid,
            ) by {
                assert(pids@.contains(pid) == snapshot.attributed(here, pid));
                assert(owned_before.contains(pid) == is_owned(*snapshot, earlier, pid));
                if is_shared(*snapshot, earlier, pid) {
                    let (a, b) = choose|a: int, b: int|
                        0 <= a < b < earlier.len() && snapshot.attributed(
                            (#[trigger] earlier[a]).1@.to_set(),
                            pid,
                        ) && snapshot.attributed((#[trigger] earlier[b]).1@.to_set(), pid);
                    assert(now[a] == earlier[a] && now[b] == earlier[b]);
                }
                if is_owned(*snapshot, earlier, pid) && pids@.contains(pid) {
                    let a = choose|a: int|
                        0 <= a < earlier.len() && snapshot.attributed(
                            (#[trigger] earlier[a]).1@.to_set(),
                            pid,
                        );
                    assert(now[a] == earlier[a]);
                }
                if is_shared(*snapshot, now, pid) {
                    let (a, b) = choose|a: int, b: int|
                        0 <= a < b < now.len() && snapshot.attributed(
                            (#[trigger] now[a]).1@.to_set(),
                            pid,
                        ) && snapshot.attributed((#[trigger] now[b]).1@.to_set(), pid);
                    assert(now[a] == earlier[a]);
                    if b < i {
                        assert(now[b] == earlier[b]);
                        assert(is_shared(*snapshot, earlier, pid));
                        assert(shared_before.contains(pid));
                    } else {
                        assert(is_owned(*snapshot, earlier, pid));
                    }
                }
            }
        }
    }
    assert(pairs.take(count as int) =~= pairs);
    shared
}

/// The map gives this key this value.
pub open spec fn binds<A>(m: Map<A, u64>, key: A, value: u64) -> bool {
    m.contains_key(key) && m[key] == value
}

fn remember_engines(
    next: &mut Table<GpuEngine, u64>,
    pid: u32,
    start_ticks: u64,
    engines: &Vec<EngineTime>,
)
    requires
        old(next).wf(),
        distinct_engines(engines@),
        forall|key: (u32, u64, Seq<char>, Seq<char>)| #[trigger]
            old(next)@.contains_key(key) ==> key.0 != pid,
    ensures
        final(next).wf(),
        forall|key: (u32, u64, Seq<char>, Seq<char>), n: u64| #[trigger]
            binds(final(next)@, key, n) == (binds(old(next)@, key, n) || (key.0 == pid && key.1
                == start_ticks && lists_engine(engines@, key.2, key.3, n))),
{
    let ghost before = next@;
    for i in 0..engines.len()
        invariant
            next.wf(),
            distinct_engines(engines@),
            forall|key: (u32, u64, Seq<char>, Seq<char>)| #[trigger]
                before.contains_key(key) ==> key.0 != pid,
            forall|key: (u32, u64, Seq<char>, Seq<char>), n: u64| #[trigger]
                binds(next@, key, n) == (binds(before, key, n) || (key.0 == pid && key.1
                    == start_ticks && lists_engine(engines@.take(i as int), key.2, key.3, n))),
    {
        let ghost earlier = next@;
        let time = &engines[i];
        let key = GpuEngine {
            pid,
            start_ticks,
            client: time.client.clone(),
            engine: time.engine.clone(),
        };
        let ghost k = key@;
        let ghost shorter = engines@.take(i as int);
        let ghost longer = engines@.take(i + 1);
        proof {
            if earlier.contains_key(k) {
                assert(binds(earlier, k, earlier[k]));
                let m = choose|m: int|
                    0 <= m < shorter.len() && (#[trigger] shorter[m]).client@ == k.2
                        && shorter[m].engine@ == k.3 && shorter[m].nanoseconds == earlier[k];
                assert(engines@[m] == shorter[m]);
                assert(engines@[m].client@ != engines@[i as int].client@ || engines@[m].engine@
                    != engines@[i as int].engine@);
            }
        }
        let _ = next.insert(key, time.nanoseconds);
        proof {
            assert forall|key: (u32, u64, Seq<char>, Seq<char>), n: u64| #[trigger]
                binds(next@, key, n) == (binds(before, key, n) || (key.0 == pid && key.1
                    == start_ticks && lists_engine(longer, key.2, key.3, n))) by {
                assert(binds(next@, key, n) == (binds(earlier, key, n) || (key == k && n
                    == engines@[i as int].nanoseconds)));
                if lists_engine(shorter, key.2, key.3, n) {
                    let m = choose|m: int|
                        0 <= m < shorter.len() && (#[trigger] shorter[m]).client@ == key.2
                            && shorter[m].engine@ == key.3 && shorter[m].nanoseconds == n;
                    assert(longer[m] == shorter[m]);
                }
                assert(longer[i as int] == engines@[i as int]);
                if lists_engine(longer, key.2, key.3, n) {
                    let m = choose|m: int|
                        0 <= m < longer.len() && (#[trigger] longer[m]).client@ == key.2
                            && longer[m].engine@ == key.3 && longer[m].nanoseconds == n;
                    if m < i {
                        assert(shorter[m] == longer[m]);
                    }
                }
            }
        }
    }
    assert(engines@.take(engines@.len() as int) =~= engines@);
}

/// What a sample says of one process.
pub open spec fn is_usage(
    sampler: ResourceSampler,
    reading: Reading,
    pid: u32,
    stat: ProcessStat,
    usage: ProcessUsage,
) -> bool {
    let interval = sampler.interval(reading.now_nanoseconds);
    let gpu = reading.gpu@.contains_key(pid);
    let times = if gpu && interval > 0 {
        engine_increases(
            sampler.previous_gpu_engines@,
            pid,
            stat.start_ticks,
            reading.gpu@[pid].engines@,
        )
    } else {
        (0, 0)
    };
    &&& usage.parent_pid == stat.parent_pid
    &&& usage.cpu_ticks == sampler.ticks_of(
        pid,
        stat,
        sampler.system_increase(reading.system_ticks),
    )
    &&& usage.memory == (if reading.details@.contains_key(pid) {
        reading.details@[pid].memory
    } else {
        MemoryUsage::none()
    })
    &&& usage.thread_count == stat.thread_count
    &&& usage.major_faults == sampler.faults_of(pid, stat)
    &&& usage.gpu_available == gpu
    &&& usage.gpu_nanoseconds == times.0
    &&& usage.gpu_busiest_nanoseconds == times.1
    &&& usage.gpu_memory_resident_bytes == (if gpu {
        reading.gpu@[pid].resident_memory_bytes
    } else {
        0
    })
    &&& usage.gpu_memory_allocated_bytes == (if gpu {
        reading.gpu@[pid].allocated_memory_bytes
    } else {
        0
    })
    &&& usage.io == sampler.io_since(
        pid,
        stat,
        match reading.io_of(pid) {
            Some(io) => io,
            None => ProcessIo::none(),
        },
    )
    &&& if sampler.open_files.samples@.contains_key(pid) {
        usage.files.same(sampler.open_files.samples@[pid])
    } else {
        usage.files.is_unavailable()
    }
    &&& usage.storage_available == (reading.io_of(pid) is Some)
}

/// The engine times to compare the next sample with: none are kept from a
/// sample that follows on none.
pub open spec fn keeps_engine(
    reading: Reading,
    interval: u64,
    key: (u32, u64, Seq<char>, Seq<char>),
    n: u64,
) -> bool {
    &&& interval > 0
    &&& reading.processes@.contains_key(key.0)
    &&& reading.processes@[key.0].start_ticks == key.1
    &&& reading.gpu@.contains_key(key.0)
    &&& lists_engine(reading.gpu@[key.0].engines@, key.2, key.3, n)
}

/// The process counters to compare the next sample with.
pub open spec fn kept_processes(reading: Reading) -> Map<u32, PreviousProcess> {
    Map::new(
        |pid: u32| reading.processes@.contains_key(pid),
        |pid: u32|
            PreviousProcess {
                total_ticks: reading.processes@[pid].total_ticks,
                start_ticks: reading.processes@[pid].start_ticks,
                major_faults: reading.processes@[pid].major_faults,
                io: reading.io_of(pid),
            },
    )
}

pub open spec fn ticks_of_entry() -> spec_fn((u32, ProcessUsage)) -> nat {
    |entry: (u32, ProcessUsage)| entry.1.cpu_ticks as nat
}

impl ResourceSampler {
    /// Takes in the files of the processes that were requested.
    pub fn remember_files(&mut self, pids: &[u32], sampled: Table<u32, ProcessFiles>, now: u64)
        requires
            old(self).wf(),
            sampled.wf(),
            forall|pid: u32| #[trigger] sampled@.contains_key(pid) ==> sampled@[pid].wf(),
        ensures
            final(self).wf(),
            final(self).open_files.samples@ == (if old(self).open_files.due(now) {
                sampled@
            } else {
                restricted(old(self).open_files.samples@, key_views(pids@)).union_prefer_right(
                    sampled@,
                )
            }),
            final(self).open_files.next_refresh == (if old(self).open_files.due(now) {
                Some(counter_sum(now, OPEN_FILES_PERIOD))
            } else {
                old(self).open_files.next_refresh
            }),
            final(self).previous_processes == old(self).previous_processes,
            final(self).previous_gpu_engines == old(self).previous_gpu_engines,
            final(self).previous_system_ticks == old(self).previous_system_ticks,
            final(self).previous_cgroups == old(self).previous_cgroups,
            final(self).previous_sockets == old(self).previous_sockets,
            final(self).previous_sample == old(self).previous_sample,
            final(self).app_disk == old(self).app_disk,
            final(self).energy == old(self).energy,
    {
        self.open_files.absorb(pids, sampled, now, OPEN_FILES_PERIOD);
    }

    /// Takes in the disk space of the applications that were requested.
    pub fn remember_disk(&mut self, targets: &[String], sampled: Table<String, DiskBreakdown>, now: u64)
        requires
            old(self).wf(),
            sampled.wf(),
        ensures
            final(self).wf(),
            final(self).app_disk.samples@ == (if old(self).app_disk.due(now) {
                sampled@
            } else {
                restricted(old(self).app_disk.samples@, key_views(targets@)).union_prefer_right(
                    sampled@,
                )
            }),
            final(self).app_disk.next_refresh == (if old(self).app_disk.due(now) {
                Some(counter_sum(now, APP_DISK_PERIOD))
            } else {
                old(self).app_disk.next_refresh
            }),
            final(self).previous_processes == old(self).previous_processes,
            final(self).previous_gpu_engines == old(self).previous_gpu_engines,
            final(self).previous_system_ticks == old(self).previous_system_ticks,
            final(self).previous_cgroups == old(self).previous_cgroups,
            final(self).previous_sockets == old(self).previous_sockets,
            final(self).previous_sample == old(self).previous_sample,
            final(self).open_files == old(self).open_files,
            final(self).energy == old(self).energy,
    {
        self.app_disk.absorb(targets, sampled, now, APP_DISK_PERIOD);
    }

    /// One of the processes whose files are known holds the socket.
    pub open spec fn holds_socket(&self, socket: u64) -> bool {
        exists|i: int|
            0 <= i < self.open_files.samples.pairs().len() && (
            #[trigger] self.open_files.samples.pairs()[i]).1.sockets@.contains(socket)
    }

    /// The sockets whose counters are of interest, each once.
    pub fn known_sockets(&self) -> (sockets: Vec<u64>)
        requires
            self.wf(),
        ensures
            sockets@.no_duplicates(),
            forall|socket: u64| #[trigger]
                sockets@.contains(socket) == self.holds_socket(socket),
    {
        let ghost pairs = self.open_files.samples.pairs();
        let count = self.open_files.samples.len();
        let mut sockets: Vec<u64> = Vec::new();
        for i in 0..count
            invariant
                pairs == self.open_files.samples.pairs(),
                count == pairs.len(),
                sockets@.no_duplicates(),
                forall|socket: u64| #[trigger]
                    sockets@.contains(socket) == exists|k: int|
                        0 <= k < i && (#[trigger] pairs[k]).1.sockets@.contains(socket),
        {
            let files = self.open_files.samples.value_at(i);
            let ghost before = sockets@;
            for j in 0..files.sockets.len()
                invariant
                    sockets@.no_duplicates(),
                    forall|socket: u64| #[trigger]
                        sockets@.contains(socket) == (before.contains(socket) || files.sockets@.take(
                            j as int,
                        ).contains(socket)),
            {
                let ghost earlier = sockets@;
                let socket = files.sockets[j];
                proof {
                    lemma_take_next(files.sockets@, j as int);
                }
                if !lists_key(sockets.as_slice(), &socket) {
                    assert(!earlier.contains(socket)) by {
                        if earlier.contains(socket) {
                            let k = choose|k: int| 0 <= k < earlier.len() && earlier[k] == socket;
                            assert(key_views(earlier)[k] == socket@);
                        }
                    }
                    sockets.push(socket);
                    proof {
                        lemma_push_contains(earlier, socket);
                    }
                } else {
                    assert(earlier.contains(socket)) by {
                        let k = choose|k: int|
                            0 <= k < key_views(earlier).len() && key_views(earlier)[k] == socket@;
                        assert(earlier[k] == socket);
                    }
                }
            }
            proof {
                assert(files.sockets@.take(files.sockets@.len() as int) =~= files.sockets@);
                assert forall|socket: u64| #[trigger] sockets@.contains(socket) == exists|k: int|
                    0 <= k < i + 1 && (#[trigger] pairs[k]).1.sockets@.contains(socket) by {
                    if before.contains(socket) {
                        let k = choose|k: int|
                            0 <= k < i && (#[trigger] pairs[k]).1.sockets@.contains(socket);
                        assert(pairs[k].1.sockets@.contains(socket));
                    }
                    if files.sockets@.contains(socket) {
                        assert(pairs[i as int].1.sockets@.contains(socket));
                    }
                }
            }
        }
        sockets
    }

    fn copy_disk(&self) -> (disk: Table<String, DiskBreakdown>)
        requires
            self.wf(),
        ensures
            disk.wf(),
            disk@ == self.app_disk.samples@,
    {
        let ghost pairs = self.app_disk.samples.pairs();
        let mut disk: Table<String, DiskBreakdown> = Table::new();
        let count = self.app_disk.samples.len();
        for i in 0..count
            invariant
                disk.wf(),
                pairs == self.app_disk.samples.pairs(),
                count == pairs.len(),
                disk@ == map_of(pairs.take(i as int)),
        {
            assert(pairs.take(i + 1).drop_last() =~= pairs.take(i as int));
            let _ = disk.insert(
                self.app_disk.samples.key_at(i).clone(),
                *self.app_disk.samples.value_at(i),
            );
        }
        assert(pairs.take(count as int) =~= pairs);
        disk
    }

    fn kept(&self, reading: &Reading) -> (processes: Table<u32, PreviousProcess>)
        requires
            reading.wf(),
        ensures
            processes.wf(),
            processes@ == kept_processes(*reading),
    {
        let ghost pairs = reading.processes.pairs();
        let mut processes: Table<u32, PreviousProcess> = Table::new();
        let count = reading.processes.len();
        proof {
            lemma_map_of(pairs);
        }
        for i in 0..count
            invariant
                reading.wf(),
                processes.wf(),
                pairs == reading.processes.pairs(),
                count == pairs.len(),
                forall|k: int|
                    0 <= k < pairs.len() ==> reading.processes@.contains_key(
                        (#[trigger] pairs[k]).0,
                    ) && reading.processes@[pairs[k].0] == pairs[k].1,
                forall|pid: u32| #[trigger]
                    processes@.contains_key(pid) ==> reading.processes@.contains_key(pid)
                        && processes@[pid] == kept_processes(*reading)[pid],
                forall|k: int| 0 <= k < i ==> processes@.contains_key((#[trigger] pairs[k]).0),
        {
            let pid = *reading.processes.key_at(i);
            let stat = *reading.processes.value_at(i);
            let io = match reading.details.get(&pid) {
                Some(details) => details.io,
                None => None,
            };
            let _ = processes.insert(
                pid,
                PreviousProcess {
                    total_ticks: stat.total_ticks,
                    start_ticks: stat.start_ticks,
                    major_faults: stat.major_faults,
                    io,
                },
            );
            assert(reading.processes@[pairs[i as int].0] == pairs[i as int].1);
        }
        proof {
            assert forall|pid: u32| reading.processes@.contains_key(
                pid,
            ) implies #[trigger] processes@.contains_key(pid) by {
                let k = choose|k: int| 0 <= k < pairs.len() && (#[trigger] pairs[k]).0@ == pid;
                assert(processes@.contains_key(pairs[k].0));
            }
            assert(processes@ =~= kept_processes(*reading));
        }
        processes
    }

    fn process_usage(
        &self,
        reading: &Reading,
        pid: u32,
        stat: &ProcessStat,
        system: u64,
        interval: u64,
    ) -> (usage: ProcessUsage)
        requires
            self.wf(),
            reading.wf(),
            system == self.system_increase(reading.system_ticks),
            interval == self.interval(reading.now_nanoseconds),
        ensures
            usage.files.wf(),
            is_usage(*self, *reading, pid, *stat, usage),
    {
        let (memory, io) = match reading.details.get(&pid) {
            Some(details) => (details.memory, details.io),
            None => (MemoryUsage::default(), None),
        };
        let current = match io {
            Some(io) => io,
            None => ProcessIo::default(),
        };
        let (available, total, busiest, resident, allocated) = match reading.gpu.get(&pid) {
            Some(gpu) => {
                let (total, busiest) = if interval > 0 {
                    self.gpu_time(pid, stat.start_ticks, &gpu.engines)
                } else {
                    (0u64, 0u64)
                };
                (true, total, busiest, gpu.resident_memory_bytes, gpu.allocated_memory_bytes)
            },
            None => (false, 0u64, 0u64, 0u64, 0u64),
        };
        let files = match self.open_files.samples.get(&pid) {
            Some(files) => files.copied(),
            None => ProcessFiles::unavailable(),
        };
        ProcessUsage {
            parent_pid: stat.parent_pid,
            cpu_ticks: self.cpu_ticks(pid, stat, system),
            memory,
            thread_count: stat.thread_count,
            major_faults: self.major_fault_delta(pid, stat),
            gpu_available: available,
            gpu_nanoseconds: total,
            gpu_busiest_nanoseconds: busiest,
            gpu_memory_resident_bytes: resident,
            gpu_memory_allocated_bytes: allocated,
            io: self.io_delta(pid, stat, current),
            files,
            storage_available: io.is_some(),
        }
    }

    /// Compares what was read with the sample before and remembers it for the
    /// next one.
    #[verifier::rlimit(60)]
    pub fn sample_for_targets(
        &mut self,
        targets: &Table<String, Vec<u32>>,
        reading: Reading,
    ) -> (snapshot: ResourceSnapshot)
        requires
            old(self).wf(),
            reading.wf(),
        ensures
            final(self).wf(),
            snapshot.wf(),
            snapshot.cgroup_members_by_root == reading.cgroup_members_by_root,
            snapshot.cgroup_path_by_root == reading.cgroup_path_by_root,
            snapshot.cgroup_usage@ == cgroup_usages(
                old(self).previous_cgroups@,
                reading.cgroup_counters@,
                old(self).interval(reading.now_nanoseconds),
            ),
            snapshot.app_disk_by_target@ == old(self).app_disk.samples@,
            snapshot.logical_cpus == reading.logical_cpus,
            snapshot.system_ticks == old(self).system_increase(reading.system_ticks),
            snapshot.interval_nanoseconds == old(self).interval(reading.now_nanoseconds),
            ({
                let energy = energy_sample(
                    old(self).energy.previous_rapl@,
                    reading.power_zones@,
                    reading.battery,
                    old(self).interval(reading.now_nanoseconds),
                );
                &&& snapshot.system_energy_microjoules == energy.microjoules
                &&& snapshot.system_discharge_picowatts == energy.discharge_picowatts
                &&& snapshot.battery_full_picowatt_hours == energy.battery_full_picowatt_hours
                &&& snapshot.energy_source == energy.source
            }),
            snapshot.network_deltas@ == socket_increases(
                old(self).previous_sockets@,
                reading.sockets(),
            ),
            snapshot.network_counters_available == (reading.network is Some),
            snapshot.processes.pairs().len() == reading.processes.pairs().len(),
            forall|i: int|
                0 <= i < reading.processes.pairs().len() ==> (
                #[trigger] snapshot.processes.pairs()[i]).0 == reading.processes.pairs()[i].0
                    && is_usage(
                    *old(self),
                    reading,
                    reading.processes.pairs()[i].0,
                    reading.processes.pairs()[i].1,
                    snapshot.processes.pairs()[i].1,
                ),
            snapshot.total_process_ticks == capped(
                seq_sum(snapshot.processes.pairs(), ticks_of_entry()),
            ),
            is_family(snapshot.children@, reading.processes.pairs()),
            forall|pid: u32| #[trigger]
                snapshot.shared_pids@.contains(pid) == is_shared(snapshot, targets.pairs(), pid),
            final(self).previous_processes@ == kept_processes(reading),
            forall|key: (u32, u64, Seq<char>, Seq<char>), n: u64| #[trigger]
                binds(final(self).previous_gpu_engines@, key, n) == keeps_engine(
                    reading,
                    old(self).interval(reading.now_nanoseconds),
                    key,
                    n,
                ),
            final(self).previous_system_ticks == Some(reading.system_ticks),
            final(self).previous_cgroups == reading.cgroup_counters,
            final(self).previous_sockets@ == reading.sockets(),
            final(self).previous_sample == Some(reading.now_nanoseconds),
            final(self).energy.previous_rapl@ == reading.power_zones@,
            final(self).open_files == old(self).open_files,
            final(self).app_disk == old(self).app_disk,
    {
        let interval = match self.previous_sample {
            Some(previous) => increase(previous, reading.now_nanoseconds),
            None => 0,
        };
        let system = match self.previous_system_ticks {
            Some(previous) => increase(previous, reading.system_ticks),
            None => 0,
        };
        let ghost pairs = reading.processes.pairs();
        let mut snapshot = ResourceSnapshot::new();
        snapshot.logical_cpus = reading.logical_cpus;
        snapshot.system_ticks = system;
        snapshot.interval_nanoseconds = interval;
        snapshot.cgroup_usage = self.cgroup_usage(&reading.cgroup_counters, interval);
        snapshot.app_disk_by_target = self.copy_disk();
        if let Some(counters) = &reading.network {
            snapshot.network_deltas = self.network_deltas(counters);
            snapshot.network_counters_available = true;
        } else {
            assert(snapshot.network_deltas@ =~= socket_increases(
                self.previous_sockets@,
                reading.sockets(),
            ));
        }
        let mut engines: Table<GpuEngine, u64> = Table::new();
        let ghost base = snapshot;
        let count = reading.processes.len();
        proof {
            lemma_map_of(pairs);
        }
        for i in 0..count
            invariant
                self.wf(),
                *self == *old(self),
                reading.wf(),
                snapshot.wf(),
                engines.wf(),
                system == self.system_increase(reading.system_ticks),
                interval == self.interval(reading.now_nanoseconds),
                pairs == reading.processes.pairs(),
                count == pairs.len(),
                forall|k: int|
                    0 <= k < pairs.len() ==> reading.processes@.contains_key(
                        (#[trigger] pairs[k]).0,
                    ) && reading.processes@[pairs[k].0] == pairs[k].1,
                snapshot.cgroup_usage == base.cgroup_usage,
                snapshot.app_disk_by_target == base.app_disk_by_target,
                snapshot.logical_cpus == base.logical_cpus,
                snapshot.system_ticks == base.system_ticks,
                snapshot.interval_nanoseconds == base.interval_nanoseconds,
                snapshot.network_deltas == base.network_deltas,
                snapshot.network_counters_available == base.network_counters_available,
                snapshot.processes.pairs().len() == i,
                forall|k: int|
                    0 <= k < i ==> (#[trigger] snapshot.processes.pairs()[k]).0 == pairs[k].0
                        && is_usage(
                        *self,
                        reading,
                        pairs[k].0,
                        pairs[k].1,
                        snapshot.processes.pairs()[k].1,
                    ),
                snapshot.total_process_ticks == capped(
                    seq_sum(snapshot.processes.pairs(), ticks_of_entry()),
                ),
                is_family(snapshot.children@, pairs.take(i as int)),
                forall|key: (u32, u64, Seq<char>, Seq<char>), n: u64| #[trigger]
                    binds(engines@, key, n) == (keeps_engine(reading, interval, key, n) && exists|
                        k: int,
                    |
                        0 <= k < i && (#[trigger] pairs[k]).0 == key.0),
        {
            let ghost earlier = snapshot.processes.pairs();
            let ghost before = snapshot.children@;
            let ghost known = engines@;
            let pid = *reading.processes.key_at(i);
            let stat = *reading.processes.value_at(i);
            assert(pairs[i as int] == (pid, stat));
            let usage = self.process_usage(&reading, pid, &stat, system, interval);
            proof {
                lemma_map_of(earlier);
                if snapshot.processes@.contains_key(pid) {
                    let k = choose|k: int| 0 <= k < earlier.len() && (#[trigger] earlier[k]).0@ == pid;
                    assert(pairs[k].0@ != pairs[i as int].0@);
                }
                assert forall|key: (u32, u64, Seq<char>, Seq<char>)| #[trigger]
                    engines@.contains_key(key) implies key.0 != pid by {
                    assert(binds(engines@, key, engines@[key]));
                    let k = choose|k: int| 0 <= k < i && (#[trigger] pairs[k]).0 == key.0;
                    assert(pairs[k].0@ != pairs[i as int].0@);
                }
            }
            if interval > 0 {
                if let Some(gpu) = reading.gpu.get(&pid) {
                    remember_engines(&mut engines, pid, stat.start_ticks, &gpu.engines);
                }
            }
            snapshot.insert(pid, usage);
            proof {
                lemma_family_grows(before, snapshot.children@, pairs, i as int);
                assert(snapshot.processes.pairs().drop_last() =~= earlier);
                assert forall|key: (u32, u64, Seq<char>, Seq<char>), n: u64| #[trigger]
                    binds(engines@, key, n) == (keeps_engine(reading, interval, key, n) && exists|
                        k: int,
                    |
                        0 <= k < i + 1 && (#[trigger] pairs[k]).0 == key.0) by {
                    assert(binds(engines@, key, n) == (binds(known, key, n) || (key.0 == pid
                        && keeps_engine(reading, interval, key, n))));
                    if binds(known, key, n) {
                        let k = choose|k: int| 0 <= k < i && (#[trigger] pairs[k]).0 == key.0;
                        assert(pairs[k].0 == key.0);
                    }
                    if key.0 == pid {
                        assert(pairs[i as int].0 == key.0);
                    }
                }
            }
        }
        proof {
            assert(pairs.take(count as int) =~= pairs);
            assert forall|key: (u32, u64, Seq<char>, Seq<char>), n: u64| #[trigger]
                binds(engines@, key, n) == keeps_engine(reading, interval, key, n) by {
                if keeps_engine(reading, interval, key, n) {
                    let k = choose|k: int| 0 <= k < pairs.len() && (#[trigger] pairs[k]).0@ == key.0;
                    assert(pairs[k].0 == key.0);
                }
            }
        }
        let processes = self.kept(&reading);
        let energy = self.energy.sample(reading.power_zones, reading.battery, interval);
        snapshot.system_energy_microjoules = energy.microjoules;
        snapshot.system_discharge_picowatts = energy.discharge_picowatts;
        snapshot.battery_full_picowatt_hours = energy.battery_full_picowatt_hours;
        snapshot.energy_source = energy.source;
        snapshot.cgroup_members_by_root = reading.cgroup_members_by_root;
        snapshot.cgroup_path_by_root = reading.cgroup_path_by_root;
        let shared = shared_target_pids(&snapshot, targets);
        let ghost bare = snapshot;
        snapshot.shared_pids = shared;
        proof {
            assert forall|roots: Set<u32>, pid: u32| #[trigger]
                snapshot.attributed(roots, pid) == bare.attributed(roots, pid) by {
                assert forall|root: u32| #[trigger]
                    snapshot.in_cgroup_of(root, pid) == bare.in_cgroup_of(root, pid) by {}
                if snapshot.in_cgroup(roots, pid) {
                    let root = choose|root: u32|
                        roots.contains(root) && #[trigger] snapshot.in_cgroup_of(root, pid);
                    assert(bare.in_cgroup_of(root, pid));
                }
                if bare.in_cgroup(roots, pid) {
                    let root = choose|root: u32|
                        roots.contains(root) && #[trigger] bare.in_cgroup_of(root, pid);
                    assert(snapshot.in_cgroup_of(root, pid));
                }
            }
            assert forall|pid: u32| #[trigger] is_shared(snapshot, targets.pairs(), pid)
                == is_shared(bare, targets.pairs(), pid) by {
                let t = targets.pairs();
                if is_shared(snapshot, t, pid) {
                    let (a, b) = choose|a: int, b: int|
                        0 <= a < b < t.len() && snapshot.attributed(
                            (#[trigger] t[a]).1@.to_set(),
                            pid,
                        ) && snapshot.attributed((#[trigger] t[b]).1@.to_set(), pid);
                    assert(bare.attributed(t[a].1@.to_set(), pid));
                    assert(bare.attributed(t[b].1@.to_set(), pid));
                }
                if is_shared(bare, t, pid) {
                    let (a, b) = choose|a: int, b: int|
                        0 <= a < b < t.len() && bare.attributed((#[trigger] t[a]).1@.to_set(), pid)
                            && bare.attributed((#[trigger] t[b]).1@.to_set(), pid);
                    assert(snapshot.attributed(t[a].1@.to_set(), pid));
                    assert(snapshot.attributed(t[b].1@.to_set(), pid));
                }
            }
        }
        self.previous_processes = processes;
        self.previous_gpu_engines = engines;
        self.previous_system_ticks = Some(reading.system_ticks);
        self.previous_sockets = match reading.network {
            Some(counters) => counters,
            None => Table::new(),
        };
        self.previous_cgroups = reading.cgroup_counters;
        self.previous_sample = Some(reading.now_nanoseconds);
        snapshot
    }
}

/// A process id that was given to a new process shows none of the old one's counters.
pub proof fn lemma_pid_reuse(sampler: ResourceSampler, pid: u32, process: ProcessStat)
    requires
        sampler.previous_processes@.contains_key(pid),
        sampler.previous_processes@[pid].start_ticks != process.start_ticks,
    ensures
        forall|system: u64| sampler.ticks_of(pid, process, system) == 0,
        forall|io: ProcessIo| sampler.io_since(pid, process, io) == ProcessIo::none(),
        sampler.faults_of(pid, process) == 0,
{
}

/// The first sample has nothing to compare with: no time has passed, and no
/// process shows work, faults or traffic from before.
pub proof fn lemma_first_sample(
    sampler: ResourceSampler,
    reading: Reading,
    pid: u32,
    process: ProcessStat,
    usage: ProcessUsage,
)
    requires
        sampler.previous_sample is None,
        sampler.previous_processes@ == Map::<u32, PreviousProcess>::empty(),
        is_usage(sampler, reading, pid, process, usage),
    ensures
        sampler.interval(reading.now_nanoseconds) == 0,
        usage.cpu_ticks == 0,
        usage.major_faults == 0,
        usage.io == ProcessIo::none(),
        usage.gpu_nanoseconds == 0,
        usage.gpu_busiest_nanoseconds == 0,
{
}

} // verus!
