//! One sample of the whole machine, and what of it belongs to an application.

use vstd::prelude::*;
use crate::metrics::{add_counter, capped, counter_sum, rate, rated, wide_product};
use crate::model::{
    ComputeUsage, EnergyUsage, NetworkUsage, ResourceMeasurement, ResourceUsage, StorageUsage,
};
use crate::process_tree::{descendants, descends, include_pid, lemma_push_set, lists_pid};
use crate::resources::{
    merge_disk_files, merge_files, CgroupUsage, DiskBreakdown, DiskFile, DiskFileId,
    NetworkCounters, ProcessIo, ProcessUsage, UsageTotals,
};
use crate::table::{lemma_total_pairs, map_total, of_entry, seq_sum, Table};
use crate::text::same_text;

verus! {

/// Everything measured at one time. Quantities of an interval are those since
/// the sample before.
pub struct ResourceSnapshot {
    pub processes: Table<u32, ProcessUsage>,
    pub children: Table<u32, Vec<u32>>,
    pub cgroup_members_by_root: Table<u32, Vec<u32>>,
    pub cgroup_path_by_root: Table<u32, String>,
    pub cgroup_usage: Table<String, CgroupUsage>,
    pub app_disk_by_target: Table<String, DiskBreakdown>,
    /// Processes that belong to more than one application.
    pub shared_pids: Vec<u32>,
    pub logical_cpus: u64,
    /// Clock ticks of all processors together.
    pub system_ticks: u64,
    /// Clock ticks of all processes together.
    pub total_process_ticks: u64,
    pub interval_nanoseconds: u64,
    /// The energy that the power zones counted.
    pub system_energy_microjoules: u64,
    /// The power drawn from the batteries, where no power zone counted.
    pub system_discharge_picowatts: u64,
    pub battery_full_picowatt_hours: u128,
    pub energy_source: &'static str,
    pub network_deltas: Table<u64, NetworkCounters>,
    pub network_counters_available: bool,
}

/// A count per second, in tenths.
pub open spec fn per_second(count: u64, nanoseconds: u64) -> u64 {
    rated((count * 10_000_000_000) as nat, nanoseconds as nat)
}

fn count_per_second(count: u64, nanoseconds: u64) -> (tenths: u64)
    ensures
        tenths == per_second(count, nanoseconds),
{
    rate(wide_product(count, 10_000_000_000), nanoseconds as u128)
}

/// A part of a whole in tenths of a percent.
pub open spec fn percent(part: u64, whole: u64) -> u64 {
    rated((part * 1000) as nat, whole as nat)
}

fn percent_tenths(part: u64, whole: u64) -> (tenths: u64)
    ensures
        tenths == percent(part, whole),
{
    rate(wide_product(part, 1000), whole as u128)
}

pub open spec fn at_most(value: u64, limit: u64) -> u64 {
    if value <= limit {
        value
    } else {
        limit
    }
}

fn limited(value: u64, limit: u64) -> (r: u64)
    ensures
        r == at_most(value, limit),
{
    if value <= limit {
        value
    } else {
        limit
    }
}

/// The totals over the listed processes.
pub open spec fn totals_of(processes: Seq<(u32, ProcessUsage)>, pids: Set<u32>) -> UsageTotals
    decreases processes.len(),
{
    if processes.len() == 0 {
        UsageTotals::none()
    } else {
        let before = totals_of(processes.drop_last(), pids);
        let (pid, process) = processes.last();
        if pids.contains(pid) {
            before.plus(process)
        } else {
            before
        }
    }
}

/// The files that the listed processes hold open, or refer to in any way.
pub open spec fn files_of(
    processes: Seq<(u32, ProcessUsage)>,
    pids: Set<u32>,
    referenced: bool,
) -> Map<DiskFileId, DiskFile>
    decreases processes.len(),
{
    if processes.len() == 0 {
        Map::empty()
    } else {
        let before = files_of(processes.drop_last(), pids, referenced);
        let (pid, process) = processes.last();
        if pids.contains(pid) {
            merge_files(
                before,
                if referenced {
                    process.files.referenced@
                } else {
                    process.files.open@
                },
            )
        } else {
            before
        }
    }
}

/// The size of a file, if files of its kind are counted.
pub open spec fn size_if(temporary: bool, permanent: bool) -> spec_fn(DiskFileId, DiskFile) -> nat {
    |id: DiskFileId, file: DiskFile|
        if if file.temporary {
            temporary
        } else {
            permanent
        } {
            file.bytes as nat
        } else {
            0
        }
}

/// The sizes of the temporary files, the permanent ones or both added up.
pub open spec fn file_bytes(
    files: Map<DiskFileId, DiskFile>,
    temporary: bool,
    permanent: bool,
) -> u64 {
    capped(map_total(files, size_if(temporary, permanent)))
}

/// What a socket received, if it is one of those counted.
pub open spec fn received_if(sockets: Set<u64>) -> spec_fn(u64, NetworkCounters) -> nat {
    |socket: u64, counters: NetworkCounters|
        if sockets.contains(socket) {
            counters.received_bytes as nat
        } else {
            0
        }
}

/// What a socket transmitted, if it is one of those counted.
pub open spec fn transmitted_if(sockets: Set<u64>) -> spec_fn(u64, NetworkCounters) -> nat {
    |socket: u64, counters: NetworkCounters|
        if sockets.contains(socket) {
            counters.transmitted_bytes as nat
        } else {
            0
        }
}

/// What the control groups in use used together.
pub open spec fn cgroups_total(
    usages: Seq<(String, CgroupUsage)>,
    used: spec_fn(Seq<char>) -> bool,
) -> CgroupUsage
    decreases usages.len(),
{
    if usages.len() == 0 {
        CgroupUsage::none()
    } else {
        let before = cgroups_total(usages.drop_last(), used);
        if used(usages.last().0@) {
            before.plus(usages.last().1)
        } else {
            before
        }
    }
}

impl ResourceSnapshot {
    pub open spec fn wf(&self) -> bool {
        &&& self.processes.wf()
        &&& self.children.wf()
        &&& self.cgroup_members_by_root.wf()
        &&& self.cgroup_path_by_root.wf()
        &&& self.cgroup_usage.wf()
        &&& self.app_disk_by_target.wf()
        &&& self.network_deltas.wf()
        &&& forall|i: int|
            0 <= i < self.processes.pairs().len() ==> (
            #[trigger] self.processes.pairs()[i]).1.files.wf()
    }

    /// The root has an application control group, and the process is in it.
    pub open spec fn in_cgroup_of(&self, root: u32, pid: u32) -> bool {
        root > 0 && self.cgroup_members_by_root@.contains_key(root)
            && self.cgroup_members_by_root@[root]@.contains(pid)
    }

    /// The process is in the control group of one of the roots.
    pub open spec fn in_cgroup(&self, roots: Set<u32>, pid: u32) -> bool {
        exists|root: u32| roots.contains(root) && #[trigger] self.in_cgroup_of(root, pid)
    }

    /// The roots without an application control group.
    pub open spec fn loose_roots(&self, roots: Set<u32>) -> Set<u32> {
        Set::new(
            |root: u32| roots.contains(root) && !self.cgroup_members_by_root@.contains_key(root),
        )
    }

    /// The process belongs to the application: it is in the control group of a
    /// root, stands at or below a root without one, or runs below any root, as one
    /// does that has left the control group.
    pub open spec fn attributed(&self, roots: Set<u32>, pid: u32) -> bool {
        ||| self.in_cgroup(roots, pid)
        ||| descends(self.children@, self.loose_roots(roots), pid)
        ||| descends(self.children@, roots, pid) && self.processes@.contains_key(pid)
    }

    pub open spec fn attributed_set(&self, roots: Set<u32>) -> Set<u32> {
        Set::new(|pid: u32| self.attributed(roots, pid))
    }

    /// One of the roots has an application control group.
    pub open spec fn some_cgroup(&self, roots: Set<u32>) -> bool {
        exists|root: u32| #[trigger]
            roots.contains(root) && root > 0 && self.cgroup_members_by_root@.contains_key(root)
    }

    /// The control group at this path is that of one of the roots.
    pub open spec fn uses_path(&self, roots: Set<u32>, path: Seq<char>) -> bool {
        exists|root: u32| #[trigger]
            roots.contains(root) && root > 0 && self.cgroup_members_by_root@.contains_key(root)
                && self.cgroup_path_by_root@.contains_key(root)
                && self.cgroup_path_by_root@[root]@ == path
    }

    /// A root whose control group was found and, where its path is known, measured.
    pub open spec fn measured_root(&self, root: u32) -> bool {
        self.cgroup_members_by_root@.contains_key(root) && (self.cgroup_path_by_root@.contains_key(
            root,
        ) ==> self.cgroup_usage@.contains_key(self.cgroup_path_by_root@[root]@))
    }

    /// The counters of control groups account for the whole application: every
    /// root has its group measured, and no running process is outside of them.
    pub open spec fn complete_cgroup(&self, roots: Set<u32>) -> bool {
        &&& exists|root: u32| #[trigger] roots.contains(root) && root > 0
        &&& forall|root: u32| #[trigger]
            roots.contains(root) && root > 0 ==> self.measured_root(root)
        &&& forall|pid: u32| #[trigger]
            self.attributed(roots, pid) && self.processes@.contains_key(pid) ==> self.in_cgroup(
                roots,
                pid,
            )
    }

    /// The sockets of the listed processes.
    pub open spec fn socket_set(&self, pids: Set<u32>) -> Set<u64> {
        Set::new(
            |socket: u64|
                exists|i: int|
                    0 <= i < self.processes.pairs().len() && pids.contains(
                        (#[trigger] self.processes.pairs()[i]).0,
                    ) && self.processes.pairs()[i].1.files.sockets@.contains(socket),
        )
    }

    pub open spec fn received(&self, sockets: Set<u64>) -> u64 {
        capped(map_total(self.network_deltas@, received_if(sockets)))
    }

    pub open spec fn transmitted(&self, sockets: Set<u64>) -> u64 {
        capped(map_total(self.network_deltas@, transmitted_if(sockets)))
    }

    /// Processor time in tenths of a percent of one processor.
    pub open spec fn cpu_tenths(&self, ticks: u64) -> u64 {
        rated((ticks * capped((self.logical_cpus * 1000) as nat)) as nat, self.system_ticks as nat)
    }

    pub open spec fn compute_of(&self, totals: UsageTotals, cgroup: Option<CgroupUsage>) -> ComputeUsage {
        ComputeUsage {
            cpu_percent_tenths: match cgroup {
                Some(usage) => usage.cpu_percent_tenths,
                None => self.cpu_tenths(totals.cpu_ticks),
            },
            cpu_percent_of_machine_tenths: at_most(
                match cgroup {
                    Some(usage) => rated(
                        usage.cpu_percent_tenths as nat,
                        if self.logical_cpus == 0 {
                            1
                        } else {
                            self.logical_cpus as nat
                        },
                    ),
                    None => if self.logical_cpus == 0 {
                        0
                    } else {
                        percent(totals.cpu_ticks, self.system_ticks)
                    },
                },
                1000,
            ),
            memory_bytes: totals.memory_bytes,
            memory_rss_bytes: totals.memory_rss_bytes,
            memory_pss_bytes: totals.memory_pss_bytes,
            memory_private_bytes: totals.memory_private_bytes,
            memory_swap_bytes: totals.memory_swap_bytes,
            memory_cgroup_bytes: match cgroup {
                Some(usage) => usage.memory_bytes,
                None => 0,
            },
            process_count: totals.process_count,
            thread_count: totals.thread_count,
            major_faults_per_second_hundredths: rated(
                (totals.major_faults * 100_000_000_000) as nat,
                self.interval_nanoseconds as nat,
            ),
            gpu_percent_tenths: percent(totals.gpu_nanoseconds, self.interval_nanoseconds),
            gpu_busy_percent_tenths: at_most(
                percent(totals.gpu_busiest_nanoseconds, self.interval_nanoseconds),
                1000,
            ),
            gpu_memory_bytes: totals.gpu_memory_bytes,
            gpu_memory_resident_bytes: totals.gpu_memory_resident_bytes,
            gpu_memory_allocated_bytes: totals.gpu_memory_allocated_bytes,
        }
    }

    pub open spec fn storage_of(
        &self,
        io: ProcessIo,
        open: Map<DiskFileId, DiskFile>,
        referenced: Map<DiskFileId, DiskFile>,
    ) -> StorageUsage {
        let interval = self.interval_nanoseconds;
        StorageUsage {
            disk_read_bytes: io.physical_read_bytes,
            disk_write_bytes: io.physical_write_bytes,
            disk_read_bytes_per_second_tenths: per_second(io.physical_read_bytes, interval),
            disk_write_bytes_per_second_tenths: per_second(io.physical_write_bytes, interval),
            logical_read_bytes: io.logical_read_bytes,
            logical_write_bytes: io.logical_write_bytes,
            logical_read_bytes_per_second_tenths: per_second(io.logical_read_bytes, interval),
            logical_write_bytes_per_second_tenths: per_second(io.logical_write_bytes, interval),
            read_operations: io.read_operations,
            write_operations: io.write_operations,
            read_operations_per_second_tenths: per_second(io.read_operations, interval),
            write_operations_per_second_tenths: per_second(io.write_operations, interval),
            cancelled_write_bytes: io.cancelled_write_bytes,
            open_file_disk_bytes: file_bytes(open, true, true),
            referenced_file_disk_bytes: file_bytes(referenced, true, true),
            referenced_file_temporary_bytes: file_bytes(referenced, true, false),
            referenced_file_permanent_bytes: file_bytes(referenced, false, true),
            disk_space_total_bytes: 0,
            disk_space_temporary_bytes: 0,
            disk_space_permanent_bytes: 0,
        }
    }

    pub open spec fn network_of(&self, sockets: Set<u64>) -> NetworkUsage {
        NetworkUsage {
            network_receive_bytes: self.received(sockets),
            network_transmit_bytes: self.transmitted(sockets),
            network_receive_bytes_per_second_tenths: per_second(
                self.received(sockets),
                self.interval_nanoseconds,
            ),
            network_transmit_bytes_per_second_tenths: per_second(
                self.transmitted(sockets),
                self.interval_nanoseconds,
            ),
            network_connection_count: capped(sockets.len()),
        }
    }

    /// The processor time that counts for an application: no more than that of all
    /// processes, and none where no processor is known.
    pub open spec fn charged_ticks(&self, ticks: u64) -> u64 {
        if self.logical_cpus == 0 {
            0
        } else {
            at_most(ticks, self.total_process_ticks)
        }
    }

    /// The power of the whole system in thousandths of a watt: what the batteries
    /// gave, else the counted energy over the interval.
    pub open spec fn system_power(&self) -> u64 {
        if self.interval_nanoseconds == 0 {
            0
        } else if self.system_discharge_picowatts > 0 {
            rated(self.system_discharge_picowatts as nat, 1_000_000_000)
        } else {
            rated(
                (self.system_energy_microjoules * 1_000_000) as nat,
                self.interval_nanoseconds as nat,
            )
        }
    }

    /// Energy is shared out by processor time, and only where the processors'
    /// own energy counters were read.
    pub open spec fn energy_of(&self, ticks: u64) -> EnergyUsage {
        let attributable = self.energy_source@ == "rapl"@;
        let share = self.charged_ticks(ticks);
        let energy = if attributable {
            rated(
                (self.system_energy_microjoules * share) as nat,
                (360 * self.total_process_ticks) as nat,
            )
        } else {
            0
        };
        let power = rated((energy * 360_000_000) as nat, self.interval_nanoseconds as nat);
        EnergyUsage {
            energy_mwh_e4: energy,
            battery_percent_e6: rated(
                (energy * 10_000_000_000_000) as nat,
                self.battery_full_picowatt_hours as nat,
            ),
            power_watts_e3: power,
            estimated_app_power_watts_e3: power,
            system_power_watts_e3: self.system_power(),
            battery_percent_per_hour_e4: rated(
                (power * 1_000_000_000_000_000) as nat,
                self.battery_full_picowatt_hours as nat,
            ),
            attributed_fraction_e4: if attributable {
                rated((share * 10_000) as nat, self.total_process_ticks as nat)
            } else {
                0
            },
            energy_source: self.energy_source,
            energy_confidence: if attributable {
                "low"
            } else {
                "system-only"
            },
        }
    }

    pub open spec fn measurement_of(&self, roots: Set<u32>, totals: UsageTotals) -> ResourceMeasurement {
        let pids = self.attributed_set(roots);
        ResourceMeasurement {
            sample_interval_ms: rated(self.interval_nanoseconds as nat, 1_000_000),
            attribution_method: if self.complete_cgroup(roots) {
                "cgroup"
            } else if self.some_cgroup(roots) {
                "mixed"
            } else {
                "process-tree"
            },
            coverage_part: if self.complete_cgroup(roots) {
                1
            } else {
                totals.process_count
            },
            coverage_whole: if self.complete_cgroup(roots) {
                1
            } else {
                capped(pids.len())
            },
            memory_source: if totals.process_count > 0 && totals.pss_processes
                == totals.process_count {
                "pss"
            } else if totals.memory_processes > 0 {
                "rss-fallback"
            } else {
                "unavailable"
            },
            gpu_available: totals.gpu_processes > 0,
            storage_available: self.complete_cgroup(roots) || totals.storage_processes > 0,
            disk_space_scope: "",
            network_available: totals.network_processes > 0,
            network_bytes_available: self.network_counters_available && totals.network_processes > 0,
            network_connections_available: totals.network_processes > 0,
            resources_shared: exists|i: int|
                0 <= i < self.shared_pids@.len() && pids.contains(#[trigger] self.shared_pids@[i]),
        }
    }

    /// What the application with these roots used.
    pub open spec fn usage_of(&self, roots: Set<u32>) -> ResourceUsage {
        let pids = self.attributed_set(roots);
        let totals = totals_of(self.processes.pairs(), pids);
        let cgroup = cgroups_total(
            self.cgroup_usage.pairs(),
            |path: Seq<char>| self.uses_path(roots, path),
        );
        let complete = self.complete_cgroup(roots);
        let io = ProcessIo {
            physical_read_bytes: if complete {
                cgroup.read_bytes
            } else {
                totals.io.physical_read_bytes
            },
            physical_write_bytes: if complete {
                cgroup.write_bytes
            } else {
                totals.io.physical_write_bytes
            },
            read_operations: if complete {
                cgroup.read_operations
            } else {
                totals.io.read_operations
            },
            write_operations: if complete {
                cgroup.write_operations
            } else {
                totals.io.write_operations
            },
            logical_read_bytes: totals.io.logical_read_bytes,
            logical_write_bytes: totals.io.logical_write_bytes,
            cancelled_write_bytes: totals.io.cancelled_write_bytes,
        };
        ResourceUsage {
            compute: self.compute_of(
                totals,
                if complete {
                    Some(cgroup)
                } else {
                    None
                },
            ),
            storage: self.storage_of(
                io,
                files_of(self.processes.pairs(), pids, false),
                files_of(self.processes.pairs(), pids, true),
            ),
            network: self.network_of(self.socket_set(pids)),
            energy: self.energy_of(totals.cpu_ticks),
            measurement: self.measurement_of(roots, totals),
        }
    }

    /// The usage with the disk space of the application's own directories.
    pub open spec fn usage_of_target(&self, target: Seq<char>, roots: Set<u32>) -> ResourceUsage {
        let usage = self.usage_of(roots);
        if self.app_disk_by_target@.contains_key(target) {
            let disk = self.app_disk_by_target@[target];
            ResourceUsage {
                storage: StorageUsage {
                    disk_space_total_bytes: disk.total_bytes,
                    disk_space_temporary_bytes: disk.temporary_bytes,
                    disk_space_permanent_bytes: disk.permanent_bytes,
                    ..usage.storage
                },
                measurement: ResourceMeasurement {
                    disk_space_scope: "identified-app-directories",
                    ..usage.measurement
                },
                ..usage
            }
        } else {
            ResourceUsage {
                measurement: ResourceMeasurement {
                    disk_space_scope: "unavailable",
                    ..usage.measurement
                },
                ..usage
            }
        }
    }
}


/// A set of numbers held as a list without repetition.
fn include_number(numbers: &mut Vec<u64>, number: u64)
    requires
        old(numbers)@.no_duplicates(),
    ensures
        final(numbers)@.no_duplicates(),
        forall|n: u64| #[trigger]
            final(numbers)@.contains(n) == (old(numbers)@.contains(n) || n == number),
{
    let ghost before = numbers@;
    for i in 0..numbers.len()
        invariant
            numbers@ == before,
            before.no_duplicates(),
            forall|j: int| 0 <= j < i ==> before[j] != number,
    {
        if numbers[i] == number {
            return ;
        }
    }
    numbers.push(number);
    proof {
        assert(numbers@[before.len() as int] == number);
        assert forall|n: u64| #[trigger] numbers@.contains(n) == (before.contains(n) || n == number) by {
            if before.contains(n) {
                let j = choose|j: int| 0 <= j < before.len() && before[j] == n;
                assert(numbers@[j] == n);
            }
        }
    }
}

fn lists_number(numbers: &[u64], number: u64) -> (yes: bool)
    ensures
        yes == numbers@.contains(number),
{
    for i in 0..numbers.len()
        invariant
            forall|j: int| 0 <= j < i ==> numbers@[j] != number,
    {
        if numbers[i] == number {
            return true;
        }
    }
    false
}

proof fn lemma_sum_extended<T>(s: Seq<T>, i: int, f: spec_fn(T) -> nat)
    requires
        0 <= i < s.len(),
    ensures
        seq_sum(s.take(i + 1), f) == seq_sum(s.take(i), f) + f(s[i]),
{
    assert(s.take(i + 1).drop_last() =~= s.take(i));
}

/// Adds up the sizes of files: all, temporary or permanent ones.
fn total_bytes(files: &Table<DiskFileId, DiskFile>, temporary: bool, permanent: bool) -> (total: u64)
    requires
        files.wf(),
    ensures
        total == file_bytes(files@, temporary, permanent),
{
    let ghost of_pair = of_entry::<DiskFileId, DiskFile>(size_if(temporary, permanent));
    let mut total: u64 = 0;
    let count = files.len();
    for i in 0..count
        invariant
            count == files.pairs().len(),
            of_pair == of_entry::<DiskFileId, DiskFile>(size_if(temporary, permanent)),
            total == capped(seq_sum(files.pairs().take(i as int), of_pair)),
    {
        proof {
            lemma_sum_extended(files.pairs(), i as int, of_pair);
        }
        let file = *files.value_at(i);
        let counted = if file.temporary {
            temporary
        } else {
            permanent
        };
        if counted {
            add_counter(&mut total, file.bytes);
        }
    }
    proof {
        assert(files.pairs().take(files.pairs().len() as int) =~= files.pairs());
        lemma_total_pairs(files.pairs(), size_if(temporary, permanent));
    }
    total
}

impl ResourceSnapshot {
    /// An empty sample of a machine with one processor.
    pub fn new() -> (snapshot: Self)
        ensures
            snapshot.wf(),
            snapshot.processes.pairs().len() == 0,
            snapshot.children@ == Map::<u32, Vec<u32>>::empty(),
            snapshot.cgroup_members_by_root@ == Map::<u32, Vec<u32>>::empty(),
            snapshot.cgroup_path_by_root@ == Map::<u32, String>::empty(),
            snapshot.cgroup_usage@ == Map::<Seq<char>, CgroupUsage>::empty(),
            snapshot.app_disk_by_target@ == Map::<Seq<char>, DiskBreakdown>::empty(),
            snapshot.network_deltas@ == Map::<u64, NetworkCounters>::empty(),
            snapshot.shared_pids@.len() == 0,
            snapshot.logical_cpus == 1,
            snapshot.system_ticks == 0,
            snapshot.total_process_ticks == 0,
            snapshot.interval_nanoseconds == 0,
            snapshot.system_energy_microjoules == 0,
            snapshot.system_discharge_picowatts == 0,
            snapshot.battery_full_picowatt_hours == 0,
            snapshot.energy_source@ == "unavailable"@,
            !snapshot.network_counters_available,
    {
        ResourceSnapshot {
            processes: Table::new(),
            children: Table::new(),
            cgroup_members_by_root: Table::new(),
            cgroup_path_by_root: Table::new(),
            cgroup_usage: Table::new(),
            app_disk_by_target: Table::new(),
            shared_pids: Vec::new(),
            logical_cpus: 1,
            system_ticks: 0,
            total_process_ticks: 0,
            interval_nanoseconds: 0,
            system_energy_microjoules: 0,
            system_discharge_picowatts: 0,
            battery_full_picowatt_hours: 0,
            energy_source: "unavailable",
            network_deltas: Table::new(),
            network_counters_available: false,
        }
    }

    /// The members of the roots' control groups, each once.
    fn cgroup_pids(&self, roots: &[u32]) -> (pids: Vec<u32>)
        requires
            self.wf(),
        ensures
            pids@.no_duplicates(),
            forall|pid: u32| #[trigger]
                pids@.contains(pid) == self.in_cgroup(roots@.to_set(), pid),
    {
        let mut pids: Vec<u32> = Vec::new();
        for i in 0..roots.len()
            invariant
                self.wf(),
                pids@.no_duplicates(),
                forall|pid: u32| #[trigger]
                    pids@.contains(pid) == exists|k: int|
                        0 <= k < i && #[trigger] self.in_cgroup_of(roots@[k], pid),
        {
            let ghost before = pids@;
            let root = roots[i];
            if root > 0 {
                if let Some(members) = self.cgroup_members_by_root.get(&root) {
                    for j in 0..members.len()
                        invariant
                            pids@.no_duplicates(),
                            forall|pid: u32| #[trigger]
                                pids@.contains(pid) == (before.contains(pid) || exists|k: int|
                                    0 <= k < j && #[trigger] members@[k] == pid),
                    {
                        let ghost earlier = pids@;
                        let member = members[j];
                        let _ = include_pid(&mut pids, member);
                        proof {
                            assert forall|pid: u32| #[trigger]
                                pids@.contains(pid) == (before.contains(pid) || exists|k: int|
                                    0 <= k < j + 1 && #[trigger] members@[k] == pid) by {
                                assert(pids@.to_set().contains(pid) == (earlier.to_set().contains(
                                    pid,
                                ) || pid == member));
                                if earlier.contains(pid) && !before.contains(pid) {
                                    let k = choose|k: int|
                                        0 <= k < j && #[trigger] members@[k] == pid;
                                    assert(members@[k] == pid);
                                }
                                assert(members@[j as int] == member);
                            }
                        }
                    }
                    proof {
                        assert forall|pid: u32| members@.contains(pid) == self.in_cgroup_of(
                            root,
                            pid,
                        ) by {}
                        assert forall|pid: u32| #[trigger]
                            pids@.contains(pid) implies before.contains(pid) || self.in_cgroup_of(
                            root,
                            pid,
                        ) by {
                            if !before.contains(pid) {
                                let k = choose|k: int|
                                    0 <= k < members@.len() && #[trigger] members@[k] == pid;
                                assert(members@.contains(pid));
                            }
                        }
                        assert forall|pid: u32| self.in_cgroup_of(root, pid) implies #[trigger]
                        pids@.contains(pid) by {
                            assert(members@.contains(pid));
                            let k = choose|k: int| 0 <= k < members@.len() && members@[k] == pid;
                            assert(members@[k] == pid);
                        }
                    }
                }
            }
            proof {
                assert forall|pid: u32| #[trigger]
                    pids@.contains(pid) == exists|k: int|
                        0 <= k < i + 1 && #[trigger] self.in_cgroup_of(roots@[k], pid) by {
                    assert(pids@.contains(pid) == (before.contains(pid) || self.in_cgroup_of(
                        root,
                        pid,
                    )));
                    if before.contains(pid) {
                        let k = choose|k: int|
                            0 <= k < i && #[trigger] self.in_cgroup_of(roots@[k], pid);
                        assert(self.in_cgroup_of(roots@[k], pid));
                    }
                    if self.in_cgroup_of(root, pid) {
                        assert(self.in_cgroup_of(roots@[i as int], pid));
                    }
                }
            }
        }
        proof {
            let set = roots@.to_set();
            assert forall|pid: u32| #[trigger] pids@.contains(pid) == self.in_cgroup(set, pid) by {
                if pids@.contains(pid) {
                    let k = choose|k: int|
                        0 <= k < roots@.len() && #[trigger] self.in_cgroup_of(roots@[k], pid);
                    assert(set.contains(roots@[k]));
                }
                if self.in_cgroup(set, pid) {
                    let root = choose|root: u32|
                        set.contains(root) && #[trigger] self.in_cgroup_of(root, pid);
                    let k = choose|k: int| 0 <= k < roots@.len() && roots@[k] == root;
                    assert(self.in_cgroup_of(roots@[k], pid));
                }
            }
        }
        pids
    }

    /// The roots without an application control group.
    fn without_cgroup(&self, roots: &[u32]) -> (loose: Vec<u32>)
        requires
            self.wf(),
        ensures
            loose@.to_set() == self.loose_roots(roots@.to_set()),
    {
        let mut loose: Vec<u32> = Vec::new();
        assert(roots@.take(0).to_set() =~= Set::empty());
        assert(loose@.to_set() =~= self.loose_roots(Set::empty()));
        for i in 0..roots.len()
            invariant
                self.wf(),
                loose@.to_set() == self.loose_roots(roots@.take(i as int).to_set()),
        {
            let root = roots[i];
            let ghost before = loose@;
            let ghost seen = roots@.take(i as int);
            proof {
                assert(roots@.take(i + 1) =~= seen.push(root));
                lemma_push_set(seen, root);
                lemma_push_set(before, root);
            }
            if !self.cgroup_members_by_root.contains(&root) {
                loose.push(root);
            }
            assert(loose@.to_set() =~= self.loose_roots(seen.to_set().insert(root)));
        }
        assert(roots@.take(roots@.len() as int) =~= roots@);
        loose
    }

    /// All processes of an application, each once.
    pub fn attributed_pids(&self, roots: &[u32]) -> (pids: Vec<u32>)
        requires
            self.wf(),
        ensures
            pids@.no_duplicates(),
            forall|pid: u32| #[trigger]
                pids@.contains(pid) == self.attributed(roots@.to_set(), pid),
    {
        let loose = self.without_cgroup(roots);
        let mut pids = descendants(loose.as_slice(), &self.children);
        let below = descendants(roots, &self.children);
        let members = self.cgroup_pids(roots);
        let ghost free = pids@;
        for i in 0..below.len()
            invariant
                self.wf(),
                pids@.no_duplicates(),
                forall|pid: u32| #[trigger]
                    pids@.contains(pid) == (free.contains(pid) || (below@.take(i as int).contains(
                        pid,
                    ) && self.processes@.contains_key(pid))),
        {
            let ghost earlier = pids@;
            let pid = below[i];
            if self.processes.contains(&pid) {
                let _ = include_pid(&mut pids, pid);
            }
            proof {
                let before = below@.take(i as int);
                let now = below@.take(i + 1);
                assert(now =~= before.push(pid));
                lemma_push_set(before, pid);
                assert forall|p: u32| #[trigger]
                    pids@.contains(p) == (free.contains(p) || (now.contains(p)
                        && self.processes@.contains_key(p))) by {
                    assert(now.to_set().contains(p) == (before.to_set().contains(p) || p == pid));
                    assert(pids@.to_set().contains(p) == (earlier.to_set().contains(p) || (p == pid
                        && self.processes@.contains_key(p))));
                }
            }
        }
        assert(below@.take(below@.len() as int) =~= below@);
        let ghost running = pids@;
        for i in 0..members.len()
            invariant
                pids@.no_duplicates(),
                forall|pid: u32| #[trigger]
                    pids@.contains(pid) == (running.contains(pid) || members@.take(
                        i as int,
                    ).contains(pid)),
        {
            let ghost earlier = pids@;
            let member = members[i];
            let _ = include_pid(&mut pids, member);
            proof {
                let before = members@.take(i as int);
                let now = members@.take(i + 1);
                assert(now =~= before.push(member));
                lemma_push_set(before, member);
                assert forall|pid: u32| #[trigger]
                    pids@.contains(pid) == (running.contains(pid) || now.contains(pid)) by {
                    assert(now.to_set().contains(pid) == (before.to_set().contains(pid) || pid
                        == member));
                    assert(pids@.to_set().contains(pid) == (earlier.to_set().contains(pid) || pid
                        == member));
                }
            }
        }
        assert(members@.take(members@.len() as int) =~= members@);
        pids
    }

    fn has_some_cgroup(&self, roots: &[u32]) -> (yes: bool)
        requires
            self.wf(),
        ensures
            yes == self.some_cgroup(roots@.to_set()),
    {
        let ghost set = roots@.to_set();
        for i in 0..roots.len()
            invariant
                self.wf(),
                set == roots@.to_set(),
                forall|k: int|
                    0 <= k < i && #[trigger] roots@[k] > 0
                        ==> !self.cgroup_members_by_root@.contains_key(roots@[k]),
        {
            if roots[i] > 0 && self.cgroup_members_by_root.contains(&roots[i]) {
                assert(set.contains(roots@[i as int]));
                return true;
            }
        }
        proof {
            if self.some_cgroup(set) {
                let root = choose|root: u32| #[trigger]
                    set.contains(root) && root > 0 && self.cgroup_members_by_root@.contains_key(root);
                let k = choose|k: int| 0 <= k < roots@.len() && roots@[k] == root;
                assert(roots@[k] > 0);
            }
        }
        false
    }

    fn uses_cgroup(&self, roots: &[u32], path: &String) -> (yes: bool)
        requires
            self.wf(),
        ensures
            yes == self.uses_path(roots@.to_set(), path@),
    {
        let ghost set = roots@.to_set();
        for i in 0..roots.len()
            invariant
                self.wf(),
                set == roots@.to_set(),
                forall|k: int|
                    0 <= k < i ==> !(#[trigger] roots@[k] > 0
                        && self.cgroup_members_by_root@.contains_key(roots@[k])
                        && self.cgroup_path_by_root@.contains_key(roots@[k])
                        && self.cgroup_path_by_root@[roots@[k]]@ == path@),
        {
            let root = roots[i];
            if root > 0 && self.cgroup_members_by_root.contains(&root) {
                if let Some(used) = self.cgroup_path_by_root.get(&root) {
                    if *used == *path {
                        assert(set.contains(roots@[i as int]));
                        return true;
                    }
                }
            }
        }
        proof {
            if self.uses_path(set, path@) {
                let root = choose|root: u32| #[trigger]
                    set.contains(root) && root > 0 && self.cgroup_members_by_root@.contains_key(root)
                        && self.cgroup_path_by_root@.contains_key(root)
                        && self.cgroup_path_by_root@[root]@ == path@;
                let k = choose|k: int| 0 <= k < roots@.len() && roots@[k] == root;
                assert(roots@[k] > 0);
            }
        }
        false
    }

    fn is_complete(&self, roots: &[u32], pids: &Vec<u32>, members: &Vec<u32>) -> (yes: bool)
        requires
            self.wf(),
            forall|pid: u32| #[trigger]
                pids@.contains(pid) == self.attributed(roots@.to_set(), pid),
            forall|pid: u32| #[trigger]
                members@.contains(pid) == self.in_cgroup(roots@.to_set(), pid),
        ensures
            yes == self.complete_cgroup(roots@.to_set()),
    {
        let ghost set = roots@.to_set();
        let mut some = false;
        for i in 0..roots.len()
            invariant
                self.wf(),
                set == roots@.to_set(),
                some == exists|k: int| 0 <= k < i && #[trigger] roots@[k] > 0,
                forall|k: int|
                    0 <= k < i && #[trigger] roots@[k] > 0 ==> self.measured_root(roots@[k]),
        {
            let root = roots[i];
            if root > 0 {
                some = true;
                assert(roots@[i as int] > 0);
                let measured = self.cgroup_members_by_root.contains(&root)
                    && match self.cgroup_path_by_root.get(&root) {
                    Some(path) => self.cgroup_usage.contains(path),
                    None => true,
                };
                if !measured {
                    proof {
                        assert(set.contains(root));
                        assert(!self.measured_root(root));
                    }
                    return false;
                }
            }
        }
        proof {
            assert forall|root: u32| #[trigger] set.contains(root) && root > 0 implies some
                && self.measured_root(root) by {
                let k = choose|k: int| 0 <= k < roots@.len() && roots@[k] == root;
                assert(roots@[k] > 0);
            }
            if some {
                let k = choose|k: int| 0 <= k < roots@.len() && #[trigger] roots@[k] > 0;
                assert(set.contains(roots@[k]));
            }
        }
        if !some {
            return false;
        }
        for i in 0..pids.len()
            invariant
                set == roots@.to_set(),
                forall|pid: u32| #[trigger] pids@.contains(pid) == self.attributed(set, pid),
                forall|pid: u32| #[trigger] members@.contains(pid) == self.in_cgroup(set, pid),
                self.wf(),
                forall|k: int|
                    0 <= k < i && self.processes@.contains_key(#[trigger] pids@[k])
                        ==> members@.contains(pids@[k]),
        {
            if self.processes.contains(&pids[i]) && !lists_pid(members.as_slice(), pids[i]) {
                proof {
                    let pid = pids@[i as int];
                    assert(pids@.contains(pid));
                    assert(self.attributed(set, pid) && !self.in_cgroup(set, pid));
                }
                return false;
            }
        }
        proof {
            assert forall|pid: u32| #[trigger]
                self.attributed(set, pid) && self.processes@.contains_key(
                    pid,
                ) implies self.in_cgroup(set, pid) by {
                assert(pids@.contains(pid));
                let k = choose|k: int| 0 <= k < pids@.len() && pids@[k] == pid;
                assert(members@.contains(pids@[k]));
            }
        }
        true
    }

    fn total_usage(&self, pids: &Vec<u32>) -> (totals: UsageTotals)
        ensures
            totals == totals_of(self.processes.pairs(), pids@.to_set()),
    {
        let mut totals = UsageTotals::default();
        let count = self.processes.len();
        for i in 0..count
            invariant
                count == self.processes.pairs().len(),
                totals == totals_of(self.processes.pairs().take(i as int), pids@.to_set()),
        {
            proof {
                assert(self.processes.pairs().take(i + 1).drop_last()
                    =~= self.processes.pairs().take(i as int));
            }
            if lists_pid(pids.as_slice(), *self.processes.key_at(i)) {
                totals.add_process(self.processes.value_at(i));
            }
        }
        assert(self.processes.pairs().take(count as int) =~= self.processes.pairs());
        totals
    }

    fn files(&self, pids: &Vec<u32>, referenced: bool) -> (files: Table<DiskFileId, DiskFile>)
        requires
            self.wf(),
        ensures
            files.wf(),
            files@ == files_of(self.processes.pairs(), pids@.to_set(), referenced),
    {
        let mut files: Table<DiskFileId, DiskFile> = Table::new();
        let count = self.processes.len();
        for i in 0..count
            invariant
                self.wf(),
                files.wf(),
                count == self.processes.pairs().len(),
                files@ == files_of(
                    self.processes.pairs().take(i as int),
                    pids@.to_set(),
                    referenced,
                ),
        {
            proof {
                assert(self.processes.pairs().take(i + 1).drop_last()
                    =~= self.processes.pairs().take(i as int));
            }
            if lists_pid(pids.as_slice(), *self.processes.key_at(i)) {
                let process = self.processes.value_at(i);
                merge_disk_files(
                    &mut files,
                    if referenced {
                        &process.files.referenced
                    } else {
                        &process.files.open
                    },
                );
            }
        }
        assert(self.processes.pairs().take(count as int) =~= self.processes.pairs());
        files
    }

    fn sockets(&self, pids: &Vec<u32>) -> (sockets: Vec<u64>)
        ensures
            sockets@.no_duplicates(),
            sockets@.to_set() == self.socket_set(pids@.to_set()),
    {
        let ghost set = pids@.to_set();
        let ghost pairs = self.processes.pairs();
        let mut sockets: Vec<u64> = Vec::new();
        let count = self.processes.len();
        for i in 0..count
            invariant
                set == pids@.to_set(),
                pairs == self.processes.pairs(),
                count == pairs.len(),
                sockets@.no_duplicates(),
                forall|socket: u64| #[trigger]
                    sockets@.contains(socket) == exists|k: int|
                        0 <= k < i && set.contains((#[trigger] pairs[k]).0)
                            && pairs[k].1.files.sockets@.contains(socket),
        {
            let ghost before = sockets@;
            let listed = lists_pid(pids.as_slice(), *self.processes.key_at(i));
            if listed {
                let own = &self.processes.value_at(i).files.sockets;
                for j in 0..own.len()
                    invariant
                        sockets@.no_duplicates(),
                        forall|socket: u64| #[trigger]
                            sockets@.contains(socket) == (before.contains(socket) || own@.take(
                                j as int,
                            ).contains(socket)),
                {
                    proof {
                        let now = own@.take(j + 1);
                        let earlier = own@.take(j as int);
                        assert(now =~= earlier.push(own@[j as int]));
                        assert forall|socket: u64| #[trigger] now.contains(socket) == (
                        earlier.contains(socket) || socket == own@[j as int]) by {
                            if earlier.contains(socket) {
                                let k = choose|k: int|
                                    0 <= k < earlier.len() && earlier[k] == socket;
                                assert(now[k] == socket);
                            }
                            assert(now[j as int] == own@[j as int]);
                        }
                    }
                    include_number(&mut sockets, own[j]);
                }
                assert(own@.take(own@.len() as int) =~= own@);
            }
            proof {
                assert forall|socket: u64| #[trigger]
                    sockets@.contains(socket) == exists|k: int|
                        0 <= k < i + 1 && set.contains((#[trigger] pairs[k]).0)
                            && pairs[k].1.files.sockets@.contains(socket) by {
                    let here = set.contains(pairs[i as int].0)
                        && pairs[i as int].1.files.sockets@.contains(socket);
                    assert(sockets@.contains(socket) == (before.contains(socket) || here));
                    if before.contains(socket) {
                        let k = choose|k: int|
                            0 <= k < i && set.contains((#[trigger] pairs[k]).0)
                                && pairs[k].1.files.sockets@.contains(socket);
                        assert(set.contains(pairs[k].0));
                    }
                }
            }
        }
        assert(sockets@.to_set() =~= self.socket_set(set));
        sockets
    }

    fn network(&self, sockets: &Vec<u64>) -> (usage: NetworkUsage)
        requires
            self.wf(),
            sockets@.no_duplicates(),
        ensures
            usage == self.network_of(sockets@.to_set()),
    {
        let ghost set = sockets@.to_set();
        let ghost pairs = self.network_deltas.pairs();
        let ghost pair_in = of_entry::<u64, NetworkCounters>(received_if(set));
        let ghost pair_out = of_entry::<u64, NetworkCounters>(transmitted_if(set));
        let mut received: u64 = 0;
        let mut transmitted: u64 = 0;
        let count = self.network_deltas.len();
        for i in 0..count
            invariant
                set == sockets@.to_set(),
                pairs == self.network_deltas.pairs(),
                count == pairs.len(),
                pair_in == of_entry::<u64, NetworkCounters>(received_if(set)),
                pair_out == of_entry::<u64, NetworkCounters>(transmitted_if(set)),
                received == capped(seq_sum(pairs.take(i as int), pair_in)),
                transmitted == capped(seq_sum(pairs.take(i as int), pair_out)),
        {
            proof {
                lemma_sum_extended(pairs, i as int, pair_in);
                lemma_sum_extended(pairs, i as int, pair_out);
            }
            if lists_number(sockets.as_slice(), *self.network_deltas.key_at(i)) {
                let counters = *self.network_deltas.value_at(i);
                add_counter(&mut received, counters.received_bytes);
                add_counter(&mut transmitted, counters.transmitted_bytes);
            }
        }
        proof {
            assert(pairs.take(pairs.len() as int) =~= pairs);
            lemma_total_pairs(pairs, received_if(set));
            lemma_total_pairs(pairs, transmitted_if(set));
            sockets@.unique_seq_to_set();
        }
        NetworkUsage {
            network_receive_bytes: received,
            network_transmit_bytes: transmitted,
            network_receive_bytes_per_second_tenths: count_per_second(
                received,
                self.interval_nanoseconds,
            ),
            network_transmit_bytes_per_second_tenths: count_per_second(
                transmitted,
                self.interval_nanoseconds,
            ),
            network_connection_count: sockets.len() as u64,
        }
    }

    fn cgroup_total(&self, roots: &[u32]) -> (total: CgroupUsage)
        requires
            self.wf(),
        ensures
            total == cgroups_total(
                self.cgroup_usage.pairs(),
                |path: Seq<char>| self.uses_path(roots@.to_set(), path),
            ),
    {
        let ghost used = |path: Seq<char>| self.uses_path(roots@.to_set(), path);
        let mut total = CgroupUsage::default();
        let count = self.cgroup_usage.len();
        for i in 0..count
            invariant
                self.wf(),
                count == self.cgroup_usage.pairs().len(),
                used == (|path: Seq<char>| self.uses_path(roots@.to_set(), path)),
                total == cgroups_total(self.cgroup_usage.pairs().take(i as int), used),
        {
            proof {
                assert(self.cgroup_usage.pairs().take(i + 1).drop_last()
                    =~= self.cgroup_usage.pairs().take(i as int));
            }
            if self.uses_cgroup(roots, self.cgroup_usage.key_at(i)) {
                total.add_usage(self.cgroup_usage.value_at(i));
            }
        }
        assert(self.cgroup_usage.pairs().take(count as int) =~= self.cgroup_usage.pairs());
        total
    }

    fn cpu_percent(&self, ticks: u64) -> (tenths: u64)
        ensures
            tenths == self.cpu_tenths(ticks),
    {
        let scale = wide_product(self.logical_cpus, 1000);
        let scale: u64 = if scale > u64::MAX as u128 {
            u64::MAX
        } else {
            scale as u64
        };
        rate(wide_product(ticks, scale), self.system_ticks as u128)
    }

    fn compute(&self, totals: &UsageTotals, cgroup: Option<CgroupUsage>) -> (compute: ComputeUsage)
        ensures
            compute == self.compute_of(*totals, cgroup),
    {
        let cpus: u64 = if self.logical_cpus == 0 {
            1
        } else {
            self.logical_cpus
        };
        let (cpu, machine, memory) = match cgroup {
            Some(usage) => (
                usage.cpu_percent_tenths,
                rate(usage.cpu_percent_tenths as u128, cpus as u128),
                usage.memory_bytes,
            ),
            None => (
                self.cpu_percent(totals.cpu_ticks),
                if self.logical_cpus == 0 {
                    0
                } else {
                    percent_tenths(totals.cpu_ticks, self.system_ticks)
                },
                0u64,
            ),
        };
        ComputeUsage {
            cpu_percent_tenths: cpu,
            cpu_percent_of_machine_tenths: limited(machine, 1000),
            memory_bytes: totals.memory_bytes,
            memory_rss_bytes: totals.memory_rss_bytes,
            memory_pss_bytes: totals.memory_pss_bytes,
            memory_private_bytes: totals.memory_private_bytes,
            memory_swap_bytes: totals.memory_swap_bytes,
            memory_cgroup_bytes: memory,
            process_count: totals.process_count,
            thread_count: totals.thread_count,
            major_faults_per_second_hundredths: rate(
                wide_product(totals.major_faults, 100_000_000_000),
                self.interval_nanoseconds as u128,
            ),
            gpu_percent_tenths: percent_tenths(totals.gpu_nanoseconds, self.interval_nanoseconds),
            gpu_busy_percent_tenths: limited(
                percent_tenths(totals.gpu_busiest_nanoseconds, self.interval_nanoseconds),
                1000,
            ),
            gpu_memory_bytes: totals.gpu_memory_bytes,
            gpu_memory_resident_bytes: totals.gpu_memory_resident_bytes,
            gpu_memory_allocated_bytes: totals.gpu_memory_allocated_bytes,
        }
    }

    fn storage(
        &self,
        io: &ProcessIo,
        open: &Table<DiskFileId, DiskFile>,
        referenced: &Table<DiskFileId, DiskFile>,
    ) -> (storage: StorageUsage)
        requires
            open.wf(),
            referenced.wf(),
        ensures
            storage == self.storage_of(*io, open@, referenced@),
    {
        let interval = self.interval_nanoseconds;
        let open_bytes = total_bytes(open, true, true);
        let all_bytes = total_bytes(referenced, true, true);
        let temporary = total_bytes(referenced, true, false);
        let permanent = total_bytes(referenced, false, true);
        StorageUsage {
            disk_read_bytes: io.physical_read_bytes,
            disk_write_bytes: io.physical_write_bytes,
            disk_read_bytes_per_second_tenths: count_per_second(io.physical_read_bytes, interval),
            disk_write_bytes_per_second_tenths: count_per_second(io.physical_write_bytes, interval),
            logical_read_bytes: io.logical_read_bytes,
            logical_write_bytes: io.logical_write_bytes,
            logical_read_bytes_per_second_tenths: count_per_second(io.logical_read_bytes, interval),
            logical_write_bytes_per_second_tenths: count_per_second(
                io.logical_write_bytes,
                interval,
            ),
            read_operations: io.read_operations,
            write_operations: io.write_operations,
            read_operations_per_second_tenths: count_per_second(io.read_operations, interval),
            write_operations_per_second_tenths: count_per_second(io.write_operations, interval),
            cancelled_write_bytes: io.cancelled_write_bytes,
            open_file_disk_bytes: open_bytes,
            referenced_file_disk_bytes: all_bytes,
            referenced_file_temporary_bytes: temporary,
            referenced_file_permanent_bytes: permanent,
            disk_space_total_bytes: 0,
            disk_space_temporary_bytes: 0,
            disk_space_permanent_bytes: 0,
        }
    }

    pub fn estimated_energy(&self, ticks: u64) -> (usage: EnergyUsage)
        ensures
            usage == self.energy_of(ticks),
    {
        let attributable = same_text(self.energy_source, "rapl");
        let share: u64 = if self.logical_cpus == 0 {
            0
        } else {
            limited(ticks, self.total_process_ticks)
        };
        let interval = self.interval_nanoseconds as u128;
        let energy: u64 = if attributable {
            rate(
                wide_product(self.system_energy_microjoules, share),
                wide_product(360, self.total_process_ticks),
            )
        } else {
            0
        };
        let power = rate(wide_product(energy, 360_000_000), interval);
        EnergyUsage {
            energy_mwh_e4: energy,
            battery_percent_e6: rate(
                wide_product(energy, 10_000_000_000_000),
                self.battery_full_picowatt_hours,
            ),
            power_watts_e3: power,
            estimated_app_power_watts_e3: power,
            system_power_watts_e3: if self.interval_nanoseconds == 0 {
                0
            } else if self.system_discharge_picowatts > 0 {
                rate(self.system_discharge_picowatts as u128, 1_000_000_000)
            } else {
                rate(wide_product(self.system_energy_microjoules, 1_000_000), interval)
            },
            battery_percent_per_hour_e4: rate(
                wide_product(power, 1_000_000_000_000_000),
                self.battery_full_picowatt_hours,
            ),
            attributed_fraction_e4: if attributable {
                rate(wide_product(share, 10_000), self.total_process_ticks as u128)
            } else {
                0
            },
            energy_source: self.energy_source,
            energy_confidence: if attributable {
                "low"
            } else {
                "system-only"
            },
        }
    }

    fn has_shared(&self, pids: &Vec<u32>) -> (yes: bool)
        ensures
            yes == exists|i: int|
                0 <= i < self.shared_pids@.len() && pids@.contains(#[trigger] self.shared_pids@[i]),
    {
        for i in 0..self.shared_pids.len()
            invariant
                forall|k: int| 0 <= k < i ==> !pids@.contains(#[trigger] self.shared_pids@[k]),
        {
            if lists_pid(pids.as_slice(), self.shared_pids[i]) {
                return true;
            }
        }
        false
    }

    /// What the application with these roots used. Each process, file and socket
    /// counts once, and processes that left the application's control group but
    /// descend from it still count.
    pub fn usage_for_roots(&self, roots: &[u32]) -> (usage: ResourceUsage)
        requires
            self.wf(),
        ensures
            usage == self.usage_of(roots@.to_set()),
    {
        let ghost set = roots@.to_set();
        let pids = self.attributed_pids(roots);
        let members = self.cgroup_pids(roots);
        proof {
            assert(pids@.to_set() =~= self.attributed_set(set));
            pids@.unique_seq_to_set();
        }
        let complete = self.is_complete(roots, &pids, &members);
        let some = self.has_some_cgroup(roots);
        let totals = self.total_usage(&pids);
        let open = self.files(&pids, false);
        let referenced = self.files(&pids, true);
        let sockets = self.sockets(&pids);
        let cgroup = self.cgroup_total(roots);
        let mut io = totals.io;
        if complete {
            io.physical_read_bytes = cgroup.read_bytes;
            io.physical_write_bytes = cgroup.write_bytes;
            io.read_operations = cgroup.read_operations;
            io.write_operations = cgroup.write_operations;
        }
        let shared = self.has_shared(&pids);
        let measurement = ResourceMeasurement {
            sample_interval_ms: rate(self.interval_nanoseconds as u128, 1_000_000),
            attribution_method: if complete {
                "cgroup"
            } else if some {
                "mixed"
            } else {
                "process-tree"
            },
            coverage_part: if complete {
                1
            } else {
                totals.process_count
            },
            coverage_whole: if complete {
                1
            } else {
                pids.len() as u64
            },
            memory_source: if totals.process_count > 0 && totals.pss_processes
                == totals.process_count {
                "pss"
            } else if totals.memory_processes > 0 {
                "rss-fallback"
            } else {
                "unavailable"
            },
            gpu_available: totals.gpu_processes > 0,
            storage_available: complete || totals.storage_processes > 0,
            disk_space_scope: "",
            network_available: totals.network_processes > 0,
            network_bytes_available: self.network_counters_available && totals.network_processes
                > 0,
            network_connections_available: totals.network_processes > 0,
            resources_shared: shared,
        };
        proof {
            assert(shared == exists|i: int|
                0 <= i < self.shared_pids@.len() && self.attributed_set(set).contains(
                    #[trigger] self.shared_pids@[i],
                )) by {
                assert forall|i: int| 0 <= i < self.shared_pids@.len() implies pids@.contains(
                    #[trigger] self.shared_pids@[i],
                ) == self.attributed_set(set).contains(self.shared_pids@[i]) by {}
            }
        }
        ResourceUsage {
            compute: self.compute(
                &totals,
                if complete {
                    Some(cgroup)
                } else {
                    None
                },
            ),
            storage: self.storage(&io, &open, &referenced),
            network: self.network(&sockets),
            energy: self.estimated_energy(totals.cpu_ticks),
            measurement,
        }
    }

    pub fn usage_for_target(&self, target_id: &String, roots: &[u32]) -> (usage: ResourceUsage)
        requires
            self.wf(),
        ensures
            usage == self.usage_of_target(target_id@, roots@.to_set()),
    {
        let mut usage = self.usage_for_roots(roots);
        match self.app_disk_by_target.get(target_id) {
            Some(disk) => {
                usage.storage.disk_space_total_bytes = disk.total_bytes;
                usage.storage.disk_space_temporary_bytes = disk.temporary_bytes;
                usage.storage.disk_space_permanent_bytes = disk.permanent_bytes;
                usage.measurement.disk_space_scope = "identified-app-directories";
            },
            None => {
                usage.measurement.disk_space_scope = "unavailable";
            },
        }
        usage
    }

    /// Adds a process that is not in the sample yet.
    pub fn insert(&mut self, pid: u32, process: ProcessUsage)
        requires
            old(self).wf(),
            process.files.wf(),
            !old(self).processes@.contains_key(pid),
        ensures
            final(self).wf(),
            final(self).processes.pairs() == old(self).processes.pairs().push((pid, process)),
            final(self).total_process_ticks == counter_sum(
                old(self).total_process_ticks,
                process.cpu_ticks,
            ),
            final(self).children@.dom() == old(self).children@.dom().insert(process.parent_pid),
            final(self).children@[process.parent_pid]@ == (if old(self).children@.contains_key(
                process.parent_pid,
            ) {
                old(self).children@[process.parent_pid]@
            } else {
                Seq::empty()
            }).push(pid),
            forall|parent: u32|
                parent != process.parent_pid && #[trigger] old(self).children@.contains_key(parent)
                    ==> final(self).children@[parent] == old(self).children@[parent],
            final(self).cgroup_members_by_root == old(self).cgroup_members_by_root,
            final(self).cgroup_path_by_root == old(self).cgroup_path_by_root,
            final(self).cgroup_usage == old(self).cgroup_usage,
            final(self).app_disk_by_target == old(self).app_disk_by_target,
            final(self).shared_pids == old(self).shared_pids,
            final(self).logical_cpus == old(self).logical_cpus,
            final(self).system_ticks == old(self).system_ticks,
            final(self).interval_nanoseconds == old(self).interval_nanoseconds,
            final(self).system_energy_microjoules == old(self).system_energy_microjoules,
            final(self).system_discharge_picowatts == old(self).system_discharge_picowatts,
            final(self).battery_full_picowatt_hours == old(self).battery_full_picowatt_hours,
            final(self).energy_source == old(self).energy_source,
            final(self).network_deltas == old(self).network_deltas,
            final(self).network_counters_available == old(self).network_counters_available,
    {
        let ghost before = self.processes.pairs();
        add_counter(&mut self.total_process_ticks, process.cpu_ticks);
        let parent = process.parent_pid;
        add_child(&mut self.children, parent, pid);
        let _ = self.processes.insert(pid, process);
        proof {
            assert forall|i: int| 0 <= i < self.processes.pairs().len() implies (
            #[trigger] self.processes.pairs()[i]).1.files.wf() by {
                if i < before.len() {
                    assert(self.processes.pairs()[i] == before[i]);
                }
            }
        }
    }
}

/// Lists a process as the last child of its parent.
pub fn add_child(children: &mut Table<u32, Vec<u32>>, parent: u32, pid: u32)
    requires
        old(children).wf(),
    ensures
        final(children).wf(),
        final(children)@.dom() == old(children)@.dom().insert(parent),
        final(children)@[parent]@ == (if old(children)@.contains_key(parent) {
            old(children)@[parent]@
        } else {
            Seq::empty()
        }).push(pid),
        forall|other: u32|
            other != parent && #[trigger] old(children)@.contains_key(other)
                ==> final(children)@[other] == old(children)@[other],
{
    let mut list = match children.remove(&parent) {
        Some(list) => list,
        None => Vec::new(),
    };
    list.push(pid);
    let _ = children.insert(parent, list);
    assert(children@.dom() =~= old(children)@.dom().insert(parent));
}

/// Each total is the sum over the listed processes, or the largest number where
/// the sum is above that: every process counts once, whatever the order.
pub proof fn lemma_totals_are_sums(processes: Seq<(u32, ProcessUsage)>, pids: Set<u32>)
    ensures
        ({
            let total = |f: spec_fn(ProcessUsage) -> u64|
                capped(
                    seq_sum(
                        processes,
                        |p: (u32, ProcessUsage)|
                            if pids.contains(p.0) {
                                f(p.1) as nat
                            } else {
                                0
                            },
                    ),
                );
            let totals = totals_of(processes, pids);
            &&& totals.cpu_ticks == total(|p: ProcessUsage| p.cpu_ticks)
            &&& totals.memory_bytes == total(|p: ProcessUsage| p.memory.best_bytes())
            &&& totals.memory_rss_bytes == total(|p: ProcessUsage| p.memory.rss_bytes)
            &&& totals.memory_pss_bytes == total(|p: ProcessUsage| p.memory.pss_bytes)
            &&& totals.memory_private_bytes == total(|p: ProcessUsage| p.memory.private_bytes)
            &&& totals.memory_swap_bytes == total(|p: ProcessUsage| p.memory.swap_bytes)
            &&& totals.process_count == total(|p: ProcessUsage| 1)
            &&& totals.thread_count == total(|p: ProcessUsage| p.thread_count)
            &&& totals.major_faults == total(|p: ProcessUsage| p.major_faults)
            &&& totals.gpu_nanoseconds == total(|p: ProcessUsage| p.gpu_nanoseconds)
            &&& totals.io.physical_read_bytes == total(|p: ProcessUsage| p.io.physical_read_bytes)
            &&& totals.io.physical_write_bytes == total(|p: ProcessUsage| p.io.physical_write_bytes)
            &&& totals.io.logical_read_bytes == total(|p: ProcessUsage| p.io.logical_read_bytes)
            &&& totals.io.logical_write_bytes == total(|p: ProcessUsage| p.io.logical_write_bytes)
            &&& totals.io.read_operations == total(|p: ProcessUsage| p.io.read_operations)
            &&& totals.io.write_operations == total(|p: ProcessUsage| p.io.write_operations)
        }),
    decreases processes.len(),
{
    if processes.len() > 0 {
        lemma_totals_are_sums(processes.drop_last(), pids);
    }
}

} // verus!
