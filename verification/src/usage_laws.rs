//! What holds of every measured usage.

use vstd::prelude::*;
use vstd::set_lib::{lemma_int_range, set_int_range};
use crate::metrics::{counter_sum, rated, round_div};
use crate::resources::{DiskFile, DiskFileId, ProcessUsage};
use crate::snapshot::{ResourceSnapshot, files_of, size_if, totals_of};
use crate::table::{distinct_keys, lemma_total_pairs, lemma_total_remove, map_of, map_total};

verus! {

/// A quotient is no more than a bound that the dividend is no more than.
proof fn lemma_rated_bound(n: nat, d: nat, bound: u64)
    requires
        n <= bound * d,
    ensures
        rated(n, d) <= bound,
{
    if d > 0 {
        assert((2 * n + d) / (2 * d) <= bound) by (nonlinear_arith)
            requires
                n <= bound * d,
                d > 0,
        ;
    }
}

/// Every set of process ids is finite.
proof fn lemma_pids_finite(pids: Set<u32>)
    ensures
        pids.finite(),
{
    lemma_int_range(0, 0x1_0000_0000);
    let all = set_int_range(0, 0x1_0000_0000).map(|i: int| i as u32);
    set_int_range(0, 0x1_0000_0000).lemma_map_finite(|i: int| i as u32);
    assert(pids.subset_of(all)) by {
        assert forall|pid: u32| #[trigger] pids.contains(pid) implies all.contains(pid) by {
            assert(set_int_range(0, 0x1_0000_0000).contains(pid as int));
            assert((pid as int) as u32 == pid);
        }
    }
}

proof fn lemma_other_pid(processes: Seq<(u32, ProcessUsage)>, pids: Set<u32>, pid: u32)
    requires
        forall|i: int| 0 <= i < processes.len() ==> (#[trigger] processes[i]).0 != pid,
    ensures
        totals_of(processes, pids.remove(pid)) == totals_of(processes, pids),
    decreases processes.len(),
{
    if processes.len() > 0 {
        assert(processes.last() == processes[processes.len() - 1]);
        assert forall|i: int| 0 <= i < processes.len() - 1 implies (
        #[trigger] processes.drop_last()[i]).0 != pid by {
            assert(processes.drop_last()[i] == processes[i]);
        }
        lemma_other_pid(processes.drop_last(), pids, pid);
    }
}

/// No more processes count than are listed.
proof fn lemma_process_count(processes: Seq<(u32, ProcessUsage)>, pids: Set<u32>)
    requires
        distinct_keys(processes),
        pids.finite(),
    ensures
        totals_of(processes, pids).process_count <= pids.len(),
    decreases processes.len(),
{
    if processes.len() > 0 {
        let front = processes.drop_last();
        let pid = processes.last().0;
        assert(distinct_keys(front)) by {
            assert forall|i: int, j: int| 0 <= i < j < front.len() implies (#[trigger] front[i]).0@
                != (#[trigger] front[j]).0@ by {
                assert(front[i] == processes[i] && front[j] == processes[j]);
            }
        }
        if pids.contains(pid) {
            assert forall|i: int| 0 <= i < front.len() implies (#[trigger] front[i]).0 != pid by {
                assert(front[i] == processes[i]);
                assert(processes[i].0@ != processes[processes.len() - 1].0@);
            }
            lemma_other_pid(front, pids, pid);
            lemma_process_count(front, pids.remove(pid));
        } else {
            lemma_process_count(front, pids);
        }
    }
}

/// Shares stay shares: the processors' and the busiest engine's load are at most
/// the whole, and so are the part of the energy and the part of the processes
/// that are accounted for.
pub proof fn lemma_shares_at_most_whole(snapshot: ResourceSnapshot, roots: Set<u32>)
    requires
        snapshot.wf(),
    ensures
        snapshot.usage_of(roots).compute.cpu_percent_of_machine_tenths <= 1000,
        snapshot.usage_of(roots).compute.gpu_busy_percent_tenths <= 1000,
        snapshot.usage_of(roots).energy.attributed_fraction_e4 <= 10_000,
        snapshot.usage_of(roots).measurement.coverage_part <= snapshot.usage_of(
            roots,
        ).measurement.coverage_whole,
{
    let pids = snapshot.attributed_set(roots);
    let totals = totals_of(snapshot.processes.pairs(), pids);
    let whole = snapshot.total_process_ticks;
    let share = snapshot.charged_ticks(totals.cpu_ticks);
    assert(share * 10_000 <= 10_000 * whole) by (nonlinear_arith)
        requires
            share <= whole,
    ;
    lemma_rated_bound((share * 10_000) as nat, whole as nat, 10_000);
    lemma_pids_finite(pids);
    lemma_process_count(snapshot.processes.pairs(), pids);
}

/// Only what the processors' own counters measured is charged to applications:
/// a battery's discharge tells about the whole system and nothing else.
pub proof fn lemma_energy_attribution(snapshot: ResourceSnapshot, roots: Set<u32>)
    requires
        snapshot.energy_source@ != "rapl"@,
    ensures
        ({
            let energy = snapshot.usage_of(roots).energy;
            &&& energy.energy_mwh_e4 == 0
            &&& energy.battery_percent_e6 == 0
            &&& energy.power_watts_e3 == 0
            &&& energy.estimated_app_power_watts_e3 == 0
            &&& energy.battery_percent_per_hour_e4 == 0
            &&& energy.attributed_fraction_e4 == 0
            &&& energy.energy_confidence@ == "system-only"@
        }),
{
    lemma_rated_bound(0, snapshot.interval_nanoseconds as nat, 0);
    lemma_rated_bound(0, snapshot.battery_full_picowatt_hours as nat, 0);
}

/// No application is charged more energy than the system used.
pub proof fn lemma_energy_at_most_system(snapshot: ResourceSnapshot, roots: Set<u32>)
    ensures
        snapshot.usage_of(roots).energy.energy_mwh_e4 <= rated(
            snapshot.system_energy_microjoules as nat,
            360,
        ),
{
    let energy = snapshot.system_energy_microjoules;
    let whole = snapshot.total_process_ticks;
    let ticks = totals_of(
        snapshot.processes.pairs(),
        snapshot.attributed_set(roots),
    ).cpu_ticks;
    let share = snapshot.charged_ticks(ticks);
    if whole > 0 {
        assert(round_div((energy * share) as nat, (360 * whole) as nat) <= round_div(
            energy as nat,
            360,
        )) by {
            let n = energy as int;
            let d = whole as int;
            let s = share as int;
            assert((2 * (n * s) + 360 * d) / (2 * (360 * d)) <= (2 * n + 360) / 720)
                by (nonlinear_arith)
                requires
                    0 <= s <= d,
                    d > 0,
                    n >= 0,
            {
                assert(n * s <= n * d);
                assert(2 * (n * s) + 360 * d <= (2 * n + 360) * d);
                let q = (2 * n + 360) / 720;
                assert(2 * n + 360 < 720 * (q + 1));
                assert((2 * n + 360) * d < 720 * (q + 1) * d);
                assert(2 * (n * s) + 360 * d < (q + 1) * (2 * (360 * d)));
            }
        }
    }
}

/// Temporary files and the others together are all files.
proof fn lemma_sizes_split(files: Map<DiskFileId, DiskFile>)
    requires
        files.dom().finite(),
    ensures
        map_total(files, size_if(true, true)) == map_total(files, size_if(true, false)) + map_total(
            files,
            size_if(false, true),
        ),
    decreases files.dom().len(),
{
    if files.dom().len() > 0 {
        let id = files.dom().choose();
        assert(files.contains_key(id));
        lemma_total_remove(files, id, size_if(true, true));
        lemma_total_remove(files, id, size_if(true, false));
        lemma_total_remove(files, id, size_if(false, true));
        assert(files.remove(id).dom() =~= files.dom().remove(id));
        lemma_sizes_split(files.remove(id));
    }
}

proof fn lemma_files_finite(
    processes: Seq<(u32, ProcessUsage)>,
    pids: Set<u32>,
    referenced: bool,
)
    requires
        forall|i: int| 0 <= i < processes.len() ==> (#[trigger] processes[i]).1.files.wf(),
    ensures
        files_of(processes, pids, referenced).dom().finite(),
    decreases processes.len(),
{
    if processes.len() > 0 {
        let front = processes.drop_last();
        assert forall|i: int| 0 <= i < front.len() implies (#[trigger] front[i]).1.files.wf() by {
            assert(front[i] == processes[i]);
        }
        lemma_files_finite(front, pids, referenced);
        let files = processes[processes.len() - 1].1.files;
        assert(files.wf());
        let added = if referenced {
            files.referenced
        } else {
            files.open
        };
        lemma_total_pairs(added.pairs(), |id: DiskFileId, file: DiskFile| 0nat);
        assert(added@ == map_of(added.pairs()));
        if pids.contains(processes.last().0) {
            assert(files_of(processes, pids, referenced).dom() =~= files_of(
                front,
                pids,
                referenced,
            ).dom().union(added@.dom()));
        }
    } else {
        assert(files_of(processes, pids, referenced).dom() =~= Set::empty());
    }
}

/// The files that an application refers to are temporary or permanent, and the
/// two parts add up to the whole.
pub proof fn lemma_referenced_files_split(snapshot: ResourceSnapshot, roots: Set<u32>)
    requires
        snapshot.wf(),
    ensures
        ({
            let storage = snapshot.usage_of(roots).storage;
            storage.referenced_file_disk_bytes == counter_sum(
                storage.referenced_file_temporary_bytes,
                storage.referenced_file_permanent_bytes,
            )
        }),
{
    let pids = snapshot.attributed_set(roots);
    lemma_files_finite(snapshot.processes.pairs(), pids, true);
    lemma_sizes_split(files_of(snapshot.processes.pairs(), pids, true));
}

} // verus!
