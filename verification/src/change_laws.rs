//! What the library's functions change.

use vstd::prelude::*;
use crate::action::ExecuteParams;
use crate::aggregate::WeightedCompute;
use crate::history::HistoryStore;
use crate::model::{ComputeUsage, OperationResult, ResourceUsage};
use crate::operations::{Operations, StaleRevision};
use crate::sampler::{Reading, ResourceSampler};
use crate::series::list_of;
use crate::settings::{
    gives, has_entry, InvalidCategory, Preferences, SettingsChange, SettingsStore,
};
use crate::settings_laws::lemma_workspaces;
use crate::snapshot::ResourceSnapshot;
use crate::table::Table;

verus! {

// ---------------------------------------------------------------------
// Settings

/// A kind of application that there is, and its workspace.
pub open spec fn is_kind(category: Seq<char>, workspace: Seq<char>) -> bool {
    ||| category == "shell"@ && workspace == "1"@
    ||| category == "browser"@ && workspace == "2"@
    ||| category == "code"@ && workspace == "3"@
    ||| category == "media"@ && workspace == "4"@
    ||| category == "text"@ && workspace == "5"@
}

/// Choosing a kind for an application gives it that kind and its workspace, and leaves
/// every other application as it is.
pub proof fn lemma_choose_kind(
    store: &mut SettingsStore,
    target_id: String,
    category: String,
    change: Result<SettingsChange, InvalidCategory>,
    workspace: Seq<char>,
    other: Seq<char>,
    p: Preferences,
)
    requires
        call_ensures(SettingsStore::update, (store, target_id, category), change),
        is_kind(category@, workspace),
    ensures
        change is Ok,
        gives(
            final(store)@,
            target_id@,
            (Preferences { category: category@, workspace: Some(workspace) }),
        ),
        gives(final(store)@, target_id@, p) ==> p.category == category@ && p.workspace == Some(
            workspace,
        ),
        other != target_id@ ==> gives(final(store)@, other, p) == gives(old(store)@, other, p),
{
    lemma_workspaces(category@);
    let chosen = Preferences { category: category@, workspace: Some(workspace) };
    assert(gives(final(store)@, target_id@, chosen));
}

/// What is no kind is refused, and nothing changes.
pub proof fn lemma_refuse_kind(
    store: &mut SettingsStore,
    target_id: String,
    category: String,
    change: Result<SettingsChange, InvalidCategory>,
)
    requires
        call_ensures(SettingsStore::update, (store, target_id, category), change),
        forall|workspace: Seq<char>| !is_kind(category@, workspace),
    ensures
        change is Err,
        *final(store) == *old(store),
{
    lemma_workspaces(category@);
    if crate::settings::workspace_of(category@) is Some {
        let workspace = crate::settings::workspace_of(category@)->0;
        assert(is_kind(category@, workspace));
    }
}

/// Taking a change back gives the application what it had, or nothing where it had
/// nothing, and leaves every other as it is.
pub proof fn lemma_take_back(
    store: &mut SettingsStore,
    change: SettingsChange,
    other: Seq<char>,
    p: Preferences,
)
    requires
        call_ensures(SettingsStore::revert, (store, change), ()),
    ensures
        change.previous is Some ==> gives(final(store)@, change.target_id@, change.previous->0@),
        change.previous is None ==> !has_entry(final(store)@, change.target_id@),
        other != change.target_id@ ==> gives(final(store)@, other, p) == gives(
            old(store)@,
            other,
            p,
        ),
{
    if change.previous is Some {
        let previous = change.previous->0@;
        assert(gives(final(store)@, change.target_id@, previous));
    } else if has_entry(final(store)@, change.target_id@) {
        let list = final(store)@;
        let i = choose|i: int|
            0 <= i < list.len() && (#[trigger] list[i]).0 == change.target_id@;
        assert(list[i] == (change.target_id@, list[i].1));
        assert(gives(list, change.target_id@, list[i].1));
    }
}

// ---------------------------------------------------------------------
// Operations

/// An operation is accepted unless the client saw another list, and is active from
/// there on; the others stay as they are.
pub proof fn lemma_accept(
    operations: &mut Operations,
    id: String,
    params: ExecuteParams,
    revision: u64,
    record: Result<OperationResult, StaleRevision>,
    other: Seq<char>,
)
    requires
        call_ensures(Operations::accept, (operations, id, &params, revision), record),
    ensures
        (record is Err) == (params.expected_revision is Some && params.expected_revision->0
            != revision),
        record is Err ==> *final(operations) == *old(operations),
        match record {
            Ok(r) => final(operations)@.contains_key(id@) && r.id@ == id@ && r.target_id@
                == params.target_id@ && r.status@ == "accepted"@ && final(operations)@[id@] == r@,
            Err(_) => true,
        },
        record is Ok && other != id@ ==> final(operations)@.contains_key(other) == old(operations)@.contains_key(other),
{
}

/// An operation that is cancelled was active and is no longer; one that was not active
/// cannot be.
pub proof fn lemma_cancel(
    operations: &mut Operations,
    id: String,
    report: Option<OperationResult>,
    other: Seq<char>,
)
    requires
        call_ensures(Operations::cancel, (operations, &id), report),
    ensures
        (report is Some) == old(operations)@.contains_key(id@),
        !final(operations)@.contains_key(id@),
        other != id@ ==> final(operations)@.contains_key(other) == old(operations)@.contains_key(
            other,
        ),
        report is Some ==> report->0.status@ == "cancelled"@ && report->0.target_id@ == old(operations)@[id@].target_id,
{
}

/// An operation that ends is reported once.
pub proof fn lemma_finish(
    operations: &mut Operations,
    record: OperationResult,
    report: Option<OperationResult>,
)
    requires
        call_ensures(Operations::finish, (operations, record), report),
    ensures
        (report is Some) == old(operations)@.contains_key(record.id@),
        !final(operations)@.contains_key(record.id@),
        report is Some ==> report->0@ == record@,
{
}

// ---------------------------------------------------------------------
// Samples

/// Every quantity of a sample is added for as long as it held, each to its own sum.
pub proof fn lemma_weighed(sums: &mut WeightedCompute, duration_ms: u64, usage: ComputeUsage)
    requires
        call_ensures(WeightedCompute::add, (sums, duration_ms, &usage), ()),
    ensures
        old(sums).memory + usage.memory_bytes * duration_ms <= u128::MAX ==> final(sums).memory
            == old(sums).memory + usage.memory_bytes * duration_ms,
        old(sums).memory_rss + usage.memory_rss_bytes * duration_ms <= u128::MAX ==> final(sums).memory_rss == old(sums).memory_rss + usage.memory_rss_bytes * duration_ms,
        old(sums).memory_pss + usage.memory_pss_bytes * duration_ms <= u128::MAX ==> final(sums).memory_pss == old(sums).memory_pss + usage.memory_pss_bytes * duration_ms,
        old(sums).cpu + usage.cpu_percent_tenths * duration_ms <= u128::MAX ==> final(sums).cpu
            == old(sums).cpu + usage.cpu_percent_tenths * duration_ms,
        old(sums).machine_cpu + usage.cpu_percent_of_machine_tenths * duration_ms <= u128::MAX
            ==> final(sums).machine_cpu == old(sums).machine_cpu
            + usage.cpu_percent_of_machine_tenths * duration_ms,
        old(sums).gpu + usage.gpu_percent_tenths * duration_ms <= u128::MAX ==> final(sums).gpu
            == old(sums).gpu + usage.gpu_percent_tenths * duration_ms,
{
}

/// A sample that did not last leaves no trace.
pub proof fn lemma_no_time(
    store: &mut HistoryStore,
    target_id: String,
    timestamp_ms: u64,
    usage: ResourceUsage,
)
    requires
        call_ensures(HistoryStore::record, (store, &target_id, timestamp_ms, 0u64, &usage), ()),
    ensures
        *final(store) == *old(store),
{
}

/// After a sample its application has a bucket of the sample's time, with the sample in
/// it; points of the last day stay.
pub proof fn lemma_recorded(
    store: &mut HistoryStore,
    target_id: String,
    timestamp_ms: u64,
    duration_nanoseconds: u64,
    usage: ResourceUsage,
    id: Seq<char>,
    i: int,
)
    requires
        call_ensures(
            HistoryStore::record,
            (store, &target_id, timestamp_ms, duration_nanoseconds, &usage),
            (),
        ),
        duration_nanoseconds > 0,
    ensures
        final(store).resources@.pending.contains_key(target_id@),
        final(store).energy@.pending.contains_key(target_id@),
        old(store).resources@.points.contains_key(id) && 0 <= i < old(store).resources@.points[id].len() && old(store).resources@.points[id][i].timestamp_ms
            + 86_400_000 >= timestamp_ms ==> list_of(final(store).resources@.points, id).contains(
            old(store).resources@.points[id][i],
        ),
{
    let s = old(store).resources@;
    if s.points.contains_key(id) && 0 <= i < s.points[id].len() && s.points[id][i].timestamp_ms
        + 86_400_000 >= timestamp_ms {
        crate::retention_laws::lemma_day_is_kept(
            s,
            target_id@,
            timestamp_ms,
            crate::history::sample_milliseconds(duration_nanoseconds),
            usage,
            id,
            i,
        );
    }
}

/// A sample covers the time since the one before, and lists every process that was
/// read.
pub proof fn lemma_sampled(
    sampler: &mut ResourceSampler,
    targets: Table<String, Vec<u32>>,
    reading: Reading,
    snapshot: ResourceSnapshot,
    previous: u64,
    ticks: u64,
    i: int,
)
    requires
        call_ensures(ResourceSampler::sample_for_targets, (sampler, &targets, reading), snapshot),
        old(sampler).previous_sample == Some(previous),
        old(sampler).previous_system_ticks == Some(ticks),
        previous <= reading.now_nanoseconds,
        ticks <= reading.system_ticks,
        0 <= i < reading.processes.pairs().len(),
    ensures
        previous + snapshot.interval_nanoseconds == reading.now_nanoseconds,
        ticks + snapshot.system_ticks == reading.system_ticks,
        snapshot.logical_cpus == reading.logical_cpus,
        snapshot.processes.pairs()[i].0 == reading.processes.pairs()[i].0,
        snapshot.processes.pairs()[i].1.parent_pid == reading.processes.pairs()[i].1.parent_pid,
        snapshot.processes.pairs()[i].1.thread_count
            == reading.processes.pairs()[i].1.thread_count,
        snapshot.network_counters_available == (reading.network is Some),
        final(sampler).previous_sample == Some(reading.now_nanoseconds),
        final(sampler).previous_system_ticks == Some(reading.system_ticks),
{
}

} // verus!
