//! What the daemon keeps up to date, and when.

use std::sync::Arc;
use vstd::prelude::*;
use crate::aggregate::{HistoryPoint, Pending, PendingPoint};
use crate::catalog::{Catalog, views_of};
use crate::cursor::{CursorError, HistoryCursor, FILE_VERSION};
use crate::events::StateRevision;
use crate::history::{
    EnergyEntry, HistoryStore, PendingEnergy, cursor_result, energy_recorded, matching, page_points,
    page_size, sample_milliseconds, usage_recorded,
};
use crate::hyprland::{Snapshot, windows_of};
use crate::identity::resolve_target;
use crate::model::ApplicationResourceHistory;
use crate::query::windows_for;
use crate::series::{SeriesView, flushed, list_of, point_views};
use crate::settings::{Preferences, SettingsStore, gives, has_entry};
use crate::snapshot::ResourceSnapshot;
use crate::summary::pids_of;
use crate::table::Table;

verus! {

/// How often the resources of applications are sampled.
pub const RESOURCE_SAMPLE_MILLISECONDS: u64 = 2_000;

/// How often the windows are listed where nothing announces a change.
pub const WINDOW_RECOVERY_MILLISECONDS: u64 = 5_000;

/// How often the catalog is read where nothing announces a change.
pub const CATALOG_RECOVERY_MILLISECONDS: u64 = 30_000;

/// How long to wait for more of what is announced before acting on it.
pub const EVENT_DEBOUNCE_MILLISECONDS: u64 = 75;

/// How often the history is saved.
pub const HISTORY_SAVE_MILLISECONDS: u64 = 60_000;

/// How long a command may take to hand an application over.
pub const LAUNCH_HANDOFF_MILLISECONDS: u64 = 10_000;

/// How long the compositor may take to answer.
pub const COMPOSITOR_MILLISECONDS: u64 = 2_000;

// ---------------------------------------------------------------------
// Keeping up to date

pub fn revisions(catalog: &Catalog, windows: &Snapshot) -> (revisions: StateRevision)
    ensures
        revisions == (StateRevision { catalog: catalog.revision, windows: windows.revision }),
{
    StateRevision { catalog: catalog.revision, windows: windows.revision }
}

/// Takes the place of the catalog if anything visible changed; the new revisions
/// are to be announced.
pub fn refresh_catalog(current: &mut Arc<Catalog>, next: Arc<Catalog>, windows: &Snapshot) -> (announced:
    Option<StateRevision>)
    ensures
        match announced {
            Some(now) => next.revision != old(current).revision && *final(current) == next && now
                == (StateRevision { catalog: next.revision, windows: windows.revision }),
            None => next.revision == old(current).revision && *final(current) == *old(current),
        },
{
    if next.revision != current.revision {
        let now = revisions(&next, windows);
        *current = next;
        Some(now)
    } else {
        None
    }
}

/// Takes the place of the windows if they changed or became known or unknown;
/// the new revisions are to be announced.
pub fn refresh_windows(current: &mut Arc<Snapshot>, next: Arc<Snapshot>, catalog: &Catalog) -> (announced:
    Option<StateRevision>)
    ensures
        match announced {
            Some(now) => (next.available != old(current).available || next.revision != old(
                current,
            ).revision) && *final(current) == next && now == (StateRevision {
                catalog: catalog.revision,
                windows: next.revision,
            }),
            None => next.available == old(current).available && next.revision == old(
                current,
            ).revision && *final(current) == *old(current),
        },
{
    if next.available != current.available || next.revision != current.revision {
        let now = revisions(catalog, &next);
        *current = next;
        Some(now)
    } else {
        None
    }
}

/// What makes the daemon look again.
#[derive(Debug, Clone, Copy, PartialEq, Eq, Structural)]
pub enum Signal {
    /// Windows changed; false where changes are no longer announced.
    Windows(bool),
    /// Application directories changed; false where changes are no longer
    /// announced.
    Directories(bool),
    WindowTimer,
    CatalogTimer,
}

/// What to look at again.
#[derive(Debug, Clone, Copy, PartialEq, Eq, Structural)]
pub enum Refresh {
    /// After so many milliseconds.
    Windows(u64),
    /// After so many milliseconds.
    Catalog(u64),
    Stop,
}

pub open spec fn refresh_for(signal: Signal) -> Refresh {
    match signal {
        Signal::Windows(open) => if open {
            Refresh::Windows(EVENT_DEBOUNCE_MILLISECONDS)
        } else {
            Refresh::Stop
        },
        Signal::Directories(open) => if open {
            Refresh::Catalog(EVENT_DEBOUNCE_MILLISECONDS)
        } else {
            Refresh::Stop
        },
        Signal::WindowTimer => Refresh::Windows(0),
        Signal::CatalogTimer => Refresh::Catalog(0),
    }
}

pub fn respond(signal: Signal) -> (refresh: Refresh)
    ensures
        refresh == refresh_for(signal),
{
    match signal {
        Signal::Windows(open) => if open {
            Refresh::Windows(EVENT_DEBOUNCE_MILLISECONDS)
        } else {
            Refresh::Stop
        },
        Signal::Directories(open) => if open {
            Refresh::Catalog(EVENT_DEBOUNCE_MILLISECONDS)
        } else {
            Refresh::Stop
        },
        Signal::WindowTimer => Refresh::Windows(0),
        Signal::CatalogTimer => Refresh::Catalog(0),
    }
}

/// The history is to be saved.
pub fn save_due(elapsed_milliseconds: u64) -> (due: bool)
    ensures
        due == (elapsed_milliseconds >= HISTORY_SAVE_MILLISECONDS),
{
    elapsed_milliseconds >= HISTORY_SAVE_MILLISECONDS
}

// ---------------------------------------------------------------------
// Sampling

/// The processes of the windows of each application.
pub fn sampling_targets(catalog: &Catalog, windows: &Snapshot, cgroups: &Table<u32, String>) -> (
targets: Table<String, Vec<u32>>)
    requires
        cgroups.wf(),
    ensures
        targets.wf(),
        forall|id: Seq<char>| #[trigger]
            targets@.contains_key(id) == (windows_for(
                views_of(catalog.entries@),
                cgroups@,
                windows_of(windows.clients@),
                id,
            ).len() > 0),
        forall|id: Seq<char>| #[trigger]
            targets@.contains_key(id) ==> targets@[id]@ == pids_of(
                windows_for(
                    views_of(catalog.entries@),
                    cgroups@,
                    windows_of(windows.clients@),
                    id,
                ),
            ),
{
    let ghost entries = views_of(catalog.entries@);
    let ghost all = windows_of(windows.clients@);
    let mut targets: Table<String, Vec<u32>> = Table::new();
    for i in 0..windows.clients.len()
        invariant
            cgroups.wf(),
            targets.wf(),
            entries == views_of(catalog.entries@),
            all == windows_of(windows.clients@),
            forall|id: Seq<char>| #[trigger]
                targets@.contains_key(id) == (windows_for(
                    entries,
                    cgroups@,
                    all.take(i as int),
                    id,
                ).len() > 0),
            forall|id: Seq<char>| #[trigger]
                targets@.contains_key(id) ==> targets@[id]@ == pids_of(
                    windows_for(entries, cgroups@, all.take(i as int), id),
                ),
    {
        let client = &windows.clients[i];
        let ghost before = targets@;
        let ghost front = all.take(i as int);
        let ghost now = all.take(i + 1);
        assert(now.drop_last() =~= front);
        assert(now.last() == client@);
        let target = resolve_target(catalog, client, cgroups);
        let ghost id = target@;
        let mut pids = match targets.remove(&target) {
            Some(pids) => pids,
            None => {
                assert(windows_for(entries, cgroups@, front, id).len() == 0);
                assert(pids_of(windows_for(entries, cgroups@, front, id)) =~= Seq::empty());
                Vec::new()
            },
        };
        assert(pids@ == pids_of(windows_for(entries, cgroups@, front, id)));
        pids.push(client.pid);
        let _ = targets.insert(target, pids);
        proof {
            assert(windows_for(entries, cgroups@, now, id) == windows_for(
                entries,
                cgroups@,
                front,
                id,
            ).push(client@));
            assert(pids@ =~= pids_of(windows_for(entries, cgroups@, now, id)));
            assert forall|other: Seq<char>| other != id implies windows_for(
                entries,
                cgroups@,
                now,
                other,
            ) == #[trigger] windows_for(entries, cgroups@, front, other) by {}
            assert forall|other: Seq<char>| #[trigger] targets@.contains_key(other) == (windows_for(
                entries,
                cgroups@,
                now,
                other,
            ).len() > 0) by {
                if other != id {
                    assert(targets@.contains_key(other) == before.contains_key(other));
                    assert(windows_for(entries, cgroups@, front, other) == windows_for(
                        entries,
                        cgroups@,
                        now,
                        other,
                    ));
                }
            }
            assert forall|other: Seq<char>| #[trigger]
                targets@.contains_key(other) implies targets@[other]@ == pids_of(
                windows_for(entries, cgroups@, now, other),
            ) by {
                if other != id {
                    assert(before.contains_key(other));
                    assert(windows_for(entries, cgroups@, front, other) == windows_for(
                        entries,
                        cgroups@,
                        now,
                        other,
                    ));
                }
            }
        }
    }
    assert(all.take(all.len() as int) =~= all);
    targets
}

/// The points after a sample of some applications.
pub open spec fn usages_recorded(
    s: SeriesView<HistoryPoint, Pending>,
    targets: Seq<(String, Vec<u32>)>,
    snapshot: ResourceSnapshot,
    now: u64,
) -> SeriesView<HistoryPoint, Pending>
    decreases targets.len(),
{
    if targets.len() == 0 || snapshot.interval_nanoseconds == 0 {
        s
    } else {
        let (id, pids) = targets.last();
        usage_recorded(
            usages_recorded(s, targets.drop_last(), snapshot, now),
            id@,
            now,
            sample_milliseconds(snapshot.interval_nanoseconds),
            snapshot.usage_of_target(id@, pids@.to_set()),
        )
    }
}

/// The energy ledger after a sample of some applications.
pub open spec fn energies_recorded(
    s: SeriesView<EnergyEntry, EnergyEntry>,
    targets: Seq<(String, Vec<u32>)>,
    snapshot: ResourceSnapshot,
    now: u64,
) -> SeriesView<EnergyEntry, EnergyEntry>
    decreases targets.len(),
{
    if targets.len() == 0 || snapshot.interval_nanoseconds == 0 {
        s
    } else {
        let (id, pids) = targets.last();
        energy_recorded(
            energies_recorded(s, targets.drop_last(), snapshot, now),
            id@,
            now,
            snapshot.usage_of_target(id@, pids@.to_set()),
        )
    }
}

/// Puts a sample of all applications into the history.
pub fn record_sample(
    history: &mut HistoryStore,
    snapshot: &ResourceSnapshot,
    targets: &Table<String, Vec<u32>>,
    now: u64,
)
    requires
        old(history).wf(),
        snapshot.wf(),
    ensures
        final(history).wf(),
        final(history).resources@ == usages_recorded(
            old(history).resources@,
            targets.pairs(),
            *snapshot,
            now,
        ),
        final(history).energy@ == energies_recorded(
            old(history).energy@,
            targets.pairs(),
            *snapshot,
            now,
        ),
{
    let ghost points = history.resources@;
    let ghost ledger = history.energy@;
    let ghost pairs = targets.pairs();
    let count = targets.len();
    for i in 0..count
        invariant
            history.wf(),
            snapshot.wf(),
            pairs == targets.pairs(),
            count == pairs.len(),
            history.resources@ == usages_recorded(points, pairs.take(i as int), *snapshot, now),
            history.energy@ == energies_recorded(ledger, pairs.take(i as int), *snapshot, now),
    {
        assert(pairs.take(i + 1).drop_last() =~= pairs.take(i as int));
        assert(pairs.take(i + 1).last() == pairs[i as int]);
        let id = targets.key_at(i);
        let pids = targets.value_at(i);
        let usage = snapshot.usage_for_target(id, pids.as_slice());
        history.record(id, now, snapshot.interval_nanoseconds, &usage);
        proof {
            if snapshot.interval_nanoseconds == 0 {
                assert(usages_recorded(points, pairs.take(i as int), *snapshot, now) == points);
                assert(energies_recorded(ledger, pairs.take(i as int), *snapshot, now) == ledger);
            }
        }
    }
    assert(pairs.take(count as int) =~= pairs);
}

// ---------------------------------------------------------------------
// History

/// How many points are handed out where the client does not say.
pub const DEFAULT_HISTORY_LIMIT: usize = 1_000;

/// What a client asks for.
#[derive(Debug)]
pub struct ResourceHistoryParams {
    pub target_id: String,
    pub since_ms: Option<u64>,
    /// Where the last part ended, as it was handed out.
    pub cursor: Option<String>,
    pub limit: usize,
}

impl ResourceHistoryParams {
    /// The beginning of the history of an application.
    pub fn new(target_id: String) -> (params: Self)
        ensures
            params.target_id == target_id,
            params.since_ms is None,
            params.cursor is None,
            params.limit == DEFAULT_HISTORY_LIMIT,
    {
        ResourceHistoryParams {
            target_id,
            since_ms: None,
            cursor: None,
            limit: DEFAULT_HISTORY_LIMIT,
        }
    }
}

/// A part of an application's history. `cursor` is what became of the one that
/// the client handed in.
pub fn resource_history(
    history: &mut HistoryStore,
    params: &ResourceHistoryParams,
    cursor: Option<Result<HistoryCursor, CursorError>>,
    now: u64,
) -> (part: Result<ApplicationResourceHistory, CursorError>)
    requires
        old(history).wf(),
    ensures
        final(history).wf(),
        final(history).resources@ == flushed::<PendingPoint>(old(history).resources@, now),
        final(history).energy@ == flushed::<PendingEnergy>(old(history).energy@, now),
        match part {
            Err(e) => cursor_result(cursor, params.target_id@) == Err::<Option<u64>, CursorError>(
                e,
            ),
            Ok(p) => {
                let list = list_of(final(history).resources@.points, params.target_id@);
                let after = cursor_result(cursor, params.target_id@)->Ok_0;
                let shown = page_points(list, params.since_ms, after, params.limit);
                &&& cursor_result(cursor, params.target_id@) is Ok
                &&& p.target_id@ == params.target_id@
                &&& point_views(p.points@) == shown
                &&& p.has_more == (matching(list, params.since_ms, after).len() > page_size(
                    params.limit,
                ))
                &&& match p.next_cursor {
                    Some(next) => shown.len() > 0 && next.version == FILE_VERSION
                        && next.target_id@ == params.target_id@ && next.after_timestamp_ms
                        == shown.last().timestamp_ms,
                    None => shown.len() == 0,
                }
            },
        },
{
    match history.query(&params.target_id, params.since_ms, cursor, params.limit, now) {
        Err(e) => Err(e),
        Ok(page) => Ok(
            ApplicationResourceHistory {
                target_id: params.target_id.clone(),
                points: page.points,
                has_more: page.has_more,
                next_cursor: page.next_cursor,
            },
        ),
    }
}

// ---------------------------------------------------------------------
// Settings

/// What a client asks for.
#[derive(Debug)]
pub struct UpdateSettingsParams {
    pub target_id: String,
    pub category: String,
}

/// The workspace that the user chose for an application.
pub fn preferred_workspace(settings: &SettingsStore, target_id: &str) -> (workspace: Option<String>)
    requires
        settings.wf(),
    ensures
        match workspace {
            Some(w) => exists|p: Preferences| #[trigger]
                gives(settings@, target_id@, p) && p.workspace == Some(w@),
            None => !has_entry(settings@, target_id@) || exists|p: Preferences| #[trigger]
                gives(settings@, target_id@, p) && p.workspace is None,
        },
{
    match settings.for_application(target_id) {
        None => None,
        Some(preferences) => {
            assert(gives(settings@, target_id@, preferences@));
            match &preferences.workspace_id {
                Some(workspace) => Some(workspace.clone()),
                None => None,
            }
        },
    }
}

} // verus!
