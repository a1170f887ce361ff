//! When the daemon looks again, what it records, and where commands are looked for.

use vstd::prelude::*;
use crate::aggregate::{HistoryPoint, Pending};
use crate::cursor::FILE_VERSION;
use crate::disk_laws::{absolute, are_names, lemma_components, lemma_joined};
use crate::history::{energy_recorded, sample_milliseconds, usage_recorded, EnergyEntry};
use crate::platform::command_files;
use crate::protocol::{NAME, VERSION};
use crate::sampler::{APP_DISK_PERIOD, OPEN_FILES_PERIOD};
use crate::series::SeriesView;
use crate::service::{
    energies_recorded, refresh_for, usages_recorded, Refresh, Signal,
    CATALOG_RECOVERY_MILLISECONDS, COMPOSITOR_MILLISECONDS, HISTORY_SAVE_MILLISECONDS,
    LAUNCH_HANDOFF_MILLISECONDS, RESOURCE_SAMPLE_MILLISECONDS, WINDOW_RECOVERY_MILLISECONDS,
};
use crate::settings::SETTINGS_VERSION;
use crate::snapshot::ResourceSnapshot;
use crate::splitting_laws::{is_free_of, lemma_together_split, together};

verus! {

/// An announced change is acted upon after a short while, in which others may come; a
/// timer at once; and where nothing is announced any more, that way of looking ends.
pub proof fn lemma_refresh()
    ensures
        refresh_for(Signal::Windows(true)) == Refresh::Windows(75),
        refresh_for(Signal::Directories(true)) == Refresh::Catalog(75),
        refresh_for(Signal::WindowTimer) == Refresh::Windows(0),
        refresh_for(Signal::CatalogTimer) == Refresh::Catalog(0),
        refresh_for(Signal::Windows(false)) is Stop,
        refresh_for(Signal::Directories(false)) is Stop,
{
}

/// A command that is a path is that file; any other is looked for in the directories of
/// the search path, in their order.
pub proof fn lemma_command_files(
    command: Seq<char>,
    directories: Seq<Seq<char>>,
    names: Seq<Seq<char>>,
    i: int,
)
    requires
        are_names(seq![command]),
        are_names(names) && names.len() > 0,
        0 <= i < directories.len(),
        forall|k: int|
            0 <= k < directories.len() ==> is_free_of(#[trigger] directories[k], ':')
                && directories[k].len() > 0 && directories[k].last() != '/',
    ensures
        command_files(absolute(names), Some(together(directories, ':'))) == seq![absolute(names)],
        command_files(absolute(names), None) == seq![absolute(names)],
        command_files(command, None).len() == 0,
        command_files(command, Some(together(directories, ':'))).len() == directories.len(),
        command_files(command, Some(together(directories, ':')))[i] == directories[i] + "/"@
            + command,
{
    lemma_components(names);
    lemma_components(seq![command]);
    assert(together(seq![command], '/') == command);
    lemma_together_split(directories, ':');
    assert(seq![command][0] == command);
    assert(command.len() > 0 && is_free_of(command, '/'));
    lemma_joined(directories[i], command);
}

/// Each application is recorded with what it used itself; a sample that lasted no time
/// is not recorded at all.
pub proof fn lemma_each_recorded(
    s: SeriesView<HistoryPoint, Pending>,
    ledger: SeriesView<EnergyEntry, EnergyEntry>,
    targets: Seq<(String, Vec<u32>)>,
    target: (String, Vec<u32>),
    snapshot: ResourceSnapshot,
    now: u64,
)
    ensures
        snapshot.interval_nanoseconds == 0 ==> usages_recorded(s, targets, snapshot, now) == s
            && energies_recorded(ledger, targets, snapshot, now) == ledger,
        usages_recorded(s, Seq::empty(), snapshot, now) == s,
        energies_recorded(ledger, Seq::empty(), snapshot, now) == ledger,
        snapshot.interval_nanoseconds > 0 ==> ({
            let usage = snapshot.usage_of_target(target.0@, target.1@.to_set());
            &&& usages_recorded(s, targets.push(target), snapshot, now) == usage_recorded(
                usages_recorded(s, targets, snapshot, now),
                target.0@,
                now,
                sample_milliseconds(snapshot.interval_nanoseconds),
                usage,
            )
            &&& energies_recorded(ledger, targets.push(target), snapshot, now) == energy_recorded(
                energies_recorded(ledger, targets, snapshot, now),
                target.0@,
                now,
                usage,
            )
        }),
{
    assert(targets.push(target).drop_last() =~= targets);
}

/// How long a number of milliseconds is.
pub open spec fn seconds(n: nat) -> nat {
    1_000 * n
}

/// Resources are sampled every two seconds and saved every minute; windows are listed
/// every five seconds and applications every half minute, though nothing announces a
/// change; a command has ten seconds and the compositor two; files are listed every
/// ten seconds and directories measured every half minute.
pub proof fn lemma_periods()
    ensures
        RESOURCE_SAMPLE_MILLISECONDS == seconds(2),
        HISTORY_SAVE_MILLISECONDS == seconds(60),
        WINDOW_RECOVERY_MILLISECONDS == seconds(5),
        CATALOG_RECOVERY_MILLISECONDS == seconds(30),
        LAUNCH_HANDOFF_MILLISECONDS == seconds(10),
        COMPOSITOR_MILLISECONDS == seconds(2),
        OPEN_FILES_PERIOD == 1_000_000 * seconds(10),
        APP_DISK_PERIOD == 1_000_000 * seconds(30),
{
}

/// What is written today is of the first version of everything.
pub proof fn lemma_versions()
    ensures
        FILE_VERSION == 1,
        SETTINGS_VERSION == 1,
        VERSION == 1,
        NAME@ == "app-api"@,
{
}

} // verus!
