//! What the parts of the library's values are read as.

use vstd::prelude::*;
use crate::catalog::CatalogEntry;
use crate::hyprland::Client;
use crate::model::{
    ApplicationIdentity, ApplicationSummary, DesktopActionSummary, OperationResult,
    ResourceHistoryPoint, WindowSummary,
};
use crate::overview::EnergyShare;
use crate::text::{optional_text, texts};

verus! {

/// An application of the catalog is read as it stands.
pub proof fn lemma_entry(entry: CatalogEntry)
    ensures
        entry@.id == entry.id@,
        entry@.name == entry.name@,
        entry@.generic_name == entry.generic_name@,
        entry@.comment == entry.comment@,
        entry@.icon == entry.icon@,
        entry@.keywords == texts(entry.keywords@),
        entry@.categories == texts(entry.categories@),
        entry@.startup_class == entry.startup_class@,
        entry@.actions == crate::catalog::action_views(entry.actions@),
        entry@.launch_only == entry.launch_only,
{
}

/// A window is read as the compositor describes it.
pub proof fn lemma_client(client: Client)
    ensures
        client@.address == client.address@,
        client@.class == client.class@,
        client@.initial_class == client.initial_class@,
        client@.title == client.title@,
        client@.pid == client.pid,
        client@.workspace_id == client.workspace.id,
        client@.workspace_name == client.workspace.name@,
        client@.focus_rank == client.focus_rank,
        client@.mapped == client.mapped,
{
}

/// What an application is called is read as it stands.
pub proof fn lemma_identity(identity: ApplicationIdentity)
    ensures
        identity@.id == identity.id@,
        identity@.kind == identity.kind@,
        identity@.name == identity.name@,
        identity@.generic_name == identity.generic_name@,
        identity@.comment == identity.comment@,
        identity@.icon == identity.icon@,
        identity@.keywords == texts(identity.keywords@),
        identity@.categories == texts(identity.categories@),
        identity@.startup_class == identity.startup_class@,
{
}

/// A window in an answer is read as it stands.
pub proof fn lemma_window(window: WindowSummary)
    ensures
        window@.id == window.id@,
        window@.title == window.title@,
        window@.class == window.class@,
        window@.workspace_id == window.workspace_id@,
        window@.workspace_name == window.workspace_name@,
        window@.focused == window.focused,
        window@.focus_rank == window.focus_rank,
        window@.resources == window.resources,
{
}

/// A point of a history is read as it stands.
pub proof fn lemma_point(point: ResourceHistoryPoint)
    ensures
        point@.timestamp_ms == point.timestamp_ms,
        point@.duration_ms == point.duration_ms,
        point@.compute == point.resources.compute,
        point@.storage == point.resources.storage,
        point@.network == point.resources.network,
        point@.energy_mwh_e4 == point.resources.energy_mwh_e4,
        point@.battery_percent_e6 == point.resources.battery_percent_e6,
        point@.average_power_watts_e3 == point.resources.average_power_watts_e3,
        point@.system_power_watts_e3 == point.resources.system_power_watts_e3,
        point@.attributed_fraction_e4 == point.resources.attributed_fraction_e4,
        point@.energy_source == point.resources.energy_source@,
        point@.energy_confidence == point.resources.energy_confidence@,
        point@.sample_count == point.resources.sample_count,
        point@.coverage_e4 == point.resources.coverage_e4,
        point@.peaks == point.resources.peaks,
{
}

/// A share of the energy is read as it stands.
pub proof fn lemma_share(share: EnergyShare)
    ensures
        share@.target == share.target_id@,
        share@.name == share.name@,
        share@.icon == share.icon@,
        share@.energy == share.energy_mwh_e4,
        share@.share == share.share_e4,
        share@.source == share.energy_source@,
        share@.confidence == share.energy_confidence@,
{
}

/// The record of an operation is read as it stands.
pub proof fn lemma_operation(operation: OperationResult)
    ensures
        operation@.id == operation.id@,
        operation@.action == operation.action@,
        operation@.target_id == operation.target_id@,
        operation@.status == operation.status@,
        operation@.message == operation.message@,
        operation@.launch_backend == optional_text(operation.launch_backend),
        operation@.launch_scope == optional_text(operation.launch_scope),
{
}

/// An application in an answer is read as it stands, with each of its windows and
/// actions.
pub proof fn lemma_application(application: ApplicationSummary, i: int)
    ensures
        application@.identity == application.identity@,
        application@.revision == application.revision,
        application@.running == application.runtime.running,
        application@.focused == application.runtime.focused,
        application@.running_count == application.runtime.running_count,
        application@.resources == application.runtime.resources,
        application@.instances.len() == application.runtime.instances@.len(),
        0 <= i < application.runtime.instances@.len() ==> application@.instances[i]
            == application.runtime.instances@[i]@,
        application@.desktop_actions.len() == application.desktop_actions@.len(),
        0 <= i < application.desktop_actions@.len() ==> ({
            let action: DesktopActionSummary = application.desktop_actions@[i];
            let shown = application@.desktop_actions[i];
            shown.id == action.id@ && shown.name == action.name@ && shown.icon == action.icon@
        }),
        application@.match_score == application.match_score,
        application@.match_kind == application.match_kind@,
        application@.runtime_score == application.runtime_score,
        application@.score == application.score,
{
}

} // verus!
