//! What the library's functions hand back for what they are given.

use vstd::prelude::*;
use crate::accounting_laws::lemma_machine_share;
use crate::catalog::{views_of, Catalog, CatalogEntry};
use crate::catalog_laws::says;
use crate::counter_laws::{fitting, reports};
use crate::desktop_entry::entry_groups;
use crate::disk::{
    disk_breakdown, disk_roots, joined, linked_files, links_socket, process_files, xdg_directory,
    Directories, DiskRoots, FileSize, LinkedFile, Places,
};
use crate::disk_laws::{leads_to, lemma_linked, lemma_merged, lemma_socket};
use crate::energy::zone_reading;
use crate::history::{history_path, EnergyTotal};
use crate::hyprland::{
    dispatch_accepted, is_address, lemma_ranked, ranked, shown, windows_of, Client, Snapshot,
};
use crate::identity::resolve_target_with_cgroup;
use crate::identity_laws::{lemma_class_owner, owns_class};
use crate::key_values::PairForm;
use crate::model::{ApplicationPage, ApplicationSummary, ResourceUsage};
use crate::overview::{
    by_energy, energy_overview, first_totals, lemma_by_energy, overview_limit, total_views,
    EnergyOverview, EnergyOverviewParams,
};
use crate::power_laws::{lemma_shown, shows};
use crate::process_tree::{descends, is_child, is_descent};
use crate::procfs::{cgroup_directory, parse_process_memory, parse_system_cpu};
use crate::query::{results, QueryParams, Sources};
use crate::query_laws::lemma_matches_are_listed;
use crate::resources::{DiskBreakdown, DiskFileId, MemoryUsage, ProcessFiles};
use crate::sampler::active_processes;
use crate::search::{asked, search_match, SearchMatch};
use crate::search_laws::{is_ascii_summary, is_text_of, lemma_text_is_found};
use crate::service::ResourceHistoryParams;
use crate::settings::{inferred_category, settings_path, workspace_for_category, SettingsStore};
use crate::settings_laws::{for_browsing, for_media, for_text, lists};
use crate::snapshot::ResourceSnapshot;
use crate::summary::summary_views;
use crate::table::Table;
use crate::text::{
    ascii_lowercase, decimal, ends_with, is_white_space, lines, starts_with, texts, trim,
    trim_start_matches,
};
use crate::text_laws::{lemma_endings, lemma_trim, occurs};
use crate::window_laws::lemma_is_shown;

verus! {

// ---------------------------------------------------------------------
// Applications

/// An application belongs on a workspace by what its desktop file lists: first of all
/// browsers, then what serves to write programs, then media, then texts, and the rest
/// with the shell.
pub proof fn lemma_category(categories: &[String], category: &'static str)
    requires
        call_ensures(inferred_category, (categories,), category),
    ensures
        ({
            let list = texts(categories@);
            category@ == (if lists(list, "WebBrowser"@) || lists(list, "Network"@) {
                "browser"@
            } else if lists(list, "Development"@) {
                "code"@
            } else if lists(list, "AudioVideo"@) || lists(list, "Audio"@) || lists(list, "Video"@)
                || lists(list, "Graphics"@) {
                "media"@
            } else if lists(list, "Office"@) || lists(list, "TextEditor"@) || lists(
                list,
                "WordProcessor"@,
            ) || lists(list, "Viewer"@) {
                "text"@
            } else {
                "shell"@
            })
        }),
{
    let list = texts(categories@);
    if for_browsing(list) {
        crate::settings_laws::lemma_browser(list);
    } else if lists(list, "Development"@) {
        crate::settings_laws::lemma_code(list);
    } else if for_media(list) {
        crate::settings_laws::lemma_media(list);
    } else if for_text(list) {
        crate::settings_laws::lemma_text(list);
    } else {
        crate::settings_laws::lemma_shell(list);
    }
}

/// Each kind of application has a workspace of its own.
pub proof fn lemma_category_workspace(category: &str, workspace: Option<&'static str>)
    requires
        call_ensures(workspace_for_category, (category,), workspace),
    ensures
        category@ == "shell"@ ==> workspace is Some && workspace->0@ == "1"@,
        category@ == "browser"@ ==> workspace is Some && workspace->0@ == "2"@,
        category@ == "code"@ ==> workspace is Some && workspace->0@ == "3"@,
        category@ == "media"@ ==> workspace is Some && workspace->0@ == "4"@,
        category@ == "text"@ ==> workspace is Some && workspace->0@ == "5"@,
        workspace is Some ==> category@ == "shell"@ || category@ == "browser"@ || category@
            == "code"@ || category@ == "media"@ || category@ == "text"@,
{
    crate::settings_laws::lemma_workspaces(category@);
}

/// A window belongs to the first application whose id, or whose class of windows, is
/// its class.
pub proof fn lemma_window_owner(catalog: Catalog, window: Client, target: String, i: int)
    requires
        call_ensures(resolve_target_with_cgroup, (&catalog, &window, None::<&str>), target),
        0 <= i < catalog.entries@.len(),
        !ends_with(trim(window@.class), ".desktop"@),
        owns_class(catalog.entries@[i]@, trim(window@.class)),
        forall|k: int|
            0 <= k < i ==> !owns_class((#[trigger] catalog.entries@[k])@, trim(window@.class)),
    ensures
        target@ == catalog.entries@[i]@.id,
{
    let entries = views_of(catalog.entries@);
    assert forall|k: int| 0 <= k < i implies !owns_class(
        #[trigger] entries[k],
        trim(window@.class),
    ) by {
        assert(entries[k] == catalog.entries@[k]@);
    }
    lemma_class_owner(entries, window@, i);
}

/// An application is found by every text that is shown of it.
pub proof fn lemma_search(
    application: ApplicationSummary,
    query: &str,
    found: Option<SearchMatch>,
    text: Seq<char>,
)
    requires
        call_ensures(search_match, (&application, query), found),
        is_ascii_summary(application@),
        is_text_of(text, application@),
        occurs(asked(query@), ascii_lowercase(text)),
    ensures
        found is Some,
{
    lemma_text_is_found(application@, query@, text);
}

/// An application's share of the machine is its share of one processor by the number
/// of processors, and never more than the whole.
pub proof fn lemma_usage_of_machine(
    snapshot: ResourceSnapshot,
    roots: &[u32],
    usage: ResourceUsage,
)
    requires
        call_ensures(ResourceSnapshot::usage_for_roots, (&snapshot, roots), usage),
        snapshot.wf(),
        snapshot.logical_cpus > 0,
        snapshot.logical_cpus * 1000 <= u64::MAX,
        usage.compute.cpu_percent_tenths < u64::MAX,
    ensures
        ({
            let n = snapshot.logical_cpus as int;
            let one = usage.compute.cpu_percent_tenths as int;
            let all = usage.compute.cpu_percent_of_machine_tenths as int;
            &&& 0 <= all <= 1000
            &&& 2 * n * all <= 2 * one + n + 1
            &&& all < 1000 ==> 2 * one <= 2 * n * all + n + 1
        }),
{
    lemma_machine_share(snapshot, roots@.to_set());
}

/// An application that a text of its own is asked for stands on the page, unless there
/// is more than fits on it.
pub proof fn lemma_page_lists(
    catalog: Catalog,
    windows: Snapshot,
    cgroups: Table<u32, String>,
    resources: ResourceSnapshot,
    settings: SettingsStore,
    params: QueryParams,
    page: ApplicationPage,
    i: int,
    text: Seq<char>,
)
    requires
        call_ensures(
            crate::query::page,
            (&catalog, &windows, &cgroups, &resources, &settings, &params),
            page,
        ),
        params.category is None,
        !page.has_more,
        ({
            let sources = Sources {
                entries: views_of(catalog.entries@),
                windows: windows_of(windows.clients@),
                cgroups: cgroups@,
                resources,
                revision: page.revision,
            };
            &&& 0 <= i < sources.summaries().len()
            &&& is_ascii_summary(sources.summaries()[i])
            &&& is_text_of(text, sources.summaries()[i])
            &&& occurs(asked(params.query@), ascii_lowercase(text))
        }),
    ensures
        ({
            let sources = Sources {
                entries: views_of(catalog.entries@),
                windows: windows_of(windows.clients@),
                cgroups: cgroups@,
                resources,
                revision: page.revision,
            };
            exists|k: int|
                0 <= k < page.applications@.len() && (#[trigger] page.applications@[k])@.identity.id
                    == sources.summaries()[i].identity.id
        }),
{
    let sources = Sources {
        entries: views_of(catalog.entries@),
        windows: windows_of(windows.clients@),
        cgroups: cgroups@,
        resources,
        revision: page.revision,
    };
    let found = sources.summaries()[i];
    lemma_text_is_found(found, params.query@, text);
    let all = results(sources, params.query@, settings@, None);
    lemma_matches_are_listed(sources, params.query@, settings@, found);
    let shown = summary_views(page.applications@);
    assert(crate::text::optional_text(params.category) == None::<Seq<char>>);
    assert(shown =~= all);
    assert(crate::query_laws::shows(all, found.identity.id));
    let k = choose|k: int|
        0 <= k < all.len() && (#[trigger] all[k]).identity.id == found.identity.id;
    assert(shown[k].identity.id == found.identity.id);
    assert(page.applications@[k]@ == shown[k]);
}

/// The windows that are known are those that are mapped and have an address, in the
/// order of their focus.
pub proof fn lemma_windows_known(clients: Vec<Client>, snapshot: Snapshot, client: Client)
    requires
        call_ensures(Snapshot::from_clients, (clients,), snapshot),
    ensures
        snapshot.available,
        snapshot.clients@.contains(client) == (clients@.contains(client) && client.mapped
            && is_address(client.address@)),
        forall|i: int, j: int|
            0 <= i <= j < snapshot.clients@.len() ==> (#[trigger] snapshot.clients@[i]).focus_rank
                <= (#[trigger] snapshot.clients@[j]).focus_rank,
{
    let list = shown(clients@);
    lemma_is_shown(clients@, client);
    lemma_ranked(list);
    ranked(list).to_multiset_ensures();
    list.to_multiset_ensures();
    assert(ranked(list).contains(client) == (ranked(list).to_multiset().count(client) > 0));
    assert(list.contains(client) == (list.to_multiset().count(client) > 0));
}

/// A request was granted where the compositor says so, and nothing else.
pub proof fn lemma_granted(success: bool, output: &str, yes: bool)
    requires
        call_ensures(dispatch_accepted, (success, output), yes),
    ensures
        yes ==> success,
        success && output@ == "ok"@ ==> yes,
        success && output@ == "ok\n"@ ==> yes,
        yes ==> occurs("ok"@, output@),
{
    reveal_strlit("ok");
    reveal_strlit("ok\n");
    let (a, b) = lemma_trim(output@);
    if yes {
        assert(crate::text_laws::occurs_at("ok"@, output@, a));
    }
    if output@ == "ok\n"@ {
        assert(output@.len() == 3 && output@[0] == 'o' && output@[1] == 'k' && output@[2] == '\n');
        assert(a == 0) by {
            if a > 0 {
                assert(is_white_space(output@[0]));
            }
        }
        assert(b >= 2) by {
            if b < 2 {
                assert(is_white_space(output@[1]));
            }
        }
        if b == 3 {
            assert(trim(output@).last() == output@[2]);
        }
        assert(output@.subrange(0, 2) =~= "ok"@);
    }
}

/// An application runs in a terminal where its file says so.
pub proof fn lemma_terminal(entry: CatalogEntry, yes: bool)
    requires
        call_ensures(CatalogEntry::requires_terminal, (&entry,), yes),
    ensures
        yes == says(entry_groups(entry.entry), "Terminal"@, "true"@),
{
}

/// A control group's files lie below the place where control groups are mounted.
pub proof fn lemma_control_group_directory(path: &str, directory: String, name: Seq<char>)
    requires
        call_ensures(cgroup_directory, (path,), directory),
        path@ == "/"@ + name,
        name.len() > 0,
        name[0] != '/',
    ensures
        directory@ == "/sys/fs/cgroup/"@ + name,
{
    reveal_strlit("/");
    lemma_endings(name, "/"@);
    assert(path@.skip(1) =~= name);
    assert(!starts_with(name, "/"@)) by {
        if starts_with(name, "/"@) {
            assert(name.take(1)[0] == "/"@[0]);
        }
    }
    assert(trim_start_matches(name, "/"@) == name);
    assert(trim_start_matches(path@, "/"@) == trim_start_matches(name, "/"@));
}

/// The processes to look at are those of windows, their children and the members of
/// their control groups.
pub proof fn lemma_active(
    roots: Vec<u32>,
    children: Table<u32, Vec<u32>>,
    members: Table<u32, Vec<u32>>,
    pids: Vec<u32>,
    root: u32,
    child: u32,
    i: int,
    member: u32,
)
    requires
        call_ensures(active_processes, (&roots, &children, &members), pids),
        roots@.contains(root),
        root > 0,
        children@.contains_key(root) && children@[root]@.contains(child),
        0 <= i < members.pairs().len(),
        members.pairs()[i].1@.contains(member),
    ensures
        pids@.contains(root),
        pids@.contains(child),
        pids@.contains(member),
{
    let alone = seq![root];
    assert(is_descent(children@, alone));
    assert(descends(children@, roots@.to_set(), root));
    let line = seq![root, child];
    assert(is_child(children@, line[0], line[1]));
    assert(is_descent(children@, line));
    assert(line.last() == child);
    assert(descends(children@, roots@.to_set(), child));
}

/// A client that does not say how much it wants gets so many applications, shares and
/// points.
pub proof fn lemma_defaults(
    query: QueryParams,
    overview: EnergyOverviewParams,
    history: ResourceHistoryParams,
    target: String,
)
    requires
        call_ensures(<QueryParams as Default>::default, (), query),
        call_ensures(<EnergyOverviewParams as Default>::default, (), overview),
        call_ensures(ResourceHistoryParams::new, (target,), history),
    ensures
        query.limit == 500,
        query.query@.len() == 0,
        query.category is None,
        overview.limit == 20,
        overview.since_ms == 0,
        history.limit == 1_000,
        history.target_id == target,
        history.since_ms is None,
        history.cursor is None,
{
    reveal_strlit("");
}

/// An overview shows those that used most, the most first, and says whether there are
/// others.
pub proof fn lemma_overview(
    catalog: Catalog,
    totals: Vec<EnergyTotal>,
    params: EnergyOverviewParams,
    until_ms: u64,
    overview: EnergyOverview,
    i: int,
    j: int,
)
    requires
        call_ensures(energy_overview, (&catalog, totals, params, until_ms), overview),
        0 <= i < j < overview.applications@.len(),
        1 <= params.limit <= 1000,
    ensures
        overview.since_ms == params.since_ms,
        overview.until_ms == until_ms,
        overview.has_more == (totals@.len() > params.limit),
        overview.applications@.len() == (if totals@.len() > params.limit {
            params.limit as nat
        } else {
            totals@.len()
        }),
        overview.applications@[i].energy_mwh_e4 >= overview.applications@[j].energy_mwh_e4,
{
    let list = total_views(totals@);
    lemma_by_energy(list);
    let shown = first_totals(by_energy(list), overview_limit(params.limit));
    assert(shown[i] == by_energy(list)[i]);
    assert(shown[j] == by_energy(list)[j]);
    assert(overview.applications@[i]@.energy == shown[i].energy);
    assert(overview.applications@[j]@.energy == shown[j].energy);
}

// ---------------------------------------------------------------------
// Files

/// What an application's directories take up is what lasts and what is temporary.
pub proof fn lemma_breakdown(
    permanent: Vec<FileSize>,
    temporary: Vec<FileSize>,
    disk: DiskBreakdown,
)
    requires
        call_ensures(disk_breakdown, (&permanent, &temporary), disk),
    ensures
        disk.total_bytes == fitting(disk.permanent_bytes + disk.temporary_bytes),
        temporary@.len() == 0 ==> disk.temporary_bytes == 0 && disk.total_bytes
            == disk.permanent_bytes,
        permanent@.len() == 0 ==> disk.permanent_bytes == 0 && disk.total_bytes
            == disk.temporary_bytes,
{
    if temporary@.len() == 0 {
        assert(crate::disk::first_sizes(temporary@).dom() =~= Set::empty());
    }
    if permanent@.len() == 0 {
        assert(crate::disk::first_sizes(permanent@).dom() =~= Set::empty());
    }
}

/// A process refers to the files that it has open and to those that it has mapped; its
/// sockets are those that it has open.
pub proof fn lemma_process_files(
    open: Vec<LinkedFile>,
    mapped: Vec<LinkedFile>,
    places: Places,
    files: ProcessFiles,
    id: DiskFileId,
    i: int,
    socket: u64,
)
    requires
        call_ensures(process_files, (Some(&open), &mapped, &places), files),
    ensures
        files.fd_available,
        files.open@.contains_key(id) == leads_to(open@, id),
        files.referenced@.contains_key(id) == (leads_to(open@, id) || leads_to(mapped@, id)),
        0 <= i < open@.len() && open@[i].link@ == "socket:["@ + decimal(socket as nat) + "]"@
            ==> files.sockets@.contains(socket),
{
    lemma_linked(open@, places, id);
    lemma_linked(mapped@, places, id);
    lemma_merged(linked_files(open@, places), linked_files(mapped@, places), id);
    if 0 <= i < open@.len() && open@[i].link@ == "socket:["@ + decimal(socket as nat) + "]"@ {
        reveal_strlit("socket:[");
        let none = Seq::<char>::empty();
        assert(!starts_with(none, "socket:["@));
        lemma_socket(socket, none);
        assert(links_socket(open@, socket));
    }
}

/// A group of windows without an application has no directories; neither has an empty
/// id.
pub proof fn lemma_no_directories(
    target_id: &str,
    directories: Directories,
    roots: Option<DiskRoots>,
)
    requires
        call_ensures(disk_roots, (target_id, &directories), roots),
        !ends_with(target_id@, ".desktop"@),
    ensures
        (roots is None) == (target_id@.len() == 0 || starts_with(target_id@, "window-group:"@)),
{
    reveal_strlit(".desktop");
    crate::text_laws::lemma_without_ending(target_id@, ".desktop"@);
}

/// A directory of the user's is where the environment says, else at its usual place
/// below the home directory.
pub proof fn lemma_user_directory(
    variable: Option<String>,
    home: Option<String>,
    suffix: &str,
    directory: Option<String>,
)
    requires
        call_ensures(xdg_directory, (variable, &home, suffix), directory),
        suffix@.len() > 0,
        suffix@[0] != '/',
        home is Some ==> home->0@.len() > 0 && home->0@.last() != '/',
    ensures
        variable is Some ==> directory == variable,
        variable is None && home is Some ==> directory is Some && directory->0@ == home->0@ + "/"@
            + suffix@,
        variable is None && home is None ==> directory is None,
{
}

/// The history and the settings are kept below the user's directories for them.
pub proof fn lemma_files(
    state: Option<String>,
    home: Option<String>,
    history: Option<String>,
    settings: Option<String>,
)
    requires
        call_ensures(history_path, (&state, &home), history),
        call_ensures(settings_path, (&state, &home), settings),
        home is Some ==> home->0@.len() > 0 && home->0@.last() != '/',
        state is Some ==> state->0@.len() > 0 && state->0@.last() != '/',
    ensures
        state is Some ==> history is Some && history->0@ == state->0@
            + "/app-daemon/resource-history-v1.json"@,
        state is Some ==> settings is Some && settings->0@ == state->0@
            + "/app-daemon/application-settings-v1.json"@,
        state is None && home is Some ==> history is Some && history->0@ == home->0@
            + "/.local/state/app-daemon/resource-history-v1.json"@,
        state is None && home is Some ==> settings is Some && settings->0@ == home->0@
            + "/.config/app-daemon/application-settings-v1.json"@,
        state is None && home is None ==> history is None && settings is None,
{
    let resource = "app-daemon/resource-history-v1.json"@;
    let application = "app-daemon/application-settings-v1.json"@;
    assert("/app-daemon/resource-history-v1.json"@ =~= "/"@ + resource && resource.len() > 0
        && resource[0] != '/') by {
        reveal_strlit("/");
        reveal_strlit("app-daemon/resource-history-v1.json");
        reveal_strlit("/app-daemon/resource-history-v1.json");
    }
    assert("/app-daemon/application-settings-v1.json"@ =~= "/"@ + application && application.len()
        > 0 && application[0] != '/') by {
        reveal_strlit("/");
        reveal_strlit("app-daemon/application-settings-v1.json");
        reveal_strlit("/app-daemon/application-settings-v1.json");
    }
    assert("/.local/state/app-daemon/resource-history-v1.json"@ =~= "/"@ + ".local/state"@ + "/"@
        + resource && ".local/state"@.len() > 0 && ".local/state"@[0] != '/'
        && ".local/state"@.last() != '/') by {
        reveal_strlit("/");
        reveal_strlit(".local/state");
        reveal_strlit("app-daemon/resource-history-v1.json");
        reveal_strlit("/.local/state/app-daemon/resource-history-v1.json");
    }
    assert("/.config/app-daemon/application-settings-v1.json"@ =~= "/"@ + ".config"@ + "/"@
        + application && ".config"@.len() > 0 && ".config"@[0] != '/' && ".config"@.last()
        != '/') by {
        reveal_strlit("/");
        reveal_strlit(".config");
        reveal_strlit("app-daemon/application-settings-v1.json");
        reveal_strlit("/.config/app-daemon/application-settings-v1.json");
    }
    if state is Some {
        let root = state->0@;
        assert(root + "/"@ + resource =~= root + ("/"@ + resource));
        assert(root + "/"@ + application =~= root + ("/"@ + application));
    } else if home is Some {
        let root = home->0@;
        let local = joined(root, ".local/state"@);
        let config = joined(root, ".config"@);
        assert(local == root + "/"@ + ".local/state"@);
        assert(config == root + "/"@ + ".config"@);
        assert(local.last() == ".local/state"@.last());
        assert(config.last() == ".config"@.last());
        assert(local + "/"@ + resource =~= root + ("/"@ + ".local/state"@ + "/"@ + resource));
        assert(config + "/"@ + application =~= root + ("/"@ + ".config"@ + "/"@ + application));
    }
}

// ---------------------------------------------------------------------
// Readings

/// A power zone's counter starts again behind its maximum; where none is given it does
/// not.
pub proof fn lemma_zone(
    energy: Option<String>,
    maximum: Option<String>,
    reading: Option<(u64, u64)>,
    n: u64,
    limit: u64,
)
    requires
        call_ensures(zone_reading, (&energy, &maximum), reading),
    ensures
        energy is None ==> reading is None,
        shows(energy, n) && shows(maximum, limit) ==> reading == Some((n, limit)),
        shows(energy, n) && maximum is None ==> reading == Some((n, u64::MAX)),
{
    if shows(energy, n) {
        lemma_shown(energy, n);
    }
    if shows(maximum, limit) {
        lemma_shown(maximum, limit);
    }
}

/// There is always a processor.
pub proof fn lemma_processor_count(stat: Option<&str>, cpu: (u64, u64))
    requires
        call_ensures(parse_system_cpu, (stat,), cpu),
    ensures
        cpu.1 >= 1,
        stat is None ==> cpu == (0u64, 1u64),
        stat is Some && 0 < crate::procfs::system_cpu_in(lines(stat->0@)).1 <= u64::MAX ==> cpu.1
            == crate::procfs::system_cpu_in(lines(stat->0@)).1,
        stat is Some ==> cpu.0 == crate::procfs::system_cpu_in(lines(stat->0@)).0,
{
}

/// A process's memory is read from the exact figures where there are any, else from its
/// status.
pub proof fn lemma_memory(
    rollup: Option<&str>,
    status: Option<&str>,
    memory: MemoryUsage,
    n: u64,
)
    requires
        call_ensures(parse_process_memory, (rollup, status), memory),
    ensures
        rollup is Some && reports(lines(rollup->0@), PairForm::Measured, "Pss"@, n)
            ==> memory.pss_bytes == fitting(n * 1024) && memory.pss_available,
        rollup is Some && reports(lines(rollup->0@), PairForm::Measured, "Rss"@, n)
            ==> memory.rss_bytes == fitting(n * 1024) && memory.rss_available,
        rollup is None && status is Some && reports(
            lines(status->0@),
            PairForm::Measured,
            "VmRSS"@,
            n,
        ) ==> memory.rss_bytes == fitting(n * 1024) && memory.rss_available,
        rollup is None && status is None ==> !memory.rss_available && !memory.pss_available
            && memory.rss_bytes == 0 && memory.pss_bytes == 0,
{
    if rollup is Some {
        crate::counter_laws::lemma_rollup(rollup->0@, n);
    }
    if status is Some {
        crate::counter_laws::lemma_status(status->0@, n);
    }
}

} // verus!
