//! Applications as search results: what they are called and what they are doing.

use vstd::prelude::*;
use crate::catalog::{ActionView, CatalogEntry, EntryView, action_views, kind_of};
use crate::hyprland::{Client, Window, window_id, window_name, windows_of};
use crate::model::{
    ApplicationIdentity, ApplicationRuntime, ApplicationSummary, DesktopActionSummary,
    ResourceUsage, WindowSummary,
};
use crate::snapshot::ResourceSnapshot;
use crate::text::{signed_decimal, signed_decimal_chars, string_of, texts};

verus! {

/// What is visible of [`ApplicationIdentity`].
#[verifier::ext_equal]
pub struct IdentityView {
    pub id: Seq<char>,
    pub kind: Seq<char>,
    pub name: Seq<char>,
    pub generic_name: Seq<char>,
    pub comment: Seq<char>,
    pub icon: Seq<char>,
    pub keywords: Seq<Seq<char>>,
    pub categories: Seq<Seq<char>>,
    pub startup_class: Seq<char>,
}

impl View for ApplicationIdentity {
    type V = IdentityView;

    open spec fn view(&self) -> IdentityView {
        IdentityView {
            id: self.id@,
            kind: self.kind@,
            name: self.name@,
            generic_name: self.generic_name@,
            comment: self.comment@,
            icon: self.icon@,
            keywords: texts(self.keywords@),
            categories: texts(self.categories@),
            startup_class: self.startup_class@,
        }
    }
}

/// What is visible of [`WindowSummary`].
#[verifier::ext_equal]
pub struct InstanceView {
    pub id: Seq<char>,
    pub title: Seq<char>,
    pub class: Seq<char>,
    pub workspace_id: Seq<char>,
    pub workspace_name: Seq<char>,
    pub focused: bool,
    pub focus_rank: i64,
    pub resources: ResourceUsage,
}

impl View for WindowSummary {
    type V = InstanceView;

    open spec fn view(&self) -> InstanceView {
        InstanceView {
            id: self.id@,
            title: self.title@,
            class: self.class@,
            workspace_id: self.workspace_id@,
            workspace_name: self.workspace_name@,
            focused: self.focused,
            focus_rank: self.focus_rank,
            resources: self.resources,
        }
    }
}

pub open spec fn instance_views(list: Seq<WindowSummary>) -> Seq<InstanceView> {
    list.map_values(|w: WindowSummary| w@)
}

/// What is visible of [`ApplicationSummary`].
#[verifier::ext_equal]
pub struct SummaryView {
    pub identity: IdentityView,
    pub revision: u64,
    pub running: bool,
    pub focused: bool,
    pub running_count: nat,
    pub resources: ResourceUsage,
    pub instances: Seq<InstanceView>,
    pub desktop_actions: Seq<ActionView>,
    pub match_score: i64,
    pub match_kind: Seq<char>,
    pub runtime_score: i64,
    pub score: i64,
}

impl View for ApplicationSummary {
    type V = SummaryView;

    open spec fn view(&self) -> SummaryView {
        SummaryView {
            identity: self.identity@,
            revision: self.revision,
            running: self.runtime.running,
            focused: self.runtime.focused,
            running_count: self.runtime.running_count as nat,
            resources: self.runtime.resources,
            instances: instance_views(self.runtime.instances@),
            desktop_actions: action_views(self.desktop_actions@),
            match_score: self.match_score,
            match_kind: self.match_kind@,
            runtime_score: self.runtime_score,
            score: self.score,
        }
    }
}

pub open spec fn summary_views(list: Seq<ApplicationSummary>) -> Seq<SummaryView> {
    list.map_values(|s: ApplicationSummary| s@)
}

// ---------------------------------------------------------------------
// Ranking by focus

/// How recently an application had the focus, as a number to rank by.
pub open spec fn running_score_of(focused: bool, focus_rank: i64) -> i64 {
    if focused {
        20_000
    } else if focus_rank == i64::MAX {
        0
    } else if focus_rank >= 1_000 {
        10_000
    } else if 11_000 - focus_rank > i64::MAX {
        i64::MAX
    } else {
        (11_000 - focus_rank) as i64
    }
}

pub fn running_score(focused: bool, focus_rank: i64) -> (score: i64)
    ensures
        score == running_score_of(focused, focus_rank),
{
    if focused {
        20_000
    } else if focus_rank == i64::MAX {
        0
    } else if focus_rank >= 1_000 {
        10_000
    } else {
        let score: i128 = 11_000 - focus_rank as i128;
        if score > i64::MAX as i128 {
            i64::MAX
        } else {
            score as i64
        }
    }
}

/// The focused application ranks before one that was focused earlier, the one
/// that was focused later before the other as far as ranks are told apart, and
/// anything that runs and ever had the focus before what does not.
pub proof fn lemma_running_score(earlier: i64, later: i64)
    requires
        0 < later <= earlier < i64::MAX,
    ensures
        running_score_of(true, 0) > running_score_of(false, later),
        running_score_of(false, later) >= running_score_of(false, earlier),
        later < earlier <= 1_000 ==> running_score_of(false, later) > running_score_of(
            false,
            earlier,
        ),
        running_score_of(false, earlier) > running_score_of(false, i64::MAX),
{
}

// ---------------------------------------------------------------------
// Summaries

pub open spec fn pids_of(windows: Seq<Window>) -> Seq<u32> {
    windows.map_values(|w: Window| w.pid)
}

/// A window of an application.
pub open spec fn instance_of(
    target: Seq<char>,
    window: Window,
    resources: ResourceSnapshot,
) -> InstanceView {
    InstanceView {
        id: window_name(window.address),
        title: window.title,
        class: window.class,
        workspace_id: signed_decimal(window.workspace_id as int),
        workspace_name: window.workspace_name,
        focused: window.focus_rank == 0,
        focus_rank: window.focus_rank,
        resources: resources.usage_of_target(target, seq![window.pid].to_set()),
    }
}

pub open spec fn instances_of(
    target: Seq<char>,
    windows: Seq<Window>,
    resources: ResourceSnapshot,
) -> Seq<InstanceView> {
    windows.map_values(|w: Window| instance_of(target, w, resources))
}

/// One of the windows has the focus.
pub open spec fn has_focus(windows: Seq<Window>) -> bool {
    exists|i: int| 0 <= i < windows.len() && (#[trigger] windows[i]).focus_rank == 0
}

/// The lowest rank of the windows; without windows the largest number.
pub open spec fn best_rank(windows: Seq<Window>) -> i64
    decreases windows.len(),
{
    if windows.len() == 0 {
        i64::MAX
    } else {
        let before = best_rank(windows.drop_last());
        if windows.last().focus_rank < before {
            windows.last().focus_rank
        } else {
            before
        }
    }
}

/// An application with its windows, not yet matched against a query.
pub open spec fn summary_of(
    identity: IdentityView,
    actions: Seq<ActionView>,
    windows: Seq<Window>,
    resources: ResourceSnapshot,
    revision: u64,
) -> SummaryView {
    let score = running_score_of(has_focus(windows), best_rank(windows));
    SummaryView {
        identity,
        revision,
        running: windows.len() > 0,
        focused: has_focus(windows),
        running_count: windows.len(),
        resources: resources.usage_of_target(identity.id, pids_of(windows).to_set()),
        instances: instances_of(identity.id, windows, resources),
        desktop_actions: actions,
        match_score: 0,
        match_kind: "none"@,
        runtime_score: score,
        score,
    }
}

/// What a catalog entry is called.
pub open spec fn entry_identity(entry: EntryView) -> IdentityView {
    IdentityView {
        id: entry.id,
        kind: kind_of(entry.launch_only),
        name: entry.name,
        generic_name: entry.generic_name,
        comment: entry.comment,
        icon: entry.icon,
        keywords: entry.keywords,
        categories: entry.categories,
        startup_class: entry.startup_class,
    }
}

/// The titles and classes of windows.
pub open spec fn window_texts(windows: Seq<Window>) -> Seq<Seq<char>>
    decreases windows.len(),
{
    if windows.len() == 0 {
        Seq::empty()
    } else {
        window_texts(windows.drop_last()).push(windows.last().title).push(windows.last().class)
    }
}

/// What a group of windows without an application is called.
pub open spec fn group_identity(id: Seq<char>, windows: Seq<Window>) -> IdentityView {
    IdentityView {
        id,
        kind: "window-group"@,
        name: if windows.len() > 0 && windows[0].class.len() > 0 {
            windows[0].class
        } else {
            "Untitled"@
        },
        generic_name: "Running window"@,
        comment: ""@,
        icon: ""@,
        keywords: window_texts(windows),
        categories: Seq::empty(),
        startup_class: ""@,
    }
}

/// An application without windows is not running; one for launching only is a
/// shortcut.
pub proof fn lemma_idle_summary(
    entry: EntryView,
    resources: ResourceSnapshot,
    revision: u64,
)
    ensures
        ({
            let s = summary_of(
                entry_identity(entry),
                entry.actions,
                Seq::empty(),
                resources,
                revision,
            );
            &&& !s.running && !s.focused && s.running_count == 0 && s.instances.len() == 0
            &&& s.runtime_score == 0
            &&& entry.launch_only ==> s.identity.kind == "desktop-shortcut"@
        }),
{
}

/// The windows at the given places.
pub open spec fn chosen(windows: Seq<Window>, places: Seq<usize>) -> Seq<Window> {
    places.map_values(|i: usize| windows[i as int])
}

fn copied_texts(list: &Vec<String>) -> (copy: Vec<String>)
    ensures
        texts(copy@) == texts(list@),
{
    let mut copy: Vec<String> = Vec::new();
    for i in 0..list.len()
        invariant
            texts(copy@) == texts(list@).take(i as int),
    {
        let ghost before = texts(copy@);
        copy.push(list[i].clone());
        assert(texts(copy@) =~= before.push(list@[i as int]@));
        assert(texts(list@).take(i + 1) =~= texts(list@).take(i as int).push(list@[i as int]@));
    }
    assert(texts(list@).take(list@.len() as int) =~= texts(list@));
    copy
}

fn copied_actions(list: &Vec<DesktopActionSummary>) -> (copy: Vec<DesktopActionSummary>)
    ensures
        action_views(copy@) == action_views(list@),
{
    let mut copy: Vec<DesktopActionSummary> = Vec::new();
    let ghost all = action_views(list@);
    assert(action_views(copy@) =~= all.take(0));
    for i in 0..list.len()
        invariant
            all == action_views(list@),
            action_views(copy@) == all.take(i as int),
    {
        let ghost before = action_views(copy@);
        let action = DesktopActionSummary {
            id: list[i].id.clone(),
            name: list[i].name.clone(),
            icon: list[i].icon.clone(),
        };
        copy.push(action);
        assert(action_views(copy@) =~= before.push(action@));
        assert(action@ =~= all[i as int]);
        assert(all.take(i + 1) =~= all.take(i as int).push(all[i as int]));
    }
    assert(all.take(list@.len() as int) =~= all);
    copy
}

fn window_summary(target: &String, client: &Client, resources: &ResourceSnapshot) -> (summary:
    WindowSummary)
    requires
        resources.wf(),
    ensures
        summary@ == instance_of(target@, client@, *resources),
{
    let mut pids: Vec<u32> = Vec::new();
    pids.push(client.pid);
    assert(pids@ =~= seq![client.pid]);
    let workspace = signed_decimal_chars(client.workspace.id);
    WindowSummary {
        id: window_id(client.address.as_str()),
        title: client.title.clone(),
        class: client.class.clone(),
        workspace_id: string_of(workspace.as_slice()),
        workspace_name: client.workspace.name.clone(),
        focused: client.focus_rank == 0,
        focus_rank: client.focus_rank,
        resources: resources.usage_for_target(target, pids.as_slice()),
    }
}

/// An application with the windows at the given places.
pub fn summary(
    identity: ApplicationIdentity,
    desktop_actions: Vec<DesktopActionSummary>,
    clients: &Vec<Client>,
    places: &Vec<usize>,
    resources: &ResourceSnapshot,
    revision: u64,
) -> (summary: ApplicationSummary)
    requires
        resources.wf(),
        forall|k: int| 0 <= k < places@.len() ==> (#[trigger] places@[k]) < clients@.len(),
    ensures
        summary@ == summary_of(
            identity@,
            action_views(desktop_actions@),
            chosen(windows_of(clients@), places@),
            *resources,
            revision,
        ),
{
    let ghost windows = chosen(windows_of(clients@), places@);
    let mut pids: Vec<u32> = Vec::new();
    let mut instances: Vec<WindowSummary> = Vec::new();
    let mut focused = false;
    let mut best: i64 = i64::MAX;
    assert(instance_views(instances@) =~= instances_of(identity@.id, windows, *resources).take(0));
    for k in 0..places.len()
        invariant
            resources.wf(),
            forall|k: int| 0 <= k < places@.len() ==> (#[trigger] places@[k]) < clients@.len(),
            windows == chosen(windows_of(clients@), places@),
            pids@ == pids_of(windows).take(k as int),
            instance_views(instances@) == instances_of(identity@.id, windows, *resources).take(
                k as int,
            ),
            focused == has_focus(windows.take(k as int)),
            best == best_rank(windows.take(k as int)),
    {
        let ghost before = instance_views(instances@);
        let ghost all = instances_of(identity@.id, windows, *resources);
        let client = &clients[places[k]];
        assert(windows[k as int] == client@);
        pids.push(client.pid);
        assert(pids@ =~= pids_of(windows).take(k + 1));
        let instance = window_summary(&identity.id, client, resources);
        instances.push(instance);
        assert(instance_views(instances@) =~= before.push(instance@));
        assert(all[k as int] == instance@);
        assert(instance_views(instances@) =~= all.take(k + 1));
        assert(windows.take(k + 1).drop_last() =~= windows.take(k as int));
        assert(windows.take(k + 1).last() == client@);
        let ghost was_focused = focused;
        if client.focus_rank == 0 {
            focused = true;
        }
        if client.focus_rank < best {
            best = client.focus_rank;
        }
        proof {
            let now = windows.take(k + 1);
            let prior = windows.take(k as int);
            if has_focus(prior) {
                let i = choose|i: int|
                    0 <= i < prior.len() && (#[trigger] prior[i]).focus_rank == 0;
                assert(now[i].focus_rank == 0);
            }
            if client.focus_rank == 0 {
                assert(now[k as int].focus_rank == 0);
            }
            if has_focus(now) {
                let i = choose|i: int| 0 <= i < now.len() && (#[trigger] now[i]).focus_rank == 0;
                if i < k {
                    assert(prior[i].focus_rank == 0);
                }
            }
        }
    }
    proof {
        assert(windows.take(windows.len() as int) =~= windows);
        assert(pids@ =~= pids_of(windows));
        let all = instances_of(identity@.id, windows, *resources);
        assert(all.take(all.len() as int) =~= all);
        assert(instance_views(instances@).len() == instances@.len());
    }
    let usage = resources.usage_for_target(&identity.id, pids.as_slice());
    let runtime_score = running_score(focused, best);
    let count = instances.len();
    ApplicationSummary {
        identity,
        revision,
        runtime: ApplicationRuntime {
            running: count > 0,
            focused,
            running_count: count,
            resources: usage,
            instances,
        },
        desktop_actions,
        match_score: 0,
        match_kind: "none".to_owned(),
        runtime_score,
        score: runtime_score,
    }
}

pub fn summary_for_entry(
    entry: &CatalogEntry,
    clients: &Vec<Client>,
    places: &Vec<usize>,
    resources: &ResourceSnapshot,
    revision: u64,
) -> (found: ApplicationSummary)
    requires
        resources.wf(),
        forall|k: int| 0 <= k < places@.len() ==> (#[trigger] places@[k]) < clients@.len(),
    ensures
        found@ == summary_of(
            entry_identity(entry@),
            entry@.actions,
            chosen(windows_of(clients@), places@),
            *resources,
            revision,
        ),
{
    let identity = ApplicationIdentity {
        id: entry.id.clone(),
        kind: entry.kind().to_owned(),
        name: entry.name.clone(),
        generic_name: entry.generic_name.clone(),
        comment: entry.comment.clone(),
        icon: entry.icon.clone(),
        keywords: copied_texts(&entry.keywords),
        categories: copied_texts(&entry.categories),
        startup_class: entry.startup_class.clone(),
    };
    assert(identity@ =~= entry_identity(entry@));
    let actions = copied_actions(&entry.actions);
    summary(identity, actions, clients, places, resources, revision)
}

pub fn summary_for_unmatched(
    id: String,
    clients: &Vec<Client>,
    places: &Vec<usize>,
    resources: &ResourceSnapshot,
    revision: u64,
) -> (found: ApplicationSummary)
    requires
        resources.wf(),
        forall|k: int| 0 <= k < places@.len() ==> (#[trigger] places@[k]) < clients@.len(),
    ensures
        found@ == summary_of(
            group_identity(id@, chosen(windows_of(clients@), places@)),
            Seq::empty(),
            chosen(windows_of(clients@), places@),
            *resources,
            revision,
        ),
{
    let ghost windows = chosen(windows_of(clients@), places@);
    let name = if places.len() > 0 && !clients[places[0]].class.as_str().is_empty() {
        assert(windows[0] == clients@[places@[0] as int]@);
        clients[places[0]].class.clone()
    } else {
        proof {
            if places@.len() > 0 {
                assert(windows[0] == clients@[places@[0] as int]@);
            }
        }
        "Untitled".to_owned()
    };
    let mut keywords: Vec<String> = Vec::new();
    assert(texts(keywords@) =~= window_texts(windows.take(0)));
    for k in 0..places.len()
        invariant
            forall|k: int| 0 <= k < places@.len() ==> (#[trigger] places@[k]) < clients@.len(),
            windows == chosen(windows_of(clients@), places@),
            texts(keywords@) == window_texts(windows.take(k as int)),
    {
        let ghost before = texts(keywords@);
        let client = &clients[places[k]];
        assert(windows.take(k + 1).drop_last() =~= windows.take(k as int));
        assert(windows.take(k + 1).last() == client@);
        keywords.push(client.title.clone());
        keywords.push(client.class.clone());
        assert(texts(keywords@) =~= before.push(client.title@).push(client.class@));
    }
    assert(windows.take(windows.len() as int) =~= windows);
    let identity = ApplicationIdentity {
        id,
        kind: "window-group".to_owned(),
        name,
        generic_name: "Running window".to_owned(),
        comment: "".to_owned(),
        icon: "".to_owned(),
        keywords,
        categories: Vec::new(),
        startup_class: "".to_owned(),
    };
    assert(identity@ =~= group_identity(id@, windows));
    let actions: Vec<DesktopActionSummary> = Vec::new();
    assert(action_views(actions@) =~= Seq::empty());
    summary(identity, actions, clients, places, resources, revision)
}

} // verus!
