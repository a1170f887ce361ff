//! What a client can ask to be done with an application, and the records that
//! clients get of it.

use vstd::prelude::*;
use crate::catalog::{Catalog, EntryView, views_of};
use crate::hyprland::{Client, Snapshot, Window, window_name, windows_of};
use crate::identity::resolve_target;
use crate::launch::LaunchBackend;
use crate::model::OperationResult;
use crate::query::window_target;
use crate::table::Table;
use crate::text::{
    chars_of, optional_text, same_text, string_of, strip_prefix, texts, without_prefix,
};

verus! {

#[derive(Debug, Clone, Copy, PartialEq, Eq, Structural)]
pub enum ApplicationAction {
    Activate,
    Launch,
    FocusWindow,
    Close,
    CloseWindow,
    MoveToWorkspace,
    DesktopAction,
}

impl ApplicationAction {
    pub open spec fn text(self) -> Seq<char> {
        match self {
            ApplicationAction::Activate => "activate"@,
            ApplicationAction::Launch => "launch"@,
            ApplicationAction::FocusWindow => "focus-window"@,
            ApplicationAction::Close => "close"@,
            ApplicationAction::CloseWindow => "close-window"@,
            ApplicationAction::MoveToWorkspace => "move-to-workspace"@,
            ApplicationAction::DesktopAction => "desktop-action"@,
        }
    }

    pub fn as_str(self) -> (text: &'static str)
        ensures
            text@ == self.text(),
    {
        match self {
            ApplicationAction::Activate => "activate",
            ApplicationAction::Launch => "launch",
            ApplicationAction::FocusWindow => "focus-window",
            ApplicationAction::Close => "close",
            ApplicationAction::CloseWindow => "close-window",
            ApplicationAction::MoveToWorkspace => "move-to-workspace",
            ApplicationAction::DesktopAction => "desktop-action",
        }
    }

    /// The action with this name.
    pub fn parse(name: &str) -> (action: Option<Self>)
        ensures
            match action {
                Some(a) => a.text() == name@,
                None => forall|a: ApplicationAction| #[trigger] a.text() != name@,
            },
    {
        if same_text(name, "activate") {
            Some(ApplicationAction::Activate)
        } else if same_text(name, "launch") {
            Some(ApplicationAction::Launch)
        } else if same_text(name, "focus-window") {
            Some(ApplicationAction::FocusWindow)
        } else if same_text(name, "close") {
            Some(ApplicationAction::Close)
        } else if same_text(name, "close-window") {
            Some(ApplicationAction::CloseWindow)
        } else if same_text(name, "move-to-workspace") {
            Some(ApplicationAction::MoveToWorkspace)
        } else if same_text(name, "desktop-action") {
            Some(ApplicationAction::DesktopAction)
        } else {
            None
        }
    }
}

/// Different actions have different names.
pub proof fn lemma_action_names(a: ApplicationAction, b: ApplicationAction)
    requires
        a.text() == b.text(),
    ensures
        a == b,
{
    reveal_strlit("activate");
    reveal_strlit("launch");
    reveal_strlit("focus-window");
    reveal_strlit("close");
    reveal_strlit("close-window");
    reveal_strlit("move-to-workspace");
    reveal_strlit("desktop-action");
    assert("activate"@.len() == 8 && "launch"@.len() == 6 && "focus-window"@.len() == 12
        && "close"@.len() == 5 && "close-window"@.len() == 12 && "move-to-workspace"@.len() == 17
        && "desktop-action"@.len() == 14);
    assert("focus-window"@[0] == 'f' && "close-window"@[0] == 'c');
}

/// What a client asks to be done.
#[derive(Debug)]
pub struct ExecuteParams {
    pub target_id: String,
    pub action: ApplicationAction,
    pub window_id: Option<String>,
    pub desktop_action_id: Option<String>,
    /// The revision of the list in which the client saw the application.
    pub expected_revision: Option<u64>,
    pub workspace_id: Option<String>,
}

// ---------------------------------------------------------------------
// Records of operations

/// What is visible of [`OperationResult`].
#[verifier::ext_equal]
pub struct OperationView {
    pub id: Seq<char>,
    pub action: Seq<char>,
    pub target_id: Seq<char>,
    pub status: Seq<char>,
    pub message: Seq<char>,
    pub launch_backend: Option<Seq<char>>,
    pub launch_scope: Option<Seq<char>>,
}

impl View for OperationResult {
    type V = OperationView;

    open spec fn view(&self) -> OperationView {
        OperationView {
            id: self.id@,
            action: self.action@,
            target_id: self.target_id@,
            status: self.status@,
            message: self.message@,
            launch_backend: optional_text(self.launch_backend),
            launch_scope: optional_text(self.launch_scope),
        }
    }
}

fn copied_text(text: &Option<String>) -> (copy: Option<String>)
    ensures
        optional_text(copy) == optional_text(*text),
{
    match text {
        Some(t) => Some(t.clone()),
        None => None,
    }
}

impl OperationResult {
    pub fn copied(&self) -> (copy: Self)
        ensures
            copy@ == self@,
    {
        OperationResult {
            id: self.id.clone(),
            action: self.action.clone(),
            target_id: self.target_id.clone(),
            status: self.status.clone(),
            message: self.message.clone(),
            launch_backend: copied_text(&self.launch_backend),
            launch_scope: copied_text(&self.launch_scope),
        }
    }
}

/// The record of an operation at one time.
pub open spec fn operation_of(
    id: Seq<char>,
    action: ApplicationAction,
    target_id: Seq<char>,
    status: Seq<char>,
    message: Seq<char>,
    launch: Option<LaunchBackend>,
) -> OperationView {
    OperationView {
        id,
        action: action.text(),
        target_id,
        status,
        message,
        launch_backend: match launch {
            Some(backend) => Some(backend.name_text()),
            None => None,
        },
        launch_scope: match launch {
            Some(backend) => Some(backend.scope_text()),
            None => None,
        },
    }
}

pub fn operation_result(
    id: &str,
    action: ApplicationAction,
    target_id: &str,
    status: &str,
    message: &str,
    launch: Option<LaunchBackend>,
) -> (operation: OperationResult)
    ensures
        operation@ == operation_of(id@, action, target_id@, status@, message@, launch),
{
    let (launch_backend, launch_scope) = match launch {
        Some(backend) => {
            let receipt = backend.receipt();
            (Some(receipt.backend), Some(receipt.scope))
        },
        None => (None, None),
    };
    OperationResult {
        id: id.to_owned(),
        action: action.as_str().to_owned(),
        target_id: target_id.to_owned(),
        status: status.to_owned(),
        message: message.to_owned(),
        launch_backend,
        launch_scope,
    }
}

// ---------------------------------------------------------------------
// Finding what an action is about

/// The position of the first application with an id; the number of applications
/// where there is none.
pub open spec fn entry_place(entries: Seq<EntryView>, id: Seq<char>) -> int
    decreases entries.len(),
{
    if entries.len() == 0 || entries[0].id == id {
        0
    } else {
        1 + entry_place(entries.skip(1), id)
    }
}

/// What an application or a group of windows is called.
pub open spec fn name_of(entries: Seq<EntryView>, id: Seq<char>) -> Seq<char> {
    let place = entry_place(entries, id);
    if place < entries.len() {
        entries[place].name
    } else {
        match strip_prefix(id, "window-group:"@) {
            Some(rest) => rest,
            None => id,
        }
    }
}

proof fn lemma_entry_place(entries: Seq<EntryView>, id: Seq<char>, i: int)
    requires
        0 <= i <= entries.len(),
        forall|j: int| 0 <= j < i ==> (#[trigger] entries[j]).id != id,
        i < entries.len() ==> entries[i].id == id,
    ensures
        entry_place(entries, id) == i,
    decreases entries.len(),
{
    if i > 0 {
        assert(entries[0].id != id);
        let rest = entries.skip(1);
        assert forall|j: int| 0 <= j < i - 1 implies (#[trigger] rest[j]).id != id by {
            assert(rest[j] == entries[j + 1]);
        }
        lemma_entry_place(rest, id, i - 1);
    }
}

/// The position of an application in the catalog.
pub fn find_entry(catalog: &Catalog, id: &str) -> (place: Option<usize>)
    ensures
        match place {
            Some(i) => i < catalog.entries@.len() && i == entry_place(
                views_of(catalog.entries@),
                id@,
            ) && catalog.entries@[i as int].id@ == id@,
            None => entry_place(views_of(catalog.entries@), id@) == catalog.entries@.len(),
        },
{
    let ghost all = views_of(catalog.entries@);
    for i in 0..catalog.entries.len()
        invariant
            all == views_of(catalog.entries@),
            forall|j: int| 0 <= j < i ==> (#[trigger] all[j]).id != id@,
    {
        assert(all[i as int] == catalog.entries@[i as int]@);
        if same_text(catalog.entries[i].id.as_str(), id) {
            proof {
                lemma_entry_place(all, id@, i as int);
            }
            return Some(i);
        }
    }
    proof {
        lemma_entry_place(all, id@, all.len() as int);
    }
    None
}

pub fn display_name(catalog: &Catalog, target_id: &str) -> (name: String)
    ensures
        name@ == name_of(views_of(catalog.entries@), target_id@),
{
    match find_entry(catalog, target_id) {
        Some(i) => catalog.entries[i].name.clone(),
        None => {
            let chars = chars_of(target_id);
            match without_prefix(chars.as_slice(), "window-group:") {
                Some(rest) => string_of(rest),
                None => target_id.to_owned(),
            }
        },
    }
}

/// The addresses of windows that belong to something, in their order.
pub open spec fn addresses_of(
    entries: Seq<EntryView>,
    cgroups: Map<u32, String>,
    windows: Seq<Window>,
    target_id: Seq<char>,
) -> Seq<Seq<char>>
    decreases windows.len(),
{
    if windows.len() == 0 {
        Seq::empty()
    } else {
        let before = addresses_of(entries, cgroups, windows.drop_last(), target_id);
        if window_target(entries, cgroups, windows.last()) == target_id {
            before.push(windows.last().address)
        } else {
            before
        }
    }
}

pub fn application_window_addresses(
    catalog: &Catalog,
    windows: &Snapshot,
    cgroups: &Table<u32, String>,
    target_id: &str,
) -> (addresses: Vec<String>)
    requires
        cgroups.wf(),
    ensures
        texts(addresses@) == addresses_of(
            views_of(catalog.entries@),
            cgroups@,
            windows_of(windows.clients@),
            target_id@,
        ),
{
    let ghost entries = views_of(catalog.entries@);
    let ghost all = windows_of(windows.clients@);
    let mut addresses: Vec<String> = Vec::new();
    assert(texts(addresses@) =~= addresses_of(entries, cgroups@, all.take(0), target_id@));
    for i in 0..windows.clients.len()
        invariant
            cgroups.wf(),
            entries == views_of(catalog.entries@),
            all == windows_of(windows.clients@),
            texts(addresses@) == addresses_of(
                entries,
                cgroups@,
                all.take(i as int),
                target_id@,
            ),
    {
        let ghost before = texts(addresses@);
        let client = &windows.clients[i];
        assert(all.take(i + 1).drop_last() =~= all.take(i as int));
        assert(all.take(i + 1).last() == client@);
        let target = resolve_target(catalog, client, cgroups);
        if same_text(target.as_str(), target_id) {
            addresses.push(client.address.clone());
            assert(texts(addresses@) =~= before.push(client.address@));
        }
    }
    assert(all.take(all.len() as int) =~= all);
    addresses
}

/// Why an action cannot be carried out.
#[derive(Debug, Clone, Copy, PartialEq, Eq, Structural)]
pub enum ActionError {
    WindowRequired,
    WindowGone,
    WindowElsewhere,
    WorkspaceRequired,
    DesktopActionRequired,
    ApplicationGone,
    NotRunning,
    EmptyCommand,
    EmptyActionCommand,
}

impl ActionError {
    pub open spec fn text(self) -> Seq<char> {
        match self {
            ActionError::WindowRequired => "window_id is required"@,
            ActionError::WindowGone => "window is no longer available"@,
            ActionError::WindowElsewhere => "window no longer belongs to the selected application"@,
            ActionError::WorkspaceRequired => "workspace_id is required"@,
            ActionError::DesktopActionRequired => "desktop_action_id is required"@,
            ActionError::ApplicationGone => "application is no longer available"@,
            ActionError::NotRunning => "application is no longer running"@,
            ActionError::EmptyCommand => "desktop application command is empty"@,
            ActionError::EmptyActionCommand => "desktop action command is empty"@,
        }
    }

    pub fn message(&self) -> (text: &'static str)
        ensures
            text@ == self.text(),
    {
        match self {
            ActionError::WindowRequired => "window_id is required",
            ActionError::WindowGone => "window is no longer available",
            ActionError::WindowElsewhere => "window no longer belongs to the selected application",
            ActionError::WorkspaceRequired => "workspace_id is required",
            ActionError::DesktopActionRequired => "desktop_action_id is required",
            ActionError::ApplicationGone => "application is no longer available",
            ActionError::NotRunning => "application is no longer running",
            ActionError::EmptyCommand => "desktop application command is empty",
            ActionError::EmptyActionCommand => "desktop action command is empty",
        }
    }
}

/// The first window with this name; the number of windows where there is none.
pub open spec fn window_place(windows: Seq<Window>, id: Seq<char>) -> int
    decreases windows.len(),
{
    if windows.len() == 0 || window_name(windows[0].address) == id {
        0
    } else {
        1 + window_place(windows.skip(1), id)
    }
}

/// The window that an action names, if it still belongs to the application.
pub open spec fn named_window(
    entries: Seq<EntryView>,
    cgroups: Map<u32, String>,
    windows: Seq<Window>,
    target_id: Seq<char>,
    window_id: Option<Seq<char>>,
) -> Result<Window, ActionError> {
    match window_id {
        None => Err(ActionError::WindowRequired),
        Some(id) => {
            let place = window_place(windows, id);
            if place >= windows.len() {
                Err(ActionError::WindowGone)
            } else if window_target(entries, cgroups, windows[place]) != target_id {
                Err(ActionError::WindowElsewhere)
            } else {
                Ok(windows[place])
            }
        },
    }
}

proof fn lemma_window_place(windows: Seq<Window>, id: Seq<char>, i: int)
    requires
        0 <= i <= windows.len(),
        forall|j: int| 0 <= j < i ==> window_name((#[trigger] windows[j]).address) != id,
        i < windows.len() ==> window_name(windows[i].address) == id,
    ensures
        window_place(windows, id) == i,
    decreases windows.len(),
{
    if i > 0 {
        assert(window_name(windows[0].address) != id);
        let rest = windows.skip(1);
        assert forall|j: int| 0 <= j < i - 1 implies window_name((#[trigger] rest[j]).address)
            != id by {
            assert(rest[j] == windows[j + 1]);
        }
        lemma_window_place(rest, id, i - 1);
    }
}

/// The window that an action names, if it still belongs to the application.
pub fn target_instance<'a>(
    catalog: &Catalog,
    windows: &'a Snapshot,
    cgroups: &Table<u32, String>,
    params: &ExecuteParams,
) -> (found: Result<&'a Client, ActionError>)
    requires
        cgroups.wf(),
    ensures
        match (
            found,
            named_window(
                views_of(catalog.entries@),
                cgroups@,
                windows_of(windows.clients@),
                params.target_id@,
                optional_text(params.window_id),
            ),
        ) {
            (Ok(client), Ok(window)) => client@ == window,
            (Err(e), Err(wanted)) => e == wanted,
            _ => false,
        },
{
    let id = match &params.window_id {
        Some(id) => id,
        None => {
            return Err(ActionError::WindowRequired);
        },
    };
    let ghost all = windows_of(windows.clients@);
    match windows.by_window_id(id.as_str()) {
        None => {
            proof {
                assert forall|j: int| 0 <= j < all.len() implies window_name(
                    (#[trigger] all[j]).address,
                ) != id@ by {
                    assert(window_name(windows.clients@[j].address@) != id@);
                }
                lemma_window_place(all, id@, all.len() as int);
            }
            Err(ActionError::WindowGone)
        },
        Some(client) => {
            proof {
                let i = choose|i: int|
                    0 <= i < windows.clients@.len() && *client == #[trigger] windows.clients@[i]
                        && window_name(client.address@) == id@ && forall|j: int|
                        0 <= j < i ==> window_name((#[trigger] windows.clients@[j]).address@)
                            != id@;
                assert forall|j: int| 0 <= j < i implies window_name(
                    (#[trigger] all[j]).address,
                ) != id@ by {
                    assert(window_name(windows.clients@[j].address@) != id@);
                }
                assert(all[i] == client@);
                lemma_window_place(all, id@, i);
            }
            let target = resolve_target(catalog, client, cgroups);
            if same_text(target.as_str(), params.target_id.as_str()) {
                Ok(client)
            } else {
                Err(ActionError::WindowElsewhere)
            }
        },
    }
}

} // verus!
