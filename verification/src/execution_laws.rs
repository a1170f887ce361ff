//! What an action does, from its first step to its last.

use vstd::prelude::*;
use crate::action::{
    addresses_of, name_of, named_window, window_place, ActionError, ApplicationAction,
};
use crate::catalog::{has_action, CatalogEntry, EntryView};
use crate::catalog_laws::says;
use crate::desktop_entry::{entry_groups, entry_path, exec_arguments};
use crate::execution::{
    action_exec, action_of, entry_exec, first_new, needs_terminal, request_of, start_fault,
    AskView, Event, Phase, Scene, StartMode, State, StepView,
};
use crate::hyprland::{is_address, is_workspace, window_name, Window};
use crate::launch::{Handoff, LaunchBackend};
use crate::query::window_target;
use crate::text::{ascii_lowercase, starts_with, trim};
use crate::text_laws::lemma_endings;

verus! {

// ---------------------------------------------------------------------
// Requests

/// An address is `0x` and hexadecimal digits, not all of nothing.
pub proof fn lemma_address(digits: Seq<char>)
    requires
        digits.len() > 0,
        forall|i: int|
            0 <= i < digits.len() ==> ('0' <= #[trigger] digits[i] <= '9' || 'a' <= digits[i] <= 'f'
                || 'A' <= digits[i] <= 'F'),
    ensures
        is_address("0x"@ + digits) == (digits != seq!['0']),
{
    reveal_strlit("0x");
    reveal_strlit("0x0");
    lemma_endings(digits, "0x"@);
    assert("0x0"@ =~= "0x"@ + seq!['0']);
    lemma_endings(seq!['0'], "0x"@);
    assert forall|i: int| 0 <= i < digits.len() implies crate::text::is_hex_digit(
        #[trigger] digits[i],
    ) by {}
}

/// What is not written so is no address.
pub proof fn lemma_no_address(text: Seq<char>, i: int)
    requires
        !starts_with(text, "0x"@) || (2 <= i < text.len() && !('0' <= text[i] <= '9') && !('a'
            <= text[i] <= 'f') && !('A' <= text[i] <= 'F')) || text.len() <= 2,
    ensures
        !is_address(text),
{
    reveal_strlit("0x");
    if starts_with(text, "0x"@) && 2 <= i < text.len() {
        let digits = text.skip(2);
        assert(digits[i - 2] == text[i]);
    }
}

/// Nothing is asked about what is no window, and nothing is moved to what is no
/// workspace.
pub proof fn lemma_request_refused(address: Seq<char>, workspace: Seq<char>)
    ensures
        (request_of(AskView::Focus(address)) is Ok) == is_address(address),
        (request_of(AskView::Close(address)) is Ok) == is_address(address),
        (request_of(AskView::Move(address, workspace)) is Ok) == (is_address(address)
            && is_workspace(workspace)),
{
}

/// Both forms of a request name the window, and that of a move the workspace; the
/// plain form is the compositor's own command.
pub proof fn lemma_request_names_window(address: Seq<char>, workspace: Seq<char>)
    requires
        is_address(address),
        is_workspace(workspace),
    ensures
        match request_of(AskView::Focus(address)) {
            Ok(r) => r.second == seq!["dispatch"@, "focuswindow"@, "address:"@ + address]
                && r.first[0] == "dispatch"@ && r.first[1] == "hl.dsp.focus({ window = 'address:"@
                + address + "' })"@,
            Err(_) => false,
        },
        match request_of(AskView::Close(address)) {
            Ok(r) => r.second == seq!["dispatch"@, "closewindow"@, "address:"@ + address]
                && r.first[0] == "dispatch"@ && r.first[1]
                == "hl.dsp.window.close({ window = 'address:"@ + address + "' })"@,
            Err(_) => false,
        },
        match request_of(AskView::Move(address, workspace)) {
            Ok(r) => r.second == seq![
                "dispatch"@,
                "movetoworkspacesilent"@,
                workspace + ",address:"@ + address,
            ] && r.first[0] == "dispatch"@ && r.first[1] == "hl.dsp.window.move({ workspace = '"@
                + workspace + "', follow = false, window = 'address:"@ + address + "' })"@,
            Err(_) => false,
        },
{
    reveal_strlit("address:");
    reveal_strlit(",");
    reveal_strlit(",address:");
    reveal_strlit("hl.dsp.focus({ window = '");
    reveal_strlit("hl.dsp.focus({ window = 'address:");
    reveal_strlit("hl.dsp.window.close({ window = '");
    reveal_strlit("hl.dsp.window.close({ window = 'address:");
    reveal_strlit("', follow = false, window = '");
    reveal_strlit("', follow = false, window = 'address:");
    assert("hl.dsp.focus({ window = '"@ + "address:"@ =~= "hl.dsp.focus({ window = 'address:"@);
    assert("hl.dsp.window.close({ window = '"@ + "address:"@
        =~= "hl.dsp.window.close({ window = 'address:"@);
    assert("', follow = false, window = '"@ + "address:"@
        =~= "', follow = false, window = 'address:"@);
    assert(","@ + "address:"@ =~= ",address:"@);
    assert("hl.dsp.focus({ window = '"@ + ("address:"@ + address) + "' })"@
        =~= "hl.dsp.focus({ window = '"@ + "address:"@ + address + "' })"@);
    assert("hl.dsp.window.close({ window = '"@ + ("address:"@ + address) + "' })"@
        =~= "hl.dsp.window.close({ window = '"@ + "address:"@ + address + "' })"@);
    assert("hl.dsp.window.move({ workspace = '"@ + workspace + "', follow = false, window = '"@ + (
    "address:"@ + address) + "' })"@ =~= "hl.dsp.window.move({ workspace = '"@ + workspace + (
    "', follow = false, window = '"@ + "address:"@) + address + "' })"@);
    assert(workspace + ","@ + ("address:"@ + address) =~= workspace + (","@ + "address:"@)
        + address);
}

// ---------------------------------------------------------------------
// Windows

/// The windows of something are those that belong to it, in their order.
pub proof fn lemma_own_addresses(
    entries: Seq<EntryView>,
    cgroups: Map<u32, String>,
    windows: Seq<Window>,
    target: Seq<char>,
)
    ensures
        addresses_of(entries, cgroups, windows, target) == windows.filter(
            |w: Window| window_target(entries, cgroups, w) == target,
        ).map_values(|w: Window| w.address),
    decreases windows.len(),
{
    reveal(Seq::filter);
    let own = |w: Window| window_target(entries, cgroups, w) == target;
    let address = |w: Window| w.address;
    if windows.len() > 0 {
        let front = windows.drop_last();
        lemma_own_addresses(entries, cgroups, front, target);
        let before = front.filter(own);
        if own(windows.last()) {
            assert(before.push(windows.last()).map_values(address) =~= before.map_values(
                address,
            ).push(windows.last().address));
        }
    } else {
        assert(windows.filter(own).map_values(address) =~= Seq::<Seq<char>>::empty());
    }
}

/// A window is named by its address without the `0x`, in lower case.
pub proof fn lemma_window_name(digits: Seq<char>)
    requires
        !starts_with(digits, "0x"@),
    ensures
        window_name("0x"@ + digits) == "window-"@ + ascii_lowercase(digits),
{
    reveal_strlit("0x");
    lemma_endings(digits, "0x"@);
    assert(("0x"@ + digits).skip(2) =~= digits);
    assert(crate::text::trim_start_matches("0x"@ + digits, "0x"@)
        == crate::text::trim_start_matches(digits, "0x"@));
}

proof fn lemma_place(windows: Seq<Window>, id: Seq<char>, i: int)
    requires
        0 <= i <= windows.len(),
        forall|j: int| 0 <= j < i ==> window_name((#[trigger] windows[j]).address) != id,
        i < windows.len() ==> window_name(windows[i].address) == id,
    ensures
        window_place(windows, id) == i,
    decreases windows.len(),
{
    if i > 0 {
        assert(window_name(windows[0].address) != id);
        let rest = windows.skip(1);
        if i < windows.len() {
            assert(rest[i - 1] == windows[i]);
        }
        assert forall|j: int| 0 <= j < i - 1 implies window_name((#[trigger] rest[j]).address)
            != id by {
            assert(rest[j] == windows[j + 1]);
        }
        lemma_place(rest, id, i - 1);
    }
}

/// A window that an action names is found if it is there and still belongs to the
/// application.
pub proof fn lemma_named_window(
    entries: Seq<EntryView>,
    cgroups: Map<u32, String>,
    windows: Seq<Window>,
    target: Seq<char>,
    id: Seq<char>,
    i: int,
)
    requires
        0 <= i < windows.len(),
        window_name(windows[i].address) == id,
        forall|j: int| 0 <= j < i ==> window_name((#[trigger] windows[j]).address) != id,
    ensures
        named_window(entries, cgroups, windows, target, Some(id)) == (if window_target(
            entries,
            cgroups,
            windows[i],
        ) == target {
            Ok::<Window, ActionError>(windows[i])
        } else {
            Err::<Window, ActionError>(ActionError::WindowElsewhere)
        }),
{
    lemma_place(windows, id, i);
}

pub proof fn lemma_no_named_window(
    entries: Seq<EntryView>,
    cgroups: Map<u32, String>,
    windows: Seq<Window>,
    target: Seq<char>,
    id: Seq<char>,
)
    requires
        forall|j: int|
            0 <= j < windows.len() ==> window_name((#[trigger] windows[j]).address) != id,
    ensures
        named_window(entries, cgroups, windows, target, Some(id)) == Err::<Window, ActionError>(
            ActionError::WindowGone,
        ),
        named_window(entries, cgroups, windows, target, None) == Err::<Window, ActionError>(
            ActionError::WindowRequired,
        ),
{
    lemma_place(windows, id, windows.len() as int);
}

// ---------------------------------------------------------------------
// Actions on windows

/// The step asks the compositor for this, in its first form, and it is all that is
/// left to ask.
pub open spec fn asks_only(result: (State, StepView), ask: AskView) -> bool {
    &&& result.0.asks == seq![ask]
    &&& match request_of(ask) {
        Ok(request) => result.0.phase == Phase::Asking && !result.0.second && result.1
            == StepView::Ask(request.first),
        Err(e) => result.1 == StepView::Fail(e.text()) && result.0.phase == Phase::Over,
    }
}

/// Activating an application that runs gives its first window the focus; nothing is
/// started.
pub proof fn lemma_activate_running(
    scene: Scene,
    target: Seq<char>,
    window_id: Option<Seq<char>>,
    workspace_id: Option<Seq<char>>,
    desktop_action: Option<Seq<char>>,
)
    requires
        scene.addresses(target).len() > 0,
    ensures
        asks_only(
            scene.begin(
                ApplicationAction::Activate,
                target,
                window_id,
                workspace_id,
                desktop_action,
            ),
            AskView::Focus(scene.addresses(target)[0]),
        ),
{
}

/// Activating an application that does not run starts it and gives its new window the
/// focus; launching one starts it whether it runs or not and leaves the focus alone.
pub proof fn lemma_activate_or_launch(
    scene: Scene,
    target: Seq<char>,
    window_id: Option<Seq<char>>,
    workspace_id: Option<Seq<char>>,
    desktop_action: Option<Seq<char>>,
)
    ensures
        ({
            let activated = scene.begin(
                ApplicationAction::Activate,
                target,
                window_id,
                workspace_id,
                desktop_action,
            );
            let launched = scene.begin(
                ApplicationAction::Launch,
                target,
                window_id,
                workspace_id,
                desktop_action,
            );
            &&& scene.addresses(target).len() == 0 ==> activated.1 == launched.1
            &&& launched.1 is Start || launched.1 is Fail
            &&& launched.1 is Start ==> !launched.0.focus && launched.0.workspace == scene.workspace
                && launched.0.known == scene.addresses(target) && launched.0.phase
                == Phase::Starting && launched.0.backend == Some(scene.backend)
            &&& scene.addresses(target).len() == 0 && activated.1 is Start ==> activated.0.focus
                && activated.0.workspace == scene.workspace && activated.0.known == scene.addresses(
                target,
            )
        }),
{
}

/// Closing an application asks each of its windows to close, and no other window; one
/// that does not run cannot be closed.
pub proof fn lemma_close(
    scene: Scene,
    target: Seq<char>,
    window_id: Option<Seq<char>>,
    workspace_id: Option<Seq<char>>,
    desktop_action: Option<Seq<char>>,
)
    ensures
        ({
            let (state, step) = scene.begin(
                ApplicationAction::Close,
                target,
                window_id,
                workspace_id,
                desktop_action,
            );
            let own = scene.addresses(target);
            &&& own.len() == 0 ==> step == StepView::Fail("application is no longer running"@)
            &&& own.len() > 0 ==> state.asks.len() == own.len() && forall|i: int|
                0 <= i < own.len() ==> #[trigger] state.asks[i] == AskView::Close(own[i])
        }),
{
}

/// Actions on one window ask for that window alone, and are refused where it is not
/// there or not the application's.
pub proof fn lemma_window_actions(
    scene: Scene,
    target: Seq<char>,
    window_id: Option<Seq<char>>,
    workspace_id: Option<Seq<char>>,
    desktop_action: Option<Seq<char>>,
)
    ensures
        ({
            let focus = scene.begin(
                ApplicationAction::FocusWindow,
                target,
                window_id,
                workspace_id,
                desktop_action,
            );
            let close = scene.begin(
                ApplicationAction::CloseWindow,
                target,
                window_id,
                workspace_id,
                desktop_action,
            );
            let moved = scene.begin(
                ApplicationAction::MoveToWorkspace,
                target,
                window_id,
                workspace_id,
                desktop_action,
            );
            match named_window(scene.entries(), scene.cgroups, scene.windows, target, window_id) {
                Ok(w) => {
                    &&& asks_only(focus, AskView::Focus(w.address))
                    &&& asks_only(close, AskView::Close(w.address))
                    &&& match workspace_id {
                        Some(workspace) => asks_only(moved, AskView::Move(w.address, workspace)),
                        None => moved.1 == StepView::Fail("workspace_id is required"@),
                    }
                },
                Err(e) => {
                    &&& focus.1 == StepView::Fail(e.text())
                    &&& close.1 == StepView::Fail(e.text())
                    &&& moved.1 == StepView::Fail(e.text())
                },
            }
        }),
{
}

/// What is said in the end tells what was done to which application.
pub proof fn lemma_said(
    scene: Scene,
    action: ApplicationAction,
    target: Seq<char>,
    window_id: Option<Seq<char>>,
    workspace_id: Option<Seq<char>>,
    desktop_action: Option<Seq<char>>,
)
    ensures
        ({
            let (state, step) = scene.begin(
                action,
                target,
                window_id,
                workspace_id,
                desktop_action,
            );
            &&& state.target == target
            &&& state.name == name_of(scene.entries(), target)
            &&& step is Ask ==> state.verb == (match action {
                ApplicationAction::Activate => "Focused"@,
                ApplicationAction::FocusWindow => "Focused"@,
                ApplicationAction::Close => "Closed"@,
                ApplicationAction::CloseWindow => "Closed"@,
                ApplicationAction::MoveToWorkspace => "Moved"@,
                _ => state.verb,
            })
            &&& step is Start ==> state.verb == (if action == ApplicationAction::DesktopAction {
                "Started"@
            } else {
                "Launched"@
            })
        }),
{
}

// ---------------------------------------------------------------------
// Starting

/// The entry decides how an application is started: with `uwsm-app` always by its
/// id, without it by its id or, where it needs a terminal, by its command in one.
pub proof fn lemma_launch_command(scene: Scene, target: Seq<char>, focus: bool, i: int)
    requires
        0 <= i < scene.entries().len(),
        scene.entries()[i].id == target,
        forall|j: int| 0 <= j < i ==> (#[trigger] scene.entries()[j]).id != target,
    ensures
        ({
            let (state, step) = scene.launching(target, focus);
            let entry = scene.catalog.entries@[i];
            match scene.backend {
                LaunchBackend::Uwsm => match step {
                    StepView::Start(line, mode) => line.program == "uwsm-app"@ && line.arguments
                        == seq!["-t"@, "service"@, "--"@, target] && (match mode {
                        StartMode::HandOver(description) => description@ == "desktop application"@,
                        _ => false,
                    }),
                    _ => false,
                },
                LaunchBackend::Direct => if needs_terminal(entry) {
                    match (entry_exec(entry), step) {
                        (Ok(command), StepView::Start(line, mode)) => command.len() > 0
                            && line.program == "xdg-terminal-exec"@ && line.arguments
                            == seq!["--"@] + command && (match mode {
                            StartMode::Spawn(fault) => fault@
                                == "start application in the default terminal"@,
                            _ => false,
                        }),
                        (Ok(command), StepView::Fail(message)) => command.len() == 0 && message
                            == "desktop application command is empty"@,
                        (Err(fault), StepView::Fail(message)) => message == fault,
                        _ => false,
                    }
                } else {
                    match step {
                        StepView::Start(line, mode) => line.program == "gtk-launch"@
                            && line.arguments == seq![
                            crate::text::trim_end_matches(target, ".desktop"@),
                        ] && (match mode {
                            StartMode::Spawn(fault) => fault@ == "start desktop application"@,
                            _ => false,
                        }),
                        _ => false,
                    }
                },
            }
        }),
{
    crate::reading_laws::lemma_entry_place(scene.entries(), target, i);
    let line = crate::launch::desktop_invocation(LaunchBackend::Uwsm, target);
    assert(line.arguments =~= seq!["-t"@, "service"@, "--"@, target]);
}

/// What is not in the catalog cannot be started.
pub proof fn lemma_nothing_to_launch(scene: Scene, target: Seq<char>, focus: bool)
    requires
        forall|j: int| 0 <= j < scene.entries().len() ==> (#[trigger] scene.entries()[j]).id != target,
    ensures
        scene.launching(target, focus).1 == StepView::Fail("application is no longer available"@),
{
    crate::reading_laws::lemma_no_entry(scene.entries(), target, Seq::empty());
}

/// An additional action is started by the entry's id and its own, or by its command
/// where nothing reads the entry; one that the entry does not have is refused.
pub proof fn lemma_action_command(
    id: Seq<char>,
    action: Seq<char>,
    command: Result<Seq<Seq<char>>, Seq<char>>,
)
    ensures
        match command {
            Err(fault) => action_of(id, action, command, LaunchBackend::Uwsm) == Err::<
                (crate::launch::Invocation, StartMode),
                Seq<char>,
            >(fault) && action_of(id, action, command, LaunchBackend::Direct) == Err::<
                (crate::launch::Invocation, StartMode),
                Seq<char>,
            >(fault),
            Ok(list) => {
                &&& match action_of(id, action, command, LaunchBackend::Uwsm) {
                    Ok((line, mode)) => line.program == "uwsm-app"@ && line.arguments.last() == id
                        + ":"@ + action && (match mode {
                        StartMode::HandOver(description) => description@ == "desktop action"@,
                        _ => false,
                    }),
                    Err(_) => false,
                }
                &&& match action_of(id, action, command, LaunchBackend::Direct) {
                    Ok((line, mode)) => list.len() > 0 && line.program == list[0] && line.arguments
                        == list.skip(1) && (match mode {
                        StartMode::Spawn(fault) => fault@ == "start desktop action"@,
                        _ => false,
                    }),
                    Err(message) => list.len() == 0 && message
                        == "desktop action command is empty"@,
                }
            },
        },
{
}

// ---------------------------------------------------------------------
// Going on

/// A request that is granted makes way for the next; after the last, everything was
/// done, and that is said.
pub proof fn lemma_granted(state: State, entries: Seq<EntryView>)
    requires
        state.phase == Phase::Asking,
        state.asks.len() > 0,
    ensures
        ({
            let (after, step) = state.next(entries, Event::Answered(true));
            &&& after.asks == state.asks.skip(1)
            &&& state.asks.len() == 1 ==> step == StepView::Finish(
                state.verb + " "@ + state.name,
                state.backend,
            ) && after.phase == Phase::Over
            &&& state.asks.len() > 1 ==> match request_of(state.asks[1]) {
                Ok(request) => step == StepView::Ask(request.first) && after.phase == Phase::Asking,
                Err(e) => step == StepView::Fail(e.text()),
            }
        }),
{
}

/// A request that is refused is made in its other form; refused again, it has failed.
pub proof fn lemma_refused(state: State, entries: Seq<EntryView>)
    requires
        state.phase == Phase::Asking,
        state.asks.len() > 0,
        request_of(state.asks[0]) is Ok,
    ensures
        ({
            let request = request_of(state.asks[0])->Ok_0;
            let (after, step) = state.next(entries, Event::Answered(false));
            &&& !state.second ==> step == StepView::Ask(request.second) && after.second
                && after.asks == state.asks && after.phase == Phase::Asking
            &&& state.second ==> step == StepView::Fail(request.refusal) && after.phase
                == Phase::Over
        }),
{
}

/// A command that ran ends the launch, unless its window is to be moved or to get the
/// focus; one that did not run is a failure.
pub proof fn lemma_started(state: State, entries: Seq<EntryView>, handoff: Handoff)
    requires
        state.phase == Phase::Starting,
    ensures
        ({
            let (after, step) = state.next(entries, Event::Started(handoff));
            &&& handoff is Succeeded && (state.focus || state.workspace is Some) ==> step
                == StepView::Look && after.phase == Phase::Watching
            &&& handoff is Succeeded && !state.focus && state.workspace is None ==> step
                == StepView::Finish(state.verb + " "@ + state.name, state.backend)
            &&& !(handoff is Succeeded) ==> step is Fail && after.phase == Phase::Over
        }),
{
}

proof fn lemma_first(addresses: Seq<Seq<char>>, known: Seq<Seq<char>>, i: int)
    requires
        0 <= i < addresses.len(),
        !known.contains(addresses[i]),
        forall|j: int| 0 <= j < i ==> known.contains(#[trigger] addresses[j]),
    ensures
        first_new(addresses, known) == Some(addresses[i]),
    decreases addresses.len(),
{
    if i > 0 {
        let rest = addresses.skip(1);
        assert(known.contains(addresses[0]));
        assert(rest[i - 1] == addresses[i]);
        assert forall|j: int| 0 <= j < i - 1 implies known.contains(#[trigger] rest[j]) by {
            assert(rest[j] == addresses[j + 1]);
        }
        lemma_first(rest, known, i - 1);
    }
}

proof fn lemma_none_new(addresses: Seq<Seq<char>>, known: Seq<Seq<char>>)
    requires
        forall|j: int| 0 <= j < addresses.len() ==> known.contains(#[trigger] addresses[j]),
    ensures
        first_new(addresses, known) is None,
    decreases addresses.len(),
{
    if addresses.len() > 0 {
        let rest = addresses.skip(1);
        assert(known.contains(addresses[0]));
        assert forall|j: int| 0 <= j < rest.len() implies known.contains(#[trigger] rest[j]) by {
            assert(rest[j] == addresses[j + 1]);
        }
        lemma_none_new(rest, known);
    }
}

/// The first window that was not there before is moved to the wanted workspace and
/// then, where that is wanted, given the focus.
pub proof fn lemma_new_window(state: State, addresses: Seq<Seq<char>>, elapsed: u64, i: int)
    requires
        0 <= i < addresses.len(),
        !state.known.contains(addresses[i]),
        forall|j: int| 0 <= j < i ==> state.known.contains(#[trigger] addresses[j]),
        state.focus || state.workspace is Some,
    ensures
        ({
            let (after, step) = state.looked(addresses, elapsed);
            let window = addresses[i];
            &&& after.asks == (match state.workspace {
                Some(workspace) => if state.focus {
                    seq![AskView::Move(window, workspace), AskView::Focus(window)]
                } else {
                    seq![AskView::Move(window, workspace)]
                },
                None => seq![AskView::Focus(window)],
            })
            &&& step is Ask || step is Fail
            &&& state.focus ==> after.verb == "Launched and focused"@
            &&& !state.focus ==> after.verb == state.verb
        }),
{
    lemma_first(addresses, state.known, i);
    let window = addresses[i];
    if let Some(workspace) = state.workspace {
        if state.focus {
            assert(state.wishes(window) =~= seq![
                AskView::Move(window, workspace),
                AskView::Focus(window),
            ]);
        }
    } else {
        assert(state.wishes(window) =~= seq![AskView::Focus(window)]);
    }
}

/// Without a new window one is looked for again every tenth of a second, and no
/// longer than eight seconds.
pub proof fn lemma_no_new_window(state: State, addresses: Seq<Seq<char>>, elapsed: u64)
    requires
        forall|j: int| 0 <= j < addresses.len() ==> state.known.contains(#[trigger] addresses[j]),
    ensures
        ({
            let (after, step) = state.looked(addresses, elapsed);
            &&& elapsed < 8_000 ==> step == StepView::Wait(100) && after == state
            &&& elapsed >= 8_000 ==> step == StepView::Finish(
                state.verb + " "@ + state.name,
                state.backend,
            )
        }),
{
    lemma_none_new(addresses, state.known);
}

/// After waiting, the windows are looked at.
pub proof fn lemma_waited(state: State, entries: Seq<EntryView>)
    requires
        state.phase == Phase::Watching,
    ensures
        state.next(entries, Event::Waited) == (state, StepView::Look),
{
}

/// What went wrong with a command that hands an application over is said with what the
/// command wrote.
pub proof fn lemma_handed_over(
    state: State,
    entries: Seq<EntryView>,
    description: &'static str,
    output: String,
)
    requires
        state.phase == Phase::Starting,
        state.mode == StartMode::HandOver(description),
        trim(output@).len() > 0,
    ensures
        state.next(entries, Event::Started(Handoff::TimedOut)).1 == StepView::Fail(
            description@ + " launch handoff timed out"@,
        ),
        state.next(entries, Event::Started(Handoff::NotStarted)).1 == StepView::Fail(
            "start "@ + description@,
        ),
        state.next(entries, Event::Started(Handoff::Failed(output))).1 == StepView::Fail(
            description@ + " launch failed: "@ + trim(output@),
        ),
{
}

/// An additional action is started by what its entry says of it; without one nothing
/// is.
pub proof fn lemma_desktop_action(
    scene: Scene,
    target: Seq<char>,
    window_id: Option<Seq<char>>,
    workspace_id: Option<Seq<char>>,
    action: Seq<char>,
    i: int,
)
    requires
        0 <= i < scene.entries().len(),
        scene.entries()[i].id == target,
        forall|j: int| 0 <= j < i ==> (#[trigger] scene.entries()[j]).id != target,
    ensures
        scene.begin(ApplicationAction::DesktopAction, target, window_id, workspace_id, None).1
            == StepView::Fail(ActionError::DesktopActionRequired.text()),
        ({
            let (state, step) = scene.begin(
                ApplicationAction::DesktopAction,
                target,
                window_id,
                workspace_id,
                Some(action),
            );
            match action_of(
                target,
                action,
                action_exec(scene.catalog.entries@[i], action),
                scene.backend,
            ) {
                Ok((line, mode)) => step == StepView::Start(line, mode) && state.phase
                    == Phase::Starting && !state.focus && state.workspace is None && state.verb
                    == "Started"@,
                Err(message) => step == StepView::Fail(message) && state.phase == Phase::Over,
            }
        }),
{
    crate::reading_laws::lemma_entry_place(scene.entries(), target, i);
}

/// Refusals say what is wrong.
pub proof fn lemma_refusals()
    ensures
        ActionError::NotRunning.text() == "application is no longer running"@,
        ActionError::ApplicationGone.text() == "application is no longer available"@,
        ActionError::WindowRequired.text() == "window_id is required"@,
        ActionError::WorkspaceRequired.text() == "workspace_id is required"@,
        ActionError::DesktopActionRequired.text() == "desktop_action_id is required"@,
        ActionError::WindowGone.text() == "window is no longer available"@,
        ActionError::WindowElsewhere.text()
            == "window no longer belongs to the selected application"@,
        ActionError::EmptyCommand.text() == "desktop application command is empty"@,
        ActionError::EmptyActionCommand.text() == "desktop action command is empty"@,
{
}

/// The commands are those that the desktop file gives: for the application itself, and
/// for each of its actions.
pub proof fn lemma_commands(entry: CatalogEntry, action: Seq<char>, exec: Seq<char>)
    ensures
        says(entry_groups(entry.entry), "Exec"@, exec) ==> entry_exec(entry) == exec_arguments(
            entry_groups(entry.entry),
            entry_path(entry.entry),
            Some(exec),
        ),
        needs_terminal(entry) == says(entry_groups(entry.entry), "Terminal"@, "true"@),
        !has_action(entry@.actions, action) ==> action_exec(entry, action) == Err::<
            Seq<Seq<char>>,
            Seq<char>,
        >("desktop action is unavailable"@),
        has_action(entry@.actions, action) && entry_groups(entry.entry).contains_key(
            "Desktop Action "@ + action,
        ) && entry_groups(entry.entry)["Desktop Action "@ + action].contains_key("Exec"@)
            && entry_groups(entry.entry)["Desktop Action "@ + action]["Exec"@].0 == exec
            ==> action_exec(entry, action) == exec_arguments(
            entry_groups(entry.entry),
            entry_path(entry.entry),
            Some(exec),
        ),
{
}

/// A program that was spawned has started unless that failed.
pub proof fn lemma_spawned(fault: &'static str, handoff: Handoff)
    ensures
        (start_fault(StartMode::Spawn(fault), handoff) is None) == (handoff is Succeeded),
        !(handoff is Succeeded) ==> start_fault(StartMode::Spawn(fault), handoff) == Some(fault@),
{
}

} // verus!
