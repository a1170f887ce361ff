//! Carrying out what a client asked for, one step after another.
//!
//! An [`Execution`] decides what to do next; whoever drives it asks the
//! compositor, starts commands and waits, and reports what came of it.

use vstd::prelude::*;
use crate::action::{
    ActionError, ApplicationAction, ExecuteParams, addresses_of, application_window_addresses,
    display_name, entry_place, find_entry, name_of, named_window, target_instance,
};
use crate::catalog::{
    Catalog, CatalogEntry, CommandError, EntryView, has_action, main_value, views_of,
};
use crate::desktop_entry::{
    action_group, entry_groups, entry_path, exec_arguments, plain_value,
};
use crate::hyprland::{
    DispatchRequest, RequestError, Snapshot, Window, close_request, focus_request, is_address,
    is_workspace, move_request, windows_of,
};
use crate::launch::{
    CommandLine, Handoff, Invocation, LaunchBackend, checked_handoff, desktop_action_command,
    desktop_command, desktop_invocation, direct_command, handoff_fault, invocation,
    terminal_arguments, terminal_command,
};
use crate::table::Table;
use crate::text::{append_text, chars_of, optional_text, same_text, string_of, texts};

verus! {

/// How long to look for the window of an application that was started.
pub const WATCH_MILLISECONDS: u64 = 8_000;

/// How long to wait between two looks.
pub const WATCH_INTERVAL_MILLISECONDS: u64 = 100;

// ---------------------------------------------------------------------
// Requests to the compositor

/// Something to ask of the compositor.
#[derive(Debug)]
pub enum Ask {
    Focus(String),
    Close(String),
    /// A window and the workspace to move it to.
    Move(String, String),
}

/// What an [`Ask`] stands for.
#[verifier::ext_equal]
pub enum AskView {
    Focus(Seq<char>),
    Close(Seq<char>),
    Move(Seq<char>, Seq<char>),
}

impl View for Ask {
    type V = AskView;

    open spec fn view(&self) -> AskView {
        match self {
            Ask::Focus(address) => AskView::Focus(address@),
            Ask::Close(address) => AskView::Close(address@),
            Ask::Move(address, workspace) => AskView::Move(address@, workspace@),
        }
    }
}

pub open spec fn ask_views(list: Seq<Ask>) -> Seq<AskView> {
    list.map_values(|ask: Ask| ask@)
}

/// What a [`DispatchRequest`] stands for.
#[verifier::ext_equal]
pub struct RequestView {
    pub first: Seq<Seq<char>>,
    pub second: Seq<Seq<char>>,
    pub refusal: Seq<char>,
}

impl View for DispatchRequest {
    type V = RequestView;

    open spec fn view(&self) -> RequestView {
        RequestView {
            first: texts(self.first@),
            second: texts(self.second@),
            refusal: self.refusal@,
        }
    }
}

/// The request by which something is asked.
pub open spec fn request_of(ask: AskView) -> Result<RequestView, RequestError> {
    match ask {
        AskView::Focus(address) => if !is_address(address) {
            Err(RequestError::InvalidAddress)
        } else {
            Ok(
                RequestView {
                    first: seq![
                        "dispatch"@,
                        "hl.dsp.focus({ window = '"@ + ("address:"@ + address) + "' })"@,
                    ],
                    second: seq!["dispatch"@, "focuswindow"@, "address:"@ + address],
                    refusal: "Hyprland rejected the focus request"@,
                },
            )
        },
        AskView::Close(address) => if !is_address(address) {
            Err(RequestError::InvalidAddress)
        } else {
            Ok(
                RequestView {
                    first: seq![
                        "dispatch"@,
                        "hl.dsp.window.close({ window = '"@ + ("address:"@ + address) + "' })"@,
                    ],
                    second: seq!["dispatch"@, "closewindow"@, "address:"@ + address],
                    refusal: "Hyprland rejected the close request"@,
                },
            )
        },
        AskView::Move(address, workspace) => if !is_address(address) {
            Err(RequestError::InvalidAddress)
        } else if !is_workspace(workspace) {
            Err(RequestError::InvalidWorkspace)
        } else {
            Ok(
                RequestView {
                    first: seq![
                        "dispatch"@,
                        "hl.dsp.window.move({ workspace = '"@ + workspace
                            + "', follow = false, window = '"@ + ("address:"@ + address) + "' })"@,
                    ],
                    second: seq![
                        "dispatch"@,
                        "movetoworkspacesilent"@,
                        workspace + ","@ + ("address:"@ + address),
                    ],
                    refusal: "Hyprland rejected the workspace move request"@,
                },
            )
        },
    }
}

pub fn dispatch_request(ask: &Ask) -> (request: Result<DispatchRequest, RequestError>)
    ensures
        match (request, request_of(ask@)) {
            (Ok(r), Ok(wanted)) => r@ == wanted,
            (Err(e), Err(wanted)) => e == wanted,
            _ => false,
        },
{
    match ask {
        Ask::Focus(address) => focus_request(address.as_str()),
        Ask::Close(address) => close_request(address.as_str()),
        Ask::Move(address, workspace) => move_request(address.as_str(), workspace.as_str()),
    }
}

// ---------------------------------------------------------------------
// Starting commands

/// What it means that a command was started.
#[derive(Debug, Clone, Copy)]
pub enum StartMode {
    /// The command hands the application over and ends; with what it starts.
    HandOver(&'static str),
    /// The command is the application; with what to say where it does not start.
    Spawn(&'static str),
}

/// What to say of a command that went wrong.
pub open spec fn start_fault(mode: StartMode, handoff: Handoff) -> Option<Seq<char>> {
    match mode {
        StartMode::HandOver(description) => handoff_fault(handoff, description@),
        StartMode::Spawn(fault) => match handoff {
            Handoff::Succeeded => None,
            _ => Some(fault@),
        },
    }
}

fn checked_start(mode: StartMode, handoff: &Handoff) -> (result: Result<(), String>)
    ensures
        match result {
            Ok(_) => start_fault(mode, *handoff) is None,
            Err(message) => start_fault(mode, *handoff) == Some(message@),
        },
{
    match mode {
        StartMode::HandOver(description) => checked_handoff(handoff, description),
        StartMode::Spawn(fault) => match handoff {
            Handoff::Succeeded => Ok(()),
            _ => Err(fault.to_owned()),
        },
    }
}

/// A command to start.
#[derive(Debug)]
pub struct Start {
    pub line: CommandLine,
    pub mode: StartMode,
}

/// How an application is started: by its desktop id, but in the default terminal
/// where it needs one and nothing else provides it.
pub open spec fn launch_of(
    id: Seq<char>,
    terminal: bool,
    command: Result<Seq<Seq<char>>, Seq<char>>,
    backend: LaunchBackend,
) -> Result<(Invocation, StartMode), Seq<char>> {
    if terminal && backend == LaunchBackend::Direct {
        match command {
            Err(fault) => Err(fault),
            Ok(list) => match terminal_arguments(list) {
                None => Err(ActionError::EmptyCommand.text()),
                Some(arguments) => Ok(
                    (
                        invocation(backend, "xdg-terminal-exec"@, arguments),
                        StartMode::Spawn("start application in the default terminal"),
                    ),
                ),
            },
        }
    } else {
        Ok(
            (
                desktop_invocation(backend, id),
                match backend {
                    LaunchBackend::Uwsm => StartMode::HandOver("desktop application"),
                    LaunchBackend::Direct => StartMode::Spawn("start desktop application"),
                },
            ),
        )
    }
}

/// How an additional action is started: by its name, but by its command where
/// nothing reads the desktop entry.
pub open spec fn action_of(
    id: Seq<char>,
    action: Seq<char>,
    command: Result<Seq<Seq<char>>, Seq<char>>,
    backend: LaunchBackend,
) -> Result<(Invocation, StartMode), Seq<char>> {
    match command {
        Err(fault) => Err(fault),
        Ok(list) => match backend {
            LaunchBackend::Uwsm => Ok(
                (
                    invocation(backend, id + ":"@ + action, Seq::empty()),
                    StartMode::HandOver("desktop action"),
                ),
            ),
            LaunchBackend::Direct => if list.len() == 0 {
                Err(ActionError::EmptyActionCommand.text())
            } else {
                Ok(
                    (
                        invocation(backend, list[0], list.skip(1)),
                        StartMode::Spawn("start desktop action"),
                    ),
                )
            },
        },
    }
}

pub open spec fn command_view(command: Result<Vec<String>, CommandError>) -> Result<
    Seq<Seq<char>>,
    Seq<char>,
> {
    match command {
        Ok(list) => Ok(texts(list@)),
        Err(fault) => Err(fault.text()),
    }
}

/// What starting comes to.
pub open spec fn is_start(
    start: Result<Start, String>,
    wanted: Result<(Invocation, StartMode), Seq<char>>,
) -> bool {
    match (start, wanted) {
        (Ok(s), Ok(w)) => s.line@ == w.0 && s.mode == w.1,
        (Err(e), Err(w)) => e@ == w,
        _ => false,
    }
}

/// How an application is started whose command was read from its entry.
pub fn launch_start(
    id: &str,
    terminal: bool,
    command: Result<Vec<String>, CommandError>,
    backend: LaunchBackend,
) -> (start: Result<Start, String>)
    ensures
        is_start(start, launch_of(id@, terminal, command_view(command), backend)),
{
    if terminal && backend == LaunchBackend::Direct {
        let list = match command {
            Ok(list) => list,
            Err(fault) => {
                return Err(fault.message());
            },
        };
        match terminal_command(backend, list.as_slice()) {
            None => Err(ActionError::EmptyCommand.message().to_owned()),
            Some(line) => Ok(
                Start { line, mode: StartMode::Spawn("start application in the default terminal") },
            ),
        }
    } else {
        let line = desktop_command(backend, id);
        match backend {
            LaunchBackend::Uwsm => Ok(
                Start { line, mode: StartMode::HandOver("desktop application") },
            ),
            LaunchBackend::Direct => Ok(
                Start { line, mode: StartMode::Spawn("start desktop application") },
            ),
        }
    }
}

/// How an additional action is started whose command was read from the entry.
pub fn action_start(
    id: &str,
    action_id: &str,
    command: Result<Vec<String>, CommandError>,
    backend: LaunchBackend,
) -> (start: Result<Start, String>)
    ensures
        is_start(start, action_of(id@, action_id@, command_view(command), backend)),
{
    let list = match command {
        Ok(list) => list,
        Err(fault) => {
            return Err(fault.message());
        },
    };
    match desktop_action_command(backend, id, action_id) {
        Some(line) => Ok(Start { line, mode: StartMode::HandOver("desktop action") }),
        None => match direct_command(backend, list.as_slice()) {
            Some(line) => {
                assert(texts(list@)[0] == list@[0]@);
                Ok(Start { line, mode: StartMode::Spawn("start desktop action") })
            },
            None => Err(ActionError::EmptyActionCommand.message().to_owned()),
        },
    }
}

// ---------------------------------------------------------------------
// The execution

/// What an execution is doing.
#[derive(Debug, Clone, Copy, PartialEq, Eq, Structural)]
pub enum Phase {
    /// The compositor is asked.
    Asking,
    /// A command is started.
    Starting,
    /// The window of what was started is awaited.
    Watching,
    Over,
}

/// An action that is being carried out.
#[derive(Debug)]
pub struct Execution {
    pub target_id: String,
    pub name: String,
    /// What to say was done.
    pub verb: &'static str,
    pub phase: Phase,
    /// What remains to be asked, the next first.
    pub asks: Vec<Ask>,
    /// The second form of the request is under way.
    pub second: bool,
    pub mode: StartMode,
    /// What starts the application, where one is started.
    pub backend: Option<LaunchBackend>,
    /// The application's windows from before it was started.
    pub known: Vec<String>,
    /// Where the new window goes.
    pub workspace: Option<String>,
    /// The new window gets the focus.
    pub focus: bool,
}

/// What an [`Execution`] stands for.
#[verifier::ext_equal]
pub struct State {
    pub target: Seq<char>,
    pub name: Seq<char>,
    pub verb: Seq<char>,
    pub phase: Phase,
    pub asks: Seq<AskView>,
    pub second: bool,
    pub mode: StartMode,
    pub backend: Option<LaunchBackend>,
    pub known: Seq<Seq<char>>,
    pub workspace: Option<Seq<char>>,
    pub focus: bool,
}

impl View for Execution {
    type V = State;

    open spec fn view(&self) -> State {
        State {
            target: self.target_id@,
            name: self.name@,
            verb: self.verb@,
            phase: self.phase,
            asks: ask_views(self.asks@),
            second: self.second,
            mode: self.mode,
            backend: self.backend,
            known: texts(self.known@),
            workspace: optional_text(self.workspace),
            focus: self.focus,
        }
    }
}

/// What came of the last step.
#[derive(Debug)]
pub enum Event {
    /// Whether the compositor did what it was asked.
    Answered(bool),
    /// What became of the command.
    Started(Handoff),
    /// The windows as they are now, the control groups of their processes, and the
    /// time since the command was started.
    Windows(Snapshot, Table<u32, String>, u64),
    Waited,
}

impl Event {
    pub open spec fn wf(&self) -> bool {
        match self {
            Event::Windows(_, cgroups, _) => cgroups.wf(),
            _ => true,
        }
    }
}

/// What to do next.
#[derive(Debug)]
pub enum Step {
    /// Run the compositor's command with these arguments.
    Ask(Vec<String>),
    Start(CommandLine, StartMode),
    /// Look at the windows.
    Look,
    /// Wait for so many milliseconds.
    Wait(u64),
    /// Done, with what to say and what the application was started by.
    Finish(String, Option<LaunchBackend>),
    Fail(String),
    /// Nothing: the report does not belong to the last step.
    Idle,
}

/// What a [`Step`] stands for.
#[verifier::ext_equal]
pub enum StepView {
    Ask(Seq<Seq<char>>),
    Start(Invocation, StartMode),
    Look,
    Wait(u64),
    Finish(Seq<char>, Option<LaunchBackend>),
    Fail(Seq<char>),
    Idle,
}

impl View for Step {
    type V = StepView;

    open spec fn view(&self) -> StepView {
        match self {
            Step::Ask(arguments) => StepView::Ask(texts(arguments@)),
            Step::Start(line, mode) => StepView::Start(line@, *mode),
            Step::Look => StepView::Look,
            Step::Wait(milliseconds) => StepView::Wait(*milliseconds),
            Step::Finish(message, backend) => StepView::Finish(message@, *backend),
            Step::Fail(message) => StepView::Fail(message@),
            Step::Idle => StepView::Idle,
        }
    }
}

impl State {
    pub open spec fn over(self) -> State {
        State { phase: Phase::Over, ..self }
    }

    /// Everything was done.
    pub open spec fn finish(self) -> (State, StepView) {
        (self.over(), StepView::Finish(self.verb + " "@ + self.name, self.backend))
    }

    pub open spec fn fail(self, message: Seq<char>) -> (State, StepView) {
        (self.over(), StepView::Fail(message))
    }

    /// The next request in its first form; where nothing is left to ask,
    /// everything was done.
    pub open spec fn ask_next(self) -> (State, StepView) {
        if self.asks.len() == 0 {
            self.finish()
        } else {
            match request_of(self.asks[0]) {
                Err(e) => self.fail(e.text()),
                Ok(request) => (
                    State { phase: Phase::Asking, second: false, ..self },
                    StepView::Ask(request.first),
                ),
            }
        }
    }

    /// A request was granted: the next one.
    pub open spec fn granted(self) -> (State, StepView) {
        if self.asks.len() == 0 {
            (self, StepView::Idle)
        } else {
            State { asks: self.asks.skip(1), ..self }.ask_next()
        }
    }

    /// A request was refused: its second form, or there is no way to make it.
    pub open spec fn refused(self) -> (State, StepView) {
        if self.asks.len() == 0 {
            (self, StepView::Idle)
        } else {
            match request_of(self.asks[0]) {
                Err(e) => self.fail(e.text()),
                Ok(request) => if self.second {
                    self.fail(request.refusal)
                } else {
                    (State { second: true, ..self }, StepView::Ask(request.second))
                },
            }
        }
    }

    /// What is asked of the new window.
    pub open spec fn wishes(self, address: Seq<char>) -> Seq<AskView> {
        let moves = match self.workspace {
            Some(workspace) => seq![AskView::Move(address, workspace)],
            None => Seq::empty(),
        };
        if self.focus {
            moves.push(AskView::Focus(address))
        } else {
            moves
        }
    }

    /// The command ran.
    pub open spec fn started(self) -> (State, StepView) {
        if self.focus || self.workspace is Some {
            (State { phase: Phase::Watching, ..self }, StepView::Look)
        } else {
            self.finish()
        }
    }

    /// The windows were looked at.
    pub open spec fn looked(self, addresses: Seq<Seq<char>>, elapsed: u64) -> (State, StepView) {
        match first_new(addresses, self.known) {
            Some(address) => State {
                asks: self.wishes(address),
                verb: if self.focus {
                    "Launched and focused"@
                } else {
                    self.verb
                },
                ..self
            }.ask_next(),
            None => if elapsed >= WATCH_MILLISECONDS {
                self.finish()
            } else {
                (self, StepView::Wait(WATCH_INTERVAL_MILLISECONDS))
            },
        }
    }

    /// What follows a report.
    pub open spec fn next(self, entries: Seq<EntryView>, event: Event) -> (State, StepView) {
        match (self.phase, event) {
            (Phase::Asking, Event::Answered(accepted)) => if accepted {
                self.granted()
            } else {
                self.refused()
            },
            (Phase::Starting, Event::Started(handoff)) => match start_fault(self.mode, handoff) {
                Some(message) => self.fail(message),
                None => self.started(),
            },
            (Phase::Watching, Event::Windows(windows, cgroups, elapsed)) => self.looked(
                addresses_of(entries, cgroups@, windows_of(windows.clients@), self.target),
                elapsed,
            ),
            (Phase::Watching, Event::Waited) => (self, StepView::Look),
            _ => (self, StepView::Idle),
        }
    }
}

/// The first of the windows that was not there before.
pub open spec fn first_new(addresses: Seq<Seq<char>>, known: Seq<Seq<char>>) -> Option<Seq<char>>
    decreases addresses.len(),
{
    if addresses.len() == 0 {
        None
    } else if !known.contains(addresses[0]) {
        Some(addresses[0])
    } else {
        first_new(addresses.skip(1), known)
    }
}

proof fn lemma_first_new(addresses: Seq<Seq<char>>, known: Seq<Seq<char>>)
    ensures
        match first_new(addresses, known) {
            Some(a) => addresses.contains(a) && !known.contains(a),
            None => forall|i: int|
                0 <= i < addresses.len() ==> known.contains(#[trigger] addresses[i]),
        },
    decreases addresses.len(),
{
    if addresses.len() > 0 && known.contains(addresses[0]) {
        let rest = addresses.skip(1);
        lemma_first_new(rest, known);
        match first_new(rest, known) {
            Some(a) => {
                let i = choose|i: int| 0 <= i < rest.len() && rest[i] == a;
                assert(addresses[i + 1] == a);
            },
            None => {
                assert forall|i: int| 0 <= i < addresses.len() implies known.contains(
                    #[trigger] addresses[i],
                ) by {
                    if i > 0 {
                        assert(rest[i - 1] == addresses[i]);
                    }
                }
            },
        }
    } else if addresses.len() > 0 {
        assert(addresses[0] == first_new(addresses, known)->0);
    }
}

/// What is over stays over.
pub proof fn lemma_over_is_over(state: State, entries: Seq<EntryView>, event: Event)
    requires
        state.phase == Phase::Over,
    ensures
        state.next(entries, event) == (state, StepView::Idle),
{
}

/// A result is announced once: exactly the step that ends an execution finishes
/// or fails.
pub proof fn lemma_ends_once(state: State, entries: Seq<EntryView>, event: Event)
    ensures
        ({
            let (after, step) = state.next(entries, event);
            (state.phase != Phase::Over && after.phase == Phase::Over) == (step is Finish
                || step is Fail)
        }),
{
}

/// Only a window that was not there before the application was started is moved
/// or given the focus.
pub proof fn lemma_only_new_window(
    state: State,
    entries: Seq<EntryView>,
    windows: Snapshot,
    cgroups: Table<u32, String>,
    elapsed: u64,
    k: int,
)
    requires
        state.phase == Phase::Watching,
        ({
            let after = state.next(entries, Event::Windows(windows, cgroups, elapsed)).0;
            after.phase == Phase::Asking && 0 <= k < after.asks.len()
        }),
    ensures
        ({
            let after = state.next(entries, Event::Windows(windows, cgroups, elapsed)).0;
            let address = match after.asks[k] {
                AskView::Focus(address) => address,
                AskView::Close(address) => address,
                AskView::Move(address, _) => address,
            };
            &&& !state.known.contains(address)
            &&& addresses_of(
                entries,
                cgroups@,
                windows_of(windows.clients@),
                state.target,
            ).contains(address)
            &&& after.asks[k] !is Close
            &&& after.asks[k] is Move ==> state.workspace == Some(after.asks[k]->Move_1)
        }),
{
    lemma_first_new(
        addresses_of(entries, cgroups@, windows_of(windows.clients@), state.target),
        state.known,
    );
}

fn failed(execution: &mut Execution, message: String) -> (step: Step)
    ensures
        (final(execution)@, step@) == old(execution)@.fail(message@),
{
    execution.phase = Phase::Over;
    Step::Fail(message)
}

impl Execution {
    fn finished(&mut self) -> (step: Step)
        ensures
            (final(self)@, step@) == old(self)@.finish(),
    {
        self.phase = Phase::Over;
        let mut message = chars_of(self.verb);
        append_text(&mut message, " ");
        append_text(&mut message, self.name.as_str());
        Step::Finish(string_of(message.as_slice()), self.backend)
    }

    fn next_ask(&mut self) -> (step: Step)
        ensures
            (final(self)@, step@) == old(self)@.ask_next(),
    {
        if self.asks.len() == 0 {
            return self.finished();
        }
        assert(self@.asks[0] == self.asks@[0]@);
        match dispatch_request(&self.asks[0]) {
            Err(e) => failed(self, e.message().to_owned()),
            Ok(request) => {
                self.phase = Phase::Asking;
                self.second = false;
                Step::Ask(request.first)
            },
        }
    }

    fn ask_again(&mut self) -> (step: Step)
        ensures
            (final(self)@, step@) == old(self)@.refused(),
    {
        if self.asks.len() == 0 {
            return Step::Idle;
        }
        assert(self@.asks[0] == self.asks@[0]@);
        match dispatch_request(&self.asks[0]) {
            Err(e) => failed(self, e.message().to_owned()),
            Ok(request) => if self.second {
                failed(self, request.refusal.to_owned())
            } else {
                self.second = true;
                Step::Ask(request.second)
            },
        }
    }

    fn follow_up(&mut self, address: String)
        ensures
            final(self)@ == (State {
                asks: old(self)@.wishes(address@),
                verb: if old(self)@.focus {
                    "Launched and focused"@
                } else {
                    old(self)@.verb
                },
                ..old(self)@
            }),
    {
        let mut asks: Vec<Ask> = Vec::new();
        assert(ask_views(asks@) =~= Seq::empty());
        if let Some(workspace) = &self.workspace {
            asks.push(Ask::Move(address.clone(), workspace.clone()));
            assert(ask_views(asks@) =~= seq![AskView::Move(address@, workspace@)]);
        }
        if self.focus {
            let ghost before = ask_views(asks@);
            asks.push(Ask::Focus(address));
            assert(ask_views(asks@) =~= before.push(AskView::Focus(address@)));
            self.verb = "Launched and focused";
        }
        self.asks = asks;
    }

    /// What to do next, given what came of the last step.
    pub fn step(&mut self, catalog: &Catalog, event: Event) -> (step: Step)
        requires
            event.wf(),
        ensures
            (final(self)@, step@) == old(self)@.next(views_of(catalog.entries@), event),
    {
        match (self.phase, event) {
            (Phase::Asking, Event::Answered(accepted)) => if accepted {
                if self.asks.len() == 0 {
                    return Step::Idle;
                }
                let ghost before = self@;
                let _ = self.asks.remove(0);
                assert(self@.asks =~= before.asks.skip(1));
                self.next_ask()
            } else {
                self.ask_again()
            },
            (Phase::Starting, Event::Started(handoff)) => match checked_start(
                self.mode,
                &handoff,
            ) {
                Err(message) => failed(self, message),
                Ok(_) => if self.focus || self.workspace.is_some() {
                    self.phase = Phase::Watching;
                    Step::Look
                } else {
                    self.finished()
                },
            },
            (Phase::Watching, Event::Windows(windows, cgroups, elapsed)) => {
                let addresses = application_window_addresses(
                    catalog,
                    &windows,
                    &cgroups,
                    self.target_id.as_str(),
                );
                match new_address(&addresses, &self.known) {
                    Some(address) => {
                        self.follow_up(address);
                        self.next_ask()
                    },
                    None => if elapsed >= WATCH_MILLISECONDS {
                        self.finished()
                    } else {
                        Step::Wait(WATCH_INTERVAL_MILLISECONDS)
                    },
                }
            },
            (Phase::Watching, Event::Waited) => Step::Look,
            _ => Step::Idle,
        }
    }
}

fn lists_address(list: &Vec<String>, address: &str) -> (yes: bool)
    ensures
        yes == texts(list@).contains(address@),
{
    for i in 0..list.len()
        invariant
            forall|j: int| 0 <= j < i ==> texts(list@)[j] != address@,
    {
        assert(texts(list@)[i as int] == list@[i as int]@);
        if same_text(list[i].as_str(), address) {
            return true;
        }
    }
    false
}

fn new_address(addresses: &Vec<String>, known: &Vec<String>) -> (address: Option<String>)
    ensures
        match address {
            Some(a) => first_new(texts(addresses@), texts(known@)) == Some(a@),
            None => first_new(texts(addresses@), texts(known@)) is None,
        },
{
    let ghost all = texts(addresses@);
    assert(all.skip(0) =~= all);
    for i in 0..addresses.len()
        invariant
            all == texts(addresses@),
            first_new(all, texts(known@)) == first_new(all.skip(i as int), texts(known@)),
    {
        assert(all.skip(i as int)[0] == addresses@[i as int]@);
        assert(all.skip(i as int).skip(1) =~= all.skip(i + 1));
        if !lists_address(known, addresses[i].as_str()) {
            return Some(addresses[i].clone());
        }
    }
    None
}

// ---------------------------------------------------------------------
// Beginning

/// What an action is carried out on.
pub struct Scene {
    pub catalog: Catalog,
    pub windows: Seq<Window>,
    pub cgroups: Map<u32, String>,
    pub backend: LaunchBackend,
    /// The workspace that the user chose for the application.
    pub workspace: Option<Seq<char>>,
}

pub open spec fn needs_terminal(entry: CatalogEntry) -> bool {
    main_value(entry_groups(entry.entry), "Terminal"@) == Some("true"@)
}

/// The command of an application.
pub open spec fn entry_exec(entry: CatalogEntry) -> Result<Seq<Seq<char>>, Seq<char>> {
    exec_arguments(
        entry_groups(entry.entry),
        entry_path(entry.entry),
        main_value(entry_groups(entry.entry), "Exec"@),
    )
}

/// The command of an additional action.
pub open spec fn action_exec(entry: CatalogEntry, action: Seq<char>) -> Result<
    Seq<Seq<char>>,
    Seq<char>,
> {
    if has_action(entry@.actions, action) {
        exec_arguments(
            entry_groups(entry.entry),
            entry_path(entry.entry),
            plain_value(entry_groups(entry.entry), action_group(action), "Exec"@),
        )
    } else {
        Err("desktop action is unavailable"@)
    }
}

impl Scene {
    pub open spec fn entries(self) -> Seq<EntryView> {
        views_of(self.catalog.entries@)
    }

    pub open spec fn addresses(self, target: Seq<char>) -> Seq<Seq<char>> {
        addresses_of(self.entries(), self.cgroups, self.windows, target)
    }

    pub open spec fn window(self, target: Seq<char>, window_id: Option<Seq<char>>) -> Result<
        Window,
        ActionError,
    > {
        named_window(self.entries(), self.cgroups, self.windows, target, window_id)
    }

    /// Nothing asked, nothing started.
    pub open spec fn blank(self, target: Seq<char>, verb: Seq<char>) -> State {
        State {
            target,
            name: name_of(self.entries(), target),
            verb,
            phase: Phase::Asking,
            asks: Seq::empty(),
            second: false,
            mode: StartMode::Spawn(""),
            backend: None,
            known: Seq::empty(),
            workspace: None,
            focus: false,
        }
    }

    pub open spec fn asking(self, target: Seq<char>, verb: Seq<char>, asks: Seq<AskView>) -> (
        State,
        StepView,
    ) {
        State { asks, ..self.blank(target, verb) }.ask_next()
    }

    pub open spec fn refusing(self, target: Seq<char>, error: ActionError) -> (State, StepView) {
        self.blank(target, ""@).fail(error.text())
    }

    pub open spec fn starting(
        self,
        state: State,
        start: Result<(Invocation, StartMode), Seq<char>>,
    ) -> (State, StepView) {
        match start {
            Err(message) => self.blank(state.target, ""@).fail(message),
            Ok((line, mode)) => (
                State {
                    phase: Phase::Starting,
                    mode,
                    backend: Some(self.backend),
                    ..state
                },
                StepView::Start(line, mode),
            ),
        }
    }

    /// Starts the application; its new window goes where the user wants its
    /// windows, and may get the focus.
    pub open spec fn launching(self, target: Seq<char>, focus: bool) -> (State, StepView) {
        let place = entry_place(self.entries(), target);
        if place >= self.entries().len() {
            self.refusing(target, ActionError::ApplicationGone)
        } else {
            let entry = self.catalog.entries@[place];
            self.starting(
                State {
                    known: self.addresses(target),
                    workspace: self.workspace,
                    focus,
                    ..self.blank(target, "Launched"@)
                },
                launch_of(target, needs_terminal(entry), entry_exec(entry), self.backend),
            )
        }
    }

    /// The first step of an action.
    pub open spec fn begin(
        self,
        action: ApplicationAction,
        target: Seq<char>,
        window_id: Option<Seq<char>>,
        workspace_id: Option<Seq<char>>,
        desktop_action: Option<Seq<char>>,
    ) -> (State, StepView) {
        let addresses = self.addresses(target);
        match action {
            ApplicationAction::Activate => if addresses.len() > 0 {
                self.asking(target, "Focused"@, seq![AskView::Focus(addresses[0])])
            } else {
                self.launching(target, true)
            },
            ApplicationAction::Launch => self.launching(target, false),
            ApplicationAction::FocusWindow => match self.window(target, window_id) {
                Err(e) => self.refusing(target, e),
                Ok(w) => self.asking(target, "Focused"@, seq![AskView::Focus(w.address)]),
            },
            ApplicationAction::Close => if addresses.len() == 0 {
                self.refusing(target, ActionError::NotRunning)
            } else {
                self.asking(
                    target,
                    "Closed"@,
                    addresses.map_values(|a: Seq<char>| AskView::Close(a)),
                )
            },
            ApplicationAction::CloseWindow => match self.window(target, window_id) {
                Err(e) => self.refusing(target, e),
                Ok(w) => self.asking(target, "Closed"@, seq![AskView::Close(w.address)]),
            },
            ApplicationAction::MoveToWorkspace => match self.window(target, window_id) {
                Err(e) => self.refusing(target, e),
                Ok(w) => match workspace_id {
                    None => self.refusing(target, ActionError::WorkspaceRequired),
                    Some(workspace) => self.asking(
                        target,
                        "Moved"@,
                        seq![AskView::Move(w.address, workspace)],
                    ),
                },
            },
            ApplicationAction::DesktopAction => match desktop_action {
                None => self.refusing(target, ActionError::DesktopActionRequired),
                Some(id) => {
                    let place = entry_place(self.entries(), target);
                    if place >= self.entries().len() {
                        self.refusing(target, ActionError::ApplicationGone)
                    } else {
                        self.starting(
                            self.blank(target, "Started"@),
                            action_of(
                                target,
                                id,
                                action_exec(self.catalog.entries@[place], id),
                                self.backend,
                            ),
                        )
                    }
                },
            },
        }
    }
}

fn blank(catalog: &Catalog, target_id: &str, verb: &'static str) -> (execution: Execution)
    ensures
        forall|scene: Scene|
            scene.catalog == *catalog ==> execution@ == #[trigger] scene.blank(target_id@, verb@),
{
    let execution = Execution {
        target_id: target_id.to_owned(),
        name: display_name(catalog, target_id),
        verb,
        phase: Phase::Asking,
        asks: Vec::new(),
        second: false,
        mode: StartMode::Spawn(""),
        backend: None,
        known: Vec::new(),
        workspace: None,
        focus: false,
    };
    assert(execution@.asks =~= Seq::empty());
    assert(execution@.known =~= Seq::empty());
    execution
}

fn one(ask: Ask) -> (list: Vec<Ask>)
    ensures
        ask_views(list@) == seq![ask@],
{
    let mut list: Vec<Ask> = Vec::new();
    list.push(ask);
    assert(ask_views(list@) =~= seq![ask@]);
    list
}

fn asking(catalog: &Catalog, target_id: &str, verb: &'static str, asks: Vec<Ask>) -> (result: (
    Execution,
    Step,
))
    ensures
        forall|scene: Scene|
            scene.catalog == *catalog ==> (result.0@, result.1@) == #[trigger] scene.asking(
                target_id@,
                verb@,
                ask_views(asks@),
            ),
{
    let mut execution = blank(catalog, target_id, verb);
    let ghost empty = execution@;
    execution.asks = asks;
    assert(execution@ == State { asks: ask_views(asks@), ..empty });
    let step = execution.next_ask();
    (execution, step)
}

fn refusing(catalog: &Catalog, target_id: &str, message: &str) -> (result: (Execution, Step))
    ensures
        forall|scene: Scene|
            scene.catalog == *catalog ==> (result.0@, result.1@) == #[trigger] scene.blank(
                target_id@,
                ""@,
            ).fail(message@),
{
    let mut execution = blank(catalog, target_id, "");
    let step = failed(&mut execution, message.to_owned());
    (execution, step)
}

/// Begins to carry out an action. `workspace` is the one that the user chose for
/// the application.
pub fn begin(
    catalog: &Catalog,
    windows: &Snapshot,
    cgroups: &Table<u32, String>,
    params: &ExecuteParams,
    workspace: &Option<String>,
    backend: LaunchBackend,
) -> (result: (Execution, Step))
    requires
        cgroups.wf(),
    ensures
        (result.0@, result.1@) == (Scene {
            catalog: *catalog,
            windows: windows_of(windows.clients@),
            cgroups: cgroups@,
            backend,
            workspace: optional_text(*workspace),
        }).begin(
            params.action,
            params.target_id@,
            optional_text(params.window_id),
            optional_text(params.workspace_id),
            optional_text(params.desktop_action_id),
        ),
{
    let ghost scene = Scene {
        catalog: *catalog,
        windows: windows_of(windows.clients@),
        cgroups: cgroups@,
        backend,
        workspace: optional_text(*workspace),
    };
    let target = params.target_id.as_str();
    match params.action {
        ApplicationAction::Activate => {
            let addresses = application_window_addresses(catalog, windows, cgroups, target);
            if addresses.len() > 0 {
                assert(scene.addresses(target@)[0] == addresses@[0]@);
                asking(catalog, target, "Focused", one(Ask::Focus(addresses[0].clone())))
            } else {
                assert(scene.addresses(target@).len() == 0);
                launching(catalog, windows, cgroups, target, workspace, backend, true)
            }
        },
        ApplicationAction::Launch => launching(
            catalog,
            windows,
            cgroups,
            target,
            workspace,
            backend,
            false,
        ),
        ApplicationAction::FocusWindow => match target_instance(catalog, windows, cgroups, params) {
            Err(e) => refusing(catalog, target, e.message()),
            Ok(client) => asking(
                catalog,
                target,
                "Focused",
                one(Ask::Focus(client.address.clone())),
            ),
        },
        ApplicationAction::Close => {
            let addresses = application_window_addresses(catalog, windows, cgroups, target);
            assert(scene.addresses(target@).len() == addresses@.len());
            if addresses.len() == 0 {
                return refusing(catalog, target, ActionError::NotRunning.message());
            }
            let mut asks: Vec<Ask> = Vec::new();
            let ghost all = scene.addresses(target@).map_values(|a: Seq<char>| AskView::Close(a));
            assert(ask_views(asks@) =~= all.take(0));
            for i in 0..addresses.len()
                invariant
                    all == scene.addresses(target@).map_values(|a: Seq<char>| AskView::Close(a)),
                    scene.addresses(target@) == texts(addresses@),
                    ask_views(asks@) == all.take(i as int),
            {
                let ghost before = ask_views(asks@);
                assert(scene.addresses(target@)[i as int] == addresses@[i as int]@);
                asks.push(Ask::Close(addresses[i].clone()));
                assert(ask_views(asks@) =~= before.push(AskView::Close(addresses@[i as int]@)));
                assert(all.take(i + 1) =~= all.take(i as int).push(all[i as int]));
            }
            assert(all.take(all.len() as int) =~= all);
            asking(catalog, target, "Closed", asks)
        },
        ApplicationAction::CloseWindow => match target_instance(catalog, windows, cgroups, params) {
            Err(e) => refusing(catalog, target, e.message()),
            Ok(client) => asking(
                catalog,
                target,
                "Closed",
                one(Ask::Close(client.address.clone())),
            ),
        },
        ApplicationAction::MoveToWorkspace => match target_instance(
            catalog,
            windows,
            cgroups,
            params,
        ) {
            Err(e) => refusing(catalog, target, e.message()),
            Ok(client) => match &params.workspace_id {
                None => refusing(catalog, target, ActionError::WorkspaceRequired.message()),
                Some(workspace) => asking(
                    catalog,
                    target,
                    "Moved",
                    one(Ask::Move(client.address.clone(), workspace.clone())),
                ),
            },
        },
        ApplicationAction::DesktopAction => match &params.desktop_action_id {
            None => refusing(catalog, target, ActionError::DesktopActionRequired.message()),
            Some(id) => match find_entry(catalog, target) {
                None => refusing(catalog, target, ActionError::ApplicationGone.message()),
                Some(place) => {
                    let command = catalog.entries[place].parse_action(id.as_str());
                    assert(command_view(command) == action_exec(
                        catalog.entries@[place as int],
                        id@,
                    ));
                    let start = action_start(target, id.as_str(), command, backend);
                    let execution = blank(catalog, target, "Started");
                    starting(catalog, execution, start, backend)
                },
            },
        },
    }
}

fn starting(
    catalog: &Catalog,
    execution: Execution,
    start: Result<Start, String>,
    backend: LaunchBackend,
) -> (result: (Execution, Step))
    ensures
        forall|scene: Scene, wanted: Result<(Invocation, StartMode), Seq<char>>|
            scene.catalog == *catalog && scene.backend == backend && is_start(start, wanted) ==> (
            result.0@,
            result.1@,
            ) == #[trigger] scene.starting(execution@, wanted),
{
    match start {
        Err(message) => refusing(catalog, execution.target_id.as_str(), message.as_str()),
        Ok(start) => {
            let mut execution = execution;
            execution.phase = Phase::Starting;
            execution.mode = start.mode;
            execution.backend = Some(backend);
            let step = Step::Start(start.line, start.mode);
            (execution, step)
        },
    }
}

fn launching(
    catalog: &Catalog,
    windows: &Snapshot,
    cgroups: &Table<u32, String>,
    target_id: &str,
    workspace: &Option<String>,
    backend: LaunchBackend,
    focus: bool,
) -> (result: (Execution, Step))
    requires
        cgroups.wf(),
    ensures
        (result.0@, result.1@) == (Scene {
            catalog: *catalog,
            windows: windows_of(windows.clients@),
            cgroups: cgroups@,
            backend,
            workspace: optional_text(*workspace),
        }).launching(target_id@, focus),
{
    let ghost scene = Scene {
        catalog: *catalog,
        windows: windows_of(windows.clients@),
        cgroups: cgroups@,
        backend,
        workspace: optional_text(*workspace),
    };
    match find_entry(catalog, target_id) {
        None => refusing(catalog, target_id, ActionError::ApplicationGone.message()),
        Some(place) => {
            let entry = &catalog.entries[place];
            let command = entry.launch_command();
            assert(command_view(command) == entry_exec(*entry));
            let start = launch_start(target_id, entry.requires_terminal(), command, backend);
            let mut execution = blank(catalog, target_id, "Launched");
            let ghost empty = execution@;
            execution.known = application_window_addresses(catalog, windows, cgroups, target_id);
            execution.workspace = match workspace {
                Some(w) => Some(w.clone()),
                None => None,
            };
            execution.focus = focus;
            assert(empty == scene.blank(target_id@, "Launched"@));
            assert(execution@ == State {
                known: scene.addresses(target_id@),
                workspace: scene.workspace,
                focus,
                ..empty
            });
            starting(catalog, execution, start, backend)
        },
    }
}

} // verus!
