use app_daemon::action::{display_name, operation_result, ApplicationAction, ExecuteParams};
use app_daemon::catalog::{Catalog, DesktopFile};
use app_daemon::execution::{begin, launch_start, Event, Execution, Phase, StartMode, Step};
use app_daemon::history::EnergyTotal;
use app_daemon::hyprland::{
    address_selector, dispatch_accepted, valid_address, window_id, workspace_selector, Client,
    Snapshot, Workspace,
};
use app_daemon::launch::{
    checked_handoff, command, desktop_command, Handoff, LaunchBackend,
};
use app_daemon::operations::{completed, failed, new_operation_id, running, Operations, StaleRevision};
use app_daemon::overview::{energy_overview, EnergyOverviewParams};
use app_daemon::platform::{command_candidates, is_executable};
use app_daemon::table::Table;

fn catalog(files: &[(&str, &str)]) -> Catalog {
    let files = files
        .iter()
        .map(|(id, text)| DesktopFile {
            id: id.to_string(),
            path: format!("/apps/{id}"),
            text: Some(text.to_string()),
        })
        .collect();
    Catalog::from_files(&files, &Vec::new(), &Vec::new(), &Vec::new())
}

fn example() -> Catalog {
    catalog(&[
        (
            "example.desktop",
            "[Desktop Entry]\nType=Application\nName=Example\nExec=example\nIcon=star\nActions=new;\n[Desktop Action new]\nName=New\nExec=example --new\n",
        ),
        (
            "btop.desktop",
            "[Desktop Entry]\nType=Application\nName=btop\nExec=btop --utf-force\nTerminal=true\n",
        ),
    ])
}

fn window(address: &str) -> Client {
    Client {
        address: address.into(),
        class: "example".into(),
        initial_class: "example".into(),
        title: "Example".into(),
        pid: 1,
        workspace: Workspace {
            id: 1,
            name: "1".into(),
        },
        focus_rank: 0,
        mapped: true,
    }
}

fn windows(addresses: &[&str]) -> Snapshot {
    Snapshot::from_clients(addresses.iter().map(|a| window(a)).collect())
}

fn params(action: ApplicationAction) -> ExecuteParams {
    ExecuteParams {
        target_id: "example.desktop".into(),
        action,
        window_id: None,
        desktop_action_id: None,
        expected_revision: None,
        workspace_id: None,
    }
}

fn first_step(
    params: &ExecuteParams,
    windows: &Snapshot,
    workspace: Option<&str>,
    backend: LaunchBackend,
) -> (Execution, Step) {
    begin(
        &example(),
        windows,
        &Table::new(),
        params,
        &workspace.map(str::to_owned),
        backend,
    )
}

fn message(step: Step) -> String {
    match step {
        Step::Fail(message) => message,
        Step::Finish(message, _) => message,
        other => panic!("unexpected step {other:?}"),
    }
}

#[test]
fn parses_application_actions() {
    assert_eq!(
        ApplicationAction::parse("activate"),
        Some(ApplicationAction::Activate)
    );
    assert_eq!(
        ApplicationAction::parse("move-to-workspace"),
        Some(ApplicationAction::MoveToWorkspace)
    );
    assert!(ApplicationAction::parse("unknown").is_none());
    for name in ["launch", "focus-window", "close", "close-window", "desktop-action"] {
        assert_eq!(ApplicationAction::parse(name).expect("action").as_str(), name);
    }
}

#[test]
fn accepts_operations_before_reporting_their_result() {
    let mut operations = Operations::new();
    let mut request = params(ApplicationAction::Close);
    request.target_id = "missing-window-group".into();
    let accepted = operations
        .accept(new_operation_id(), &request, 7)
        .expect("accepted");
    assert_eq!(accepted.status, "accepted");
    let now_running = running(&accepted.id, &request);
    assert_eq!(now_running.id, accepted.id);
    assert_eq!(now_running.status, "running");
    let (_, step) = first_step(&request, &Snapshot::unavailable(), None, LaunchBackend::Direct);
    let fault = message(step);
    assert_eq!(fault, "application is no longer running");
    let result = operations
        .finish(failed(&accepted.id, &request, &fault))
        .expect("still active");
    assert_eq!(result.id, accepted.id);
    assert_eq!(result.status, "failed");
}

#[test]
fn rejects_operations_for_stale_revisions() {
    let mut operations = Operations::new();
    let mut request = params(ApplicationAction::Close);
    request.target_id = "missing-window-group".into();
    request.expected_revision = Some(u64::MAX);
    let refused = operations.accept(new_operation_id(), &request, 7);
    assert!(matches!(refused, Err(StaleRevision)));
    assert_eq!(
        StaleRevision.message(),
        "application state changed; refresh and retry"
    );
    request.expected_revision = Some(7);
    assert!(operations.accept(new_operation_id(), &request, 7).is_ok());
}

#[test]
fn reports_the_end_of_an_operation_once() {
    let mut operations = Operations::new();
    let request = params(ApplicationAction::Launch);
    let accepted = operations
        .accept("operation-1".to_owned(), &request, 1)
        .expect("accepted");
    let cancelled = operations.cancel(&accepted.id).expect("active");
    assert_eq!(cancelled.status, "cancelled");
    assert_eq!(cancelled.message, "Operation cancelled");
    assert_eq!(cancelled.action, "launch");
    let late = completed(&accepted.id, &request, "Launched Example", Some(LaunchBackend::Uwsm));
    assert_eq!(late.launch_backend.as_deref(), Some("uwsm-app"));
    assert!(operations.finish(late).is_none());
    assert!(operations.cancel(&accepted.id).is_none());
}

#[test]
fn names_operations_apart() {
    let first = new_operation_id();
    let second = new_operation_id();
    assert_ne!(first, second);
    let unique = first.strip_prefix("operation-").expect("prefix");
    assert_eq!(unique.len(), 36);
    assert_eq!(unique.as_bytes()[8], b'-');
    assert_eq!(unique.as_bytes()[14], b'4');
}

#[test]
fn creates_protocol_safe_window_ids() {
    assert_eq!(window_id("0xAb12"), "window-ab12");
}

#[test]
fn validates_window_selectors_for_dispatch() {
    assert_eq!(
        address_selector("0xAb12").expect("selector"),
        "address:0xAb12"
    );
    assert!(address_selector("not-an-address").is_err());
    assert_eq!(
        workspace_selector("special:scratchpad").expect("selector"),
        "special:scratchpad"
    );
    assert!(workspace_selector("2,address:0x1").is_err());
    assert!(!valid_address("0x0"));
    assert!(dispatch_accepted(true, " ok\n"));
    assert!(!dispatch_accepted(false, "ok"));
}

#[test]
fn prefers_uwsm_when_available() {
    assert_eq!(LaunchBackend::probe(), "uwsm-app");
    assert_eq!(
        LaunchBackend::detect(LaunchBackend::probe() == "uwsm-app"),
        LaunchBackend::Uwsm
    );
    assert_eq!(LaunchBackend::detect(false), LaunchBackend::Direct);
}

#[test]
fn describes_launch_isolation() {
    assert_eq!(LaunchBackend::Uwsm.name(), "uwsm-app");
    assert_eq!(LaunchBackend::Uwsm.scope(), "app-graphical.slice");
    assert_eq!(LaunchBackend::Direct.scope(), "inherited");
}

#[test]
fn invokes_uwsm_with_an_argument_separator() {
    let line = command(
        LaunchBackend::Uwsm,
        "org.example.App.desktop",
        &["--new".to_owned()],
    );
    assert_eq!(line.program, "uwsm-app");
    assert_eq!(
        line.arguments,
        ["-t", "service", "--", "org.example.App.desktop", "--new"]
    );
}

#[test]
fn passes_desktop_ids_to_uwsm_and_gtk_launch() {
    let uwsm = desktop_command(LaunchBackend::Uwsm, "org.example.App.desktop");
    assert_eq!(
        uwsm.arguments,
        ["-t", "service", "--", "org.example.App.desktop"]
    );

    let direct = desktop_command(LaunchBackend::Direct, "org.example.App.desktop");
    assert_eq!(direct.program, "gtk-launch");
    assert_eq!(direct.arguments, ["org.example.App"]);
}

#[test]
fn explains_failed_handoffs() {
    let fault = |handoff: Handoff| checked_handoff(&handoff, "desktop action").expect_err("fault");
    assert_eq!(
        fault(Handoff::TimedOut),
        "desktop action launch handoff timed out"
    );
    assert_eq!(fault(Handoff::NotStarted), "start desktop action");
    assert_eq!(
        fault(Handoff::Failed(" \n".to_owned())),
        "desktop action launch failed"
    );
    assert_eq!(
        fault(Handoff::Failed("no unit\n".to_owned())),
        "desktop action launch failed: no unit"
    );
    assert!(checked_handoff(&Handoff::Succeeded, "desktop action").is_ok());
}

#[test]
fn looks_for_commands_along_the_path() {
    assert_eq!(
        command_candidates("btop", &Some("/bin:/usr/bin".to_owned())),
        ["/bin/btop", "/usr/bin/btop"]
    );
    assert_eq!(
        command_candidates("/opt/tool", &Some("/bin".to_owned())),
        ["/opt/tool"]
    );
    assert!(is_executable(true, 0o100755));
    assert!(!is_executable(true, 0o100644));
    assert!(!is_executable(false, 0o755));
}

#[test]
fn asks_in_both_forms_before_it_fails() {
    let catalog = example();
    let (mut execution, step) = first_step(
        &params(ApplicationAction::Activate),
        &windows(&["0x1"]),
        None,
        LaunchBackend::Uwsm,
    );
    match step {
        Step::Ask(arguments) => assert_eq!(
            arguments,
            ["dispatch", "hl.dsp.focus({ window = 'address:0x1' })"]
        ),
        other => panic!("unexpected step {other:?}"),
    }
    match execution.step(&catalog, Event::Answered(false)) {
        Step::Ask(arguments) => {
            assert_eq!(arguments, ["dispatch", "focuswindow", "address:0x1"])
        }
        other => panic!("unexpected step {other:?}"),
    }
    let fault = message(execution.step(&catalog, Event::Answered(false)));
    assert_eq!(fault, "Hyprland rejected the focus request");
    assert_eq!(execution.phase, Phase::Over);
    assert!(matches!(
        execution.step(&catalog, Event::Answered(true)),
        Step::Idle
    ));
}

#[test]
fn closes_every_window_of_an_application() {
    let catalog = example();
    let (mut execution, step) = first_step(
        &params(ApplicationAction::Close),
        &windows(&["0x1", "0x2"]),
        None,
        LaunchBackend::Uwsm,
    );
    assert!(matches!(step, Step::Ask(_)));
    match execution.step(&catalog, Event::Answered(true)) {
        Step::Ask(arguments) => assert_eq!(
            arguments,
            ["dispatch", "hl.dsp.window.close({ window = 'address:0x2' })"]
        ),
        other => panic!("unexpected step {other:?}"),
    }
    assert_eq!(
        message(execution.step(&catalog, Event::Answered(true))),
        "Closed Example"
    );
}

#[test]
fn moves_only_the_new_window_to_its_workspace() {
    let catalog = example();
    let before = windows(&["0x1"]);
    let (mut execution, step) = first_step(
        &params(ApplicationAction::Launch),
        &before,
        Some("3"),
        LaunchBackend::Uwsm,
    );
    match step {
        Step::Start(line, StartMode::HandOver(what)) => {
            assert_eq!(line.program, "uwsm-app");
            assert_eq!(what, "desktop application");
        }
        other => panic!("unexpected step {other:?}"),
    }
    assert!(matches!(
        execution.step(&catalog, Event::Started(Handoff::Succeeded)),
        Step::Look
    ));
    assert!(matches!(
        execution.step(&catalog, Event::Windows(windows(&["0x1"]), Table::new(), 0)),
        Step::Wait(100)
    ));
    assert!(matches!(execution.step(&catalog, Event::Waited), Step::Look));
    match execution.step(
        &catalog,
        Event::Windows(windows(&["0x1", "0x2"]), Table::new(), 200),
    ) {
        Step::Ask(arguments) => assert_eq!(
            arguments,
            [
                "dispatch",
                "hl.dsp.window.move({ workspace = '3', follow = false, window = 'address:0x2' })"
            ]
        ),
        other => panic!("unexpected step {other:?}"),
    }
    match execution.step(&catalog, Event::Answered(true)) {
        Step::Finish(message, backend) => {
            assert_eq!(message, "Launched Example");
            assert_eq!(backend, Some(LaunchBackend::Uwsm));
        }
        other => panic!("unexpected step {other:?}"),
    }
}

#[test]
fn focuses_what_it_launched_or_gives_up() {
    let catalog = example();
    let begin = || {
        let (mut execution, _) = first_step(
            &params(ApplicationAction::Activate),
            &windows(&[]),
            None,
            LaunchBackend::Uwsm,
        );
        execution.step(&catalog, Event::Started(Handoff::Succeeded));
        execution
    };
    let mut found = begin();
    let step = found.step(&catalog, Event::Windows(windows(&["0x5"]), Table::new(), 0));
    assert!(matches!(step, Step::Ask(_)));
    assert_eq!(
        message(found.step(&catalog, Event::Answered(true))),
        "Launched and focused Example"
    );
    let mut missed = begin();
    assert_eq!(
        message(missed.step(&catalog, Event::Windows(windows(&[]), Table::new(), 8_000))),
        "Launched Example"
    );
    let (mut failing, _) = first_step(
        &params(ApplicationAction::Activate),
        &windows(&[]),
        None,
        LaunchBackend::Uwsm,
    );
    assert_eq!(
        message(failing.step(&catalog, Event::Started(Handoff::TimedOut))),
        "desktop application launch handoff timed out"
    );
}

#[test]
fn starts_terminal_applications_and_actions() {
    let mut request = params(ApplicationAction::Launch);
    request.target_id = "btop.desktop".into();
    let (mut execution, step) = first_step(&request, &windows(&[]), None, LaunchBackend::Direct);
    match step {
        Step::Start(line, StartMode::Spawn(_)) => {
            assert_eq!(line.program, "xdg-terminal-exec");
            assert_eq!(line.arguments, ["--", "btop", "--utf-force"]);
        }
        other => panic!("unexpected step {other:?}"),
    }
    assert_eq!(
        message(execution.step(&example(), Event::Started(Handoff::NotStarted))),
        "start application in the default terminal"
    );
    let mut action = params(ApplicationAction::DesktopAction);
    let (_, step) = first_step(&action, &windows(&[]), None, LaunchBackend::Direct);
    assert_eq!(message(step), "desktop_action_id is required");
    action.desktop_action_id = Some("new".into());
    match first_step(&action, &windows(&[]), None, LaunchBackend::Direct).1 {
        Step::Start(line, _) => {
            assert_eq!(line.program, "example");
            assert_eq!(line.arguments, ["--new"]);
        }
        other => panic!("unexpected step {other:?}"),
    }
    match first_step(&action, &windows(&[]), None, LaunchBackend::Uwsm) {
        (mut execution, Step::Start(line, _)) => {
            assert_eq!(line.arguments[3], "example.desktop:new");
            assert_eq!(
                message(execution.step(&example(), Event::Started(Handoff::Succeeded))),
                "Started Example"
            );
        }
        (_, other) => panic!("unexpected step {other:?}"),
    }
    action.desktop_action_id = Some("old".into());
    let (_, step) = first_step(&action, &windows(&[]), None, LaunchBackend::Uwsm);
    assert_eq!(message(step), "desktop action is unavailable");
    let empty = launch_start("a.desktop", true, Ok(Vec::new()), LaunchBackend::Direct);
    assert_eq!(
        empty.expect_err("empty"),
        "desktop application command is empty"
    );
}

#[test]
fn says_why_an_action_is_not_possible() {
    let fault = |request: &ExecuteParams| {
        message(first_step(request, &windows(&["0x1"]), None, LaunchBackend::Uwsm).1)
    };
    let mut request = params(ApplicationAction::FocusWindow);
    assert_eq!(fault(&request), "window_id is required");
    request.window_id = Some("window-9".into());
    assert_eq!(fault(&request), "window is no longer available");
    request.window_id = Some("window-1".into());
    request.target_id = "btop.desktop".into();
    assert_eq!(
        fault(&request),
        "window no longer belongs to the selected application"
    );
    request.target_id = "example.desktop".into();
    request.action = ApplicationAction::MoveToWorkspace;
    assert_eq!(fault(&request), "workspace_id is required");
    request.workspace_id = Some("2,address:0x1".into());
    assert_eq!(fault(&request), "workspace is invalid");
    let mut gone = params(ApplicationAction::Launch);
    gone.target_id = "gone.desktop".into();
    assert_eq!(fault(&gone), "application is no longer available");
    assert_eq!(display_name(&example(), "window-group:foo"), "foo");
    let record = operation_result("1", ApplicationAction::Close, "t", "s", "m", None);
    assert_eq!(record.launch_scope, None);
}

#[test]
fn shares_energy_among_applications() {
    let total = |id: &str, energy: u64| EnergyTotal {
        target_id: id.to_owned(),
        energy_mwh_e4: energy,
        energy_source: "rapl".to_owned(),
        energy_confidence: "low".to_owned(),
    };
    let overview = energy_overview(
        &example(),
        vec![
            total("window-group:x", 10_000),
            total("example.desktop", 30_000),
            total("btop.desktop", 20_000),
        ],
        EnergyOverviewParams {
            since_ms: 5,
            limit: 2,
        },
        9,
    );
    assert_eq!(overview.total_energy_mwh_e4, 60_000);
    assert!(overview.has_more);
    assert_eq!(overview.applications.len(), 2);
    assert_eq!(overview.applications[0].name, "Example");
    assert_eq!(overview.applications[0].icon, "star");
    assert_eq!(overview.applications[0].share_e4, 5_000);
    assert_eq!(overview.applications[1].target_id, "btop.desktop");
    assert_eq!(overview.applications[1].share_e4, 3_333);
    assert_eq!(overview.until_ms, 9);
    assert_eq!(EnergyOverviewParams::default().limit, 20);
}
