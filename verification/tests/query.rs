use std::sync::Arc;

use app_daemon::action::application_window_addresses;
use app_daemon::catalog::{Catalog, DesktopFile};
use app_daemon::hyprland::{Client, Snapshot, Workspace};
use app_daemon::identity::{resolve_target, resolve_target_with_cgroup, unescape_bytes};
use app_daemon::model::ApplicationPage;
use app_daemon::query::{combined_revision, page, QueryParams};
use app_daemon::search::{match_texts, MatchKind};
use app_daemon::service::{refresh_catalog, refresh_windows, sampling_targets};
use app_daemon::settings::SettingsStore;
use app_daemon::snapshot::ResourceSnapshot;
use app_daemon::summary::running_score;
use app_daemon::table::Table;

fn catalog(files: &[(&str, &str)]) -> Catalog {
    let files = files
        .iter()
        .map(|(id, text)| DesktopFile {
            id: id.to_string(),
            path: format!("/apps/{id}"),
            text: Some(text.to_string()),
        })
        .collect();
    Catalog::from_files(&files, &Vec::new(), &Vec::new(), &Vec::new())
}

fn client(address: &str, class: &str, title: &str) -> Client {
    Client {
        address: address.into(),
        class: class.into(),
        initial_class: class.into(),
        title: title.into(),
        pid: 42,
        workspace: Workspace {
            id: 0,
            name: String::new(),
        },
        focus_rank: 0,
        mapped: true,
    }
}

fn search(catalog: &Catalog, windows: &Snapshot, query: &str, limit: usize) -> ApplicationPage {
    page(
        catalog,
        windows,
        &Table::new(),
        &ResourceSnapshot::new(),
        &SettingsStore::load(None),
        &QueryParams {
            query: query.into(),
            generation: 1,
            limit,
            category: None,
        },
    )
}

#[test]
fn revisions_round_trip_exactly_through_javascript_numbers() {
    let catalog = Catalog::from_files(&Vec::new(), &Vec::new(), &Vec::new(), &Vec::new());
    let windows = Snapshot {
        revision: u64::MAX,
        ..Snapshot::unavailable()
    };
    let revision = combined_revision(&catalog, &windows);
    assert!(revision <= (1_u64 << 53) - 1);
    assert_eq!(revision as f64 as u64, revision);
}

#[test]
fn focused_and_recent_windows_rank_first() {
    assert!(running_score(true, 0) > running_score(false, 1));
    assert!(running_score(false, 1) > running_score(false, 8));
    assert!(running_score(false, 8) > running_score(false, i64::MAX));
    assert_eq!(running_score(true, 0), 20_000);
    assert_eq!(running_score(false, 1), 10_999);
    assert_eq!(running_score(false, 5_000), 10_000);
    assert_eq!(running_score(false, i64::MAX), 0);
}

#[test]
fn ranks_prefix_acronym_and_metadata_matches() {
    let catalog = catalog(&[
        (
            "google-contacts.desktop",
            "[Desktop Entry]\nType=Application\nName=Google Contacts\nGenericName=Address Book\nKeywords=people;friends;\nExec=true\n",
        ),
        (
            "calculator.desktop",
            "[Desktop Entry]\nType=Application\nName=Calculator\nComment=Perform arithmetic\nExec=true\n",
        ),
    ]);
    let search = |query: &str| search(&catalog, &Snapshot::unavailable(), query, 100);

    let acronym = search("gc");
    assert_eq!(acronym.applications.len(), 1);
    assert_eq!(acronym.applications[0].identity.name, "Google Contacts");
    assert_eq!(acronym.applications[0].match_kind, "acronym");
    let prefix = search("calc");
    assert_eq!(prefix.applications[0].match_kind, "name-prefix");
    let metadata = search("people");
    assert_eq!(metadata.applications[0].match_kind, "metadata");
    assert!(metadata.applications[0].match_score > 0);
}

#[test]
fn selects_all_application_windows_for_closing() {
    let catalog = catalog(&[(
        "example.desktop",
        "[Desktop Entry]\nType=Application\nName=Example\nExec=true\nStartupWMClass=example\n",
    )]);
    let windows = Snapshot {
        available: true,
        revision: 1,
        clients: vec![
            client("0x1", "example", "example"),
            client("0x2", "example", "example"),
            client("0x3", "other", "other"),
        ],
    };

    assert_eq!(
        application_window_addresses(&catalog, &windows, &Table::new(), "example.desktop"),
        ["0x1", "0x2"]
    );
}

#[test]
fn resolves_uwsm_cgroup_before_terminal_window_class() {
    let catalog = catalog(&[
        (
            "btop.desktop",
            "[Desktop Entry]\nType=Application\nName=btop\nExec=btop\nTerminal=true\n",
        ),
        (
            "com.mitchellh.ghostty.desktop",
            "[Desktop Entry]\nType=Application\nName=Ghostty\nExec=ghostty\n",
        ),
        (
            "android-studio.desktop",
            "[Desktop Entry]\nType=Application\nName=Android Studio\nExec=android-studio\n",
        ),
    ]);
    let window = client("0x1", "com.mitchellh.ghostty", "btop");
    assert_eq!(
        resolve_target_with_cgroup(
            &catalog,
            &window,
            Some("/app.slice/app-Hyprland-btop-a1b2c3d4.scope"),
        ),
        "btop.desktop"
    );
    assert_eq!(
        resolve_target_with_cgroup(
            &catalog,
            &window,
            Some("/app.slice/app-Hyprland-com.mitchellh.ghostty@a1b2c3d4.service"),
        ),
        "com.mitchellh.ghostty.desktop"
    );
    assert_eq!(
        resolve_target_with_cgroup(
            &catalog,
            &window,
            Some(r"/app.slice/app-Hyprland-android\x2dstudio-deadbeef.scope"),
        ),
        "android-studio.desktop"
    );
    assert_eq!(
        resolve_target_with_cgroup(&catalog, &window, Some("/app.slice/app-btop-1.scope")),
        "com.mitchellh.ghostty.desktop"
    );
}

#[test]
fn launch_only_entries_remain_shortcuts_without_claiming_windows() {
    let catalog = catalog(&[(
        "manual.desktop",
        "[Desktop Entry]\nType=Application\nName=Manual\nExec=xdg-open https://example.test\nStartupWMClass=browser\nX-Shelllist-LaunchOnly=true\n",
    )]);
    let window = client("0x1", "browser", "Manual");
    assert_eq!(
        resolve_target(&catalog, &window, &Table::new()),
        "window-group:browser"
    );
    let result = search(&catalog, &Snapshot::unavailable(), "", 10);
    assert_eq!(result.applications[0].identity.kind, "desktop-shortcut");
}

#[test]
fn resolves_unique_reverse_dns_class_suffix() {
    let catalog = catalog(&[(
        "yazi.desktop",
        "[Desktop Entry]\nType=Application\nName=Yazi\nExec=true\n",
    )]);
    let window = client("0x1", "com.laufan.yazi", "Yazi");
    assert_eq!(resolve_target(&catalog, &window, &Table::new()), "yazi.desktop");
}

#[test]
fn a_reused_process_id_brings_its_own_control_group() {
    let catalog = catalog(&[(
        "btop.desktop",
        "[Desktop Entry]\nType=Application\nName=btop\nExec=btop\n",
    )]);
    let window = client("0x1", "Terminal ", "btop");
    let mut cgroups = Table::new();
    cgroups.insert(42, "/app.slice/app-Hyprland-btop-a1b2c3d4.scope".to_owned());
    assert_eq!(resolve_target(&catalog, &window, &cgroups), "btop.desktop");
    assert_eq!(
        resolve_target(&catalog, &window, &Table::new()),
        "window-group:terminal"
    );
    assert_eq!(unescape_bytes(br"a\x2db\x+f\xzz"), b"a-b\x0f\\xzz");
}

#[test]
fn scores_each_kind_of_match() {
    let found = |query: &str| {
        match_texts(
            query,
            "text editor",
            "org.edit.desktop",
            "text editor org.edit.desktop write",
            "teoed",
        )
        .map(|m| (m.kind, m.score))
    };
    assert_eq!(found(""), Some((MatchKind::Unasked, 0)));
    assert_eq!(found("text editor"), Some((MatchKind::ExactName, 11_989)));
    assert_eq!(found("org.edit"), Some((MatchKind::ExactId, 11_784)));
    assert_eq!(found("text"), Some((MatchKind::NamePrefix, 11_489)));
    assert_eq!(found("org"), Some((MatchKind::IdPrefix, 10_984)));
    assert_eq!(found("editor"), Some((MatchKind::NameSubstring, 9_439)));
    assert_eq!(found("desktop"), Some((MatchKind::IdSubstring, 8_894)));
    assert_eq!(found("write"), Some((MatchKind::Metadata, 7_471)));
    assert_eq!(found("eo"), Some((MatchKind::Acronym, 6_485)));
    assert_eq!(found("write text"), Some((MatchKind::Terms, 4_998)));
    assert_eq!(found("write nothing"), None);
    assert_eq!(MatchKind::IdSubstring.as_str(), "id-substring");
}

#[test]
fn lists_every_window_under_its_application() {
    let catalog = catalog(&[
        (
            "example.desktop",
            "[Desktop Entry]\nType=Application\nName=Example\nExec=true\nCategories=Development;\n",
        ),
        (
            "idle.desktop",
            "[Desktop Entry]\nType=Application\nName=Idle\nExec=true\n",
        ),
    ]);
    let mut unmatched = client("0x3", "Other", "A title");
    unmatched.focus_rank = 2;
    unmatched.pid = 7;
    let mut second = client("0x2", "example", "Second");
    second.focus_rank = 1;
    second.workspace.id = -3;
    let windows = Snapshot::from_clients(vec![unmatched, second, client("0x1", "example", "First")]);
    assert!(windows.available);
    let all = search(&catalog, &windows, " ", 10);
    let ids: Vec<&str> = all
        .applications
        .iter()
        .map(|a| a.identity.id.as_str())
        .collect();
    assert_eq!(ids, ["example.desktop", "window-group:other", "idle.desktop"]);
    let example = &all.applications[0];
    assert_eq!(example.score, 20_000);
    assert_eq!(example.match_kind, "none");
    assert_eq!(example.runtime.running_count, 2);
    assert!(example.runtime.focused);
    assert_eq!(example.runtime.instances[1].id, "window-2");
    assert_eq!(example.runtime.instances[1].workspace_id, "-3");
    let group = &all.applications[1];
    assert_eq!(group.identity.kind, "window-group");
    assert_eq!(group.identity.name, "Other");
    assert_eq!(group.identity.keywords, ["A title", "Other"]);
    assert_eq!(group.score, 10_998);
    assert!(!all.applications[2].runtime.running);
    assert!(!all.has_more);
    let first = search(&catalog, &windows, "", 0);
    assert_eq!(first.applications.len(), 1);
    assert!(first.has_more);
    assert!(first.hyprland_available);
    assert_eq!(first.generation, 1);
    let typed = search(&catalog, &windows, "EXAMPLE", 10);
    assert_eq!(typed.applications[0].match_kind, "exact-name");
    assert_eq!(typed.applications[0].match_score, 11_993);
    assert_eq!(typed.applications[0].score, 1_199_320_000);
    let targets = sampling_targets(&catalog, &windows, &Table::new());
    assert_eq!(
        targets.get(&"example.desktop".to_owned()),
        Some(&vec![42, 42])
    );
    assert_eq!(
        targets.get(&"window-group:other".to_owned()),
        Some(&vec![7])
    );
    assert_eq!(targets.len(), 2);
}

#[test]
fn filters_by_the_chosen_or_inferred_category() {
    let catalog = catalog(&[
        (
            "code.desktop",
            "[Desktop Entry]\nType=Application\nName=Code\nExec=true\nCategories=Development;\n",
        ),
        (
            "notes.desktop",
            "[Desktop Entry]\nType=Application\nName=Notes\nExec=true\nCategories=Development;\n",
        ),
    ]);
    let mut settings = SettingsStore::load(None);
    settings
        .update("notes.desktop".into(), "text".into())
        .expect("valid category");
    let listed = |category: Option<&str>| -> Vec<String> {
        page(
            &catalog,
            &Snapshot::unavailable(),
            &Table::new(),
            &ResourceSnapshot::new(),
            &settings,
            &QueryParams {
                category: category.map(str::to_owned),
                ..QueryParams::default()
            },
        )
        .applications
        .into_iter()
        .map(|a| a.identity.id)
        .collect()
    };
    assert_eq!(listed(Some("code")), ["code.desktop"]);
    assert_eq!(listed(Some("text")), ["notes.desktop"]);
    assert!(listed(Some("media")).is_empty());
    assert_eq!(listed(None).len(), 2);
    assert_eq!(QueryParams::default().limit, 500);
}

#[test]
fn announces_only_what_changed() {
    let mut current = Arc::new(Catalog::empty());
    let next = catalog(&[(
        "a.desktop",
        "[Desktop Entry]\nType=Application\nName=A\nExec=true\n",
    )]);
    let revision = next.revision;
    let mut windows = Arc::new(Snapshot::unavailable());
    let announced = refresh_catalog(&mut current, Arc::new(next), &windows).expect("announced");
    assert_eq!(announced.catalog, revision);
    assert_eq!(current.entries.len(), 1);
    let same = catalog(&[(
        "a.desktop",
        "[Desktop Entry]\nType=Application\nName=A\nExec=true\n",
    )]);
    assert!(refresh_catalog(&mut current, Arc::new(same), &windows).is_none());
    let unknown = Arc::new(Snapshot::unavailable());
    assert!(refresh_windows(&mut windows, unknown, &current).is_none());
    let known = Arc::new(Snapshot::from_clients(Vec::new()));
    assert!(refresh_windows(&mut windows, known, &current).is_some());
    assert!(windows.available);
}
