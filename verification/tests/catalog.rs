use app_daemon::catalog::{
    current_desktops, desktop_id, is_desktop_file, probed_commands, Catalog, CommandError,
    DesktopFile,
};

fn file(directory: &str, id: &str, text: &str) -> DesktopFile {
    DesktopFile {
        id: id.to_owned(),
        path: format!("{directory}/{id}"),
        text: Some(text.to_owned()),
    }
}

fn catalog(files: Vec<DesktopFile>) -> Catalog {
    Catalog::from_files(&files, &Vec::new(), &Vec::new(), &Vec::new())
}

#[test]
fn identifies_terminal_applications_and_parses_their_commands() {
    let catalog = catalog(vec![file(
        "/apps",
        "terminal.desktop",
        "[Desktop Entry]\nType=Application\nName=Terminal app\nExec=btop --utf-force\nTerminal=true\n",
    )]);
    let entry = &catalog.entries[0];
    assert!(entry.requires_terminal());
    assert_eq!(
        entry.launch_command().expect("command"),
        ["btop", "--utf-force"]
    );
}

#[test]
fn revision_tracks_all_visible_catalog_metadata() {
    let before = catalog(vec![file(
        "/apps",
        "example.desktop",
        "[Desktop Entry]\nType=Application\nName=Example\nComment=Before\nExec=true\n",
    )])
    .revision;
    let after = catalog(vec![file(
        "/apps",
        "example.desktop",
        "[Desktop Entry]\nType=Application\nName=Example\nComment=After\nExec=true\n",
    )])
    .revision;
    assert_ne!(before, after);
}

#[test]
fn preserves_empty_optional_fields_and_honors_precedence() {
    let catalog = catalog(vec![
        file(
            "/high",
            "hidden.desktop",
            "[Desktop Entry]\nType=Application\nName=Hidden\nExec=hidden\nHidden=true\n",
        ),
        file(
            "/high",
            "plain.desktop",
            "[Desktop Entry]\nType=Application\nName=Plain\nExec=true\n",
        ),
        file(
            "/low",
            "hidden.desktop",
            "[Desktop Entry]\nType=Application\nName=Visible lower copy\nExec=true\n",
        ),
    ]);
    assert_eq!(catalog.entries.len(), 1);
    assert_eq!(catalog.entries[0].id, "plain.desktop");
    assert_eq!(catalog.entries[0].icon, "");
    assert_eq!(catalog.entries[0].startup_class, "");
    assert!(catalog.by_id("plain.desktop").is_some());
    assert!(catalog.by_id("hidden.desktop").is_none());
}

#[test]
fn reads_localized_texts_and_actions() {
    let text = "[Desktop Entry]\nType=Application\nName=Editor\nName[de]=Bearbeiter\nExec=edit %U\nKeywords=a;b;;\nCategories=TextEditor;\nActions=new;nameless;\n[Desktop Action new]\nName=New window\nName[de]=Neues Fenster\nIcon=new\nExec=edit --new\n[Desktop Action nameless]\nExec=edit\n";
    let files = vec![file("/apps", "editor.desktop", text)];
    let german = Catalog::from_files(
        &files,
        &vec!["de_DE".to_owned()],
        &Vec::new(),
        &Vec::new(),
    );
    let entry = &german.entries[0];
    assert_eq!(entry.name, "Bearbeiter");
    assert_eq!(entry.keywords, ["a", "b"]);
    assert_eq!(entry.categories, ["TextEditor"]);
    assert_eq!(entry.actions.len(), 1);
    assert_eq!(entry.actions[0].name, "Neues Fenster");
    assert_eq!(entry.actions[0].icon, "new");
    assert_eq!(entry.kind(), "desktop-application");
    assert_eq!(entry.launch_command().expect("command"), ["edit"]);
    assert_eq!(
        entry.parse_action("new").expect("command"),
        ["edit", "--new"]
    );
    let unavailable = entry.parse_action("nameless");
    assert!(matches!(&unavailable, Err(CommandError::UnavailableAction)));
    assert_eq!(
        unavailable.expect_err("unavailable").message(),
        "desktop action is unavailable"
    );
    let plain = catalog(files);
    assert_eq!(plain.entries[0].name, "Editor");
    let faulty = catalog(vec![file(
        "/apps",
        "faulty.desktop",
        "[Desktop Entry]\nType=Application\nName=Faulty\nExec=A=1 true\n",
    )]);
    let fault = faulty.entries[0].launch_command().expect_err("fault");
    assert_eq!(fault.message(), "equal sign detected");
}

#[test]
fn shows_what_can_be_started_on_this_desktop() {
    let entry = |more: &str| {
        format!("[Desktop Entry]\nType=Application\nName=Example\nExec=true\n{more}")
    };
    let listed = |more: &str, desktops: &[&str], available: &[&str]| {
        let files = vec![file("/apps", "example.desktop", &entry(more))];
        let desktops: Vec<String> = desktops.iter().map(|d| d.to_string()).collect();
        let available: Vec<String> = available.iter().map(|c| c.to_string()).collect();
        Catalog::from_files(&files, &Vec::new(), &desktops, &available)
            .entries
            .len()
            == 1
    };
    assert!(listed("", &[], &[]));
    assert!(!listed("NoDisplay=true\n", &[], &[]));
    assert!(!listed("TryExec=gone\n", &[], &[]));
    assert!(listed("TryExec=here\n", &[], &["here"]));
    assert!(listed("OnlyShowIn=Hyprland;GNOME;\n", &["hyprland"], &[]));
    assert!(!listed("OnlyShowIn=GNOME;\n", &["hyprland"], &[]));
    assert!(!listed("NotShowIn=Hyprland;\n", &["hyprland"], &[]));
    assert!(listed("NotShowIn=GNOME;\n", &["hyprland"], &[]));
    let unreadable = DesktopFile {
        id: "x.desktop".to_owned(),
        path: "/apps/x.desktop".to_owned(),
        text: None,
    };
    assert!(catalog(vec![unreadable]).entries.is_empty());
    assert!(catalog(vec![file("/apps", "x.desktop", "Name=No group\n")])
        .entries
        .is_empty());
    let files = vec![file("/apps", "example.desktop", &entry("TryExec=here\n"))];
    assert_eq!(probed_commands(&files, &Vec::new()), ["here"]);
}

#[test]
fn orders_applications_by_name() {
    let named = |id: &str, name: &str| {
        file(
            "/apps",
            id,
            &format!("[Desktop Entry]\nType=Application\nName={name}\nExec=true\n"),
        )
    };
    let catalog = catalog(vec![
        named("z.desktop", "beta"),
        named("y.desktop", "Alpha"),
        named("b.desktop", "Beta"),
    ]);
    let ids: Vec<&str> = catalog.entries.iter().map(|e| e.id.as_str()).collect();
    assert_eq!(ids, ["y.desktop", "b.desktop", "z.desktop"]);
    assert_eq!(Catalog::empty().revision, 0);
}

#[test]
fn names_applications_by_their_files() {
    assert_eq!(
        desktop_id("/usr/share/applications", "/usr/share/applications/kde/a.desktop").as_deref(),
        Some("kde-a.desktop")
    );
    assert_eq!(desktop_id("/apps/", "/apps/a.desktop").as_deref(), Some("a.desktop"));
    assert_eq!(desktop_id("/apps", "/application/a.desktop"), None);
    assert!(is_desktop_file("/apps/a.desktop"));
    assert!(!is_desktop_file("/apps/.desktop"));
    assert!(!is_desktop_file("/apps/a.desktop.bak"));
    assert_eq!(current_desktops(Some("Hyprland::GNOME")), ["hyprland", "gnome"]);
    assert!(current_desktops(None).is_empty());
}
