use app_daemon::service::preferred_workspace;
use app_daemon::settings::{
    categories, inferred_category, settings_path, workspace_for_category, ApplicationSettings,
    InvalidCategory, SettingsFile, SettingsStore,
};

#[test]
fn infers_the_five_launcher_categories() {
    assert_eq!(inferred_category(&["TerminalEmulator".into()]), "shell");
    assert_eq!(inferred_category(&["WebBrowser".into()]), "browser");
    assert_eq!(inferred_category(&["Development".into()]), "code");
    assert_eq!(inferred_category(&["AudioVideo".into()]), "media");
    assert_eq!(inferred_category(&["TextEditor".into()]), "text");
}

#[test]
fn categories_select_their_corresponding_workspaces() {
    assert_eq!(workspace_for_category("shell"), Some("1"));
    assert_eq!(workspace_for_category("browser"), Some("2"));
    assert_eq!(workspace_for_category("code"), Some("3"));
    assert_eq!(workspace_for_category("media"), Some("4"));
    assert_eq!(workspace_for_category("text"), Some("5"));
    assert_eq!(workspace_for_category("unknown"), None);
}

#[test]
fn persists_category_as_a_default_workspace() {
    let mut store = SettingsStore::load(None);
    store
        .update("example.desktop".into(), "code".into())
        .expect("valid category");
    let loaded = SettingsStore::load(Some(store.to_file()));
    let settings = loaded
        .for_application("example.desktop")
        .expect("saved settings");
    assert_eq!(settings.category, "code");
    assert_eq!(settings.workspace_id.as_deref(), Some("3"));
}

#[test]
fn every_inferred_category_has_a_workspace() {
    for category in categories() {
        assert!(workspace_for_category(category).is_some());
    }
    assert_eq!(inferred_category(&[]), "shell");
    assert_eq!(
        inferred_category(&["development".into(), "network".into()]),
        "browser"
    );
}

#[test]
fn refuses_unknown_categories_and_takes_changes_back() {
    let mut store = SettingsStore::load(None);
    let empty = store.revision;
    let refused = store.update("a.desktop".into(), "games".into());
    assert!(matches!(refused, Err(InvalidCategory)));
    assert_eq!(
        InvalidCategory.message(),
        "application category is invalid"
    );
    assert_eq!(store.revision, empty);
    let change = store
        .update("a.desktop".into(), "text".into())
        .expect("valid category");
    assert!(change.previous.is_none());
    assert_ne!(store.revision, empty);
    assert_eq!(
        preferred_workspace(&store, "a.desktop").as_deref(),
        Some("5")
    );
    store.revert(change);
    assert_eq!(store.revision, empty);
    assert!(store.for_application("a.desktop").is_none());
    assert_eq!(preferred_workspace(&store, "a.desktop"), None);
}

#[test]
fn loads_only_what_the_launcher_knows() {
    let settings = |category: &str, workspace: &str| ApplicationSettings {
        category: category.to_owned(),
        workspace_id: Some(workspace.to_owned()),
    };
    let file = |version: u8| SettingsFile {
        version,
        applications: vec![
            ("b.desktop".to_owned(), settings("media", "9")),
            ("a.desktop".to_owned(), settings("games", "1")),
        ],
    };
    let store = SettingsStore::load(Some(file(1)));
    assert!(store.for_application("a.desktop").is_none());
    let kept = store.for_application("b.desktop").expect("kept");
    assert_eq!(kept.workspace_id.as_deref(), Some("4"));
    assert!(SettingsStore::load(Some(file(2)))
        .for_application("b.desktop")
        .is_none());
}

#[test]
fn finds_the_settings_file() {
    assert_eq!(
        settings_path(&Some("/config".to_owned()), &None).as_deref(),
        Some("/config/app-daemon/application-settings-v1.json")
    );
    assert_eq!(
        settings_path(&None, &Some("/home/user".to_owned())).as_deref(),
        Some("/home/user/.config/app-daemon/application-settings-v1.json")
    );
}
