//! Per-application category preferences and the workspaces that follow from them.

use vstd::prelude::*;
use crate::disk::{join, joined};
use crate::text::{
    ascii_lowercase, chars_of, lemma_text_le_total, lemma_text_le_transitive, same_ignoring_case,
    same_text, string_le, text_le, texts,
};
use crate::transcript::{
    content_hash, hash_bytes, lemma_optional_first, lemma_text_first, optional_bytes, text_bytes,
    write_optional, write_text,
};

verus! {

/// The version of the settings file.
pub const SETTINGS_VERSION: u8 = 1;

/// The launcher's categories.
pub fn categories() -> (list: Vec<&'static str>)
    ensures
        list@.len() == 5,
        list@[0]@ == "shell"@,
        list@[1]@ == "browser"@,
        list@[2]@ == "code"@,
        list@[3]@ == "media"@,
        list@[4]@ == "text"@,
{
    vec!["shell", "browser", "code", "media", "text"]
}

/// The default workspace of a category.
pub open spec fn workspace_of(category: Seq<char>) -> Option<Seq<char>> {
    if category == "shell"@ {
        Some("1"@)
    } else if category == "browser"@ {
        Some("2"@)
    } else if category == "code"@ {
        Some("3"@)
    } else if category == "media"@ {
        Some("4"@)
    } else if category == "text"@ {
        Some("5"@)
    } else {
        None
    }
}

pub fn workspace_for_category(category: &str) -> (workspace: Option<&'static str>)
    ensures
        match workspace {
            Some(w) => workspace_of(category@) == Some(w@),
            None => workspace_of(category@) is None,
        },
{
    if same_text(category, "shell") {
        Some("1")
    } else if same_text(category, "browser") {
        Some("2")
    } else if same_text(category, "code") {
        Some("3")
    } else if same_text(category, "media") {
        Some("4")
    } else if same_text(category, "text") {
        Some("5")
    } else {
        None
    }
}

/// One of the desktop entry's categories is this one, in any case of letters.
pub open spec fn has_category(list: Seq<Seq<char>>, name: Seq<char>) -> bool {
    exists|i: int|
        0 <= i < list.len() && ascii_lowercase(#[trigger] list[i]) == ascii_lowercase(name)
}

/// The launcher's category for a desktop entry.
pub open spec fn category_of(list: Seq<Seq<char>>) -> Seq<char> {
    if has_category(list, "WebBrowser"@) || has_category(list, "Network"@) {
        "browser"@
    } else if has_category(list, "Development"@) {
        "code"@
    } else if has_category(list, "AudioVideo"@) || has_category(list, "Audio"@) || has_category(
        list,
        "Video"@,
    ) || has_category(list, "Graphics"@) {
        "media"@
    } else if has_category(list, "Office"@) || has_category(list, "TextEditor"@) || has_category(
        list,
        "WordProcessor"@,
    ) || has_category(list, "Viewer"@) {
        "text"@
    } else {
        "shell"@
    }
}

fn lists_category(list: &[String], name: &str) -> (yes: bool)
    ensures
        yes == has_category(texts(list@), name@),
{
    let wanted = chars_of(name);
    for i in 0..list.len()
        invariant
            wanted@ == name@,
            forall|j: int|
                0 <= j < i ==> ascii_lowercase(#[trigger] texts(list@)[j]) != ascii_lowercase(name@),
    {
        let category = chars_of(list[i].as_str());
        assert(texts(list@)[i as int] == list@[i as int]@);
        if same_ignoring_case(category.as_slice(), wanted.as_slice()) {
            return true;
        }
    }
    false
}

pub fn inferred_category(categories: &[String]) -> (category: &'static str)
    ensures
        category@ == category_of(texts(categories@)),
{
    if lists_category(categories, "WebBrowser") || lists_category(categories, "Network") {
        "browser"
    } else if lists_category(categories, "Development") {
        "code"
    } else if lists_category(categories, "AudioVideo") || lists_category(categories, "Audio")
        || lists_category(categories, "Video") || lists_category(categories, "Graphics") {
        "media"
    } else if lists_category(categories, "Office") || lists_category(categories, "TextEditor")
        || lists_category(categories, "WordProcessor") || lists_category(categories, "Viewer") {
        "text"
    } else {
        "shell"
    }
}

/// Every category that is inferred has a workspace.
pub proof fn lemma_inferred_category_has_workspace(list: Seq<Seq<char>>)
    ensures
        workspace_of(category_of(list)) is Some,
{
}

/// The preferences for one application.
#[derive(Debug)]
pub struct ApplicationSettings {
    pub category: String,
    pub workspace_id: Option<String>,
}

/// What [`ApplicationSettings`] stands for.
#[verifier::ext_equal]
pub struct Preferences {
    pub category: Seq<char>,
    pub workspace: Option<Seq<char>>,
}

impl View for ApplicationSettings {
    type V = Preferences;

    open spec fn view(&self) -> Preferences {
        Preferences {
            category: self.category@,
            workspace: match self.workspace_id {
                Some(id) => Some(id@),
                None => None,
            },
        }
    }
}

impl ApplicationSettings {
    pub fn copied(&self) -> (copy: Self)
        ensures
            copy@ == self@,
    {
        ApplicationSettings {
            category: self.category.clone(),
            workspace_id: match &self.workspace_id {
                Some(id) => Some(id.clone()),
                None => None,
            },
        }
    }
}

/// Applications and their preferences.
pub type Entries = Vec<(String, ApplicationSettings)>;

pub open spec fn entry_views(entries: Seq<(String, ApplicationSettings)>) -> Seq<
    (Seq<char>, Preferences),
> {
    entries.map_values(|e: (String, ApplicationSettings)| (e.0@, e.1@))
}

/// In the order of the application ids, each once.
pub open spec fn ascending(entries: Seq<(Seq<char>, Preferences)>) -> bool {
    forall|i: int, j: int|
        0 <= i < j < entries.len() ==> text_le((#[trigger] entries[i]).0, (
        #[trigger] entries[j]).0) && entries[i].0 != entries[j].0
}

/// The list gives this application these preferences.
pub open spec fn gives(
    entries: Seq<(Seq<char>, Preferences)>,
    id: Seq<char>,
    preferences: Preferences,
) -> bool {
    exists|i: int| 0 <= i < entries.len() && #[trigger] entries[i] == (id, preferences)
}

pub open spec fn has_entry(entries: Seq<(Seq<char>, Preferences)>, id: Seq<char>) -> bool {
    exists|i: int| 0 <= i < entries.len() && (#[trigger] entries[i]).0 == id
}

/// All preferences written down as bytes.
pub open spec fn settings_bytes(entries: Seq<(Seq<char>, Preferences)>) -> Seq<u8>
    decreases entries.len(),
{
    if entries.len() == 0 {
        Seq::empty()
    } else {
        let (id, preferences) = entries.last();
        settings_bytes(entries.drop_last()) + (text_bytes(id) + text_bytes(preferences.category)
            + optional_bytes(preferences.workspace))
    }
}

fn revision_of(entries: &Entries) -> (revision: u64)
    ensures
        revision == content_hash(settings_bytes(entry_views(entries@))),
{
    let ghost all = entry_views(entries@);
    let mut bytes: Vec<u8> = Vec::new();
    for i in 0..entries.len()
        invariant
            all == entry_views(entries@),
            bytes@ == settings_bytes(all.take(i as int)),
    {
        let ghost before = bytes@;
        assert(all.take(i + 1).drop_last() =~= all.take(i as int));
        assert(all.take(i + 1).last() == (entries@[i as int].0@, entries@[i as int].1@));
        write_text(&mut bytes, entries[i].0.as_str());
        write_text(&mut bytes, entries[i].1.category.as_str());
        write_optional(&mut bytes, &entries[i].1.workspace_id);
        assert(bytes@ =~= settings_bytes(all.take(i + 1)));
    }
    assert(all.take(all.len() as int) =~= all);
    hash_bytes(bytes.as_slice())
}

/// What was kept on disk.
#[derive(Debug)]
pub struct SettingsFile {
    pub version: u8,
    pub applications: Entries,
}

/// A category that the launcher does not have.
#[derive(Debug, Clone, Copy, PartialEq, Eq, Structural)]
pub struct InvalidCategory;

impl InvalidCategory {
    pub fn message(&self) -> (text: &'static str)
        ensures
            text@ == "application category is invalid"@,
    {
        "application category is invalid"
    }
}

/// A change to the preferences, with what it replaced.
#[derive(Debug)]
pub struct SettingsChange {
    pub target_id: String,
    pub settings: ApplicationSettings,
    pub previous: Option<ApplicationSettings>,
}

/// The preferences for all applications. `revision` follows their contents.
#[derive(Debug)]
pub struct SettingsStore {
    pub applications: Entries,
    pub revision: u64,
}

impl View for SettingsStore {
    type V = Seq<(Seq<char>, Preferences)>;

    open spec fn view(&self) -> Seq<(Seq<char>, Preferences)> {
        entry_views(self.applications@)
    }
}

/// The preferences that choosing a category gives.
pub open spec fn preferences_for(category: Seq<char>) -> Preferences {
    Preferences { category, workspace: workspace_of(category) }
}

/// The last of the listed preferences for an application, of those with a
/// category of the launcher, with the category's workspace.
pub open spec fn loaded(
    entries: Seq<(Seq<char>, Preferences)>,
    id: Seq<char>,
) -> Option<Preferences>
    decreases entries.len(),
{
    if entries.len() == 0 {
        None
    } else if entries.last().0 == id && workspace_of(entries.last().1.category) is Some {
        Some(preferences_for(entries.last().1.category))
    } else {
        loaded(entries.drop_last(), id)
    }
}

impl SettingsStore {
    /// The entries are in order, and the revision follows from them.
    pub open spec fn wf(&self) -> bool {
        ascending(self@) && self.revision == content_hash(settings_bytes(self@))
    }

    /// Where an application's entry stands, or where it would stand.
    fn place(&self, id: &str) -> (place: (usize, bool))
        requires
            ascending(self@),
        ensures
            place.0 <= self@.len(),
            forall|i: int| 0 <= i < place.0 ==> text_le((#[trigger] self@[i]).0, id@) && self@[i].0 != id@,
            place.1 ==> place.0 < self@.len() && self@[place.0 as int].0 == id@,
            !place.1 ==> forall|i: int|
                place.0 <= i < self@.len() ==> text_le(id@, (#[trigger] self@[i]).0) && self@[i].0
                    != id@,
    {
        let ghost all = self@;
        for i in 0..self.applications.len()
            invariant
                all == self@,
                ascending(all),
                forall|k: int|
                    0 <= k < i ==> text_le((#[trigger] all[k]).0, id@) && all[k].0 != id@,
        {
            assert(all[i as int].0 == self.applications@[i as int].0@);
            if same_text(self.applications[i].0.as_str(), id) {
                return (i, true);
            }
            if !string_le(self.applications[i].0.as_str(), id) {
                proof {
                    lemma_text_le_total(all[i as int].0, id@);
                    assert forall|k: int| i <= k < all.len() implies text_le(
                        id@,
                        (#[trigger] all[k]).0,
                    ) && all[k].0 != id@ by {
                        if k > i {
                            assert(text_le(all[i as int].0, all[k].0));
                            lemma_text_le_transitive(id@, all[i as int].0, all[k].0);
                        }
                    }
                }
                return (i, false);
            }
        }
        (self.applications.len(), false)
    }

    /// Puts preferences under an application.
    fn put(&mut self, id: String, settings: ApplicationSettings) -> (previous: Option<
        ApplicationSettings,
    >)
        requires
            ascending(old(self)@),
        ensures
            final(self).wf(),
            forall|other: Seq<char>, p: Preferences| #[trigger]
                gives(final(self)@, other, p) == if other == id@ {
                    p == settings@
                } else {
                    gives(old(self)@, other, p)
                },
            match previous {
                Some(p) => gives(old(self)@, id@, p@),
                None => !has_entry(old(self)@, id@),
            },
    {
        let ghost before = self@;
        let ghost key = id@;
        let (place, found) = self.place(id.as_str());
        let previous = if found {
            let (_, settings) = self.applications.remove(place);
            assert(before[place as int] == (key, settings@));
            Some(settings)
        } else {
            None
        };
        let ghost without = self@;
        assert(without =~= if found {
            before.remove(place as int)
        } else {
            before
        });
        self.applications.insert(place, (id, settings));
        assert(self@ =~= without.insert(place as int, (key, settings@)));
        proof {
            let now = self@;
            assert forall|i: int, j: int| 0 <= i < j < now.len() implies text_le(
                (#[trigger] now[i]).0,
                (#[trigger] now[j]).0,
            ) && now[i].0 != now[j].0 by {
                let x = lemma_source(before, now, place as int, found, (key, settings@), i);
                let y = lemma_source(before, now, place as int, found, (key, settings@), j);
                if i == place {
                    assert(now[j] == before[y]);
                    if found {
                        assert(before[place as int].0 == key);
                    }
                } else if j == place {
                    assert(now[i] == before[x]);
                } else {
                    assert(now[i] == before[x] && now[j] == before[y] && x < y);
                }
            }
            assert forall|other: Seq<char>, p: Preferences| #[trigger] gives(now, other, p) == if other
                == key {
                p == settings@
            } else {
                gives(before, other, p)
            } by {
                if gives(now, other, p) {
                    let i = choose|i: int| 0 <= i < now.len() && #[trigger] now[i] == (other, p);
                    let x = lemma_source(before, now, place as int, found, (key, settings@), i);
                    if i != place {
                        assert(before[x] == (other, p));
                        if other == key {
                            if i < place {
                                assert(now[i].0 != now[place as int].0);
                            } else {
                                assert(now[place as int].0 != now[i].0);
                            }
                        }
                    }
                }
                if other == key && p == settings@ {
                    assert(now[place as int] == (other, p));
                }
                if other != key && gives(before, other, p) {
                    let x = choose|x: int|
                        0 <= x < before.len() && #[trigger] before[x] == (other, p);
                    let i = if x < place || found {
                        x
                    } else {
                        x + 1
                    };
                    assert(now[i] == before[x]);
                }
            }
            if !found && has_entry(before, key) {
                let x = choose|x: int| 0 <= x < before.len() && (#[trigger] before[x]).0 == key;
                assert(before[x].0 != key);
            }
        }
        self.revision = revision_of(&self.applications);
        previous
    }

    /// Takes an application's preferences away.
    fn take(&mut self, id: &str)
        requires
            ascending(old(self)@),
        ensures
            final(self).wf(),
            forall|other: Seq<char>, p: Preferences| #[trigger]
                gives(final(self)@, other, p) == (other != id@ && gives(old(self)@, other, p)),
    {
        let ghost before = self@;
        let (place, found) = self.place(id);
        if found {
            let _ = self.applications.remove(place);
            assert(self@ =~= before.remove(place as int));
        }
        proof {
            let now = self@;
            assert forall|i: int, j: int| 0 <= i < j < now.len() implies text_le(
                (#[trigger] now[i]).0,
                (#[trigger] now[j]).0,
            ) && now[i].0 != now[j].0 by {
                let x = if found && i >= place { i + 1 } else { i };
                let y = if found && j >= place { j + 1 } else { j };
                assert(now[i] == before[x] && now[j] == before[y]);
            }
            assert forall|other: Seq<char>, p: Preferences| #[trigger] gives(now, other, p) == (
            other != id@ && gives(before, other, p)) by {
                if gives(now, other, p) {
                    let i = choose|i: int| 0 <= i < now.len() && #[trigger] now[i] == (other, p);
                    let x = if found && i >= place { i + 1 } else { i };
                    assert(before[x] == now[i]);
                    if other == id@ {
                        if found {
                            if x < place {
                                assert(before[x].0 != before[place as int].0);
                            } else {
                                assert(before[place as int].0 != before[x].0);
                            }
                        } else {
                            assert(before[x].0 != id@);
                        }
                    }
                }
                if other != id@ && gives(before, other, p) {
                    let x = choose|x: int|
                        0 <= x < before.len() && #[trigger] before[x] == (other, p);
                    let i = if found && x > place { x - 1 } else { x };
                    assert(now[i] == before[x]);
                }
            }
        }
        self.revision = revision_of(&self.applications);
    }

    /// The preferences as they were kept on disk. A file of another version is
    /// ignored, and so are categories that the launcher does not have; the
    /// workspace always follows from the category.
    pub fn load(file: Option<SettingsFile>) -> (store: Self)
        ensures
            store.wf(),
            forall|id: Seq<char>, p: Preferences| #[trigger]
                gives(store@, id, p) == (match file {
                    Some(f) => f.version == SETTINGS_VERSION && loaded(
                        entry_views(f.applications@),
                        id,
                    ) == Some(p),
                    None => false,
                }),
    {
        let mut store = SettingsStore { applications: Vec::new(), revision: 0 };
        store.revision = revision_of(&store.applications);
        if let Some(file) = file {
            if file.version == SETTINGS_VERSION {
                let ghost all = entry_views(file.applications@);
                for i in 0..file.applications.len()
                    invariant
                        store.wf(),
                        all == entry_views(file.applications@),
                        forall|id: Seq<char>, p: Preferences| #[trigger]
                            gives(store@, id, p) == (loaded(all.take(i as int), id) == Some(p)),
                {
                    let ghost before = store@;
                    assert(all.take(i + 1).drop_last() =~= all.take(i as int));
                    assert(all.take(i + 1).last() == (
                        file.applications@[i as int].0@,
                        file.applications@[i as int].1@,
                    ));
                    let category = &file.applications[i].1.category;
                    if let Some(workspace) = workspace_for_category(category.as_str()) {
                        let settings = ApplicationSettings {
                            category: category.clone(),
                            workspace_id: Some(workspace.to_owned()),
                        };
                        assert(settings@ == preferences_for(category@));
                        let _ = store.put(file.applications[i].0.clone(), settings);
                    }
                }
                assert(all.take(all.len() as int) =~= all);
            }
        }
        store
    }

    pub fn for_application(&self, target_id: &str) -> (settings: Option<&ApplicationSettings>)
        requires
            self.wf(),
        ensures
            match settings {
                Some(s) => gives(self@, target_id@, s@),
                None => !has_entry(self@, target_id@),
            },
    {
        let (place, found) = self.place(target_id);
        if found {
            assert(self@[place as int] == (target_id@, self.applications@[place as int].1@));
            Some(&self.applications[place].1)
        } else {
            proof {
                if has_entry(self@, target_id@) {
                    let x = choose|x: int|
                        0 <= x < self@.len() && (#[trigger] self@[x]).0 == target_id@;
                    assert(self@[x].0 != target_id@);
                }
            }
            None
        }
    }

    /// Chooses a category for an application; the workspace follows from it.
    pub fn update(&mut self, target_id: String, category: String) -> (change: Result<
        SettingsChange,
        InvalidCategory,
    >)
        requires
            old(self).wf(),
        ensures
            final(self).wf(),
            match change {
                Err(_) => workspace_of(category@) is None && *final(self) == *old(self),
                Ok(change) => {
                    &&& workspace_of(category@) is Some
                    &&& change.target_id@ == target_id@
                    &&& change.settings@ == preferences_for(category@)
                    &&& match change.previous {
                        Some(p) => gives(old(self)@, target_id@, p@),
                        None => !has_entry(old(self)@, target_id@),
                    }
                    &&& forall|id: Seq<char>, p: Preferences| #[trigger]
                        gives(final(self)@, id, p) == if id == target_id@ {
                            p == preferences_for(category@)
                        } else {
                            gives(old(self)@, id, p)
                        }
                },
            },
    {
        let workspace = match workspace_for_category(category.as_str()) {
            Some(workspace) => workspace.to_owned(),
            None => {
                return Err(InvalidCategory);
            },
        };
        let settings = ApplicationSettings { category, workspace_id: Some(workspace) };
        let kept = settings.copied();
        let previous = self.put(target_id.clone(), kept);
        Ok(SettingsChange { target_id, settings, previous })
    }

    /// Takes a change back that could not be kept.
    pub fn revert(&mut self, change: SettingsChange)
        requires
            old(self).wf(),
        ensures
            final(self).wf(),
            forall|id: Seq<char>, p: Preferences| #[trigger]
                gives(final(self)@, id, p) == if id == change.target_id@ {
                    match change.previous {
                        Some(previous) => p == previous@,
                        None => false,
                    }
                } else {
                    gives(old(self)@, id, p)
                },
    {
        match change.previous {
            Some(previous) => {
                let _ = self.put(change.target_id, previous);
            },
            None => {
                self.take(change.target_id.as_str());
            },
        }
    }

    /// What to keep on disk.
    pub fn to_file(&self) -> (file: SettingsFile)
        ensures
            file.version == SETTINGS_VERSION,
            entry_views(file.applications@) == self@,
    {
        let mut applications: Entries = Vec::new();
        for i in 0..self.applications.len()
            invariant
                entry_views(applications@) == self@.take(i as int),
        {
            let ghost before = entry_views(applications@);
            let entry = &self.applications[i];
            applications.push((entry.0.clone(), entry.1.copied()));
            assert(entry_views(applications@) =~= before.push(self@[i as int]));
            assert(self@.take(i + 1) =~= self@.take(i as int).push(self@[i as int]));
        }
        assert(self@.take(self@.len() as int) =~= self@);
        SettingsFile { version: SETTINGS_VERSION, applications }
    }
}

/// Which entry of the list before an entry after a change comes from.
proof fn lemma_source(
    before: Seq<(Seq<char>, Preferences)>,
    now: Seq<(Seq<char>, Preferences)>,
    place: int,
    found: bool,
    new: (Seq<char>, Preferences),
    i: int,
) -> (x: int)
    requires
        0 <= place <= before.len(),
        found ==> place < before.len(),
        now == (if found {
            before.remove(place)
        } else {
            before
        }).insert(place, new),
        0 <= i < now.len(),
    ensures
        i != place ==> 0 <= x < before.len() && now[i] == before[x] && x == (if i < place || found {
            i
        } else {
            i - 1
        }),
        i == place ==> now[i] == new && x == place,
{
    if i == place {
        place
    } else if i < place || found {
        i
    } else {
        i - 1
    }
}

proof fn lemma_same_entries(a: Seq<(Seq<char>, Preferences)>, b: Seq<(Seq<char>, Preferences)>)
    requires
        ascending(a),
        ascending(b),
        forall|id: Seq<char>, p: Preferences| #[trigger] gives(a, id, p) == gives(b, id, p),
    ensures
        a == b,
    decreases a.len(),
{
    if a.len() == 0 {
        if b.len() > 0 {
            assert(b[0] == (b[0].0, b[0].1));
            assert(gives(b, b[0].0, b[0].1));
            assert(gives(a, b[0].0, b[0].1));
        }
        assert(a =~= b);
    } else {
        let x = a.last();
        assert(a[a.len() - 1] == (x.0, x.1));
        assert(gives(a, x.0, x.1));
        assert(gives(b, x.0, x.1));
        let i = choose|i: int| 0 <= i < b.len() && #[trigger] b[i] == (x.0, x.1);
        let y = b.last();
        assert(b[b.len() - 1] == (y.0, y.1));
        assert(gives(b, y.0, y.1));
        assert(gives(a, y.0, y.1));
        let j = choose|j: int| 0 <= j < a.len() && #[trigger] a[j] == (y.0, y.1);
        assert(x == y) by {
            if i < b.len() - 1 && j < a.len() - 1 {
                assert(text_le(b[i].0, b[b.len() - 1].0));
                assert(text_le(a[j].0, a[a.len() - 1].0));
                lemma_text_le_total(x.0, y.0);
            }
            if i == b.len() - 1 || j == a.len() - 1 {
                assert(x == y);
            }
        }
        let p = a.drop_last();
        let q = b.drop_last();
        assert forall|id: Seq<char>, pref: Preferences| #[trigger] gives(p, id, pref) == gives(
            q,
            id,
            pref,
        ) by {
            assert(gives(a, id, pref) == gives(b, id, pref));
            assert(gives(p, id, pref) == (gives(a, id, pref) && id != x.0)) by {
                lemma_front(a, id, pref);
            }
            assert(gives(q, id, pref) == (gives(b, id, pref) && id != y.0)) by {
                lemma_front(b, id, pref);
            }
        }
        lemma_same_entries(p, q);
        assert(a =~= p.push(x));
        assert(b =~= q.push(y));
    }
}

proof fn lemma_front(a: Seq<(Seq<char>, Preferences)>, id: Seq<char>, p: Preferences)
    requires
        ascending(a),
        a.len() > 0,
    ensures
        gives(a.drop_last(), id, p) == (gives(a, id, p) && id != a.last().0),
{
    let front = a.drop_last();
    if gives(front, id, p) {
        let i = choose|i: int| 0 <= i < front.len() && #[trigger] front[i] == (id, p);
        assert(a[i] == (id, p));
        assert(a[i].0 != a[a.len() - 1].0);
    }
    if gives(a, id, p) && id != a.last().0 {
        let i = choose|i: int| 0 <= i < a.len() && #[trigger] a[i] == (id, p);
        assert(front[i] == (id, p));
    }
}

/// A change that is taken back leaves everything as it was, the revision too.
pub proof fn lemma_revert_restores(
    before: SettingsStore,
    after: SettingsStore,
    target: Seq<char>,
    previous: Option<Preferences>,
    changed: SettingsStore,
)
    requires
        before.wf(),
        after.wf(),
        changed.wf(),
        match previous {
            Some(p) => gives(before@, target, p),
            None => !has_entry(before@, target),
        },
        forall|id: Seq<char>, p: Preferences|
            id != target ==> #[trigger] gives(changed@, id, p) == gives(before@, id, p),
        forall|id: Seq<char>, p: Preferences| #[trigger]
            gives(after@, id, p) == if id == target {
                previous == Some(p)
            } else {
                gives(changed@, id, p)
            },
    ensures
        after@ == before@,
        after.revision == before.revision,
{
    assert forall|id: Seq<char>, p: Preferences| #[trigger] gives(after@, id, p) == gives(
        before@,
        id,
        p,
    ) by {
        if id == target {
            if gives(before@, id, p) {
                let i = choose|i: int| 0 <= i < before@.len() && #[trigger] before@[i] == (id, p);
                assert(has_entry(before@, target)) by {
                    assert(before@[i].0 == target);
                }
                let known = previous->0;
                let j = choose|j: int|
                    0 <= j < before@.len() && #[trigger] before@[j] == (target, known);
                if i < j {
                    assert(before@[i].0 != before@[j].0);
                } else if j < i {
                    assert(before@[j].0 != before@[i].0);
                }
            }
        } else {
            assert(gives(changed@, id, p) == gives(before@, id, p));
        }
    }
    lemma_same_entries(after@, before@);
}

/// What was kept is what is loaded again: every stored category is one of the
/// launcher's, so nothing is lost.
pub proof fn lemma_load_restores(store: SettingsStore, again: SettingsStore)
    requires
        store.wf(),
        again.wf(),
        forall|i: int|
            0 <= i < store@.len() ==> (#[trigger] store@[i]).1 == preferences_for(
                store@[i].1.category,
            ) && workspace_of(store@[i].1.category) is Some,
        forall|id: Seq<char>, p: Preferences| #[trigger]
            gives(again@, id, p) == (loaded(store@, id) == Some(p)),
    ensures
        again@ == store@,
        again.revision == store.revision,
{
    assert forall|id: Seq<char>, p: Preferences| #[trigger] gives(again@, id, p) == gives(
        store@,
        id,
        p,
    ) by {
        lemma_loaded(store@, id, p);
    }
    lemma_same_entries(again@, store@);
}

proof fn lemma_loaded(entries: Seq<(Seq<char>, Preferences)>, id: Seq<char>, p: Preferences)
    requires
        ascending(entries),
        forall|i: int|
            0 <= i < entries.len() ==> (#[trigger] entries[i]).1 == preferences_for(
                entries[i].1.category,
            ) && workspace_of(entries[i].1.category) is Some,
    ensures
        (loaded(entries, id) == Some(p)) == gives(entries, id, p),
    decreases entries.len(),
{
    if entries.len() > 0 {
        let last = entries.len() - 1;
        assert(entries[last] == entries.last());
        lemma_loaded(entries.drop_last(), id, p);
        lemma_front(entries, id, p);
        if entries.last().0 == id {
            if gives(entries, id, p) {
                let i = choose|i: int| 0 <= i < entries.len() && #[trigger] entries[i] == (id, p);
                if i < last {
                    assert(entries[i].0 != entries[last].0);
                }
            }
        }
    }
}

/// Where the settings are kept: below the configuration directory, or in its
/// place below the home directory.
pub fn settings_path(config: &Option<String>, home: &Option<String>) -> (path: Option<String>)
    ensures
        match (*config, *home) {
            (Some(root), _) => path is Some && path->0@ == joined(
                root@,
                "app-daemon/application-settings-v1.json"@,
            ),
            (None, Some(root)) => path is Some && path->0@ == joined(
                joined(root@, ".config"@),
                "app-daemon/application-settings-v1.json"@,
            ),
            (None, None) => path is None,
        },
{
    match config {
        Some(root) => Some(join(root.as_str(), "app-daemon/application-settings-v1.json")),
        None => match home {
            Some(root) => {
                let config = join(root.as_str(), ".config");
                Some(join(config.as_str(), "app-daemon/application-settings-v1.json"))
            },
            None => None,
        },
    }
}

/// Different preferences are written down differently, so a revision follows
/// every change of them.
pub proof fn lemma_settings_bytes(
    a: Seq<(Seq<char>, Preferences)>,
    b: Seq<(Seq<char>, Preferences)>,
)
    requires
        settings_bytes(a) == settings_bytes(b),
    ensures
        a == b,
{
    lemma_settings_front(a, 0, b, 0);
    assert(a.skip(0) =~= a);
    assert(b.skip(0) =~= b);
}

/// The entries from the given place on, written down.
spec fn rest_bytes(entries: Seq<(Seq<char>, Preferences)>, from: int) -> Seq<u8>
    decreases entries.len() - from,
{
    if 0 <= from < entries.len() {
        text_bytes(entries[from].0) + (text_bytes(entries[from].1.category) + (optional_bytes(
            entries[from].1.workspace,
        ) + rest_bytes(entries, from + 1)))
    } else {
        Seq::empty()
    }
}

proof fn lemma_rest(entries: Seq<(Seq<char>, Preferences)>, n: int)
    requires
        0 <= n <= entries.len(),
    ensures
        settings_bytes(entries) == settings_bytes(entries.take(n)) + rest_bytes(entries, n),
    decreases entries.len() - n,
{
    if n == entries.len() {
        assert(entries.take(n) =~= entries);
        assert(settings_bytes(entries) + rest_bytes(entries, n) =~= settings_bytes(entries));
    } else {
        lemma_rest(entries, n + 1);
        assert(entries.take(n + 1).drop_last() =~= entries.take(n));
        assert(settings_bytes(entries.take(n + 1)) + rest_bytes(entries, n + 1) =~= settings_bytes(
            entries.take(n),
        ) + rest_bytes(entries, n));
    }
}

proof fn lemma_settings_front(
    a: Seq<(Seq<char>, Preferences)>,
    i: int,
    b: Seq<(Seq<char>, Preferences)>,
    j: int,
)
    requires
        0 <= i <= a.len(),
        0 <= j <= b.len(),
        rest_bytes(a, i) == rest_bytes(b, j) || (i == 0 && j == 0 && settings_bytes(a)
            == settings_bytes(b)),
    ensures
        a.skip(i) == b.skip(j),
    decreases a.len() - i,
{
    if i == 0 && j == 0 && settings_bytes(a) == settings_bytes(b) {
        lemma_rest(a, 0);
        lemma_rest(b, 0);
        assert(settings_bytes(a.take(0)) + rest_bytes(a, 0) =~= rest_bytes(a, 0));
        assert(settings_bytes(b.take(0)) + rest_bytes(b, 0) =~= rest_bytes(b, 0));
    }
    if i < a.len() && j < b.len() {
        let p = rest_bytes(a, i + 1);
        let q = rest_bytes(b, j + 1);
        lemma_text_first(
            a[i].0,
            text_bytes(a[i].1.category) + (optional_bytes(a[i].1.workspace) + p),
            b[j].0,
            text_bytes(b[j].1.category) + (optional_bytes(b[j].1.workspace) + q),
        );
        lemma_text_first(
            a[i].1.category,
            optional_bytes(a[i].1.workspace) + p,
            b[j].1.category,
            optional_bytes(b[j].1.workspace) + q,
        );
        lemma_optional_first(a[i].1.workspace, p, b[j].1.workspace, q);
        lemma_settings_front(a, i + 1, b, j + 1);
        assert(a.skip(i) =~= seq![a[i]] + a.skip(i + 1));
        assert(b.skip(j) =~= seq![b[j]] + b.skip(j + 1));
    } else {
        if i < a.len() {
            assert(rest_bytes(a, i).len() > 0);
        }
        if j < b.len() {
            assert(rest_bytes(b, j).len() > 0);
        }
        assert(a.skip(i) =~= b.skip(j));
    }
}

} // verus!
