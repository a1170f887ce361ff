//! The installed applications.

use vstd::prelude::*;
use freedesktop_desktop_entry::DesktopEntry;
use crate::desktop_entry::{
    action_command, action_group, action_localized, action_value, decode_entry, decoded_groups,
    entry_command, entry_groups, entry_localized, entry_path, entry_value, exec_arguments,
    localized_value, plain_value,
};
use crate::lowercase::{lowercase, to_lowercase};
use crate::model::DesktopActionSummary;
use crate::procfs::{file_name, path_file_name};
use crate::text::{
    ascii_lowercase, chars_of, ends_with, finishes_with, lemma_text_le_total,
    lemma_text_le_transitive, lower_chars, pieces, same_chars, same_ignoring_case, same_text,
    split_chars, split_on, starts_with, begins_with, string_le, string_of, text_le, texts,
};
use crate::transcript::{
    content_hash, flag_bytes, hash_bytes, lemma_flag_first, lemma_list_first, lemma_number_first, lemma_regroup,
    lemma_text_first, list_bytes, number_bytes, text_bytes, write_flag, write_list, write_number,
    write_text,
};

verus! {

/// A desktop entry's contents.
pub type Groups = Map<Seq<char>, Map<Seq<char>, (Seq<char>, Map<Seq<char>, Seq<char>>)>>;

/// A file in one of the application directories. Files of a directory that comes
/// first come first.
#[derive(Debug)]
pub struct DesktopFile {
    pub id: String,
    pub path: String,
    /// `None` where the file could not be read.
    pub text: Option<String>,
}

/// An application that can be started.
#[derive(Debug)]
pub struct CatalogEntry {
    pub id: String,
    pub name: String,
    pub generic_name: String,
    pub comment: String,
    pub icon: String,
    pub keywords: Vec<String>,
    pub categories: Vec<String>,
    pub startup_class: String,
    pub actions: Vec<DesktopActionSummary>,
    pub launch_only: bool,
    pub entry: DesktopEntry,
}

/// What is visible of an additional action.
#[verifier::ext_equal]
pub struct ActionView {
    pub id: Seq<char>,
    pub name: Seq<char>,
    pub icon: Seq<char>,
}

impl View for DesktopActionSummary {
    type V = ActionView;

    open spec fn view(&self) -> ActionView {
        ActionView { id: self.id@, name: self.name@, icon: self.icon@ }
    }
}

pub open spec fn action_views(actions: Seq<DesktopActionSummary>) -> Seq<ActionView> {
    actions.map_values(|action: DesktopActionSummary| action@)
}

/// What is visible of an application.
#[verifier::ext_equal]
pub struct EntryView {
    pub id: Seq<char>,
    pub name: Seq<char>,
    pub generic_name: Seq<char>,
    pub comment: Seq<char>,
    pub icon: Seq<char>,
    pub keywords: Seq<Seq<char>>,
    pub categories: Seq<Seq<char>>,
    pub startup_class: Seq<char>,
    pub actions: Seq<ActionView>,
    pub launch_only: bool,
}

impl View for CatalogEntry {
    type V = EntryView;

    open spec fn view(&self) -> EntryView {
        EntryView {
            id: self.id@,
            name: self.name@,
            generic_name: self.generic_name@,
            comment: self.comment@,
            icon: self.icon@,
            keywords: texts(self.keywords@),
            categories: texts(self.categories@),
            startup_class: self.startup_class@,
            actions: action_views(self.actions@),
            launch_only: self.launch_only,
        }
    }
}

// ---------------------------------------------------------------------
// One desktop entry

pub open spec fn main_value(groups: Groups, key: Seq<char>) -> Option<Seq<char>> {
    plain_value(groups, "Desktop Entry"@, key)
}

pub open spec fn main_text(groups: Groups, key: Seq<char>, locales: Seq<Seq<char>>) -> Option<
    Seq<char>,
> {
    localized_value(groups, "Desktop Entry"@, key, locales)
}

pub open spec fn or_empty(text: Option<Seq<char>>) -> Seq<char> {
    match text {
        Some(t) => t,
        None => ""@,
    }
}

/// The parts of a list that are not empty.
pub open spec fn filled(list: Seq<Seq<char>>) -> Seq<Seq<char>>
    decreases list.len(),
{
    if list.len() == 0 {
        Seq::empty()
    } else {
        let before = filled(list.drop_last());
        if list.last().len() > 0 {
            before.push(list.last())
        } else {
            before
        }
    }
}

/// The items of a value that lists them.
pub open spec fn items(value: Option<Seq<char>>) -> Seq<Seq<char>> {
    match value {
        Some(v) => filled(split_on(v, ';')),
        None => Seq::empty(),
    }
}

/// The additional actions that have a name.
pub open spec fn named_actions(
    groups: Groups,
    ids: Seq<Seq<char>>,
    locales: Seq<Seq<char>>,
) -> Seq<ActionView>
    decreases ids.len(),
{
    if ids.len() == 0 {
        Seq::empty()
    } else {
        let before = named_actions(groups, ids.drop_last(), locales);
        let id = ids.last();
        match localized_value(groups, action_group(id), "Name"@, locales) {
            Some(name) => before.push(
                ActionView {
                    id,
                    name,
                    icon: or_empty(plain_value(groups, action_group(id), "Icon"@)),
                },
            ),
            None => before,
        }
    }
}

/// One of the listed desktops is one of the user's, whose names are in lower case.
pub open spec fn lists_desktop(list: Seq<Seq<char>>, desktops: Seq<Seq<char>>) -> bool {
    exists|i: int, j: int|
        0 <= i < list.len() && 0 <= j < desktops.len() && (#[trigger] list[i]).len() > 0
            && ascii_lowercase(list[i]) == ascii_lowercase(#[trigger] desktops[j])
}

/// The entry can be started.
pub open spec fn launchable(groups: Groups, available: Seq<Seq<char>>) -> bool {
    &&& main_value(groups, "Type"@) == Some("Application"@)
    &&& main_value(groups, "Hidden"@) != Some("true"@)
    &&& main_value(groups, "NoDisplay"@) != Some("true"@)
    &&& or_empty(main_value(groups, "Exec"@)).len() > 0
    &&& match main_value(groups, "TryExec"@) {
        Some(command) => available.contains(command),
        None => true,
    }
}

/// The entry is meant for one of the user's desktops.
pub open spec fn shown_on(groups: Groups, desktops: Seq<Seq<char>>) -> bool {
    &&& match main_value(groups, "OnlyShowIn"@) {
        Some(list) => lists_desktop(split_on(list, ';'), desktops),
        None => true,
    }
    &&& match main_value(groups, "NotShowIn"@) {
        Some(list) => !lists_desktop(split_on(list, ';'), desktops),
        None => true,
    }
}

/// What the catalog shows of a desktop entry.
pub open spec fn entry_of(groups: Groups, id: Seq<char>, locales: Seq<Seq<char>>) -> EntryView {
    EntryView {
        id,
        name: or_empty(main_text(groups, "Name"@, locales)),
        generic_name: or_empty(main_text(groups, "GenericName"@, locales)),
        comment: or_empty(main_text(groups, "Comment"@, locales)),
        icon: or_empty(main_value(groups, "Icon"@)),
        keywords: items(main_text(groups, "Keywords"@, locales)),
        categories: items(main_value(groups, "Categories"@)),
        startup_class: or_empty(main_value(groups, "StartupWMClass"@)),
        actions: named_actions(groups, items(main_value(groups, "Actions"@)), locales),
        launch_only: main_value(groups, "X-Shelllist-LaunchOnly"@) == Some("true"@),
    }
}

/// The contents of a desktop file.
pub open spec fn file_groups(file: DesktopFile, locales: Seq<Seq<char>>) -> Option<Groups> {
    match file.text {
        Some(text) => decoded_groups(file.path@, text@, locales),
        None => None,
    }
}

/// The desktop entry belongs in the catalog.
pub open spec fn is_listed(
    groups: Option<Groups>,
    locales: Seq<Seq<char>>,
    desktops: Seq<Seq<char>>,
    available: Seq<Seq<char>>,
) -> bool {
    match groups {
        Some(g) => or_empty(main_text(g, "Name"@, locales)).len() > 0 && launchable(g, available)
            && shown_on(g, desktops),
        None => false,
    }
}

/// A desktop entry that belongs in the catalog has a command and a name.
pub proof fn lemma_listed_has_command(
    groups: Groups,
    locales: Seq<Seq<char>>,
    desktops: Seq<Seq<char>>,
    available: Seq<Seq<char>>,
)
    requires
        is_listed(Some(groups), locales, desktops, available),
    ensures
        main_value(groups, "Exec"@) is Some,
        entry_of(groups, ""@, locales).name.len() > 0,
{
    reveal_strlit("");
}

fn text_or_empty(text: Option<String>) -> (t: String)
    ensures
        t@ == or_empty(
            match text {
                Some(s) => Some(s@),
                None => None,
            },
        ),
{
    match text {
        Some(s) => s,
        None => "".to_owned(),
    }
}

fn list_items(value: Option<String>) -> (list: Vec<String>)
    ensures
        texts(list@) == items(
            match value {
                Some(s) => Some(s@),
                None => None,
            },
        ),
{
    let mut list: Vec<String> = Vec::new();
    match value {
        None => {
            assert(texts(list@) =~= Seq::empty());
        },
        Some(value) => {
            let chars = chars_of(value.as_str());
            let parts = split_chars(chars.as_slice(), ';');
            let ghost all = pieces(parts@);
            assert(texts(list@) =~= filled(all.take(0)));
            for i in 0..parts.len()
                invariant
                    all == pieces(parts@),
                    texts(list@) == filled(all.take(i as int)),
            {
                let ghost before = texts(list@);
                assert(all.take(i + 1).drop_last() =~= all.take(i as int));
                assert(all.take(i + 1).last() == parts@[i as int]@);
                if parts[i].len() > 0 {
                    list.push(string_of(parts[i].as_slice()));
                    assert(texts(list@) =~= before.push(parts@[i as int]@));
                }
            }
            assert(all.take(all.len() as int) =~= all);
        },
    }
    list
}

fn is_value(value: &Option<String>, wanted: &str) -> (yes: bool)
    ensures
        yes == (match *value {
            Some(v) => v@ == wanted@,
            None => false,
        }),
{
    match value {
        Some(v) => same_text(v.as_str(), wanted),
        None => false,
    }
}

fn names_desktop(value: &String, desktops: &Vec<String>) -> (yes: bool)
    ensures
        yes == lists_desktop(split_on(value@, ';'), texts(desktops@)),
{
    let chars = chars_of(value.as_str());
    let parts = split_chars(chars.as_slice(), ';');
    let ghost all = pieces(parts@);
    let ghost users = texts(desktops@);
    for i in 0..parts.len()
        invariant
            all == pieces(parts@),
            all == split_on(value@, ';'),
            users == texts(desktops@),
            forall|a: int, b: int|
                0 <= a < i && 0 <= b < users.len() ==> !((#[trigger] all[a]).len() > 0
                    && ascii_lowercase(all[a]) == ascii_lowercase(#[trigger] users[b])),
    {
        assert(all[i as int] == parts@[i as int]@);
        for j in 0..desktops.len()
            invariant
                i < parts@.len(),
                all == pieces(parts@),
                all == split_on(value@, ';'),
                users == texts(desktops@),
                all[i as int] == parts@[i as int]@,
                forall|b: int|
                    0 <= b < j ==> !(all[i as int].len() > 0 && ascii_lowercase(all[i as int])
                        == ascii_lowercase(#[trigger] users[b])),
        {
            let desktop = chars_of(desktops[j].as_str());
            assert(users[j as int] == desktops@[j as int]@);
            if parts[i].len() > 0 && same_ignoring_case(parts[i].as_slice(), desktop.as_slice()) {
                assert(all[i as int].len() > 0 && ascii_lowercase(all[i as int])
                    == ascii_lowercase(users[j as int]));
                return true;
            }
        }
    }
    false
}

fn lists_text(list: &Vec<String>, text: &str) -> (yes: bool)
    ensures
        yes == texts(list@).contains(text@),
{
    for i in 0..list.len()
        invariant
            forall|j: int| 0 <= j < i ==> texts(list@)[j] != text@,
    {
        assert(texts(list@)[i as int] == list@[i as int]@);
        if same_text(list[i].as_str(), text) {
            assert(texts(list@).contains(text@));
            return true;
        }
    }
    false
}

fn visible(entry: &DesktopEntry, desktops: &Vec<String>, available: &Vec<String>) -> (yes: bool)
    ensures
        yes == (launchable(entry_groups(*entry), texts(available@)) && shown_on(
            entry_groups(*entry),
            texts(desktops@),
        )),
{
    let kind = entry_value(entry, "Type");
    let hidden = entry_value(entry, "Hidden");
    let no_display = entry_value(entry, "NoDisplay");
    let exec = text_or_empty(entry_value(entry, "Exec"));
    if !is_value(&kind, "Application") || is_value(&hidden, "true") || is_value(&no_display, "true") {
        return false;
    }
    let chars = chars_of(exec.as_str());
    if chars.len() == 0 {
        return false;
    }
    if let Some(command) = entry_value(entry, "TryExec") {
        if !lists_text(available, command.as_str()) {
            return false;
        }
    }
    if let Some(list) = entry_value(entry, "OnlyShowIn") {
        if !names_desktop(&list, desktops) {
            return false;
        }
    }
    if let Some(list) = entry_value(entry, "NotShowIn") {
        if names_desktop(&list, desktops) {
            return false;
        }
    }
    true
}

fn desktop_actions(entry: &DesktopEntry, locales: &Vec<String>) -> (actions: Vec<
    DesktopActionSummary,
>)
    ensures
        action_views(actions@) == named_actions(
            entry_groups(*entry),
            items(main_value(entry_groups(*entry), "Actions"@)),
            texts(locales@),
        ),
{
    let ids = list_items(entry_value(entry, "Actions"));
    let ghost groups = entry_groups(*entry);
    let ghost all = texts(ids@);
    let mut actions: Vec<DesktopActionSummary> = Vec::new();
    assert(action_views(actions@) =~= named_actions(groups, all.take(0), texts(locales@)));
    for i in 0..ids.len()
        invariant
            groups == entry_groups(*entry),
            all == texts(ids@),
            action_views(actions@) == named_actions(
                groups,
                all.take(i as int),
                texts(locales@),
            ),
    {
        let ghost before = action_views(actions@);
        assert(all.take(i + 1).drop_last() =~= all.take(i as int));
        assert(all.take(i + 1).last() == ids@[i as int]@);
        let id = &ids[i];
        if let Some(name) = action_localized(entry, id.as_str(), "Name", locales) {
            let icon = text_or_empty(action_value(entry, id.as_str(), "Icon"));
            let action = DesktopActionSummary { id: id.clone(), name, icon };
            actions.push(action);
            assert(action_views(actions@) =~= before.push(action@));
        }
    }
    assert(all.take(all.len() as int) =~= all);
    actions
}

fn catalog_entry(
    file: &DesktopFile,
    locales: &Vec<String>,
    desktops: &Vec<String>,
    available: &Vec<String>,
) -> (listed: Option<CatalogEntry>)
    ensures
        match listed {
            Some(e) => {
                let groups = file_groups(*file, texts(locales@));
                &&& is_listed(groups, texts(locales@), texts(desktops@), texts(available@))
                &&& e@ == entry_of(groups->0, file.id@, texts(locales@))
                &&& entry_groups(e.entry) == groups->0
                &&& entry_path(e.entry) == file.path@
            },
            None => !is_listed(
                file_groups(*file, texts(locales@)),
                texts(locales@),
                texts(desktops@),
                texts(available@),
            ),
        },
{
    proof {
        reveal_strlit("");
    }
    let text = match &file.text {
        Some(text) => text,
        None => {
            return None;
        },
    };
    let entry = match decode_entry(file.path.as_str(), text.as_str(), locales) {
        Some(entry) => entry,
        None => {
            return None;
        },
    };
    let name = text_or_empty(entry_localized(&entry, "Name", locales));
    let chars = chars_of(name.as_str());
    if chars.len() == 0 || !visible(&entry, desktops, available) {
        return None;
    }
    let launch_only = is_value(&entry_value(&entry, "X-Shelllist-LaunchOnly"), "true");
    Some(
        CatalogEntry {
            id: file.id.clone(),
            name,
            generic_name: text_or_empty(entry_localized(&entry, "GenericName", locales)),
            comment: text_or_empty(entry_localized(&entry, "Comment", locales)),
            icon: text_or_empty(entry_value(&entry, "Icon")),
            keywords: list_items(entry_localized(&entry, "Keywords", locales)),
            categories: list_items(entry_value(&entry, "Categories")),
            startup_class: text_or_empty(entry_value(&entry, "StartupWMClass")),
            actions: desktop_actions(&entry, locales),
            launch_only,
            entry,
        },
    )
}

/// Why an application's command cannot be run.
#[derive(Debug)]
pub enum CommandError {
    /// The entry has no such action.
    UnavailableAction,
    /// What is wrong with the entry's command.
    Invalid(String),
}

impl CommandError {
    pub open spec fn text(self) -> Seq<char> {
        match self {
            CommandError::UnavailableAction => "desktop action is unavailable"@,
            CommandError::Invalid(fault) => fault@,
        }
    }

    pub fn message(&self) -> (text: String)
        ensures
            text@ == self.text(),
    {
        match self {
            CommandError::UnavailableAction => "desktop action is unavailable".to_owned(),
            CommandError::Invalid(fault) => fault.clone(),
        }
    }
}

/// One of the actions has this id.
pub open spec fn has_action(actions: Seq<ActionView>, id: Seq<char>) -> bool {
    exists|i: int| 0 <= i < actions.len() && (#[trigger] actions[i]).id == id
}

impl CatalogEntry {
    /// The command that starts the application.
    pub fn launch_command(&self) -> (command: Result<Vec<String>, CommandError>)
        ensures
            match (
                command,
                exec_arguments(
                    entry_groups(self.entry),
                    entry_path(self.entry),
                    main_value(entry_groups(self.entry), "Exec"@),
                ),
            ) {
                (Ok(list), Ok(wanted)) => texts(list@) == wanted,
                (Err(CommandError::Invalid(e)), Err(fault)) => e@ == fault,
                _ => false,
            },
    {
        match entry_command(&self.entry) {
            Ok(list) => Ok(list),
            Err(e) => Err(CommandError::Invalid(e)),
        }
    }

    pub fn requires_terminal(&self) -> (yes: bool)
        ensures
            yes == (main_value(entry_groups(self.entry), "Terminal"@) == Some("true"@)),
    {
        is_value(&entry_value(&self.entry, "Terminal"), "true")
    }

    pub fn kind(&self) -> (kind: &'static str)
        ensures
            kind@ == kind_of(self.launch_only),
    {
        if self.launch_only {
            "desktop-shortcut"
        } else {
            "desktop-application"
        }
    }

    /// The command of an additional action.
    pub fn parse_action(&self, action_id: &str) -> (command: Result<Vec<String>, CommandError>)
        ensures
            match (
                command,
                exec_arguments(
                    entry_groups(self.entry),
                    entry_path(self.entry),
                    plain_value(entry_groups(self.entry), action_group(action_id@), "Exec"@),
                ),
            ) {
                (Err(CommandError::UnavailableAction), _) => !has_action(self@.actions, action_id@),
                (Ok(list), Ok(wanted)) => has_action(self@.actions, action_id@) && texts(list@)
                    == wanted,
                (Err(CommandError::Invalid(e)), Err(fault)) => has_action(
                    self@.actions,
                    action_id@,
                ) && e@ == fault,
                _ => false,
            },
    {
        let mut known = false;
        for i in 0..self.actions.len()
            invariant
                known == exists|k: int|
                    0 <= k < i && (#[trigger] self@.actions[k]).id == action_id@,
        {
            assert(self@.actions[i as int] == self.actions@[i as int]@);
            if same_text(self.actions[i].id.as_str(), action_id) {
                known = true;
                assert(self@.actions[i as int].id == action_id@);
            }
        }
        if !known {
            return Err(CommandError::UnavailableAction);
        }
        match action_command(&self.entry, action_id) {
            Ok(list) => Ok(list),
            Err(e) => Err(CommandError::Invalid(e)),
        }
    }
}

/// What an entry is shown as.
pub open spec fn kind_of(launch_only: bool) -> Seq<char> {
    if launch_only {
        "desktop-shortcut"@
    } else {
        "desktop-application"@
    }
}

// ---------------------------------------------------------------------
// The catalog

/// The installed applications by name.
#[derive(Debug)]
pub struct Catalog {
    pub revision: u64,
    pub entries: Vec<CatalogEntry>,
}

pub open spec fn views_of(entries: Seq<CatalogEntry>) -> Seq<EntryView> {
    entries.map_values(|entry: CatalogEntry| entry@)
}

/// No two applications have the same id.
pub open spec fn distinct_ids(entries: Seq<EntryView>) -> bool {
    forall|i: int, j: int|
        0 <= i < j < entries.len() ==> (#[trigger] entries[i]).id != (#[trigger] entries[j]).id
}

/// No file before this one has its id: a file hides those of its id that come
/// after it, even where it is not shown itself.
pub open spec fn is_first(files: Seq<DesktopFile>, i: int) -> bool {
    forall|j: int| 0 <= j < i ==> (#[trigger] files[j]).id@ != files[i].id@
}

/// The file stands in the catalog.
pub open spec fn keeps_file(
    files: Seq<DesktopFile>,
    i: int,
    locales: Seq<Seq<char>>,
    desktops: Seq<Seq<char>>,
    available: Seq<Seq<char>>,
) -> bool {
    is_first(files, i) && is_listed(file_groups(files[i], locales), locales, desktops, available)
}

/// The entry is that of this file.
#[verifier::opaque]
pub open spec fn is_entry_of(
    entry: CatalogEntry,
    file: DesktopFile,
    locales: Seq<Seq<char>>,
) -> bool {
    &&& file_groups(file, locales) is Some
    &&& entry@ == entry_of(file_groups(file, locales)->0, file.id@, locales)
    &&& entry_groups(entry.entry) == file_groups(file, locales)->0
    &&& entry_path(entry.entry) == file.path@
}

/// By name without regard to case, then by id.
pub open spec fn in_order(a: EntryView, b: EntryView) -> bool {
    if lowercase(a.name) == lowercase(b.name) {
        text_le(a.id, b.id)
    } else {
        text_le(lowercase(a.name), lowercase(b.name))
    }
}

/// The entry is that of one of the first files that the catalog keeps.
pub open spec fn stands_for(
    entry: CatalogEntry,
    files: Seq<DesktopFile>,
    count: int,
    locales: Seq<Seq<char>>,
    desktops: Seq<Seq<char>>,
    available: Seq<Seq<char>>,
) -> bool {
    exists|i: int|
        0 <= i < count && #[trigger] keeps_file(files, i, locales, desktops, available)
            && is_entry_of(entry, files[i], locales)
}

/// One of the entries is that of the file.
pub open spec fn has_entry_of(
    entries: Seq<CatalogEntry>,
    file: DesktopFile,
    locales: Seq<Seq<char>>,
) -> bool {
    exists|k: int| 0 <= k < entries.len() && is_entry_of(#[trigger] entries[k], file, locales)
}

/// The entries are those of the first files that the catalog keeps, in order.
pub open spec fn is_catalog_of(
    entries: Seq<CatalogEntry>,
    files: Seq<DesktopFile>,
    count: int,
    locales: Seq<Seq<char>>,
    desktops: Seq<Seq<char>>,
    available: Seq<Seq<char>>,
) -> bool {
    &&& forall|k: int|
        0 <= k < entries.len() ==> stands_for(
            #[trigger] entries[k],
            files,
            count,
            locales,
            desktops,
            available,
        )
    &&& forall|i: int|
        0 <= i < count && #[trigger] keeps_file(files, i, locales, desktops, available)
            ==> has_entry_of(entries, files[i], locales)
    &&& forall|k: int, m: int|
        0 <= k < m < entries.len() ==> (#[trigger] entries[k])@.id != (#[trigger] entries[m])@.id
    &&& ordered(entries)
}

/// The entries are by name without regard to case, then by id.
pub open spec fn ordered(entries: Seq<CatalogEntry>) -> bool {
    forall|k: int, m: int|
        0 <= k < m < entries.len() ==> in_order((#[trigger] entries[k])@, (#[trigger] entries[m])@)
}

/// The entries are those of the files that the catalog keeps, in order.
pub open spec fn is_catalog(
    entries: Seq<CatalogEntry>,
    files: Seq<DesktopFile>,
    locales: Seq<Seq<char>>,
    desktops: Seq<Seq<char>>,
    available: Seq<Seq<char>>,
) -> bool {
    is_catalog_of(entries, files, files.len() as int, locales, desktops, available)
}

proof fn lemma_entry_id(entry: CatalogEntry, file: DesktopFile, locales: Seq<Seq<char>>)
    requires
        is_entry_of(entry, file, locales),
    ensures
        entry@.id == file.id@,
{
    reveal(is_entry_of);
}

proof fn lemma_file_left_out(
    entries: Seq<CatalogEntry>,
    files: Seq<DesktopFile>,
    count: int,
    locales: Seq<Seq<char>>,
    desktops: Seq<Seq<char>>,
    available: Seq<Seq<char>>,
)
    requires
        0 <= count < files.len(),
        is_catalog_of(entries, files, count, locales, desktops, available),
        !keeps_file(files, count, locales, desktops, available),
    ensures
        is_catalog_of(entries, files, count + 1, locales, desktops, available),
{
    assert forall|k: int| 0 <= k < entries.len() implies stands_for(
        #[trigger] entries[k],
        files,
        count + 1,
        locales,
        desktops,
        available,
    ) by {
        assert(stands_for(entries[k], files, count, locales, desktops, available));
    }
}

/// The entry of a file that comes next has another id than those before it.
proof fn lemma_new_id(
    entries: Seq<CatalogEntry>,
    entry: CatalogEntry,
    files: Seq<DesktopFile>,
    count: int,
    locales: Seq<Seq<char>>,
    desktops: Seq<Seq<char>>,
    available: Seq<Seq<char>>,
    k: int,
)
    requires
        0 <= count < files.len(),
        0 <= k < entries.len(),
        stands_for(entries[k], files, count, locales, desktops, available),
        keeps_file(files, count, locales, desktops, available),
        is_entry_of(entry, files[count], locales),
    ensures
        entries[k]@.id != entry@.id,
{
    let i = choose|i: int|
        0 <= i < count && #[trigger] keeps_file(files, i, locales, desktops, available)
            && is_entry_of(entries[k], files[i], locales);
    lemma_entry_id(entries[k], files[i], locales);
    lemma_entry_id(entry, files[count], locales);
    assert(files[i].id@ != files[count].id@);
}

/// An entry stays that of its file when another one is put in.
proof fn lemma_keeps_entry(
    entries: Seq<CatalogEntry>,
    entry: CatalogEntry,
    place: int,
    file: DesktopFile,
    locales: Seq<Seq<char>>,
)
    requires
        0 <= place <= entries.len(),
        has_entry_of(entries, file, locales),
    ensures
        has_entry_of(entries.insert(place, entry), file, locales),
{
    let x = choose|x: int|
        0 <= x < entries.len() && is_entry_of(#[trigger] entries[x], file, locales);
    let k = if x < place {
        x
    } else {
        x + 1
    };
    assert(entries.insert(place, entry)[k] == entries[x]);
}

/// Ids stay distinct when an entry with a new one is put in.
proof fn lemma_ids_stay_distinct(entries: Seq<CatalogEntry>, entry: CatalogEntry, place: int)
    requires
        0 <= place <= entries.len(),
        forall|k: int| 0 <= k < entries.len() ==> (#[trigger] entries[k])@.id != entry@.id,
        forall|k: int, m: int|
            0 <= k < m < entries.len() ==> (#[trigger] entries[k])@.id != (
            #[trigger] entries[m])@.id,
    ensures
        forall|k: int, m: int|
            0 <= k < m < entries.len() + 1 ==> (#[trigger] entries.insert(place, entry)[k])@.id != (
            #[trigger] entries.insert(place, entry)[m])@.id,
{
    let now = entries.insert(place, entry);
    assert forall|k: int, m: int| 0 <= k < m < now.len() implies (#[trigger] now[k])@.id != (
    #[trigger] now[m])@.id by {
        let x = if k < place {
            k
        } else {
            k - 1
        };
        let y = if m < place {
            m
        } else {
            m - 1
        };
        if k != place {
            assert(now[k] == entries[x]);
        }
        if m != place {
            assert(now[m] == entries[y]);
        }
    }
}

proof fn lemma_file_added(
    entries: Seq<CatalogEntry>,
    entry: CatalogEntry,
    place: int,
    files: Seq<DesktopFile>,
    count: int,
    locales: Seq<Seq<char>>,
    desktops: Seq<Seq<char>>,
    available: Seq<Seq<char>>,
)
    requires
        0 <= count < files.len(),
        0 <= place <= entries.len(),
        is_catalog_of(entries, files, count, locales, desktops, available),
        keeps_file(files, count, locales, desktops, available),
        is_entry_of(entry, files[count], locales),
        ordered(entries.insert(place, entry)),
    ensures
        is_catalog_of(
            entries.insert(place, entry),
            files,
            count + 1,
            locales,
            desktops,
            available,
        ),
{
    let now = entries.insert(place, entry);
    assert(now[place] == entry);
    assert(has_entry_of(now, files[count], locales));
    assert forall|k: int| 0 <= k < entries.len() implies (#[trigger] entries[k])@.id
        != entry@.id by {
        lemma_new_id(entries, entry, files, count, locales, desktops, available, k);
    }
    lemma_ids_stay_distinct(entries, entry, place);
    assert forall|k: int| 0 <= k < now.len() implies stands_for(
        #[trigger] now[k],
        files,
        count + 1,
        locales,
        desktops,
        available,
    ) by {
        if k != place {
            let x = if k < place {
                k
            } else {
                k - 1
            };
            assert(now[k] == entries[x]);
            assert(stands_for(entries[x], files, count, locales, desktops, available));
        }
    }
    assert forall|i: int|
        0 <= i < count + 1 && #[trigger] keeps_file(
            files,
            i,
            locales,
            desktops,
            available,
        ) implies has_entry_of(now, files[i], locales) by {
        if i < count {
            lemma_keeps_entry(entries, entry, place, files[i], locales);
        }
    }
}

/// Additional actions one after another.
pub open spec fn joined_actions(list: Seq<ActionView>) -> Seq<u8>
    decreases list.len(),
{
    if list.len() == 0 {
        Seq::empty()
    } else {
        text_bytes(list[0].id) + (text_bytes(list[0].name) + (text_bytes(list[0].icon)
            + joined_actions(list.skip(1))))
    }
}

/// The texts of an application written down as bytes.
pub open spec fn entry_texts(e: EntryView) -> Seq<u8> {
    text_bytes(e.id) + (text_bytes(e.name) + (text_bytes(e.generic_name) + (text_bytes(e.comment)
        + text_bytes(e.icon))))
}

/// The rest of an application written down as bytes.
pub open spec fn entry_lists(e: EntryView) -> Seq<u8> {
    list_bytes(e.keywords) + (list_bytes(e.categories) + (text_bytes(e.startup_class) + (number_bytes(
        e.actions.len() as u64,
    ) + (joined_actions(e.actions) + flag_bytes(e.launch_only)))))
}

/// Everything visible of an application written down as bytes.
pub open spec fn entry_bytes(e: EntryView) -> Seq<u8> {
    entry_texts(e) + entry_lists(e)
}

/// Everything visible of all applications written down as bytes.
pub open spec fn catalog_bytes(entries: Seq<EntryView>) -> Seq<u8>
    decreases entries.len(),
{
    if entries.len() == 0 {
        Seq::empty()
    } else {
        entry_bytes(entries[0]) + catalog_bytes(entries.skip(1))
    }
}

proof fn lemma_action_apart(list: Seq<ActionView>, x: Seq<u8>)
    requires
        list.len() > 0,
    ensures
        joined_actions(list) + x == text_bytes(list[0].id) + (text_bytes(list[0].name) + (text_bytes(
            list[0].icon,
        ) + (joined_actions(list.skip(1)) + x))),
{
    let t3 = joined_actions(list.skip(1));
    let t2 = text_bytes(list[0].icon) + t3;
    let t1 = text_bytes(list[0].name) + t2;
    lemma_regroup(text_bytes(list[0].id), t1, x);
    lemma_regroup(text_bytes(list[0].name), t2, x);
    lemma_regroup(text_bytes(list[0].icon), t3, x);
}

proof fn lemma_joined_actions(a: Seq<ActionView>, x: Seq<u8>, b: Seq<ActionView>, y: Seq<u8>)
    requires
        a.len() == b.len(),
        joined_actions(a) + x == joined_actions(b) + y,
    ensures
        a == b,
        x == y,
    decreases a.len(),
{
    if a.len() == 0 {
        assert(joined_actions(a) + x =~= x);
        assert(joined_actions(b) + y =~= y);
        assert(a =~= b);
    } else {
        let a3 = joined_actions(a.skip(1)) + x;
        let b3 = joined_actions(b.skip(1)) + y;
        let a2 = text_bytes(a[0].icon) + a3;
        let b2 = text_bytes(b[0].icon) + b3;
        let a1 = text_bytes(a[0].name) + a2;
        let b1 = text_bytes(b[0].name) + b2;
        lemma_action_apart(a, x);
        lemma_action_apart(b, y);
        lemma_text_first(a[0].id, a1, b[0].id, b1);
        lemma_text_first(a[0].name, a2, b[0].name, b2);
        lemma_text_first(a[0].icon, a3, b[0].icon, b3);
        lemma_joined_actions(a.skip(1), x, b.skip(1), y);
        assert(a =~= seq![a[0]] + a.skip(1));
        assert(b =~= seq![b[0]] + b.skip(1));
    }
}

pub open spec fn countable(e: EntryView) -> bool {
    e.keywords.len() <= u64::MAX && e.categories.len() <= u64::MAX && e.actions.len() <= u64::MAX
}

proof fn lemma_texts_apart(e: EntryView, x: Seq<u8>)
    ensures
        entry_texts(e) + x == text_bytes(e.id) + (text_bytes(e.name) + (text_bytes(e.generic_name)
            + (text_bytes(e.comment) + (text_bytes(e.icon) + x)))),
{
    let t3 = text_bytes(e.comment) + text_bytes(e.icon);
    let t2 = text_bytes(e.generic_name) + t3;
    let t1 = text_bytes(e.name) + t2;
    lemma_regroup(text_bytes(e.id), t1, x);
    lemma_regroup(text_bytes(e.name), t2, x);
    lemma_regroup(text_bytes(e.generic_name), t3, x);
    lemma_regroup(text_bytes(e.comment), text_bytes(e.icon), x);
}

proof fn lemma_lists_apart(e: EntryView, x: Seq<u8>)
    ensures
        entry_lists(e) + x == list_bytes(e.keywords) + (list_bytes(e.categories) + (text_bytes(
            e.startup_class,
        ) + (number_bytes(e.actions.len() as u64) + (joined_actions(e.actions) + (flag_bytes(
            e.launch_only,
        ) + x))))),
{
    let t4 = joined_actions(e.actions) + flag_bytes(e.launch_only);
    let t3 = number_bytes(e.actions.len() as u64) + t4;
    let t2 = text_bytes(e.startup_class) + t3;
    let t1 = list_bytes(e.categories) + t2;
    lemma_regroup(list_bytes(e.keywords), t1, x);
    lemma_regroup(list_bytes(e.categories), t2, x);
    lemma_regroup(text_bytes(e.startup_class), t3, x);
    lemma_regroup(number_bytes(e.actions.len() as u64), t4, x);
    lemma_regroup(joined_actions(e.actions), flag_bytes(e.launch_only), x);
}

proof fn lemma_entry_first(a: EntryView, x: Seq<u8>, b: EntryView, y: Seq<u8>)
    requires
        countable(a),
        countable(b),
        entry_bytes(a) + x == entry_bytes(b) + y,
    ensures
        a == b,
        x == y,
{
    let a5 = entry_lists(a) + x;
    let b5 = entry_lists(b) + y;
    let a4 = text_bytes(a.icon) + a5;
    let b4 = text_bytes(b.icon) + b5;
    let a3 = text_bytes(a.comment) + a4;
    let b3 = text_bytes(b.comment) + b4;
    let a2 = text_bytes(a.generic_name) + a3;
    let b2 = text_bytes(b.generic_name) + b3;
    let a1 = text_bytes(a.name) + a2;
    let b1 = text_bytes(b.name) + b2;
    lemma_regroup(entry_texts(a), entry_lists(a), x);
    lemma_regroup(entry_texts(b), entry_lists(b), y);
    lemma_texts_apart(a, a5);
    lemma_texts_apart(b, b5);
    lemma_text_first(a.id, a1, b.id, b1);
    lemma_text_first(a.name, a2, b.name, b2);
    lemma_text_first(a.generic_name, a3, b.generic_name, b3);
    lemma_text_first(a.comment, a4, b.comment, b4);
    lemma_text_first(a.icon, a5, b.icon, b5);
    lemma_lists_first(a, x, b, y);
}

proof fn lemma_lists_first(a: EntryView, x: Seq<u8>, b: EntryView, y: Seq<u8>)
    requires
        countable(a),
        countable(b),
        entry_lists(a) + x == entry_lists(b) + y,
    ensures
        a.keywords == b.keywords,
        a.categories == b.categories,
        a.startup_class == b.startup_class,
        a.actions == b.actions,
        a.launch_only == b.launch_only,
        x == y,
{
    let a5 = flag_bytes(a.launch_only) + x;
    let b5 = flag_bytes(b.launch_only) + y;
    let a4 = joined_actions(a.actions) + a5;
    let b4 = joined_actions(b.actions) + b5;
    let a3 = number_bytes(a.actions.len() as u64) + a4;
    let b3 = number_bytes(b.actions.len() as u64) + b4;
    let a2 = text_bytes(a.startup_class) + a3;
    let b2 = text_bytes(b.startup_class) + b3;
    let a1 = list_bytes(a.categories) + a2;
    let b1 = list_bytes(b.categories) + b2;
    lemma_lists_apart(a, x);
    lemma_lists_apart(b, y);
    lemma_list_first(a.keywords, a1, b.keywords, b1);
    lemma_list_first(a.categories, a2, b.categories, b2);
    lemma_text_first(a.startup_class, a3, b.startup_class, b3);
    lemma_number_first(a.actions.len() as u64, a4, b.actions.len() as u64, b4);
    lemma_joined_actions(a.actions, a5, b.actions, b5);
    lemma_flag_first(a.launch_only, x, b.launch_only, y);
}

/// Catalogs that differ in anything visible are written down differently, so a
/// revision follows every change of them.
pub proof fn lemma_catalog_bytes(a: Seq<EntryView>, b: Seq<EntryView>)
    requires
        forall|i: int| 0 <= i < a.len() ==> countable(#[trigger] a[i]),
        forall|i: int| 0 <= i < b.len() ==> countable(#[trigger] b[i]),
        catalog_bytes(a) == catalog_bytes(b),
    ensures
        a == b,
    decreases a.len(),
{
    if a.len() > 0 && b.len() > 0 {
        lemma_entry_first(a[0], catalog_bytes(a.skip(1)), b[0], catalog_bytes(b.skip(1)));
        assert forall|i: int| 0 <= i < a.skip(1).len() implies countable(
            #[trigger] a.skip(1)[i],
        ) by {
            assert(a.skip(1)[i] == a[i + 1]);
        }
        assert forall|i: int| 0 <= i < b.skip(1).len() implies countable(
            #[trigger] b.skip(1)[i],
        ) by {
            assert(b.skip(1)[i] == b[i + 1]);
        }
        lemma_catalog_bytes(a.skip(1), b.skip(1));
        assert(a =~= seq![a[0]] + a.skip(1));
        assert(b =~= seq![b[0]] + b.skip(1));
    } else {
        if a.len() > 0 {
            assert(catalog_bytes(a).len() > 0);
        }
        if b.len() > 0 {
            assert(catalog_bytes(b).len() > 0);
        }
        assert(a =~= b);
    }
}

fn write_actions(bytes: &mut Vec<u8>, actions: &Vec<DesktopActionSummary>)
    ensures
        final(bytes)@ == old(bytes)@ + joined_actions(action_views(actions@)),
{
    let ghost all = action_views(actions@);
    let ghost start = bytes@;
    assert(all.skip(0) =~= all);
    for i in 0..actions.len()
        invariant
            all == action_views(actions@),
            start + joined_actions(all) == bytes@ + joined_actions(all.skip(i as int)),
    {
        let ghost before = bytes@;
        let ghost left = all.skip(i as int);
        assert(left[0] == actions@[i as int]@);
        assert(left.skip(1) =~= all.skip(i + 1));
        write_text(bytes, actions[i].id.as_str());
        write_text(bytes, actions[i].name.as_str());
        write_text(bytes, actions[i].icon.as_str());
        assert(before + joined_actions(left) =~= bytes@ + joined_actions(all.skip(i + 1)));
    }
    assert(all.skip(actions@.len() as int).len() == 0);
    assert(bytes@ =~= start + joined_actions(all));
}

proof fn lemma_regroup_all(
    start: Seq<u8>,
    a: Seq<u8>,
    b: Seq<u8>,
    c: Seq<u8>,
    d: Seq<u8>,
    e: Seq<u8>,
)
    ensures
        start + a + b + c + d + e == start + (a + (b + (c + (d + e)))),
{
    lemma_regroup(start, a, b + (c + (d + e)));
    lemma_regroup(start + a, b, c + (d + e));
    lemma_regroup(start + a + b, c, d + e);
    lemma_regroup(start + a + b + c, d, e);
}

fn write_entry_texts(bytes: &mut Vec<u8>, entry: &CatalogEntry)
    ensures
        final(bytes)@ == old(bytes)@ + entry_texts(entry@),
{
    let ghost start = bytes@;
    write_text(bytes, entry.id.as_str());
    write_text(bytes, entry.name.as_str());
    write_text(bytes, entry.generic_name.as_str());
    write_text(bytes, entry.comment.as_str());
    write_text(bytes, entry.icon.as_str());
    proof {
        lemma_regroup_all(
            start,
            text_bytes(entry.id@),
            text_bytes(entry.name@),
            text_bytes(entry.generic_name@),
            text_bytes(entry.comment@),
            text_bytes(entry.icon@),
        );
    }
}

fn write_entry_lists(bytes: &mut Vec<u8>, entry: &CatalogEntry)
    ensures
        final(bytes)@ == old(bytes)@ + entry_lists(entry@),
{
    let ghost start = bytes@;
    write_list(bytes, &entry.keywords);
    write_list(bytes, &entry.categories);
    write_text(bytes, entry.startup_class.as_str());
    write_number(bytes, entry.actions.len() as u64);
    let ghost before = bytes@;
    write_actions(bytes, &entry.actions);
    write_flag(bytes, entry.launch_only);
    proof {
        let actions = joined_actions(entry@.actions);
        let flag = flag_bytes(entry.launch_only);
        assert(entry@.actions.len() == entry.actions@.len());
        lemma_regroup(before, actions, flag);
        lemma_regroup_all(
            start,
            list_bytes(texts(entry.keywords@)),
            list_bytes(texts(entry.categories@)),
            text_bytes(entry.startup_class@),
            number_bytes(entry.actions@.len() as u64),
            actions + flag,
        );
    }
}

fn write_entry(bytes: &mut Vec<u8>, entry: &CatalogEntry)
    ensures
        final(bytes)@ == old(bytes)@ + entry_bytes(entry@),
{
    let ghost start = bytes@;
    write_entry_texts(bytes, entry);
    write_entry_lists(bytes, entry);
    proof {
        lemma_regroup(start, entry_texts(entry@), entry_lists(entry@));
    }
}

fn catalog_revision(entries: &Vec<CatalogEntry>) -> (revision: u64)
    ensures
        revision == content_hash(catalog_bytes(views_of(entries@))),
{
    let ghost all = views_of(entries@);
    let mut bytes: Vec<u8> = Vec::new();
    assert(all.skip(0) =~= all);
    assert(bytes@ + catalog_bytes(all) =~= catalog_bytes(all));
    for i in 0..entries.len()
        invariant
            all == views_of(entries@),
            catalog_bytes(all) == bytes@ + catalog_bytes(all.skip(i as int)),
    {
        let ghost before = bytes@;
        let ghost left = all.skip(i as int);
        assert(left[0] == entries@[i as int]@);
        assert(left.skip(1) =~= all.skip(i + 1));
        write_entry(&mut bytes, &entries[i]);
        proof {
            lemma_regroup(before, entry_bytes(left[0]), catalog_bytes(left.skip(1)));
        }
    }
    assert(all.skip(entries@.len() as int).len() == 0);
    assert(bytes@ =~= catalog_bytes(all));
    hash_bytes(bytes.as_slice())
}

fn before(a: &CatalogEntry, b: &CatalogEntry) -> (yes: bool)
    ensures
        yes == in_order(a@, b@),
{
    let left = to_lowercase(a.name.as_str());
    let right = to_lowercase(b.name.as_str());
    if same_text(left.as_str(), right.as_str()) {
        string_le(a.id.as_str(), b.id.as_str())
    } else {
        string_le(left.as_str(), right.as_str())
    }
}

proof fn lemma_order(a: EntryView, b: EntryView, c: EntryView)
    ensures
        in_order(a, b) || in_order(b, a),
        in_order(a, b) && in_order(b, c) ==> in_order(a, c),
{
    let x = lowercase(a.name);
    let y = lowercase(b.name);
    let z = lowercase(c.name);
    lemma_text_le_total(x, y);
    lemma_text_le_total(y, z);
    lemma_text_le_total(x, z);
    lemma_text_le_total(a.id, b.id);
    if text_le(a.id, b.id) && text_le(b.id, c.id) {
        lemma_text_le_transitive(a.id, b.id, c.id);
    }
    if text_le(x, y) && text_le(y, z) {
        lemma_text_le_transitive(x, y, z);
    }
}

/// Puts an entry at its place among entries in order.
fn insert_entry(entries: &mut Vec<CatalogEntry>, entry: CatalogEntry) -> (place: usize)
    requires
        ordered(old(entries)@),
    ensures
        place <= old(entries)@.len(),
        final(entries)@ == old(entries)@.insert(place as int, entry),
        ordered(final(entries)@),
{
    let ghost all = entries@;
    let mut place: usize = 0;
    while place < entries.len() && before(&entries[place], &entry)
        invariant
            entries@ == all,
            place <= all.len(),
            forall|k: int| 0 <= k < place ==> in_order((#[trigger] all[k])@, entry@),
        decreases all.len() - place,
    {
        place = place + 1;
    }
    proof {
        assert forall|k: int| place <= k < all.len() implies in_order(
            entry@,
            (#[trigger] all[k])@,
        ) by {
            lemma_order(all[place as int]@, entry@, entry@);
            if k > place {
                assert(in_order(all[place as int]@, all[k]@));
                lemma_order(entry@, all[place as int]@, all[k]@);
            }
        }
    }
    entries.insert(place, entry);
    proof {
        let now = entries@;
        assert forall|k: int, m: int| 0 <= k < m < now.len() implies in_order(
            (#[trigger] now[k])@,
            (#[trigger] now[m])@,
        ) by {
            let x = if k < place { k } else { k - 1 };
            let y = if m < place { m } else { m - 1 };
            if k == place {
                assert(now[m] == all[y]);
            } else if m == place {
                assert(now[k] == all[x]);
            } else {
                assert(now[k] == all[x] && now[m] == all[y]);
            }
        }
    }
    place
}

/// The values of `TryExec` in the files: the commands to look for before the
/// catalog is made.
pub fn probed_commands(files: &Vec<DesktopFile>, locales: &Vec<String>) -> (commands: Vec<String>)
    ensures
        forall|command: Seq<char>| #[trigger]
            texts(commands@).contains(command) == exists|i: int|
                0 <= i < files@.len() && file_groups(#[trigger] files@[i], texts(locales@)) is Some
                    && main_value(
                    file_groups(files@[i], texts(locales@))->0,
                    "TryExec"@,
                ) == Some(command),
{
    let ghost all = files@;
    let ghost l = texts(locales@);
    let mut commands: Vec<String> = Vec::new();
    for n in 0..files.len()
        invariant
            all == files@,
            l == texts(locales@),
            forall|command: Seq<char>| #[trigger]
                texts(commands@).contains(command) == exists|i: int|
                    0 <= i < n && file_groups(#[trigger] all[i], l) is Some && main_value(
                        file_groups(all[i], l)->0,
                        "TryExec"@,
                    ) == Some(command),
    {
        let ghost earlier = texts(commands@);
        let ghost mut added: Option<Seq<char>> = None;
        if let Some(text) = &files[n].text {
            if let Some(entry) = decode_entry(files[n].path.as_str(), text.as_str(), locales) {
                if let Some(command) = entry_value(&entry, "TryExec") {
                    proof {
                        added = Some(command@);
                    }
                    commands.push(command);
                    assert(texts(commands@) =~= earlier.push(command@));
                }
            }
        }
        proof {
            let here = file_groups(all[n as int], l);
            assert(added == if here is Some {
                main_value(here->0, "TryExec"@)
            } else {
                None
            });
            assert forall|command: Seq<char>| #[trigger] texts(commands@).contains(command)
                == exists|i: int|
                0 <= i < n + 1 && file_groups(#[trigger] all[i], l) is Some && main_value(
                    file_groups(all[i], l)->0,
                    "TryExec"@,
                ) == Some(command) by {
                assert(texts(commands@).contains(command) == (earlier.contains(command) || added
                    == Some(command))) by {
                    if added is Some {
                        assert(texts(commands@)[earlier.len() as int] == added->0);
                        if earlier.contains(command) {
                            let k = choose|k: int| 0 <= k < earlier.len() && earlier[k] == command;
                            assert(texts(commands@)[k] == command);
                        }
                    } else {
                        assert(texts(commands@) =~= earlier);
                    }
                }
                if earlier.contains(command) {
                    let i = choose|i: int|
                        0 <= i < n && file_groups(#[trigger] all[i], l) is Some && main_value(
                            file_groups(all[i], l)->0,
                            "TryExec"@,
                        ) == Some(command);
                    assert(file_groups(all[i], l) is Some);
                }
                if added == Some(command) {
                    assert(file_groups(all[n as int], l) is Some);
                }
            }
        }
    }
    commands
}

impl Catalog {
    /// Each application is listed once.
    pub open spec fn wf(&self) -> bool {
        distinct_ids(views_of(self.entries@))
    }

    pub fn empty() -> (catalog: Self)
        ensures
            catalog.wf(),
            catalog.revision == 0,
            catalog.entries@.len() == 0,
    {
        Catalog { revision: 0, entries: Vec::new() }
    }

    /// The catalog of the files in the application directories. `available` are
    /// the commands that were found, `desktops` the user's desktops.
    pub fn from_files(
        files: &Vec<DesktopFile>,
        locales: &Vec<String>,
        desktops: &Vec<String>,
        available: &Vec<String>,
    ) -> (catalog: Self)
        ensures
            catalog.wf(),
            is_catalog(
                catalog.entries@,
                files@,
                texts(locales@),
                texts(desktops@),
                texts(available@),
            ),
            catalog.revision == content_hash(catalog_bytes(views_of(catalog.entries@))),
    {
        let ghost all = files@;
        let ghost l = texts(locales@);
        let ghost d = texts(desktops@);
        let ghost v = texts(available@);
        let mut entries: Vec<CatalogEntry> = Vec::new();
        for n in 0..files.len()
            invariant
                all == files@,
                l == texts(locales@),
                d == texts(desktops@),
                v == texts(available@),
                is_catalog_of(entries@, all, n as int, l, d, v),
        {
            let ghost earlier = entries@;
            let mut first = true;
            for j in 0..n
                invariant
                    n < files@.len(),
                    all == files@,
                    first == forall|k: int|
                        0 <= k < j ==> (#[trigger] all[k]).id@ != all[n as int].id@,
            {
                if files[j].id == files[n].id {
                    first = false;
                    assert(all[j as int].id@ == all[n as int].id@);
                }
            }
            assert(first == is_first(all, n as int));
            let found = if first {
                catalog_entry(&files[n], locales, desktops, available)
            } else {
                None
            };
            if let Some(entry) = found {
                let place = insert_entry(&mut entries, entry);
                proof {
                    reveal(is_entry_of);
                    lemma_file_added(earlier, entry, place as int, all, n as int, l, d, v);
                }
            } else {
                proof {
                    lemma_file_left_out(earlier, all, n as int, l, d, v);
                }
            }
        }
        proof {
            let views = views_of(entries@);
            assert forall|i: int, j: int| 0 <= i < j < views.len() implies (#[trigger] views[i]).id
                != (#[trigger] views[j]).id by {
                assert(entries@[i]@.id != entries@[j]@.id);
            }
        }
        let revision = catalog_revision(&entries);
        Catalog { revision, entries }
    }

    pub fn by_id(&self, id: &str) -> (entry: Option<&CatalogEntry>)
        ensures
            match entry {
                Some(e) => exists|i: int|
                    0 <= i < self.entries@.len() && *e == #[trigger] self.entries@[i] && e.id@
                        == id@ && forall|j: int|
                        0 <= j < i ==> (#[trigger] self.entries@[j]).id@ != id@,
                None => forall|i: int|
                    0 <= i < self.entries@.len() ==> (#[trigger] self.entries@[i]).id@ != id@,
            },
    {
        for i in 0..self.entries.len()
            invariant
                forall|j: int| 0 <= j < i ==> (#[trigger] self.entries@[j]).id@ != id@,
        {
            if same_text(self.entries[i].id.as_str(), id) {
                return Some(&self.entries[i]);
            }
        }
        None
    }
}

/// The user's desktops, in lower case, as `XDG_CURRENT_DESKTOP` lists them.
pub open spec fn desktops_in(value: Seq<char>) -> Seq<Seq<char>> {
    filled(split_on(value, ':')).map_values(|name: Seq<char>| ascii_lowercase(name))
}

pub fn current_desktops(value: Option<&str>) -> (desktops: Vec<String>)
    ensures
        texts(desktops@) == (match value {
            Some(v) => desktops_in(v@),
            None => Seq::empty(),
        }),
{
    let mut desktops: Vec<String> = Vec::new();
    match value {
        None => {
            assert(texts(desktops@) =~= Seq::empty());
        },
        Some(value) => {
            let chars = chars_of(value);
            let parts = split_chars(chars.as_slice(), ':');
            let ghost all = pieces(parts@);
            let ghost f = |name: Seq<char>| ascii_lowercase(name);
            assert(texts(desktops@) =~= filled(all.take(0)).map_values(f));
            for i in 0..parts.len()
                invariant
                    all == pieces(parts@),
                    f == (|name: Seq<char>| ascii_lowercase(name)),
                    texts(desktops@) == filled(all.take(i as int)).map_values(f),
            {
                let ghost earlier = texts(desktops@);
                assert(all.take(i + 1).drop_last() =~= all.take(i as int));
                assert(all.take(i + 1).last() == parts@[i as int]@);
                if parts[i].len() > 0 {
                    let lower = lower_chars(parts[i].as_slice());
                    desktops.push(string_of(lower.as_slice()));
                    assert(texts(desktops@) =~= earlier.push(f(parts@[i as int]@)));
                    assert(filled(all.take(i + 1)).map_values(f) =~= earlier.push(
                        f(parts@[i as int]@),
                    ));
                }
            }
            assert(all.take(all.len() as int) =~= all);
        },
    }
    desktops
}

/// The file's name ends in `.desktop`, with something before it.
pub open spec fn is_desktop_path(path: Seq<char>) -> bool {
    let name = file_name(split_on(path, '/'));
    name.len() > ".desktop"@.len() && ends_with(name, ".desktop"@)
}

pub fn is_desktop_file(path: &str) -> (yes: bool)
    ensures
        yes == is_desktop_path(path@),
{
    let path = chars_of(path);
    let name = path_file_name(path.as_slice());
    let suffix = chars_of(".desktop");
    name.len() > suffix.len() && finishes_with(name.as_slice(), suffix.as_slice())
}

/// A path below a directory as an application id: its parts joined by hyphens.
pub open spec fn hyphenated(path: Seq<char>) -> Seq<char> {
    path.map_values(
        |c: char|
            if c == '/' {
                '-'
            } else {
                c
            },
    )
}

/// The path without the directory that it lies in.
pub open spec fn below(root: Seq<char>, path: Seq<char>) -> Option<Seq<char>> {
    if path == root {
        Some(""@)
    } else if root.len() > 0 && root.last() == '/' && starts_with(path, root) {
        Some(path.skip(root.len() as int))
    } else if starts_with(path, root + "/"@) {
        Some(path.skip(root.len() as int + 1))
    } else {
        None
    }
}

/// The application id of a file in an application directory.
pub fn desktop_id(root: &str, path: &str) -> (id: Option<String>)
    ensures
        match id {
            Some(i) => below(root@, path@) is Some && i@ == hyphenated(below(root@, path@)->0),
            None => below(root@, path@) is None,
        },
{
    proof {
        reveal_strlit("/");
        reveal_strlit("");
    }
    let mut prefix = chars_of(root);
    let chars = chars_of(path);
    let length = prefix.len();
    let total = chars.len();
    let from: usize = if same_chars(chars.as_slice(), prefix.as_slice()) {
        assert(path@.skip(total as int) =~= ""@);
        total
    } else if length > 0 && prefix[length - 1] == '/' && begins_with(
        chars.as_slice(),
        prefix.as_slice(),
    ) {
        length
    } else {
        prefix.push('/');
        assert(prefix@ =~= root@ + "/"@);
        if begins_with(chars.as_slice(), prefix.as_slice()) {
            length + 1
        } else {
            return None;
        }
    };
    let ghost rest = path@.skip(from as int);
    assert(below(root@, path@) == Some(rest));
    let mut id: Vec<char> = Vec::new();
    assert(id@ =~= hyphenated(rest).take(0));
    for i in from..total
        invariant
            chars@ == path@,
            total == chars@.len(),
            from <= total,
            rest == path@.skip(from as int),
            id@ == hyphenated(rest).take(i - from),
    {
        let c = chars[i];
        let ghost k = i - from;
        assert(rest[k] == c);
        id.push(
            if c == '/' {
                '-'
            } else {
                c
            },
        );
        assert(id@ =~= hyphenated(rest).take(k + 1));
    }
    assert(hyphenated(rest).take(rest.len() as int) =~= hyphenated(rest));
    Some(string_of(id.as_slice()))
}

} // verus!
