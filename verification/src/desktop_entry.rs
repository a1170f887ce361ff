//! Desktop entries, read by the freedesktop-desktop-entry crate.

use vstd::prelude::*;
use freedesktop_desktop_entry::DesktopEntry;
use crate::text::{first_index, texts};

verus! {

/// The crate's desktop entry.
#[verifier::external_type_specification]
#[verifier::external_body]
pub struct ExDesktopEntry(DesktopEntry);

/// What a desktop entry holds: groups of keys, each key with its plain value and
/// its values by locale.
pub uninterp spec fn entry_groups(entry: DesktopEntry) -> Map<
    Seq<char>,
    Map<Seq<char>, (Seq<char>, Map<Seq<char>, Seq<char>>)>,
>;

/// The path of the file that a desktop entry was read from.
pub uninterp spec fn entry_path(entry: DesktopEntry) -> Seq<char>;

/// The groups that a desktop file's text holds, with the values for the given
/// locales; `None` for a text that is no desktop file.
pub uninterp spec fn decoded_groups(
    path: Seq<char>,
    text: Seq<char>,
    locales: Seq<Seq<char>>,
) -> Option<Map<Seq<char>, Map<Seq<char>, (Seq<char>, Map<Seq<char>, Seq<char>>)>>>;

/// The arguments that an `Exec` value stands for, or what is wrong with it.
pub uninterp spec fn exec_arguments(
    groups: Map<Seq<char>, Map<Seq<char>, (Seq<char>, Map<Seq<char>, Seq<char>>)>>,
    path: Seq<char>,
    exec: Option<Seq<char>>,
) -> Result<Seq<Seq<char>>, Seq<char>>;

/// The plain value of a key in a group.
pub open spec fn plain_value(
    groups: Map<Seq<char>, Map<Seq<char>, (Seq<char>, Map<Seq<char>, Seq<char>>)>>,
    group: Seq<char>,
    key: Seq<char>,
) -> Option<Seq<char>> {
    if groups.contains_key(group) && groups[group].contains_key(key) {
        Some(groups[group][key].0)
    } else {
        None
    }
}

/// The value for the first locale that has one, itself or by its language alone;
/// else the plain value.
pub open spec fn localized(
    plain: Seq<char>,
    values: Map<Seq<char>, Seq<char>>,
    locales: Seq<Seq<char>>,
) -> Seq<char>
    decreases locales.len(),
{
    if locales.len() == 0 {
        plain
    } else {
        let locale = locales[0];
        let language = locale.take(first_index(locale, '_') as int);
        if values.contains_key(locale) {
            values[locale]
        } else if first_index(locale, '_') < locale.len() && values.contains_key(language) {
            values[language]
        } else {
            localized(plain, values, locales.skip(1))
        }
    }
}

/// The value of a key in a group for a user's locales.
pub open spec fn localized_value(
    groups: Map<Seq<char>, Map<Seq<char>, (Seq<char>, Map<Seq<char>, Seq<char>>)>>,
    group: Seq<char>,
    key: Seq<char>,
    locales: Seq<Seq<char>>,
) -> Option<Seq<char>> {
    if groups.contains_key(group) && groups[group].contains_key(key) {
        Some(localized(groups[group][key].0, groups[group][key].1, locales))
    } else {
        None
    }
}

/// The group of an additional action.
pub open spec fn action_group(action: Seq<char>) -> Seq<char> {
    "Desktop Action "@ + action
}

/// `DesktopEntry::from_str` with a filter on locales. Whether it succeeds and
/// what the entry holds is a function of the path, the text and the locales; the
/// entry keeps the path.
#[verifier::external_body]
pub(crate) fn decode_entry(path: &str, text: &str, locales: &Vec<String>) -> (entry: Option<
    DesktopEntry,
>)
    ensures
        match entry {
            Some(e) => decoded_groups(path@, text@, texts(locales@)) == Some(entry_groups(e))
                && entry_path(e) == path@,
            None => decoded_groups(path@, text@, texts(locales@)) is None,
        },
{
    DesktopEntry::from_str(path, text, Some(locales.as_slice())).ok()
}

/// `DesktopEntry::desktop_entry`: the plain value of a key in the main group.
#[verifier::external_body]
pub(crate) fn entry_value(entry: &DesktopEntry, key: &str) -> (value: Option<String>)
    ensures
        match value {
            Some(v) => plain_value(entry_groups(*entry), "Desktop Entry"@, key@) == Some(v@),
            None => plain_value(entry_groups(*entry), "Desktop Entry"@, key@) is None,
        },
{
    entry.desktop_entry(key).map(str::to_owned)
}

/// `DesktopEntry::desktop_entry_localized`: the value of a key in the main group
/// for the given locales.
#[verifier::external_body]
pub(crate) fn entry_localized(entry: &DesktopEntry, key: &str, locales: &Vec<String>) -> (value:
    Option<String>)
    ensures
        match value {
            Some(v) => localized_value(
                entry_groups(*entry),
                "Desktop Entry"@,
                key@,
                texts(locales@),
            ) == Some(v@),
            None => localized_value(
                entry_groups(*entry),
                "Desktop Entry"@,
                key@,
                texts(locales@),
            ) is None,
        },
{
    entry.desktop_entry_localized(key, locales.as_slice()).map(|value| value.into_owned())
}

/// `DesktopEntry::action_entry`: the plain value of a key in an action's group.
#[verifier::external_body]
pub(crate) fn action_value(entry: &DesktopEntry, action: &str, key: &str) -> (value: Option<String>)
    ensures
        match value {
            Some(v) => plain_value(entry_groups(*entry), action_group(action@), key@) == Some(v@),
            None => plain_value(entry_groups(*entry), action_group(action@), key@) is None,
        },
{
    entry.action_entry(action, key).map(str::to_owned)
}

/// `DesktopEntry::action_entry_localized`: the value of a key in an action's
/// group for the given locales.
#[verifier::external_body]
pub(crate) fn action_localized(
    entry: &DesktopEntry,
    action: &str,
    key: &str,
    locales: &Vec<String>,
) -> (value: Option<String>)
    ensures
        match value {
            Some(v) => localized_value(
                entry_groups(*entry),
                action_group(action@),
                key@,
                texts(locales@),
            ) == Some(v@),
            None => localized_value(
                entry_groups(*entry),
                action_group(action@),
                key@,
                texts(locales@),
            ) is None,
        },
{
    entry.action_entry_localized(action, key, locales.as_slice()).map(|value| value.into_owned())
}

/// `DesktopEntry::parse_exec`: the arguments of the main group's `Exec` value. An
/// error is what the crate displays for it.
#[verifier::external_body]
pub(crate) fn entry_command(entry: &DesktopEntry) -> (command: Result<Vec<String>, String>)
    ensures
        match command {
            Ok(list) => exec_arguments(
                entry_groups(*entry),
                entry_path(*entry),
                plain_value(entry_groups(*entry), "Desktop Entry"@, "Exec"@),
            ) == Ok::<Seq<Seq<char>>, Seq<char>>(texts(list@)),
            Err(e) => exec_arguments(
                entry_groups(*entry),
                entry_path(*entry),
                plain_value(entry_groups(*entry), "Desktop Entry"@, "Exec"@),
            ) == Err::<Seq<Seq<char>>, Seq<char>>(e@),
        },
{
    entry.parse_exec().map_err(|error| error.to_string())
}

/// `DesktopEntry::parse_exec_action`: the arguments of an action's `Exec` value.
/// An error is what the crate displays for it.
#[verifier::external_body]
pub(crate) fn action_command(entry: &DesktopEntry, action: &str) -> (command: Result<
    Vec<String>,
    String,
>)
    ensures
        match command {
            Ok(list) => exec_arguments(
                entry_groups(*entry),
                entry_path(*entry),
                plain_value(entry_groups(*entry), action_group(action@), "Exec"@),
            ) == Ok::<Seq<Seq<char>>, Seq<char>>(texts(list@)),
            Err(e) => exec_arguments(
                entry_groups(*entry),
                entry_path(*entry),
                plain_value(entry_groups(*entry), action_group(action@), "Exec"@),
            ) == Err::<Seq<Seq<char>>, Seq<char>>(e@),
        },
{
    entry.parse_exec_action(action).map_err(|error| error.to_string())
}

} // verus!
