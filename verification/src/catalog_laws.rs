//! Which applications the catalog lists and what it says of them.

use vstd::prelude::*;
use crate::catalog::{
    below, desktops_in, entry_of, filled, has_action, has_entry_of, hyphenated, in_order,
    is_catalog, is_desktop_path, is_entry_of, is_listed, keeps_file, kind_of, stands_for,
    CatalogEntry, DesktopFile,
};
use crate::desktop_entry::{action_group, localized};
use crate::lowercase::lowercase;
use crate::splitting_laws::{is_free_of, lemma_first_index_is, lemma_together_split, together};
use crate::text::{ascii_lowercase, split_on, text_le};
use crate::text_laws::{lemma_same_letters, same_letters};

verus! {

/// The value of a key in a group of a desktop entry, and its values by locale.
pub type Values = Map<Seq<char>, (Seq<char>, Map<Seq<char>, Seq<char>>)>;

/// The file says this of the application itself.
pub open spec fn says(
    groups: Map<Seq<char>, Values>,
    key: Seq<char>,
    value: Seq<char>,
) -> bool {
    groups.contains_key("Desktop Entry"@) && groups["Desktop Entry"@].contains_key(key)
        && groups["Desktop Entry"@][key].0 == value
}

/// The file says nothing of this kind of the application itself.
pub open spec fn is_silent(groups: Map<Seq<char>, Values>, key: Seq<char>) -> bool {
    !groups.contains_key("Desktop Entry"@) || !groups["Desktop Entry"@].contains_key(key)
}

/// What the file says does not depend on the user's language.
pub open spec fn is_plain(groups: Map<Seq<char>, Values>, key: Seq<char>) -> bool {
    groups["Desktop Entry"@][key].1 == Map::<Seq<char>, Seq<char>>::empty()
}

/// One of the parts is one of the names, whatever the case of their letters.
pub open spec fn shares_name(parts: Seq<Seq<char>>, names: Seq<Seq<char>>) -> bool {
    exists|i: int, j: int|
        0 <= i < parts.len() && 0 <= j < names.len() && parts[i].len() > 0 && #[trigger] same_letters(
            parts[i],
            names[j],
        )
}

// ---------------------------------------------------------------------
// Values

/// A value without any for the user's languages is the plain one.
pub proof fn lemma_plain(
    plain: Seq<char>,
    values: Map<Seq<char>, Seq<char>>,
    locales: Seq<Seq<char>>,
)
    requires
        values == Map::<Seq<char>, Seq<char>>::empty(),
    ensures
        localized(plain, values, locales) == plain,
    decreases locales.len(),
{
    if locales.len() > 0 {
        lemma_plain(plain, values, locales.skip(1));
    }
}

/// The user's first language decides where there is a value for it: one for the
/// language and country before one for the language alone.
pub proof fn lemma_first_language(
    plain: Seq<char>,
    values: Map<Seq<char>, Seq<char>>,
    language: Seq<char>,
    country: Seq<char>,
    others: Seq<Seq<char>>,
)
    requires
        is_free_of(language, '_'),
    ensures
        ({
            let full = language + seq!['_'] + country;
            let locales = seq![full] + others;
            &&& values.contains_key(full) ==> localized(plain, values, locales) == values[full]
            &&& !values.contains_key(full) && values.contains_key(language) ==> localized(
                plain,
                values,
                locales,
            ) == values[language]
            &&& !values.contains_key(full) && !values.contains_key(language) ==> localized(
                plain,
                values,
                locales,
            ) == localized(plain, values, others)
        }),
        values.contains_key(language) ==> localized(plain, values, seq![language] + others)
            == values[language],
        !values.contains_key(language) ==> localized(plain, values, seq![language] + others)
            == localized(plain, values, others),
{
    let full = language + seq!['_'] + country;
    lemma_first_index_is(language, '_', country);
    assert(full.take(language.len() as int) =~= language);
    assert((seq![full] + others).skip(1) =~= others);
    assert((seq![language] + others).skip(1) =~= others);
}

/// A list is its parts that are not empty, in their order.
pub proof fn lemma_filled(list: Seq<Seq<char>>)
    ensures
        filled(list) == list.filter(|part: Seq<char>| part.len() > 0),
    decreases list.len(),
{
    reveal(Seq::filter);
    if list.len() > 0 {
        lemma_filled(list.drop_last());
    }
}

// ---------------------------------------------------------------------
// Which files are listed

proof fn lemma_shared(list: Seq<Seq<char>>, desktops: Seq<Seq<char>>)
    ensures
        crate::catalog::lists_desktop(list, desktops) == shares_name(list, desktops),
{
    if crate::catalog::lists_desktop(list, desktops) {
        let (i, j) = choose|i: int, j: int|
            0 <= i < list.len() && 0 <= j < desktops.len() && (#[trigger] list[i]).len() > 0
                && ascii_lowercase(list[i]) == ascii_lowercase(#[trigger] desktops[j]);
        lemma_same_letters(list[i], desktops[j]);
        assert(same_letters(list[i], desktops[j]));
    }
    if shares_name(list, desktops) {
        let (i, j) = choose|i: int, j: int|
            0 <= i < list.len() && 0 <= j < desktops.len() && list[i].len() > 0
                && #[trigger] same_letters(list[i], desktops[j]);
        lemma_same_letters(list[i], desktops[j]);
        assert(list[i].len() > 0 && ascii_lowercase(list[i]) == ascii_lowercase(desktops[j]));
    }
}

/// An application with a name and a command is listed where nothing speaks against
/// it.
pub proof fn lemma_listed(
    groups: Map<Seq<char>, Values>,
    locales: Seq<Seq<char>>,
    desktops: Seq<Seq<char>>,
    available: Seq<Seq<char>>,
    name: Seq<char>,
    exec: Seq<char>,
)
    requires
        says(groups, "Type"@, "Application"@),
        says(groups, "Name"@, name),
        is_plain(groups, "Name"@),
        name.len() > 0,
        says(groups, "Exec"@, exec),
        exec.len() > 0,
        is_silent(groups, "Hidden"@) || says(groups, "Hidden"@, "false"@),
        is_silent(groups, "NoDisplay"@) || says(groups, "NoDisplay"@, "false"@),
        is_silent(groups, "TryExec"@) || available.contains(
            groups["Desktop Entry"@]["TryExec"@].0,
        ),
        is_silent(groups, "OnlyShowIn"@) || shares_name(
            split_on(groups["Desktop Entry"@]["OnlyShowIn"@].0, ';'),
            desktops,
        ),
        is_silent(groups, "NotShowIn"@) || !shares_name(
            split_on(groups["Desktop Entry"@]["NotShowIn"@].0, ';'),
            desktops,
        ),
    ensures
        is_listed(Some(groups), locales, desktops, available),
{
    reveal_strlit("true");
    reveal_strlit("false");
    assert("true"@[0] != "false"@[0]);
    lemma_plain(name, groups["Desktop Entry"@]["Name"@].1, locales);
    lemma_shared(split_on(groups["Desktop Entry"@]["OnlyShowIn"@].0, ';'), desktops);
    lemma_shared(split_on(groups["Desktop Entry"@]["NotShowIn"@].0, ';'), desktops);
}

/// Each of these speaks against an application: it is of another type, it is hidden,
/// it is not to be displayed, it has no name or no command, its command is missing,
/// or it is for other desktops.
pub proof fn lemma_not_listed(
    groups: Map<Seq<char>, Values>,
    locales: Seq<Seq<char>>,
    desktops: Seq<Seq<char>>,
    available: Seq<Seq<char>>,
)
    requires
        ({
            ||| !says(groups, "Type"@, "Application"@)
            ||| says(groups, "Hidden"@, "true"@)
            ||| says(groups, "NoDisplay"@, "true"@)
            ||| is_silent(groups, "Name"@)
            ||| is_silent(groups, "Exec"@)
            ||| says(groups, "Exec"@, ""@)
            ||| says(groups, "Name"@, ""@) && is_plain(groups, "Name"@)
            ||| !is_silent(groups, "TryExec"@) && !available.contains(
                groups["Desktop Entry"@]["TryExec"@].0,
            )
            ||| !is_silent(groups, "OnlyShowIn"@) && !shares_name(
                split_on(groups["Desktop Entry"@]["OnlyShowIn"@].0, ';'),
                desktops,
            )
            ||| !is_silent(groups, "NotShowIn"@) && shares_name(
                split_on(groups["Desktop Entry"@]["NotShowIn"@].0, ';'),
                desktops,
            )
        }),
    ensures
        !is_listed(Some(groups), locales, desktops, available),
{
    reveal_strlit("");
    if says(groups, "Name"@, ""@) && is_plain(groups, "Name"@) {
        lemma_plain(""@, groups["Desktop Entry"@]["Name"@].1, locales);
    }
    lemma_shared(split_on(groups["Desktop Entry"@]["OnlyShowIn"@].0, ';'), desktops);
    lemma_shared(split_on(groups["Desktop Entry"@]["NotShowIn"@].0, ';'), desktops);
}

/// What cannot be read is not listed.
pub proof fn lemma_unreadable(
    locales: Seq<Seq<char>>,
    desktops: Seq<Seq<char>>,
    available: Seq<Seq<char>>,
)
    ensures
        !is_listed(None, locales, desktops, available),
{
}

/// A file hides every later one of its id, even one that is not listed itself.
pub proof fn lemma_hidden_by_earlier(
    files: Seq<DesktopFile>,
    i: int,
    j: int,
    locales: Seq<Seq<char>>,
    desktops: Seq<Seq<char>>,
    available: Seq<Seq<char>>,
)
    requires
        0 <= i < j < files.len(),
        files[i].id@ == files[j].id@,
    ensures
        !keeps_file(files, j, locales, desktops, available),
{
}

/// Every application in the catalog is that of a file, the first of its id; every file
/// whose id comes first and that is listed has its application there.
pub proof fn lemma_catalog_members(
    entries: Seq<CatalogEntry>,
    files: Seq<DesktopFile>,
    locales: Seq<Seq<char>>,
    desktops: Seq<Seq<char>>,
    available: Seq<Seq<char>>,
    i: int,
    k: int,
)
    requires
        is_catalog(entries, files, locales, desktops, available),
        0 <= i < files.len(),
        0 <= k < entries.len(),
    ensures
        exists|f: int|
            0 <= f < files.len() && (#[trigger] files[f]).id@ == entries[k]@.id && (forall|g: int|
                0 <= g < f ==> (#[trigger] files[g]).id@ != entries[k]@.id) && files[f].text is Some
                && ({
                let groups = crate::desktop_entry::decoded_groups(
                    files[f].path@,
                    files[f].text->0@,
                    locales,
                );
                groups is Some && is_listed(groups, locales, desktops, available) && entries[k]@
                    == entry_of(groups->0, files[f].id@, locales)
            }),
        (forall|g: int| 0 <= g < i ==> (#[trigger] files[g]).id@ != files[i].id@)
            && files[i].text is Some && is_listed(
            crate::desktop_entry::decoded_groups(files[i].path@, files[i].text->0@, locales),
            locales,
            desktops,
            available,
        ) ==> exists|e: int|
            0 <= e < entries.len() && (#[trigger] entries[e])@.id == files[i].id@,
{
    reveal(is_entry_of);
    assert(stands_for(entries[k], files, files.len() as int, locales, desktops, available));
    let f = choose|f: int|
        0 <= f < files.len() && #[trigger] keeps_file(files, f, locales, desktops, available)
            && is_entry_of(entries[k], files[f], locales);
    assert(files[f].id@ == entries[k]@.id);
    if keeps_file(files, i, locales, desktops, available) {
        assert(has_entry_of(entries, files[i], locales));
        let e = choose|e: int|
            0 <= e < entries.len() && is_entry_of(#[trigger] entries[e], files[i], locales);
        assert(entries[e]@.id == files[i].id@);
    }
}

/// The catalog is in the order of the names, whatever their case, and of the ids
/// where the names are the same; no id stands in it twice.
pub proof fn lemma_catalog_order(
    entries: Seq<CatalogEntry>,
    files: Seq<DesktopFile>,
    locales: Seq<Seq<char>>,
    desktops: Seq<Seq<char>>,
    available: Seq<Seq<char>>,
    k: int,
    m: int,
)
    requires
        is_catalog(entries, files, locales, desktops, available),
        0 <= k < m < entries.len(),
    ensures
        entries[k]@.id != entries[m]@.id,
        text_le(lowercase(entries[k]@.name), lowercase(entries[m]@.name)),
        lowercase(entries[k]@.name) == lowercase(entries[m]@.name) ==> text_le(
            entries[k]@.id,
            entries[m]@.id,
        ),
{
    assert(in_order(entries[k]@, entries[m]@));
    crate::text::lemma_text_le_total(
        lowercase(entries[k]@.name),
        lowercase(entries[m]@.name),
    );
}

// ---------------------------------------------------------------------
// What is said of an application

/// The catalog repeats what the file says.
pub proof fn lemma_entry_texts(
    groups: Map<Seq<char>, Values>,
    id: Seq<char>,
    locales: Seq<Seq<char>>,
    value: Seq<char>,
)
    ensures
        ({
            let entry = entry_of(groups, id, locales);
            &&& entry.id == id
            &&& says(groups, "Name"@, value) && is_plain(groups, "Name"@) ==> entry.name == value
            &&& says(groups, "GenericName"@, value) && is_plain(groups, "GenericName"@)
                ==> entry.generic_name == value
            &&& says(groups, "Comment"@, value) && is_plain(groups, "Comment"@) ==> entry.comment
                == value
            &&& says(groups, "Icon"@, value) ==> entry.icon == value
            &&& says(groups, "StartupWMClass"@, value) ==> entry.startup_class == value
            &&& entry.launch_only == says(groups, "X-Shelllist-LaunchOnly"@, "true"@)
        }),
{
    let texts = groups["Desktop Entry"@];
    if says(groups, "Name"@, value) && is_plain(groups, "Name"@) {
        lemma_plain(value, texts["Name"@].1, locales);
    }
    if says(groups, "GenericName"@, value) && is_plain(groups, "GenericName"@) {
        lemma_plain(value, texts["GenericName"@].1, locales);
    }
    if says(groups, "Comment"@, value) && is_plain(groups, "Comment"@) {
        lemma_plain(value, texts["Comment"@].1, locales);
    }
}

/// Where the file says nothing, nor does the catalog.
pub proof fn lemma_entry_silence(
    groups: Map<Seq<char>, Values>,
    id: Seq<char>,
    locales: Seq<Seq<char>>,
)
    ensures
        ({
            let entry = entry_of(groups, id, locales);
            &&& is_silent(groups, "GenericName"@) ==> entry.generic_name.len() == 0
            &&& is_silent(groups, "Comment"@) ==> entry.comment.len() == 0
            &&& is_silent(groups, "Icon"@) ==> entry.icon.len() == 0
            &&& is_silent(groups, "StartupWMClass"@) ==> entry.startup_class.len() == 0
            &&& is_silent(groups, "Keywords"@) ==> entry.keywords.len() == 0
            &&& is_silent(groups, "Categories"@) ==> entry.categories.len() == 0
            &&& is_silent(groups, "Actions"@) ==> entry.actions.len() == 0
        }),
{
    reveal_strlit("");
}

/// What the file says for the user's language goes before what it says plainly.
pub proof fn lemma_entry_language(
    groups: Map<Seq<char>, Values>,
    id: Seq<char>,
    language: Seq<char>,
    others: Seq<Seq<char>>,
)
    requires
        is_free_of(language, '_'),
        groups.contains_key("Desktop Entry"@),
    ensures
        ({
            let entry = entry_of(groups, id, seq![language] + others);
            let texts = groups["Desktop Entry"@];
            &&& texts.contains_key("Name"@) && texts["Name"@].1.contains_key(language) ==> entry.name
                == texts["Name"@].1[language]
            &&& texts.contains_key("GenericName"@) && texts["GenericName"@].1.contains_key(language)
                ==> entry.generic_name == texts["GenericName"@].1[language]
            &&& texts.contains_key("Comment"@) && texts["Comment"@].1.contains_key(language)
                ==> entry.comment == texts["Comment"@].1[language]
            &&& texts.contains_key("Keywords"@) && texts["Keywords"@].1.contains_key(language)
                ==> entry.keywords == filled(split_on(texts["Keywords"@].1[language], ';'))
        }),
{
    let texts = groups["Desktop Entry"@];
    let none = Seq::<char>::empty();
    lemma_first_language(texts["Name"@].0, texts["Name"@].1, language, none, others);
    lemma_first_language(texts["GenericName"@].0, texts["GenericName"@].1, language, none, others);
    lemma_first_language(texts["Comment"@].0, texts["Comment"@].1, language, none, others);
    lemma_first_language(texts["Keywords"@].0, texts["Keywords"@].1, language, none, others);
}

proof fn lemma_all_filled(list: Seq<Seq<char>>)
    requires
        forall|i: int| 0 <= i < list.len() ==> (#[trigger] list[i]).len() > 0,
    ensures
        filled(list) == list,
        filled(list.push(Seq::empty())) == list,
    decreases list.len(),
{
    let more = list.push(Seq::empty());
    assert(more.drop_last() =~= list);
    assert(more.last().len() == 0);
    assert(filled(more) == filled(list));
    if list.len() > 0 {
        let front = list.drop_last();
        assert forall|i: int| 0 <= i < front.len() implies (#[trigger] front[i]).len() > 0 by {
            assert(front[i] == list[i]);
        }
        lemma_all_filled(front);
        assert(front.push(list.last()) =~= list);
        assert(list[list.len() - 1].len() > 0);
    } else {
        assert(filled(list) =~= list);
    }
}

/// Keywords and categories are lists, whether a semicolon stands behind the last item
/// or not.
pub proof fn lemma_entry_lists(
    groups: Map<Seq<char>, Values>,
    id: Seq<char>,
    locales: Seq<Seq<char>>,
    list: Seq<Seq<char>>,
)
    requires
        list.len() > 0,
        forall|i: int|
            0 <= i < list.len() ==> (#[trigger] list[i]).len() > 0 && is_free_of(list[i], ';'),
    ensures
        ({
            let entry = entry_of(groups, id, locales);
            let open = together(list, ';');
            let closed = together(list.push(Seq::empty()), ';');
            &&& says(groups, "Keywords"@, open) && is_plain(groups, "Keywords"@)
                ==> entry.keywords == list
            &&& says(groups, "Keywords"@, closed) && is_plain(groups, "Keywords"@)
                ==> entry.keywords == list
            &&& says(groups, "Categories"@, open) ==> entry.categories == list
            &&& says(groups, "Categories"@, closed) ==> entry.categories == list
        }),
{
    lemma_all_filled(list);
    let more = list.push(Seq::empty());
    assert forall|i: int| 0 <= i < more.len() implies is_free_of(#[trigger] more[i], ';') by {
        if i < list.len() {
            assert(more[i] == list[i]);
        }
    }
    lemma_together_split(list, ';');
    lemma_together_split(more, ';');
    let texts = groups["Desktop Entry"@];
    if is_plain(groups, "Keywords"@) {
        lemma_plain(texts["Keywords"@].0, texts["Keywords"@].1, locales);
    }
}

proof fn lemma_named(
    groups: Map<Seq<char>, Values>,
    ids: Seq<Seq<char>>,
    locales: Seq<Seq<char>>,
    i: int,
)
    requires
        0 <= i < ids.len(),
    ensures
        has_action(crate::catalog::named_actions(groups, ids, locales), ids[i]) == (
        groups.contains_key("Desktop Action "@ + ids[i]) && groups["Desktop Action "@
            + ids[i]].contains_key("Name"@)),
    decreases ids.len(),
{
    let front = ids.drop_last();
    let before = crate::catalog::named_actions(groups, front, locales);
    let all = crate::catalog::named_actions(groups, ids, locales);
    let named = groups.contains_key("Desktop Action "@ + ids[i]) && groups["Desktop Action "@
        + ids[i]].contains_key("Name"@);
    if i < ids.len() - 1 {
        lemma_named(groups, front, locales, i);
        assert(front[i] == ids[i]);
        if has_action(before, ids[i]) {
            let k = choose|k: int| 0 <= k < before.len() && (#[trigger] before[k]).id == ids[i];
            assert(all[k].id == ids[i]);
        }
        if has_action(all, ids[i]) {
            let k = choose|k: int| 0 <= k < all.len() && (#[trigger] all[k]).id == ids[i];
            if k < before.len() {
                assert(before[k].id == ids[i]);
            }
        }
    } else {
        if named {
            assert(all.last().id == ids[i]);
        }
        if has_action(all, ids[i]) && !named {
            lemma_only_named(groups, ids, locales, ids[i]);
        }
    }
}

proof fn lemma_only_named(
    groups: Map<Seq<char>, Values>,
    ids: Seq<Seq<char>>,
    locales: Seq<Seq<char>>,
    id: Seq<char>,
)
    requires
        has_action(crate::catalog::named_actions(groups, ids, locales), id),
    ensures
        ids.contains(id),
        groups.contains_key("Desktop Action "@ + id),
        groups["Desktop Action "@ + id].contains_key("Name"@),
    decreases ids.len(),
{
    if ids.len() > 0 {
        let front = ids.drop_last();
        let before = crate::catalog::named_actions(groups, front, locales);
        let all = crate::catalog::named_actions(groups, ids, locales);
        let k = choose|k: int| 0 <= k < all.len() && (#[trigger] all[k]).id == id;
        if k < before.len() {
            assert(before[k].id == id);
            lemma_only_named(groups, front, locales, id);
            let j = choose|j: int| 0 <= j < front.len() && front[j] == id;
            assert(ids[j] == id);
        } else {
            assert(ids[ids.len() - 1] == id);
        }
    }
}

/// An application has the additional actions that it lists and that have a name.
pub proof fn lemma_entry_actions(
    groups: Map<Seq<char>, Values>,
    id: Seq<char>,
    locales: Seq<Seq<char>>,
    list: Seq<Seq<char>>,
    action: Seq<char>,
)
    requires
        list.len() > 0,
        forall|i: int|
            0 <= i < list.len() ==> (#[trigger] list[i]).len() > 0 && is_free_of(list[i], ';'),
        says(groups, "Actions"@, together(list, ';')),
    ensures
        has_action(entry_of(groups, id, locales).actions, action) == (list.contains(action)
            && groups.contains_key("Desktop Action "@ + action) && groups["Desktop Action "@
            + action].contains_key("Name"@)),
{
    lemma_all_filled(list);
    lemma_together_split(list, ';');
    let actions = entry_of(groups, id, locales).actions;
    if list.contains(action) {
        let i = choose|i: int| 0 <= i < list.len() && list[i] == action;
        lemma_named(groups, list, locales, i);
    }
    if has_action(actions, action) {
        lemma_only_named(groups, list, locales, action);
    }
}

/// A single action is shown with its name and its icon.
pub proof fn lemma_entry_action(
    groups: Map<Seq<char>, Values>,
    id: Seq<char>,
    locales: Seq<Seq<char>>,
    action: Seq<char>,
)
    requires
        action.len() > 0,
        is_free_of(action, ';'),
        says(groups, "Actions"@, action),
        groups.contains_key("Desktop Action "@ + action),
        groups["Desktop Action "@ + action].contains_key("Name"@),
        groups["Desktop Action "@ + action]["Name"@].1 == Map::<Seq<char>, Seq<char>>::empty(),
    ensures
        ({
            let group = groups["Desktop Action "@ + action];
            let actions = entry_of(groups, id, locales).actions;
            &&& actions.len() == 1
            &&& actions[0].id == action
            &&& actions[0].name == group["Name"@].0
            &&& group.contains_key("Icon"@) ==> actions[0].icon == group["Icon"@].0
            &&& !group.contains_key("Icon"@) ==> actions[0].icon.len() == 0
        }),
{
    reveal_strlit("");
    let list = seq![action];
    lemma_all_filled(list);
    lemma_together_split(list, ';');
    assert(together(list, ';') == action);
    let group = groups["Desktop Action "@ + action];
    lemma_plain(group["Name"@].0, group["Name"@].1, locales);
    assert(list.drop_last() =~= Seq::<Seq<char>>::empty());
    assert(crate::catalog::named_actions(groups, list.drop_last(), locales).len() == 0);
    assert(action_group(action) == "Desktop Action "@ + action);
}

/// An application that can only be launched is shown as a shortcut.
pub proof fn lemma_kinds(launch_only: bool)
    ensures
        kind_of(true) == "desktop-shortcut"@,
        kind_of(false) == "desktop-application"@,
{
}

// ---------------------------------------------------------------------
// Where applications come from

/// The id of an application is the place of its file below the directory, with
/// hyphens for the slashes.
pub proof fn lemma_application_id(root: Seq<char>, path: Seq<char>, i: int)
    requires
        path.len() > 0,
        root.len() > 0,
        root.last() != '/',
        0 <= i < path.len(),
    ensures
        below(root, root + "/"@ + path) == Some(path),
        below(root + "/"@, root + "/"@ + path) == Some(path),
        hyphenated(path).len() == path.len(),
        hyphenated(path)[i] == (if path[i] == '/' {
            '-'
        } else {
            path[i]
        }),
{
    reveal_strlit("/");
    let whole = root + "/"@ + path;
    let open = root + "/"@;
    crate::text_laws::lemma_endings(path, open);
    assert(whole =~= open + path);
    assert(whole.len() != root.len());
    assert(whole.len() != open.len());
    assert(whole.skip(root.len() as int + 1) =~= path);
    assert(whole.skip(open.len() as int) =~= path);
    assert(open.last() == '/');
}

/// A file belongs to an application where its name ends in `.desktop` and is more
/// than that, wherever it lies.
pub proof fn lemma_desktop_path(directory: Seq<char>, name: Seq<char>)
    requires
        is_free_of(name, '/'),
    ensures
        is_desktop_path(name + ".desktop"@) == (name.len() > 0),
        is_desktop_path(directory + seq!['/'] + (name + ".desktop"@)) == (name.len() > 0),
{
    reveal_strlit(".desktop");
    let file = name + ".desktop"@;
    assert(is_free_of(file, '/')) by {
        assert forall|i: int| 0 <= i < file.len() implies #[trigger] file[i] != '/' by {
            if i < name.len() {
                assert(file[i] == name[i]);
            } else {
                assert(file[i] == ".desktop"@[i - name.len()]);
            }
        }
    }
    crate::text_laws::lemma_without_ending(name, ".desktop"@);
    lemma_together_split(seq![file], '/');
    assert(together(seq![file], '/') == file);
    crate::splitting_laws::lemma_split_together(directory, '/');
    let parts = split_on(directory, '/').push(file);
    lemma_together_push(split_on(directory, '/'), file, '/');
    assert forall|i: int| 0 <= i < parts.len() implies is_free_of(#[trigger] parts[i], '/') by {
        if i < parts.len() - 1 {
            assert(parts[i] == split_on(directory, '/')[i]);
        }
    }
    lemma_together_split(parts, '/');
    assert(parts.last() == file);
    assert(seq![file].last() == file);
    reveal_strlit("");
    reveal_strlit(".");
    reveal_strlit("..");
    assert(file.len() > 2);
    crate::text_laws::lemma_endings(name, ".desktop"@);
}

proof fn lemma_together_push(parts: Seq<Seq<char>>, last: Seq<char>, c: char)
    requires
        parts.len() > 0,
    ensures
        together(parts.push(last), c) == together(parts, c) + seq![c] + last,
    decreases parts.len(),
{
    let more = parts.push(last);
    if parts.len() == 1 {
        assert(more.skip(1) =~= seq![last]);
        assert(together(seq![last], c) == last);
    } else {
        lemma_together_push(parts.skip(1), last, c);
        assert(more.skip(1) =~= parts.skip(1).push(last));
        assert(more[0] == parts[0]);
        assert(together(more, c) =~= together(parts, c) + seq![c] + last);
    }
}

/// The user's desktops are the parts of a list with colons, in lower case.
pub proof fn lemma_desktops(list: Seq<Seq<char>>, i: int)
    requires
        list.len() > 0,
        forall|k: int|
            0 <= k < list.len() ==> (#[trigger] list[k]).len() > 0 && is_free_of(list[k], ':'),
        0 <= i < list.len(),
    ensures
        desktops_in(together(list, ':')).len() == list.len(),
        same_letters(desktops_in(together(list, ':'))[i], list[i]),
        forall|k: int|
            0 <= k < list[i].len() ==> !('A' <= #[trigger] desktops_in(together(list, ':'))[i][k]
                <= 'Z'),
{
    lemma_all_filled(list);
    lemma_together_split(list, ':');
    let name = list[i];
    let small = ascii_lowercase(name);
    assert forall|k: int| 0 <= k < small.len() implies crate::text_laws::same_letter(
        small[k],
        #[trigger] name[k],
    ) && !('A' <= small[k] <= 'Z') by {
        crate::text_laws::lemma_lowercase(name, k);
    }
    lemma_same_letters(name, name);
    assert(desktops_in(together(list, ':'))[i] == small);
}

} // verus!
