//! What categories and preferences are for.

use vstd::prelude::*;
use crate::settings::{
    category_of, has_category, loaded, preferences_for, workspace_of, Preferences,
};
use crate::text_laws::{lemma_same_letters, same_letters};

verus! {

/// A desktop entry lists a category, in any case of letters.
pub open spec fn lists(list: Seq<Seq<char>>, name: Seq<char>) -> bool {
    exists|i: int| 0 <= i < list.len() && same_letters(#[trigger] list[i], name)
}

/// The desktop categories of browsers, and of programs for the network.
pub open spec fn for_browsing(list: Seq<Seq<char>>) -> bool {
    lists(list, "WebBrowser"@) || lists(list, "Network"@)
}

pub open spec fn for_media(list: Seq<Seq<char>>) -> bool {
    lists(list, "AudioVideo"@) || lists(list, "Audio"@) || lists(list, "Video"@) || lists(
        list,
        "Graphics"@,
    )
}

pub open spec fn for_text(list: Seq<Seq<char>>) -> bool {
    lists(list, "Office"@) || lists(list, "TextEditor"@) || lists(list, "WordProcessor"@) || lists(
        list,
        "Viewer"@,
    )
}

proof fn lemma_lists(list: Seq<Seq<char>>, name: Seq<char>)
    ensures
        has_category(list, name) == lists(list, name),
{
    if has_category(list, name) {
        let i = choose|i: int|
            0 <= i < list.len() && crate::text::ascii_lowercase(#[trigger] list[i])
                == crate::text::ascii_lowercase(name);
        lemma_same_letters(list[i], name);
        assert(same_letters(list[i], name));
    }
    if lists(list, name) {
        let i = choose|i: int| 0 <= i < list.len() && same_letters(#[trigger] list[i], name);
        lemma_same_letters(list[i], name);
    }
}

proof fn lemma_all_lists(list: Seq<Seq<char>>)
    ensures
        forall|name: Seq<char>| #[trigger] has_category(list, name) == lists(list, name),
{
    assert forall|name: Seq<char>| #[trigger] has_category(list, name) == lists(list, name) by {
        lemma_lists(list, name);
    }
}

/// An entry that lists a category of browsers or of the network is a browser,
/// whatever else it lists.
pub proof fn lemma_browser(list: Seq<Seq<char>>)
    requires
        for_browsing(list),
    ensures
        category_of(list) == "browser"@,
        workspace_of(category_of(list)) == Some("2"@),
{
    lemma_all_lists(list);
    lemma_workspaces("browser"@);
}

/// An entry for development that is no browser is code.
pub proof fn lemma_code(list: Seq<Seq<char>>)
    requires
        lists(list, "Development"@),
        !for_browsing(list),
    ensures
        category_of(list) == "code"@,
        workspace_of(category_of(list)) == Some("3"@),
{
    lemma_all_lists(list);
    lemma_workspaces("code"@);
}

/// An entry that lists any one of the categories of sound, pictures and films, and
/// none of those before, is media.
pub proof fn lemma_media(list: Seq<Seq<char>>)
    requires
        for_media(list),
        !for_browsing(list),
        !lists(list, "Development"@),
    ensures
        category_of(list) == "media"@,
        workspace_of(category_of(list)) == Some("4"@),
{
    lemma_all_lists(list);
    lemma_workspaces("media"@);
}

/// An entry that lists any one of the categories of documents, and none of those
/// before, is text.
pub proof fn lemma_text(list: Seq<Seq<char>>)
    requires
        for_text(list),
        !for_browsing(list),
        !lists(list, "Development"@),
        !for_media(list),
    ensures
        category_of(list) == "text"@,
        workspace_of(category_of(list)) == Some("5"@),
{
    lemma_all_lists(list);
    lemma_workspaces("text"@);
}

proof fn lemma_names_differ()
    ensures
        "shell"@ != "browser"@,
        "shell"@ != "code"@,
        "shell"@ != "media"@,
        "shell"@ != "text"@,
        "browser"@ != "code"@,
        "browser"@ != "media"@,
        "browser"@ != "text"@,
        "code"@ != "media"@,
        "code"@ != "text"@,
        "media"@ != "text"@,
        "1"@ != "2"@,
        "1"@ != "3"@,
        "1"@ != "4"@,
        "1"@ != "5"@,
        "2"@ != "3"@,
        "2"@ != "4"@,
        "2"@ != "5"@,
        "3"@ != "4"@,
        "3"@ != "5"@,
        "4"@ != "5"@,
{
    reveal_strlit("shell");
    reveal_strlit("browser");
    reveal_strlit("code");
    reveal_strlit("media");
    reveal_strlit("text");
    reveal_strlit("1");
    reveal_strlit("2");
    reveal_strlit("3");
    reveal_strlit("4");
    reveal_strlit("5");
    assert("shell"@[0] == 's');
    assert("browser"@[0] == 'b');
    assert("code"@[0] == 'c');
    assert("media"@[0] == 'm');
    assert("text"@[0] == 't');
    assert("1"@[0] == '1');
    assert("2"@[0] == '2');
    assert("3"@[0] == '3');
    assert("4"@[0] == '4');
    assert("5"@[0] == '5');
}

/// What is left is for the shell: it is inferred for exactly those entries that
/// list none of the known desktop categories.
pub proof fn lemma_shell(list: Seq<Seq<char>>)
    ensures
        (category_of(list) == "shell"@) == (!for_browsing(list) && !lists(list, "Development"@)
            && !for_media(list) && !for_text(list)),
        category_of(list) == "shell"@ ==> workspace_of(category_of(list)) == Some("1"@),
{
    lemma_all_lists(list);
    lemma_names_differ();
    lemma_workspaces("shell"@);
}

/// The order of the listed categories and the case of their letters do not matter.
pub proof fn lemma_category_by_contents(a: Seq<Seq<char>>, b: Seq<Seq<char>>)
    requires
        forall|name: Seq<char>| #[trigger] lists(a, name) == lists(b, name),
    ensures
        category_of(a) == category_of(b),
{
    lemma_all_lists(a);
    lemma_all_lists(b);
    assert forall|name: Seq<char>| #[trigger] has_category(a, name) == has_category(b, name) by {
        assert(lists(a, name) == lists(b, name));
    }
}

/// Each category of the launcher has a workspace of its own, and nothing else has
/// one.
pub proof fn lemma_workspaces(category: Seq<char>)
    ensures
        category == "shell"@ ==> workspace_of(category) == Some("1"@),
        category == "browser"@ ==> workspace_of(category) == Some("2"@),
        category == "code"@ ==> workspace_of(category) == Some("3"@),
        category == "media"@ ==> workspace_of(category) == Some("4"@),
        category == "text"@ ==> workspace_of(category) == Some("5"@),
        workspace_of(category) is Some ==> category == "shell"@ || category == "browser"@
            || category == "code"@ || category == "media"@ || category == "text"@,
{
    lemma_names_differ();
}

/// Two categories never share a workspace.
pub proof fn lemma_workspaces_apart(a: Seq<char>, b: Seq<char>)
    requires
        workspace_of(a) is Some,
        workspace_of(a) == workspace_of(b),
    ensures
        a == b,
{
    lemma_workspaces(a);
    lemma_workspaces(b);
    lemma_names_differ();
}

/// Preferences hold the chosen category and its workspace.
pub proof fn lemma_preferences(category: Seq<char>)
    ensures
        preferences_for(category).category == category,
        preferences_for(category).workspace == workspace_of(category),
{
}

/// Of a list of preferences that was kept, the last one for an application counts
/// that has a category of the launcher, whatever workspace stands with it; without
/// such a one the application has none.
pub proof fn lemma_loaded_last(entries: Seq<(Seq<char>, Preferences)>, id: Seq<char>, i: int)
    requires
        0 <= i < entries.len(),
        entries[i].0 == id,
        workspace_of(entries[i].1.category) is Some,
        forall|k: int|
            i < k < entries.len() && (#[trigger] entries[k]).0 == id ==> workspace_of(
                entries[k].1.category,
            ) is None,
    ensures
        match loaded(entries, id) {
            Some(p) => p.category == entries[i].1.category && p.workspace == workspace_of(
                entries[i].1.category,
            ),
            None => false,
        },
    decreases entries.len(),
{
    let front = entries.drop_last();
    if i < entries.len() - 1 {
        assert(entries.last() == entries[entries.len() - 1]);
        assert forall|k: int| i < k < front.len() && (#[trigger] front[k]).0 == id implies workspace_of(
            front[k].1.category,
        ) is None by {
            assert(front[k] == entries[k]);
        }
        lemma_loaded_last(front, id, i);
    }
}

pub proof fn lemma_loaded_none(entries: Seq<(Seq<char>, Preferences)>, id: Seq<char>)
    requires
        forall|k: int|
            0 <= k < entries.len() && (#[trigger] entries[k]).0 == id ==> workspace_of(
                entries[k].1.category,
            ) is None,
    ensures
        loaded(entries, id) is None,
    decreases entries.len(),
{
    if entries.len() > 0 {
        let front = entries.drop_last();
        assert(entries.last() == entries[entries.len() - 1]);
        assert forall|k: int| 0 <= k < front.len() && (#[trigger] front[k]).0 == id implies workspace_of(
            front[k].1.category,
        ) is None by {
            assert(front[k] == entries[k]);
        }
        lemma_loaded_none(front, id);
    }
}

} // verus!
