//! What a list of applications shows, and in which order.

use vstd::prelude::*;
use crate::catalog::EntryView;
use crate::hyprland::{window_name, Window};
use crate::lowercase::lowercase;
use crate::query::{
    beginning, combined, group_ids, in_rank_order, is_of_category, is_wanted, lemma_rank_order,
    limit_of, ranks_before, results, scored, selected, window_target, windows_for, Sources,
};
use crate::search::{asked, kind_of_match, score_of_match, searched};
use crate::search_laws::{is_ascii_summary, is_text_of, lemma_text_is_found};
use crate::settings::{ascending, category_of, gives, has_entry, Preferences};
use crate::summary::{best_rank, pids_of, window_texts, SummaryView};
use crate::text::{ascii_lowercase, decimal, text_le, trim};
use crate::text_laws::occurs;

verus! {

// ---------------------------------------------------------------------
// What is listed

/// The list shows something with this id.
pub open spec fn shows(list: Seq<SummaryView>, id: Seq<char>) -> bool {
    exists|k: int| 0 <= k < list.len() && (#[trigger] list[k]).identity.id == id
}

proof fn lemma_selected(
    list: Seq<SummaryView>,
    query: Seq<char>,
    settings: Seq<(Seq<char>, Preferences)>,
    category: Option<Seq<char>>,
    r: SummaryView,
)
    ensures
        selected(list, query, settings, category).contains(r) == (exists|i: int|
            0 <= i < list.len() && scored(#[trigger] list[i], query) == Some(r) && is_wanted(
                settings,
                list[i].identity,
                category,
            )),
    decreases list.len(),
{
    let now = selected(list, query, settings, category);
    if list.len() > 0 {
        let rest = list.skip(1);
        let later = selected(rest, query, settings, category);
        lemma_selected(rest, query, settings, category, r);
        let kept = scored(list[0], query) is Some && is_wanted(
            settings,
            list[0].identity,
            category,
        );
        if now.contains(r) {
            let k = choose|k: int| 0 <= k < now.len() && now[k] == r;
            if kept && k == 0 {
                assert(scored(list[0], query) == Some(r));
            } else {
                assert(later[if kept { k - 1 } else { k }] == r);
                assert(later.contains(r));
                let i = choose|i: int|
                    0 <= i < rest.len() && scored(#[trigger] rest[i], query) == Some(r)
                        && is_wanted(settings, rest[i].identity, category);
                assert(rest[i] == list[i + 1]);
            }
        }
        if exists|i: int|
            0 <= i < list.len() && scored(#[trigger] list[i], query) == Some(r) && is_wanted(
                settings,
                list[i].identity,
                category,
            ) {
            let i = choose|i: int|
                0 <= i < list.len() && scored(#[trigger] list[i], query) == Some(r) && is_wanted(
                    settings,
                    list[i].identity,
                    category,
                );
            if i == 0 {
                assert(now[0] == r);
            } else {
                assert(rest[i - 1] == list[i]);
                assert(later.contains(r));
                let k = choose|k: int| 0 <= k < later.len() && later[k] == r;
                assert(now[if kept { k + 1 } else { k }] == r);
            }
        }
    }
}

proof fn lemma_results(
    sources: Sources,
    query: Seq<char>,
    settings: Seq<(Seq<char>, Preferences)>,
    category: Option<Seq<char>>,
    r: SummaryView,
)
    ensures
        results(sources, query, settings, category).contains(r) == (exists|i: int|
            0 <= i < sources.summaries().len() && scored(#[trigger] sources.summaries()[i], query)
                == Some(r) && is_wanted(settings, sources.summaries()[i].identity, category)),
{
    let list = selected(sources.summaries(), query, settings, category);
    let all = in_rank_order(list);
    lemma_selected(sources.summaries(), query, settings, category, r);
    lemma_rank_order(list);
    list.to_multiset_ensures();
    all.to_multiset_ensures();
    assert(all.contains(r) == (all.to_multiset().count(r) > 0));
    assert(list.contains(r) == (list.to_multiset().count(r) > 0));
}

/// An application is listed for a query that occurs in one of its texts, whichever
/// text it is.
pub proof fn lemma_found_is_listed(
    sources: Sources,
    query: Seq<char>,
    settings: Seq<(Seq<char>, Preferences)>,
    i: int,
    text: Seq<char>,
)
    requires
        0 <= i < sources.summaries().len(),
        is_ascii_summary(sources.summaries()[i]),
        is_text_of(text, sources.summaries()[i]),
        occurs(asked(query), ascii_lowercase(text)),
    ensures
        shows(results(sources, query, settings, None), sources.summaries()[i].identity.id),
{
    let s = sources.summaries()[i];
    lemma_text_is_found(s, query, text);
    let r = scored(s, query)->0;
    lemma_results(sources, query, settings, None, r);
    assert(scored(sources.summaries()[i], query) == Some(r));
    let all = results(sources, query, settings, None);
    let k = choose|k: int| 0 <= k < all.len() && all[k] == r;
    assert(all[k].identity.id == s.identity.id);
}

/// Everything that matches is listed, and nothing that does not.
pub proof fn lemma_matches_are_listed(
    sources: Sources,
    query: Seq<char>,
    settings: Seq<(Seq<char>, Preferences)>,
    r: SummaryView,
)
    ensures
        results(sources, query, settings, None).contains(r) ==> exists|i: int|
            0 <= i < sources.summaries().len() && (#[trigger] sources.summaries()[i]).identity
                == r.identity && kind_of_match(asked(query), searched(sources.summaries()[i])) is Some,
        forall|i: int|
            0 <= i < sources.summaries().len() && kind_of_match(
                asked(query),
                searched(#[trigger] sources.summaries()[i]),
            ) is Some ==> shows(
                results(sources, query, settings, None),
                sources.summaries()[i].identity.id,
            ),
{
    lemma_results(sources, query, settings, None, r);
    assert forall|i: int|
        0 <= i < sources.summaries().len() && kind_of_match(
            asked(query),
            searched(#[trigger] sources.summaries()[i]),
        ) is Some implies shows(
        results(sources, query, settings, None),
        sources.summaries()[i].identity.id,
    ) by {
        let x = scored(sources.summaries()[i], query)->0;
        lemma_results(sources, query, settings, None, x);
        assert(scored(sources.summaries()[i], query) == Some(x));
        let all = results(sources, query, settings, None);
        let k = choose|k: int| 0 <= k < all.len() && all[k] == x;
        assert(all[k].identity.id == sources.summaries()[i].identity.id);
    }
}

/// A list of one category shows those of the listed applications that the user put
/// into it, and of those without a choice the ones whose desktop categories put them
/// there.
pub proof fn lemma_category_list(
    sources: Sources,
    query: Seq<char>,
    settings: Seq<(Seq<char>, Preferences)>,
    category: Seq<char>,
    r: SummaryView,
)
    requires
        ascending(settings),
    ensures
        results(sources, query, settings, Some(category)).contains(r) == (results(
            sources,
            query,
            settings,
            None,
        ).contains(r) && is_put_into(settings, r, category)),
{
    lemma_results(sources, query, settings, Some(category), r);
    lemma_results(sources, query, settings, None, r);
    lemma_put_into(settings, r, category);
    if results(sources, query, settings, None).contains(r) && is_put_into(settings, r, category) {
        let i = choose|i: int|
            0 <= i < sources.summaries().len() && scored(#[trigger] sources.summaries()[i], query)
                == Some(r) && is_wanted(settings, sources.summaries()[i].identity, None);
        assert(sources.summaries()[i].identity == r.identity);
    }
    if results(sources, query, settings, Some(category)).contains(r) {
        let i = choose|i: int|
            0 <= i < sources.summaries().len() && scored(#[trigger] sources.summaries()[i], query)
                == Some(r) && is_wanted(settings, sources.summaries()[i].identity, Some(category));
        assert(sources.summaries()[i].identity == r.identity);
        assert(is_wanted(settings, sources.summaries()[i].identity, None));
    }
}

/// The user chose this category for the application, or chose none and the desktop
/// entry's categories tell it.
pub open spec fn is_put_into(
    settings: Seq<(Seq<char>, Preferences)>,
    r: SummaryView,
    category: Seq<char>,
) -> bool {
    if exists|k: int| 0 <= k < settings.len() && (#[trigger] settings[k]).0 == r.identity.id {
        exists|k: int|
            0 <= k < settings.len() && (#[trigger] settings[k]).0 == r.identity.id
                && settings[k].1.category == category
    } else {
        category_of(r.identity.categories) == category
    }
}

proof fn lemma_put_into(
    settings: Seq<(Seq<char>, Preferences)>,
    r: SummaryView,
    category: Seq<char>,
)
    ensures
        is_of_category(settings, r.identity, category) == is_put_into(settings, r, category),
{
    let id = r.identity.id;
    if has_entry(settings, id) {
        if exists|p: Preferences| #[trigger] gives(settings, id, p) && p.category == category {
            let p = choose|p: Preferences| #[trigger]
                gives(settings, id, p) && p.category == category;
            let k = choose|k: int| 0 <= k < settings.len() && #[trigger] settings[k] == (id, p);
            assert(settings[k].0 == id && settings[k].1.category == category);
        }
        if exists|k: int|
            0 <= k < settings.len() && (#[trigger] settings[k]).0 == id && settings[k].1.category
                == category {
            let k = choose|k: int|
                0 <= k < settings.len() && (#[trigger] settings[k]).0 == id
                    && settings[k].1.category == category;
            assert(settings[k] == (id, settings[k].1));
            assert(gives(settings, id, settings[k].1));
        }
    }
}

// ---------------------------------------------------------------------
// Scores and order

/// A result tells how it matched, and is otherwise what the application is.
pub proof fn lemma_scored(s: SummaryView, query: Seq<char>)
    requires
        kind_of_match(asked(query), searched(s)) is Some,
    ensures
        match scored(s, query) {
            Some(r) => {
                let kind = kind_of_match(asked(query), searched(s))->0;
                &&& r.match_kind == kind.text()
                &&& r.match_score == score_of_match(kind, asked(query), searched(s))
                &&& r.identity == s.identity
                &&& r.runtime_score == s.runtime_score
                &&& r.running == s.running
                &&& r.focused == s.focused
                &&& r.running_count == s.running_count
                &&& r.resources == s.resources
                &&& r.instances == s.instances
                &&& r.desktop_actions == s.desktop_actions
                &&& r.revision == s.revision
                &&& trim(query).len() == 0 ==> r.score == s.runtime_score
            },
            None => false,
        },
{
}

/// Of two applications that match a query, the one that matches better comes first,
/// however long ago it had the focus; of two that match as well, the one that had
/// the focus later.
pub proof fn lemma_match_before_focus(a: SummaryView, b: SummaryView, query: Seq<char>)
    requires
        trim(query).len() > 0,
        scored(a, query) is Some,
        scored(b, query) is Some,
        0 <= a.runtime_score < 100_000,
        0 <= b.runtime_score < 100_000,
        -1_000_000_000 <= scored(a, query)->0.match_score <= 12_000,
        -1_000_000_000 <= scored(b, query)->0.match_score <= 12_000,
    ensures
        scored(a, query)->0.match_score > scored(b, query)->0.match_score ==> scored(
            a,
            query,
        )->0.score > scored(b, query)->0.score,
        scored(a, query)->0.match_score == scored(b, query)->0.match_score ==> ((scored(
            a,
            query,
        )->0.score > scored(b, query)->0.score) == (a.runtime_score > b.runtime_score)),
{
}

/// Results are in the order of their scores, the highest first; those of one score in
/// the order of their names in lower case, and of their ids.
pub proof fn lemma_order(
    sources: Sources,
    query: Seq<char>,
    settings: Seq<(Seq<char>, Preferences)>,
    category: Option<Seq<char>>,
    i: int,
    j: int,
)
    requires
        0 <= i < j < results(sources, query, settings, category).len(),
    ensures
        ({
            let a = results(sources, query, settings, category)[i];
            let b = results(sources, query, settings, category)[j];
            let x = lowercase(a.identity.name);
            let y = lowercase(b.identity.name);
            &&& a.score >= b.score
            &&& a.score == b.score ==> text_le(x, y)
            &&& a.score == b.score && x == y ==> text_le(a.identity.id, b.identity.id)
        }),
{
    let list = selected(sources.summaries(), query, settings, category);
    lemma_rank_order(list);
    let a = results(sources, query, settings, category)[i];
    let b = results(sources, query, settings, category)[j];
    assert(ranks_before(a, b));
    crate::text::lemma_text_le_total(lowercase(a.identity.name), lowercase(b.identity.name));
}

/// A page is the beginning of the results: as many as asked for, one at least and a
/// thousand at most.
pub proof fn lemma_beginning(list: Seq<SummaryView>, limit: usize)
    ensures
        ({
            let n: int = if limit < 1 {
                1
            } else if limit > 1000 {
                1000
            } else {
                limit as int
            };
            let page = beginning(list, limit_of(limit));
            &&& list.len() <= n ==> page == list
            &&& list.len() > n ==> page == list.take(n)
            &&& (list.len() > limit_of(limit)) == (list.len() > n)
        }),
{
}

/// A revision changes where one of its parts does and the other does not, as far as
/// the lower fifty-three bits tell.
pub proof fn lemma_revision_follows(catalog: u64, a: u64, b: u64)
    requires
        a <= 0x1f_ffff_ffff_ffff,
        b <= 0x1f_ffff_ffff_ffff,
    ensures
        (combined(catalog, a) == combined(catalog, b)) == (a == b),
{
    let c = (catalog << 17u64) | (catalog >> 47u64);
    assert((((c ^ a) & 0x1f_ffff_ffff_ffff) == ((c ^ b) & 0x1f_ffff_ffff_ffff)) == (a == b))
        by (bit_vector)
        requires
            a <= 0x1f_ffff_ffff_ffff,
            b <= 0x1f_ffff_ffff_ffff,
    ;
}

// ---------------------------------------------------------------------
// What an application is doing

/// The windows of something are those that belong to it, in their order.
pub proof fn lemma_windows_are_own(
    entries: Seq<EntryView>,
    cgroups: Map<u32, String>,
    windows: Seq<Window>,
    id: Seq<char>,
)
    ensures
        windows_for(entries, cgroups, windows, id) == windows.filter(
            |w: Window| window_target(entries, cgroups, w) == id,
        ),
    decreases windows.len(),
{
    reveal(Seq::filter);
    if windows.len() > 0 {
        lemma_windows_are_own(entries, cgroups, windows.drop_last(), id);
    }
}

proof fn lemma_best_rank(windows: Seq<Window>)
    ensures
        forall|i: int|
            0 <= i < windows.len() ==> best_rank(windows) <= (#[trigger] windows[i]).focus_rank,
        best_rank(windows) == i64::MAX || exists|i: int|
            0 <= i < windows.len() && (#[trigger] windows[i]).focus_rank == best_rank(windows),
    decreases windows.len(),
{
    if windows.len() > 0 {
        let front = windows.drop_last();
        lemma_best_rank(front);
        assert(windows.last() == windows[windows.len() - 1]);
        assert forall|i: int| 0 <= i < windows.len() implies best_rank(windows) <= (
        #[trigger] windows[i]).focus_rank by {
            if i < front.len() {
                assert(front[i] == windows[i]);
            }
        }
        if best_rank(windows) == best_rank(front) && best_rank(front) != i64::MAX {
            let i = choose|i: int|
                0 <= i < front.len() && (#[trigger] front[i]).focus_rank == best_rank(front);
            assert(front[i] == windows[i]);
        }
    }
}

/// An application runs if it has windows, has the focus if one of them has, and shows
/// each of them with its title, class, workspace and process.
pub proof fn lemma_running(sources: Sources, entry: EntryView)
    ensures
        ({
            let s = sources.entry_summary(entry);
            let own = windows_for(sources.entries, sources.cgroups, sources.windows, entry.id);
            &&& s.running == (own.len() > 0)
            &&& s.running_count == own.len()
            &&& s.instances.len() == own.len()
            &&& s.focused == (exists|i: int|
                0 <= i < own.len() && (#[trigger] own[i]).focus_rank == 0)
            &&& forall|i: int|
                0 <= i < own.len() ==> (#[trigger] s.instances[i]).title == own[i].title
                    && s.instances[i].class == own[i].class && s.instances[i].workspace_name
                    == own[i].workspace_name && s.instances[i].focus_rank == own[i].focus_rank
                    && s.instances[i].focused == (own[i].focus_rank == 0) && s.instances[i].id
                    == window_name(own[i].address) && (own[i].workspace_id >= 0
                    ==> s.instances[i].workspace_id == decimal(own[i].workspace_id as nat)) && (
                own[i].workspace_id < 0 ==> s.instances[i].workspace_id == seq!['-'] + decimal(
                    (-own[i].workspace_id) as nat,
                )) && s.instances[i].resources == sources.resources.usage_of_target(
                    entry.id,
                    set![own[i].pid],
                )
            &&& forall|pid: u32|
                (exists|i: int| 0 <= i < own.len() && (#[trigger] own[i]).pid == pid)
                    == #[trigger] pids_of(own).to_set().contains(pid)
            &&& s.resources == sources.resources.usage_of_target(entry.id, pids_of(own).to_set())
            &&& s.revision == sources.revision
            &&& s.desktop_actions == entry.actions
        }),
{
    let s = sources.entry_summary(entry);
    let own = windows_for(sources.entries, sources.cgroups, sources.windows, entry.id);
    assert forall|i: int| 0 <= i < own.len() implies (#[trigger] s.instances[i]).resources
        == sources.resources.usage_of_target(entry.id, set![own[i].pid]) by {
        assert(seq![own[i].pid].to_set() =~= set![own[i].pid]) by {
            assert(seq![own[i].pid][0] == own[i].pid);
        }
    }
    assert forall|pid: u32|
        (exists|i: int| 0 <= i < own.len() && (#[trigger] own[i]).pid == pid)
            == #[trigger] pids_of(own).to_set().contains(pid) by {
        let pids = pids_of(own);
        if pids.contains(pid) {
            let i = choose|i: int| 0 <= i < pids.len() && pids[i] == pid;
            assert(own[i].pid == pid);
        }
        if exists|i: int| 0 <= i < own.len() && (#[trigger] own[i]).pid == pid {
            let i = choose|i: int| 0 <= i < own.len() && (#[trigger] own[i]).pid == pid;
            assert(pids[i] == pid);
        }
    }
}

/// An entry is shown as what it says of itself.
pub proof fn lemma_entry_identity(sources: Sources, entry: EntryView)
    ensures
        ({
            let identity = sources.entry_summary(entry).identity;
            &&& identity.id == entry.id
            &&& identity.name == entry.name
            &&& identity.generic_name == entry.generic_name
            &&& identity.comment == entry.comment
            &&& identity.icon == entry.icon
            &&& identity.keywords == entry.keywords
            &&& identity.categories == entry.categories
            &&& identity.startup_class == entry.startup_class
            &&& entry.launch_only ==> identity.kind == "desktop-shortcut"@
            &&& !entry.launch_only ==> identity.kind == "desktop-application"@
        }),
{
}

/// A group of windows is named by the class of its first window, and found by the
/// titles and classes of all.
pub proof fn lemma_group_identity(sources: Sources, id: Seq<char>)
    ensures
        ({
            let s = sources.group_summary(id);
            let own = windows_for(sources.entries, sources.cgroups, sources.windows, id);
            &&& s.identity.id == id
            &&& s.identity.kind == "window-group"@
            &&& own.len() > 0 && own[0].class.len() > 0 ==> s.identity.name == own[0].class
            &&& own.len() > 0 && own[0].class.len() == 0 ==> s.identity.name == "Untitled"@
            &&& s.identity.generic_name == "Running window"@
            &&& s.identity.comment.len() == 0
            &&& s.identity.icon.len() == 0
            &&& s.identity.categories.len() == 0
            &&& s.identity.startup_class.len() == 0
            &&& forall|i: int|
                0 <= i < own.len() ==> s.identity.keywords.contains((#[trigger] own[i]).title)
                    && s.identity.keywords.contains(own[i].class)
            &&& s.identity.keywords.len() == 2 * own.len()
            &&& s.running_count == own.len()
            &&& forall|i: int|
                0 <= i < own.len() ==> (#[trigger] s.instances[i]).title == own[i].title
                    && s.instances[i].class == own[i].class
            &&& s.desktop_actions.len() == 0
        }),
{
    reveal_strlit("");
    let own = windows_for(sources.entries, sources.cgroups, sources.windows, id);
    lemma_window_texts(own);
}

proof fn lemma_window_texts(windows: Seq<Window>)
    ensures
        window_texts(windows).len() == 2 * windows.len(),
        forall|i: int|
            0 <= i < windows.len() ==> window_texts(windows).contains((#[trigger] windows[i]).title)
                && window_texts(windows).contains(windows[i].class),
    decreases windows.len(),
{
    if windows.len() > 0 {
        let front = windows.drop_last();
        lemma_window_texts(front);
        let before = window_texts(front);
        let all = window_texts(windows);
        assert forall|i: int| 0 <= i < windows.len() implies all.contains(
            (#[trigger] windows[i]).title,
        ) && all.contains(windows[i].class) by {
            if i < front.len() {
                assert(front[i] == windows[i]);
                let a = choose|a: int| 0 <= a < before.len() && before[a] == front[i].title;
                let b = choose|b: int| 0 <= b < before.len() && before[b] == front[i].class;
                assert(all[a] == windows[i].title);
                assert(all[b] == windows[i].class);
            } else {
                assert(all[before.len() as int] == windows[i].title);
                assert(all[before.len() as int + 1] == windows[i].class);
            }
        }
    }
}

/// Windows that belong to no application of the catalog are listed as a group of their
/// own; no group stands beside an application of the same id, and none without windows.
pub proof fn lemma_groups(sources: Sources, id: Seq<char>)
    ensures
        group_ids(sources.entries, sources.cgroups, sources.windows).contains(id) == ((exists|i: int|
            0 <= i < sources.windows.len() && window_target(
                sources.entries,
                sources.cgroups,
                #[trigger] sources.windows[i],
            ) == id) && !(exists|i: int|
            0 <= i < sources.entries.len() && (#[trigger] sources.entries[i]).id == id)),
        sources.summaries().len() == sources.entries.len() + group_ids(
            sources.entries,
            sources.cgroups,
            sources.windows,
        ).len(),
        forall|i: int|
            0 <= i < sources.entries.len() ==> #[trigger] sources.summaries()[i]
                == sources.entry_summary(sources.entries[i]),
{
    lemma_group_ids(sources.entries, sources.cgroups, sources.windows, id);
}

proof fn lemma_group_ids(
    entries: Seq<EntryView>,
    cgroups: Map<u32, String>,
    windows: Seq<Window>,
    id: Seq<char>,
)
    ensures
        group_ids(entries, cgroups, windows).contains(id) == ((exists|i: int|
            0 <= i < windows.len() && window_target(entries, cgroups, #[trigger] windows[i]) == id)
            && !(exists|i: int| 0 <= i < entries.len() && (#[trigger] entries[i]).id == id)),
    decreases windows.len(),
{
    if windows.len() > 0 {
        let front = windows.drop_last();
        let last = windows.last();
        lemma_group_ids(entries, cgroups, front, id);
        let before = group_ids(entries, cgroups, front);
        let all = group_ids(entries, cgroups, windows);
        let target = window_target(entries, cgroups, last);
        let pushed = before.push(target);
        assert(pushed[before.len() as int] == target);
        if before.contains(id) {
            let k = choose|k: int| 0 <= k < before.len() && before[k] == id;
            assert(pushed[k] == id);
        }
        if pushed.contains(id) && id != target {
            let k = choose|k: int| 0 <= k < pushed.len() && pushed[k] == id;
            assert(before[k] == id);
        }
        if exists|i: int|
            0 <= i < front.len() && window_target(entries, cgroups, #[trigger] front[i]) == id {
            let i = choose|i: int|
                0 <= i < front.len() && window_target(entries, cgroups, #[trigger] front[i]) == id;
            assert(windows[i] == front[i]);
        }
        if exists|i: int|
            0 <= i < windows.len() && window_target(entries, cgroups, #[trigger] windows[i]) == id {
            let i = choose|i: int|
                0 <= i < windows.len() && window_target(entries, cgroups, #[trigger] windows[i])
                    == id;
            if i < front.len() {
                assert(front[i] == windows[i]);
            }
        }
        assert(windows[windows.len() - 1] == last);
    }
}

/// The focused application ranks first, before it those never come that had the focus
/// longer ago, and what does not run comes last.
pub proof fn lemma_runtime_score(sources: Sources, entry: EntryView)
    ensures
        ({
            let s = sources.entry_summary(entry);
            let own = windows_for(sources.entries, sources.cgroups, sources.windows, entry.id);
            &&& s.score == s.runtime_score
            &&& own.len() == 0 ==> s.runtime_score == 0
            &&& s.focused ==> s.runtime_score == 20_000
            &&& !s.focused ==> forall|i: int|
                0 <= i < own.len() && 0 < (#[trigger] own[i]).focus_rank < 1_000
                    ==> s.runtime_score >= 11_000 - own[i].focus_rank
            &&& !s.focused && own.len() > 0 && (forall|i: int|
                0 <= i < own.len() ==> 0 < (#[trigger] own[i]).focus_rank < i64::MAX)
                ==> 10_000 <= s.runtime_score <= 10_999
            &&& !s.focused && (forall|i: int|
                0 <= i < own.len() ==> (#[trigger] own[i]).focus_rank == i64::MAX)
                ==> s.runtime_score == 0
        }),
{
    let own = windows_for(sources.entries, sources.cgroups, sources.windows, entry.id);
    let s = sources.entry_summary(entry);
    lemma_best_rank(own);
    if own.len() > 0 && best_rank(own) == i64::MAX {
        assert(own[0].focus_rank >= best_rank(own));
    }
    if !s.focused && (forall|i: int|
        0 <= i < own.len() ==> (#[trigger] own[i]).focus_rank == i64::MAX) {
        if best_rank(own) != i64::MAX {
            let i = choose|i: int|
                0 <= i < own.len() && (#[trigger] own[i]).focus_rank == best_rank(own);
            assert(own[i].focus_rank == i64::MAX);
        }
    }
    if !s.focused && own.len() > 0 && (forall|i: int|
        0 <= i < own.len() ==> 0 < (#[trigger] own[i]).focus_rank < i64::MAX) {
        assert(own[0].focus_rank < i64::MAX);
        let i = choose|i: int|
            0 <= i < own.len() && (#[trigger] own[i]).focus_rank == best_rank(own);
        assert(0 < own[i].focus_rank);
    }
}

} // verus!
