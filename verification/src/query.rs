//! The list of applications for what was typed.

use vstd::prelude::*;
use crate::catalog::{Catalog, EntryView, distinct_ids, views_of};
use crate::hyprland::{Snapshot, Window, windows_of};
use crate::identity::{known_cgroup, lemma_target_owner, resolve_target, target_of, window_group};
use crate::lowercase::{lowercase, to_lowercase};
use crate::model::{ApplicationPage, ApplicationSummary};
use crate::search::{asked, kind_of_match, score_of_match, search_match, searched};
use crate::settings::{
    Preferences, SettingsStore, ascending, category_of, gives, has_entry, inferred_category,
};
use crate::snapshot::ResourceSnapshot;
use crate::summary::{
    IdentityView, SummaryView, chosen, entry_identity, group_identity, summary_for_entry,
    summary_for_unmatched, summary_of, summary_views,
};
use crate::table::Table;
use crate::text::{
    chars_of, lemma_text_le_total, lemma_text_le_transitive, optional_text, same_text, string_le, text_le,
    texts, trim, trim_chars,
};

verus! {

/// How many applications are listed where the client does not say.
pub const DEFAULT_LIMIT: usize = 500;

/// How many applications are listed at most.
pub const MAX_LIMIT: usize = 1000;

/// What a client asks for.
#[derive(Debug)]
pub struct QueryParams {
    pub query: String,
    /// Handed back, so that the client can tell answers apart.
    pub generation: u64,
    pub limit: usize,
    /// Only applications of this category of the launcher.
    pub category: Option<String>,
}

impl Default for QueryParams {
    fn default() -> (params: Self)
        ensures
            params.query@ == ""@,
            params.generation == 0,
            params.limit == DEFAULT_LIMIT,
            params.category is None,
    {
        QueryParams { query: "".to_owned(), generation: 0, limit: DEFAULT_LIMIT, category: None }
    }
}

// ---------------------------------------------------------------------
// Revision

/// Both revisions in one number that is exact as a double-precision number too.
pub open spec fn combined(catalog: u64, windows: u64) -> u64 {
    (((catalog << 17u64) | (catalog >> 47u64)) ^ windows) & 0x1f_ffff_ffff_ffff
}

pub fn combined_revision(catalog: &Catalog, windows: &Snapshot) -> (revision: u64)
    ensures
        revision == combined(catalog.revision, windows.revision),
        revision <= 0x1f_ffff_ffff_ffff,
{
    proof {
        lemma_revision_is_exact(catalog.revision, windows.revision);
    }
    let rotated = (catalog.revision << 17u64) | (catalog.revision >> 47u64);
    (rotated ^ windows.revision) & 0x1f_ffff_ffff_ffff
}

/// A revision is below two to the fifty-third, so a client that keeps numbers
/// in double precision hands back the same revision.
pub proof fn lemma_revision_is_exact(catalog: u64, windows: u64)
    ensures
        combined(catalog, windows) <= 0x1f_ffff_ffff_ffff,
{
    let n = ((catalog << 17u64) | (catalog >> 47u64)) ^ windows;
    assert(n & 0x1f_ffff_ffff_ffff <= 0x1f_ffff_ffff_ffff) by (bit_vector);
}

// ---------------------------------------------------------------------
// Windows by application

/// What a window belongs to.
pub open spec fn window_target(
    entries: Seq<EntryView>,
    cgroups: Map<u32, String>,
    window: Window,
) -> Seq<char> {
    target_of(entries, window, known_cgroup(cgroups, window.pid))
}

/// The windows that belong to something.
pub open spec fn windows_for(
    entries: Seq<EntryView>,
    cgroups: Map<u32, String>,
    windows: Seq<Window>,
    id: Seq<char>,
) -> Seq<Window>
    decreases windows.len(),
{
    if windows.len() == 0 {
        Seq::empty()
    } else {
        let before = windows_for(entries, cgroups, windows.drop_last(), id);
        if window_target(entries, cgroups, windows.last()) == id {
            before.push(windows.last())
        } else {
            before
        }
    }
}

pub open spec fn lists_id(entries: Seq<EntryView>, id: Seq<char>) -> bool {
    exists|i: int| 0 <= i < entries.len() && (#[trigger] entries[i]).id == id
}

/// The groups of windows that belong to no application, each once.
pub open spec fn group_ids(
    entries: Seq<EntryView>,
    cgroups: Map<u32, String>,
    windows: Seq<Window>,
) -> Seq<Seq<char>>
    decreases windows.len(),
{
    if windows.len() == 0 {
        Seq::empty()
    } else {
        let before = group_ids(entries, cgroups, windows.drop_last());
        let target = window_target(entries, cgroups, windows.last());
        if lists_id(entries, target) || before.contains(target) {
            before
        } else {
            before.push(target)
        }
    }
}

/// What the list is made from.
pub struct Sources {
    pub entries: Seq<EntryView>,
    pub windows: Seq<Window>,
    pub cgroups: Map<u32, String>,
    pub resources: ResourceSnapshot,
    pub revision: u64,
}

impl Sources {
    /// An application of the catalog.
    pub open spec fn entry_summary(self, entry: EntryView) -> SummaryView {
        summary_of(
            entry_identity(entry),
            entry.actions,
            windows_for(self.entries, self.cgroups, self.windows, entry.id),
            self.resources,
            self.revision,
        )
    }

    /// A group of windows that belong to no application.
    pub open spec fn group_summary(self, id: Seq<char>) -> SummaryView {
        let windows = windows_for(self.entries, self.cgroups, self.windows, id);
        summary_of(
            group_identity(id, windows),
            Seq::empty(),
            windows,
            self.resources,
            self.revision,
        )
    }

    pub open spec fn entry_summaries(self) -> Seq<SummaryView> {
        self.entries.map_values(|entry: EntryView| self.entry_summary(entry))
    }

    pub open spec fn group_summaries(self) -> Seq<SummaryView> {
        group_ids(self.entries, self.cgroups, self.windows).map_values(
            |id: Seq<char>| self.group_summary(id),
        )
    }

    /// All applications, and all groups of windows that belong to none.
    pub open spec fn summaries(self) -> Seq<SummaryView> {
        self.entry_summaries() + self.group_summaries()
    }
}

// ---------------------------------------------------------------------
// Choosing and scoring

/// The application is of this category: the user's choice decides, else what the
/// desktop entry says.
pub open spec fn is_of_category(
    settings: Seq<(Seq<char>, Preferences)>,
    identity: IdentityView,
    category: Seq<char>,
) -> bool {
    if has_entry(settings, identity.id) {
        exists|p: Preferences| #[trigger]
            gives(settings, identity.id, p) && p.category == category
    } else {
        category_of(identity.categories) == category
    }
}

pub open spec fn is_wanted(
    settings: Seq<(Seq<char>, Preferences)>,
    identity: IdentityView,
    category: Option<Seq<char>>,
) -> bool {
    match category {
        Some(c) => is_of_category(settings, identity, c),
        None => true,
    }
}

/// A number as close as a machine number comes.
pub open spec fn clamped(n: int) -> i64 {
    if n < i64::MIN {
        i64::MIN
    } else if n > i64::MAX {
        i64::MAX
    } else {
        n as i64
    }
}

/// A match first, and how recently the focus was there second.
pub open spec fn combined_score(matched: i64, runtime: i64) -> i64 {
    clamped(clamped(matched * 100_000) + runtime)
}

/// The application with its score for a query, where it matches.
pub open spec fn scored(s: SummaryView, query: Seq<char>) -> Option<SummaryView> {
    match kind_of_match(asked(query), searched(s)) {
        Some(kind) => {
            let matched = score_of_match(kind, asked(query), searched(s));
            Some(
                SummaryView {
                    match_score: matched,
                    match_kind: kind.text(),
                    score: if trim(query).len() == 0 {
                        s.runtime_score
                    } else {
                        combined_score(matched, s.runtime_score)
                    },
                    ..s
                },
            )
        },
        None => None,
    }
}

/// Those that match the query and are of the category.
pub open spec fn selected(
    list: Seq<SummaryView>,
    query: Seq<char>,
    settings: Seq<(Seq<char>, Preferences)>,
    category: Option<Seq<char>>,
) -> Seq<SummaryView>
    decreases list.len(),
{
    if list.len() == 0 {
        Seq::empty()
    } else {
        let rest = selected(list.skip(1), query, settings, category);
        match scored(list[0], query) {
            Some(s) => if is_wanted(settings, list[0].identity, category) {
                seq![s] + rest
            } else {
                rest
            },
            None => rest,
        }
    }
}

// ---------------------------------------------------------------------
// Order

/// By score, the higher first, by name without regard to case, and by id.
pub open spec fn ranks_before(a: SummaryView, b: SummaryView) -> bool {
    if a.score != b.score {
        a.score > b.score
    } else if lowercase(a.identity.name) != lowercase(b.identity.name) {
        text_le(lowercase(a.identity.name), lowercase(b.identity.name))
    } else {
        text_le(a.identity.id, b.identity.id)
    }
}

/// Where an application goes among others in order.
pub open spec fn rank_among(list: Seq<SummaryView>, s: SummaryView) -> int
    decreases list.len(),
{
    if list.len() == 0 || ranks_before(s, list[0]) {
        0
    } else {
        1 + rank_among(list.skip(1), s)
    }
}

/// The applications in order.
pub open spec fn in_rank_order(list: Seq<SummaryView>) -> Seq<SummaryView>
    decreases list.len(),
{
    if list.len() == 0 {
        Seq::empty()
    } else {
        let rest = in_rank_order(list.skip(1));
        rest.insert(rank_among(rest, list[0]), list[0])
    }
}

pub open spec fn limit_of(limit: usize) -> nat {
    if limit < 1 {
        1
    } else if limit > MAX_LIMIT {
        MAX_LIMIT as nat
    } else {
        limit as nat
    }
}

/// The beginning of a list.
pub open spec fn beginning(list: Seq<SummaryView>, limit: nat) -> Seq<SummaryView> {
    if list.len() > limit {
        list.take(limit as int)
    } else {
        list
    }
}

/// All results, in order.
pub open spec fn results(
    sources: Sources,
    query: Seq<char>,
    settings: Seq<(Seq<char>, Preferences)>,
    category: Option<Seq<char>>,
) -> Seq<SummaryView> {
    in_rank_order(selected(sources.summaries(), query, settings, category))
}

proof fn lemma_ranks(a: SummaryView, b: SummaryView, c: SummaryView)
    ensures
        ranks_before(a, b) || ranks_before(b, a),
        ranks_before(a, b) && ranks_before(b, c) ==> ranks_before(a, c),
{
    let x = lowercase(a.identity.name);
    let y = lowercase(b.identity.name);
    let z = lowercase(c.identity.name);
    lemma_text_le_total(x, y);
    lemma_text_le_total(y, z);
    lemma_text_le_total(x, z);
    lemma_text_le_total(a.identity.id, b.identity.id);
    if text_le(a.identity.id, b.identity.id) && text_le(b.identity.id, c.identity.id) {
        lemma_text_le_transitive(a.identity.id, b.identity.id, c.identity.id);
    }
    if text_le(x, y) && text_le(y, z) {
        lemma_text_le_transitive(x, y, z);
    }
}

proof fn lemma_rank_among(list: Seq<SummaryView>, s: SummaryView)
    ensures
        0 <= rank_among(list, s) <= list.len(),
        forall|i: int| 0 <= i < rank_among(list, s) ==> ranks_before(#[trigger] list[i], s),
        rank_among(list, s) < list.len() ==> ranks_before(s, list[rank_among(list, s)]),
    decreases list.len(),
{
    if list.len() > 0 && !ranks_before(s, list[0]) {
        lemma_ranks(s, list[0], s);
        lemma_rank_among(list.skip(1), s);
        let place = rank_among(list.skip(1), s);
        assert forall|i: int| 0 <= i < place + 1 implies ranks_before(#[trigger] list[i], s) by {
            if i > 0 {
                assert(list.skip(1)[i - 1] == list[i]);
            }
        }
        if place < list.skip(1).len() {
            assert(list.skip(1)[place] == list[place + 1]);
        }
    }
}

pub open spec fn is_ranked(list: Seq<SummaryView>) -> bool {
    forall|i: int, j: int|
        0 <= i < j < list.len() ==> ranks_before(#[trigger] list[i], #[trigger] list[j])
}

/// Ordering the results loses none, adds none, and puts each before those that
/// rank below it.
pub proof fn lemma_rank_order(list: Seq<SummaryView>)
    ensures
        is_ranked(in_rank_order(list)),
        in_rank_order(list).to_multiset() == list.to_multiset(),
        in_rank_order(list).len() == list.len(),
    decreases list.len(),
{
    if list.len() == 0 {
        assert(in_rank_order(list) =~= list);
    } else {
        let rest = list.skip(1);
        let s = list[0];
        lemma_rank_order(rest);
        let before = in_rank_order(rest);
        lemma_rank_among(before, s);
        let place = rank_among(before, s);
        let now = before.insert(place, s);
        assert forall|k: int| place <= k < before.len() implies ranks_before(
            s,
            #[trigger] before[k],
        ) by {
            if k > place {
                assert(ranks_before(before[place], before[k]));
                lemma_ranks(s, before[place], before[k]);
            }
        }
        assert forall|i: int, j: int| 0 <= i < j < now.len() implies ranks_before(
            #[trigger] now[i],
            #[trigger] now[j],
        ) by {
            let x = if i < place { i } else { i - 1 };
            let y = if j < place { j } else { j - 1 };
            if i == place {
                assert(now[j] == before[y]);
            } else if j == place {
                assert(now[i] == before[x]);
            } else {
                assert(now[i] == before[x] && now[j] == before[y]);
            }
        }
        let one = seq![s];
        assert(list =~= one + rest);
        vstd::seq_lib::lemma_multiset_commutative(one, rest);
        assert(now =~= before.take(place) + one + before.skip(place));
        vstd::seq_lib::lemma_multiset_commutative(before.take(place), one);
        vstd::seq_lib::lemma_multiset_commutative(before.take(place) + one, before.skip(place));
        vstd::seq_lib::lemma_multiset_commutative(before.take(place), before.skip(place));
        assert(before =~= before.take(place) + before.skip(place));
        assert(now.to_multiset() =~= list.to_multiset());
    }
}

proof fn lemma_group_ids(
    entries: Seq<EntryView>,
    cgroups: Map<u32, String>,
    windows: Seq<Window>,
)
    ensures
        group_ids(entries, cgroups, windows).no_duplicates(),
        forall|k: int|
            0 <= k < group_ids(entries, cgroups, windows).len() ==> !lists_id(
                entries,
                #[trigger] group_ids(entries, cgroups, windows)[k],
            ),
        forall|i: int|
            0 <= i < windows.len() ==> lists_id(
                entries,
                window_target(entries, cgroups, #[trigger] windows[i]),
            ) || group_ids(entries, cgroups, windows).contains(
                window_target(entries, cgroups, windows[i]),
            ),
    decreases windows.len(),
{
    if windows.len() > 0 {
        let front = windows.drop_last();
        lemma_group_ids(entries, cgroups, front);
        let before = group_ids(entries, cgroups, front);
        let now = group_ids(entries, cgroups, windows);
        let target = window_target(entries, cgroups, windows.last());
        assert forall|i: int| 0 <= i < windows.len() implies lists_id(
            entries,
            window_target(entries, cgroups, #[trigger] windows[i]),
        ) || now.contains(window_target(entries, cgroups, windows[i])) by {
            if i < front.len() {
                assert(front[i] == windows[i]);
                let t = window_target(entries, cgroups, windows[i]);
                if before.contains(t) {
                    let k = choose|k: int| 0 <= k < before.len() && before[k] == t;
                    assert(now[k] == t);
                }
            } else if !lists_id(entries, target) && !before.contains(target) {
                assert(now[before.len() as int] == target);
            }
        }
    }
}

/// Nothing is listed twice, and every window's application or group is listed.
pub proof fn lemma_listed_once(sources: Sources)
    requires
        distinct_ids(sources.entries),
    ensures
        forall|i: int, j: int|
            0 <= i < j < sources.summaries().len() ==> (
            #[trigger] sources.summaries()[i]).identity.id != (
            #[trigger] sources.summaries()[j]).identity.id,
        forall|w: int|
            0 <= w < sources.windows.len() ==> exists|i: int|
                0 <= i < sources.summaries().len() && (
                #[trigger] sources.summaries()[i]).identity.id == window_target(
                    sources.entries,
                    sources.cgroups,
                    #[trigger] sources.windows[w],
                ),
{
    let groups = group_ids(sources.entries, sources.cgroups, sources.windows);
    let n = sources.entries.len();
    let all = sources.summaries();
    lemma_group_ids(sources.entries, sources.cgroups, sources.windows);
    assert forall|i: int| 0 <= i < n implies (#[trigger] all[i]).identity.id
        == sources.entries[i].id by {
        assert(all[i] == sources.entry_summary(sources.entries[i]));
    }
    assert forall|k: int| 0 <= k < groups.len() implies (#[trigger] all[n + k]).identity.id
        == groups[k] by {
        assert(all[n + k] == sources.group_summary(groups[k]));
    }
    assert forall|i: int, j: int| 0 <= i < j < all.len() implies (#[trigger] all[i]).identity.id != (
    #[trigger] all[j]).identity.id by {
        if j < n {
            assert(sources.entries[i].id != sources.entries[j].id);
        } else if i < n {
            assert(all[n + (j - n)].identity.id == groups[j - n]);
            assert(!lists_id(sources.entries, groups[j - n]));
            assert(sources.entries[i].id != groups[j - n]);
        } else {
            assert(all[n + (j - n)].identity.id == groups[j - n]);
            assert(all[n + (i - n)].identity.id == groups[i - n]);
        }
    }
    assert forall|w: int| 0 <= w < sources.windows.len() implies exists|i: int|
        0 <= i < all.len() && (#[trigger] all[i]).identity.id == window_target(
            sources.entries,
            sources.cgroups,
            #[trigger] sources.windows[w],
        ) by {
        let t = window_target(sources.entries, sources.cgroups, sources.windows[w]);
        if lists_id(sources.entries, t) {
            let i = choose|i: int|
                0 <= i < sources.entries.len() && (#[trigger] sources.entries[i]).id == t;
            assert(all[i].identity.id == t);
        } else {
            let k = choose|k: int| 0 <= k < groups.len() && groups[k] == t;
            assert(all[n + k].identity.id == t);
        }
    }
}

/// A window shows up under what it belongs to and nowhere else.
pub proof fn lemma_windows_for(
    entries: Seq<EntryView>,
    cgroups: Map<u32, String>,
    windows: Seq<Window>,
    id: Seq<char>,
    window: Window,
)
    ensures
        windows_for(entries, cgroups, windows, id).contains(window) == (windows.contains(window)
            && window_target(entries, cgroups, window) == id),
    decreases windows.len(),
{
    if windows.len() > 0 {
        let front = windows.drop_last();
        lemma_windows_for(entries, cgroups, front, id, window);
        let before = windows_for(entries, cgroups, front, id);
        let now = windows_for(entries, cgroups, windows, id);
        if before.contains(window) {
            let k = choose|k: int| 0 <= k < before.len() && before[k] == window;
            assert(now[k] == window);
        }
        if now.contains(window) {
            let k = choose|k: int| 0 <= k < now.len() && now[k] == window;
            if k < before.len() {
                assert(before[k] == window);
            }
            assert(windows.contains(window)) by {
                if front.contains(window) {
                    let i = choose|i: int| 0 <= i < front.len() && front[i] == window;
                    assert(windows[i] == window);
                } else {
                    assert(windows[windows.len() - 1] == window);
                }
            }
        }
        if windows.contains(window) && window_target(entries, cgroups, window) == id {
            let i = choose|i: int| 0 <= i < windows.len() && windows[i] == window;
            if i < front.len() {
                assert(front[i] == window);
            } else {
                assert(now[before.len() as int] == window);
            }
        }
    }
}

proof fn lemma_one_preference(
    settings: Seq<(Seq<char>, Preferences)>,
    id: Seq<char>,
    p: Preferences,
    q: Preferences,
)
    requires
        ascending(settings),
        gives(settings, id, p),
        gives(settings, id, q),
    ensures
        p == q,
        has_entry(settings, id),
{
    let i = choose|i: int| 0 <= i < settings.len() && #[trigger] settings[i] == (id, p);
    let j = choose|j: int| 0 <= j < settings.len() && #[trigger] settings[j] == (id, q);
    if i < j {
        assert(settings[i].0 != settings[j].0);
    } else if j < i {
        assert(settings[j].0 != settings[i].0);
    }
}

// ---------------------------------------------------------------------
// The page

fn wanted(application: &ApplicationSummary, settings: &SettingsStore, category: &Option<String>) -> (yes:
    bool)
    requires
        settings.wf(),
    ensures
        yes == is_wanted(
            settings@,
            application@.identity,
            optional_text(*category),
        ),
{
    match category {
        None => true,
        Some(category) => match settings.for_application(application.identity.id.as_str()) {
            Some(preferences) => {
                proof {
                    let id = application.identity.id@;
                    lemma_one_preference(settings@, id, preferences@, preferences@);
                    if is_of_category(settings@, application@.identity, category@) {
                        let p = choose|p: Preferences| #[trigger]
                            gives(settings@, id, p) && p.category == category@;
                        lemma_one_preference(settings@, id, preferences@, p);
                    }
                }
                same_text(preferences.category.as_str(), category.as_str())
            },
            None => same_text(
                inferred_category(application.identity.categories.as_slice()),
                category.as_str(),
            ),
        },
    }
}

fn clamp_score(n: i128) -> (score: i64)
    ensures
        score == clamped(n as int),
{
    if n < i64::MIN as i128 {
        i64::MIN
    } else if n > i64::MAX as i128 {
        i64::MAX
    } else {
        n as i64
    }
}

/// The places at which an id stands.
pub open spec fn places_of(targets: Seq<Seq<char>>, id: Seq<char>) -> Seq<usize>
    decreases targets.len(),
{
    if targets.len() == 0 {
        Seq::empty()
    } else {
        let before = places_of(targets.drop_last(), id);
        if targets.last() == id {
            before.push((targets.len() - 1) as usize)
        } else {
            before
        }
    }
}

/// What the windows belong to, one by one.
pub open spec fn targets_of(
    entries: Seq<EntryView>,
    cgroups: Map<u32, String>,
    windows: Seq<Window>,
) -> Seq<Seq<char>> {
    windows.map_values(|w: Window| window_target(entries, cgroups, w))
}

proof fn lemma_places_below(targets: Seq<Seq<char>>, id: Seq<char>)
    requires
        targets.len() <= usize::MAX,
    ensures
        forall|k: int|
            0 <= k < places_of(targets, id).len() ==> (#[trigger] places_of(targets, id)[k])
                < targets.len(),
    decreases targets.len(),
{
    if targets.len() > 0 {
        let before = places_of(targets.drop_last(), id);
        let now = places_of(targets, id);
        lemma_places_below(targets.drop_last(), id);
        assert forall|k: int| 0 <= k < now.len() implies (#[trigger] now[k]) < targets.len() by {
            if k < before.len() {
                assert(before[k] == now[k]);
            }
        }
    }
}

proof fn lemma_places(
    entries: Seq<EntryView>,
    cgroups: Map<u32, String>,
    windows: Seq<Window>,
    id: Seq<char>,
)
    requires
        windows.len() <= usize::MAX,
    ensures
        chosen(windows, places_of(targets_of(entries, cgroups, windows), id)) == windows_for(
            entries,
            cgroups,
            windows,
            id,
        ),
    decreases windows.len(),
{
    let targets = targets_of(entries, cgroups, windows);
    let now = places_of(targets, id);
    if windows.len() == 0 {
        assert(chosen(windows, now) =~= Seq::empty());
    } else {
        let front = windows.drop_last();
        lemma_places(entries, cgroups, front, id);
        assert(targets_of(entries, cgroups, front) =~= targets.drop_last());
        let before = places_of(targets.drop_last(), id);
        lemma_places_below(targets.drop_last(), id);
        assert(chosen(windows, before) =~= chosen(front, before));
        if targets.last() == id {
            assert(chosen(windows, now) =~= chosen(windows, before).push(windows.last()));
        }
    }
}

fn places_for(targets: &Vec<String>, id: &str) -> (places: Vec<usize>)
    ensures
        places@ == places_of(texts(targets@), id@),
{
    let ghost all = texts(targets@);
    let mut places: Vec<usize> = Vec::new();
    for i in 0..targets.len()
        invariant
            all == texts(targets@),
            places@ == places_of(all.take(i as int), id@),
    {
        assert(all.take(i + 1).drop_last() =~= all.take(i as int));
        assert(all.take(i + 1).last() == targets@[i as int]@);
        if same_text(targets[i].as_str(), id) {
            places.push(i);
        }
    }
    assert(all.take(all.len() as int) =~= all);
    places
}

fn window_targets(catalog: &Catalog, windows: &Snapshot, cgroups: &Table<u32, String>) -> (targets:
    Vec<String>)
    requires
        cgroups.wf(),
    ensures
        texts(targets@) == targets_of(
            views_of(catalog.entries@),
            cgroups@,
            windows_of(windows.clients@),
        ),
{
    let ghost all = targets_of(
        views_of(catalog.entries@),
        cgroups@,
        windows_of(windows.clients@),
    );
    let mut targets: Vec<String> = Vec::new();
    for i in 0..windows.clients.len()
        invariant
            cgroups.wf(),
            all == targets_of(
                views_of(catalog.entries@),
                cgroups@,
                windows_of(windows.clients@),
            ),
            texts(targets@) == all.take(i as int),
    {
        let ghost before = texts(targets@);
        let target = resolve_target(catalog, &windows.clients[i], cgroups);
        assert(windows_of(windows.clients@)[i as int] == windows.clients@[i as int]@);
        targets.push(target);
        assert(texts(targets@) =~= before.push(target@));
        assert(all.take(i + 1) =~= all.take(i as int).push(all[i as int]));
    }
    assert(all.take(all.len() as int) =~= all);
    targets
}

fn lists_target(list: &Vec<String>, id: &str) -> (yes: bool)
    ensures
        yes == texts(list@).contains(id@),
{
    for i in 0..list.len()
        invariant
            forall|j: int| 0 <= j < i ==> texts(list@)[j] != id@,
    {
        assert(texts(list@)[i as int] == list@[i as int]@);
        if same_text(list[i].as_str(), id) {
            return true;
        }
    }
    false
}

fn unmatched_groups(
    catalog: &Catalog,
    windows: &Snapshot,
    cgroups: &Table<u32, String>,
    targets: &Vec<String>,
) -> (groups: Vec<String>)
    requires
        texts(targets@) == targets_of(
            views_of(catalog.entries@),
            cgroups@,
            windows_of(windows.clients@),
        ),
    ensures
        texts(groups@) == group_ids(
            views_of(catalog.entries@),
            cgroups@,
            windows_of(windows.clients@),
        ),
{
    let ghost entries = views_of(catalog.entries@);
    let ghost all = windows_of(windows.clients@);
    let mut groups: Vec<String> = Vec::new();
    assert(texts(groups@) =~= group_ids(entries, cgroups@, all.take(0)));
    assert(texts(targets@).len() == targets@.len());
    for i in 0..targets.len()
        invariant
            entries == views_of(catalog.entries@),
            all == windows_of(windows.clients@),
            targets@.len() == all.len(),
            texts(targets@) == targets_of(entries, cgroups@, all),
            texts(groups@) == group_ids(entries, cgroups@, all.take(i as int)),
    {
        let ghost before = texts(groups@);
        assert(all.take(i + 1).drop_last() =~= all.take(i as int));
        assert(all.take(i + 1).last() == all[i as int]);
        assert(texts(targets@)[i as int] == window_target(entries, cgroups@, all[i as int]));
        let target = &targets[i];
        assert(texts(targets@)[i as int] == target@);
        let known = catalog.by_id(target.as_str()).is_some();
        proof {
            if lists_id(entries, target@) {
                let k = choose|k: int|
                    0 <= k < entries.len() && (#[trigger] entries[k]).id == target@;
                assert(catalog.entries@[k].id@ == target@);
            }
            if known {
                let k = choose|k: int|
                    0 <= k < catalog.entries@.len() && (#[trigger] catalog.entries@[k]).id@
                        == target@;
                assert(entries[k].id == target@);
            }
        }
        if !known && !lists_target(&groups, target.as_str()) {
            groups.push(target.clone());
            assert(texts(groups@) =~= before.push(target@));
        }
    }
    assert(all.take(all.len() as int) =~= all);
    groups
}

fn all_summaries(
    catalog: &Catalog,
    windows: &Snapshot,
    cgroups: &Table<u32, String>,
    resources: &ResourceSnapshot,
    revision: u64,
) -> (list: Vec<ApplicationSummary>)
    requires
        cgroups.wf(),
        resources.wf(),
    ensures
        summary_views(list@) == (Sources {
            entries: views_of(catalog.entries@),
            windows: windows_of(windows.clients@),
            cgroups: cgroups@,
            resources: *resources,
            revision,
        }).summaries(),
{
    let ghost sources = Sources {
        entries: views_of(catalog.entries@),
        windows: windows_of(windows.clients@),
        cgroups: cgroups@,
        resources: *resources,
        revision,
    };
    let targets = window_targets(catalog, windows, cgroups);
    let ghost names = targets_of(sources.entries, sources.cgroups, sources.windows);
    let count = windows.clients.len();
    assert(names.len() == count);
    let mut list: Vec<ApplicationSummary> = Vec::new();
    assert(summary_views(list@) =~= sources.entry_summaries().take(0));
    for i in 0..catalog.entries.len()
        invariant
            resources.wf(),
            sources.entries == views_of(catalog.entries@),
            sources.windows == windows_of(windows.clients@),
            sources.resources == *resources,
            sources.revision == revision,
            names == targets_of(sources.entries, sources.cgroups, sources.windows),
            names == texts(targets@),
            names.len() == count,
            count == windows.clients@.len(),
            summary_views(list@) == sources.entry_summaries().take(i as int),
    {
        let ghost before = summary_views(list@);
        let entry = &catalog.entries[i];
        let places = places_for(&targets, entry.id.as_str());
        proof {
            lemma_places_below(names, entry.id@);
            lemma_places(sources.entries, sources.cgroups, sources.windows, entry.id@);
        }
        let found = summary_for_entry(entry, &windows.clients, &places, resources, revision);
        assert(sources.entries[i as int] == entry@);
        assert(found@ == sources.entry_summary(entry@));
        list.push(found);
        assert(summary_views(list@) =~= before.push(found@));
        assert(sources.entry_summaries().take(i + 1) =~= before.push(
            sources.entry_summaries()[i as int],
        ));
    }
    assert(sources.entry_summaries().take(sources.entries.len() as int)
        =~= sources.entry_summaries());
    let groups = unmatched_groups(catalog, windows, cgroups, &targets);
    let ghost ids = texts(groups@);
    assert(summary_views(list@) =~= sources.entry_summaries() + sources.group_summaries().take(0));
    for i in 0..groups.len()
        invariant
            resources.wf(),
            sources.entries == views_of(catalog.entries@),
            sources.windows == windows_of(windows.clients@),
            sources.resources == *resources,
            sources.revision == revision,
            names == targets_of(sources.entries, sources.cgroups, sources.windows),
            names == texts(targets@),
            names.len() == count,
            count == windows.clients@.len(),
            ids == texts(groups@),
            ids == group_ids(sources.entries, sources.cgroups, sources.windows),
            summary_views(list@) == sources.entry_summaries() + sources.group_summaries().take(
                i as int,
            ),
    {
        let ghost before = summary_views(list@);
        let id = groups[i].clone();
        assert(ids[i as int] == id@);
        let places = places_for(&targets, id.as_str());
        proof {
            lemma_places_below(names, id@);
            lemma_places(sources.entries, sources.cgroups, sources.windows, id@);
        }
        let found = summary_for_unmatched(id, &windows.clients, &places, resources, revision);
        assert(found@ == sources.group_summary(ids[i as int]));
        list.push(found);
        assert(summary_views(list@) =~= before.push(found@));
        assert(sources.group_summaries().take(i + 1) =~= sources.group_summaries().take(
            i as int,
        ).push(found@));
        assert(summary_views(list@) =~= sources.entry_summaries() + sources.group_summaries().take(
            i + 1,
        ));
    }
    assert(ids.len() == groups@.len());
    assert(sources.group_summaries().take(ids.len() as int) =~= sources.group_summaries());
    list
}

fn before(a: &ApplicationSummary, b: &ApplicationSummary) -> (yes: bool)
    ensures
        yes == ranks_before(a@, b@),
{
    if a.score != b.score {
        return a.score > b.score;
    }
    let left = to_lowercase(a.identity.name.as_str());
    let right = to_lowercase(b.identity.name.as_str());
    if same_text(left.as_str(), right.as_str()) {
        string_le(a.identity.id.as_str(), b.identity.id.as_str())
    } else {
        string_le(left.as_str(), right.as_str())
    }
}

fn insert_ranked(list: &mut Vec<ApplicationSummary>, application: ApplicationSummary)
    ensures
        summary_views(final(list)@) == summary_views(old(list)@).insert(
            rank_among(summary_views(old(list)@), application@),
            application@,
        ),
{
    let ghost all = summary_views(list@);
    let ghost s = application@;
    let mut place: usize = 0;
    assert(all.skip(0) =~= all);
    while place < list.len() && !before(&application, &list[place])
        invariant
            all == summary_views(list@),
            s == application@,
            place <= list@.len(),
            rank_among(all, s) == place + rank_among(all.skip(place as int), s),
        decreases list@.len() - place,
    {
        assert(all.skip(place as int)[0] == list@[place as int]@);
        assert(all.skip(place as int).skip(1) =~= all.skip(place + 1));
        place = place + 1;
    }
    proof {
        if place < list@.len() {
            assert(all.skip(place as int)[0] == list@[place as int]@);
        }
        assert(rank_among(all.skip(place as int), s) == 0);
    }
    list.insert(place, application);
    assert(summary_views(list@) =~= all.insert(place as int, s));
}

fn ranked_results(
    list: Vec<ApplicationSummary>,
    query: &String,
    settings: &SettingsStore,
    category: &Option<String>,
) -> (ranked: Vec<ApplicationSummary>)
    requires
        settings.wf(),
    ensures
        summary_views(ranked@) == in_rank_order(
            selected(
                summary_views(list@),
                query@,
                settings@,
                optional_text(*category),
            ),
        ),
{
    let ghost all = summary_views(list@);
    let ghost wanted_category = optional_text(*category);
    let chars = chars_of(query.as_str());
    let blank = trim_chars(chars.as_slice()).len() == 0;
    let mut ranked: Vec<ApplicationSummary> = Vec::new();
    let mut rest = list;
    assert(all.skip(all.len() as int).len() == 0);
    assert(summary_views(ranked@) =~= Seq::empty());
    while rest.len() > 0
        invariant
            settings.wf(),
            rest@.len() <= all.len(),
            blank == (trim(query@).len() == 0),
            forall|k: int| 0 <= k < rest@.len() ==> (#[trigger] rest@[k])@ == all[k],
            wanted_category == optional_text(*category),
            summary_views(ranked@) == in_rank_order(
                selected(all.skip(rest@.len() as int), query@, settings@, wanted_category),
            ),
        decreases rest@.len(),
    {
        let ghost n = rest@.len() - 1;
        let application = match rest.pop() {
            Some(application) => application,
            None => {
                return ranked;
            },
        };
        proof {
            assert(application@ == all[n]);
            assert(all.skip(n)[0] == all[n]);
            assert(all.skip(n).skip(1) =~= all.skip(n + 1));
        }
        let ghost later = selected(all.skip(n + 1), query@, settings@, wanted_category);
        let found = search_match(&application, query.as_str());
        if let Some(matched) = found {
            if wanted(&application, settings, category) {
                let score = if blank {
                    application.runtime_score
                } else {
                    clamp_score(
                        clamp_score(matched.score as i128 * 100_000) as i128
                            + application.runtime_score as i128,
                    )
                };
                let mut result = application;
                result.match_score = matched.score;
                result.match_kind = matched.kind.as_str().to_owned();
                result.score = score;
                assert(scored(all[n], query@) == Some(result@));
                assert((seq![result@] + later).skip(1) =~= later);
                insert_ranked(&mut ranked, result);
            }
        }
    }
    assert(all.skip(0) =~= all);
    ranked
}

/// The applications that match, the best first.
pub fn page(
    catalog: &Catalog,
    windows: &Snapshot,
    cgroups: &Table<u32, String>,
    resources: &ResourceSnapshot,
    settings: &SettingsStore,
    params: &QueryParams,
) -> (page: ApplicationPage)
    requires
        catalog.wf(),
        cgroups.wf(),
        resources.wf(),
        settings.wf(),
    ensures
        page.revision == combined(catalog.revision, windows.revision),
        page.generation == params.generation,
        page.hyprland_available == windows.available,
        ({
            let sources = Sources {
                entries: views_of(catalog.entries@),
                windows: windows_of(windows.clients@),
                cgroups: cgroups@,
                resources: *resources,
                revision: page.revision,
            };
            let category = optional_text(params.category);
            let all = results(sources, params.query@, settings@, category);
            &&& summary_views(page.applications@) == beginning(all, limit_of(params.limit))
            &&& page.has_more == (all.len() > limit_of(params.limit))
        }),
{
    let revision = combined_revision(catalog, windows);
    let list = all_summaries(catalog, windows, cgroups, resources, revision);
    let mut ranked = ranked_results(list, &params.query, settings, &params.category);
    let limit: usize = if params.limit < 1 {
        1
    } else if params.limit > MAX_LIMIT {
        MAX_LIMIT
    } else {
        params.limit
    };
    let ghost all = summary_views(ranked@);
    let has_more = ranked.len() > limit;
    assert(all.len() == ranked@.len());
    if has_more {
        ranked.truncate(limit);
        assert(summary_views(ranked@) =~= all.take(limit as int));
    }
    ApplicationPage {
        revision,
        generation: params.generation,
        applications: ranked,
        has_more,
        hyprland_available: windows.available,
    }
}

/// No two of the results are of the same application.
pub open spec fn distinct_results(list: Seq<SummaryView>) -> bool {
    forall|i: int, j: int|
        0 <= i < j < list.len() ==> (#[trigger] list[i]).identity.id != (
        #[trigger] list[j]).identity.id
}

pub open spec fn has_result(list: Seq<SummaryView>, id: Seq<char>) -> bool {
    exists|i: int| 0 <= i < list.len() && (#[trigger] list[i]).identity.id == id
}

proof fn lemma_selected_ids(
    list: Seq<SummaryView>,
    query: Seq<char>,
    settings: Seq<(Seq<char>, Preferences)>,
    category: Option<Seq<char>>,
)
    requires
        distinct_results(list),
    ensures
        distinct_results(selected(list, query, settings, category)),
        forall|id: Seq<char>| #[trigger]
            has_result(selected(list, query, settings, category), id) ==> has_result(list, id),
    decreases list.len(),
{
    if list.len() > 0 {
        let rest = list.skip(1);
        assert forall|i: int, j: int| 0 <= i < j < rest.len() implies (
        #[trigger] rest[i]).identity.id != (#[trigger] rest[j]).identity.id by {
            assert(rest[i] == list[i + 1] && rest[j] == list[j + 1]);
        }
        lemma_selected_ids(rest, query, settings, category);
        let later = selected(rest, query, settings, category);
        let now = selected(list, query, settings, category);
        assert(!has_result(rest, list[0].identity.id)) by {
            if has_result(rest, list[0].identity.id) {
                let i = choose|i: int|
                    0 <= i < rest.len() && (#[trigger] rest[i]).identity.id == list[0].identity.id;
                assert(list[i + 1].identity.id == list[0].identity.id);
            }
        }
        assert forall|i: int, j: int| 0 <= i < j < now.len() implies (
        #[trigger] now[i]).identity.id != (#[trigger] now[j]).identity.id by {
            if now.len() > later.len() {
                assert(now[j] == later[j - 1]);
                assert(has_result(later, later[j - 1].identity.id));
                if i > 0 {
                    assert(now[i] == later[i - 1]);
                }
            }
        }
        assert forall|id: Seq<char>| #[trigger] has_result(now, id) implies has_result(list, id) by {
            let i = choose|i: int| 0 <= i < now.len() && (#[trigger] now[i]).identity.id == id;
            if now.len() > later.len() && i == 0 {
                assert(list[0].identity.id == id);
            } else {
                let k = if now.len() > later.len() { i - 1 } else { i };
                assert(later[k].identity.id == id);
                assert(has_result(later, id));
                let m = choose|m: int|
                    0 <= m < rest.len() && (#[trigger] rest[m]).identity.id == id;
                assert(list[m + 1].identity.id == id);
            }
        }
    }
}

proof fn lemma_ranked_ids(list: Seq<SummaryView>)
    requires
        distinct_results(list),
    ensures
        distinct_results(in_rank_order(list)),
        forall|id: Seq<char>| #[trigger]
            has_result(in_rank_order(list), id) ==> has_result(list, id),
    decreases list.len(),
{
    if list.len() > 0 {
        let rest = list.skip(1);
        assert forall|i: int, j: int| 0 <= i < j < rest.len() implies (
        #[trigger] rest[i]).identity.id != (#[trigger] rest[j]).identity.id by {
            assert(rest[i] == list[i + 1] && rest[j] == list[j + 1]);
        }
        lemma_ranked_ids(rest);
        let before = in_rank_order(rest);
        let place = rank_among(before, list[0]);
        lemma_rank_among(before, list[0]);
        let now = in_rank_order(list);
        assert(!has_result(rest, list[0].identity.id)) by {
            if has_result(rest, list[0].identity.id) {
                let i = choose|i: int|
                    0 <= i < rest.len() && (#[trigger] rest[i]).identity.id == list[0].identity.id;
                assert(list[i + 1].identity.id == list[0].identity.id);
            }
        }
        assert forall|k: int| 0 <= k < before.len() implies (#[trigger] before[k]).identity.id
            != list[0].identity.id by {
            assert(has_result(before, before[k].identity.id));
        }
        assert forall|i: int, j: int| 0 <= i < j < now.len() implies (
        #[trigger] now[i]).identity.id != (#[trigger] now[j]).identity.id by {
            let x = if i < place { i } else { i - 1 };
            let y = if j < place { j } else { j - 1 };
            if i == place {
                assert(now[j] == before[y]);
            } else if j == place {
                assert(now[i] == before[x]);
            } else {
                assert(now[i] == before[x] && now[j] == before[y]);
            }
        }
        assert forall|id: Seq<char>| #[trigger] has_result(now, id) implies has_result(list, id) by {
            let i = choose|i: int| 0 <= i < now.len() && (#[trigger] now[i]).identity.id == id;
            if i == place {
                assert(list[0].identity.id == id);
            } else {
                let x = if i < place { i } else { i - 1 };
                assert(before[x].identity.id == id);
                assert(has_result(before, id));
                let m = choose|m: int|
                    0 <= m < rest.len() && (#[trigger] rest[m]).identity.id == id;
                assert(list[m + 1].identity.id == id);
            }
        }
    }
}

/// A page lists nothing twice and is in order, and where there is more, it is
/// full.
pub proof fn lemma_page(
    sources: Sources,
    query: Seq<char>,
    settings: Seq<(Seq<char>, Preferences)>,
    category: Option<Seq<char>>,
    limit: usize,
)
    requires
        distinct_ids(sources.entries),
    ensures
        ({
            let all = results(sources, query, settings, category);
            let shown = beginning(all, limit_of(limit));
            &&& is_ranked(shown)
            &&& distinct_results(shown)
            &&& shown.len() <= limit_of(limit)
            &&& all.len() > limit_of(limit) ==> shown.len() == limit_of(limit)
            &&& forall|i: int| 0 <= i < shown.len() ==> #[trigger] shown[i] == all[i]
            &&& 1 <= limit_of(limit) <= 1000
        }),
{
    let list = selected(sources.summaries(), query, settings, category);
    lemma_listed_once(sources);
    lemma_selected_ids(sources.summaries(), query, settings, category);
    lemma_rank_order(list);
    lemma_ranked_ids(list);
}

/// Without a query and a category everything is listed, by how recently the
/// focus was there.
pub proof fn lemma_blank_query(
    list: Seq<SummaryView>,
    query: Seq<char>,
    settings: Seq<(Seq<char>, Preferences)>,
)
    requires
        trim(query).len() == 0,
        asked(query).len() == 0,
    ensures
        selected(list, query, settings, None).len() == list.len(),
        forall|i: int|
            0 <= i < list.len() ==> (#[trigger] selected(list, query, settings, None)[i]).identity
                == list[i].identity && selected(list, query, settings, None)[i].score
                == list[i].runtime_score && selected(list, query, settings, None)[i].match_kind
                == "none"@,
    decreases list.len(),
{
    if list.len() > 0 {
        lemma_blank_query(list.skip(1), query, settings);
        let later = selected(list.skip(1), query, settings, None);
        let now = selected(list, query, settings, None);
        assert forall|i: int| 0 <= i < list.len() implies (#[trigger] now[i]).identity
            == list[i].identity && now[i].score == list[i].runtime_score && now[i].match_kind
            == "none"@ by {
            if i > 0 {
                assert(now[i] == later[i - 1]);
                assert(list.skip(1)[i - 1] == list[i]);
            }
        }
    }
}

/// An entry for launching only has no windows and no running processes: what a
/// window belongs to is never such an entry, unless the entry is named like a
/// group of windows.
pub proof fn lemma_launch_only_is_idle(sources: Sources, i: int)
    requires
        distinct_ids(sources.entries),
        0 <= i < sources.entries.len(),
        sources.entries[i].launch_only,
        forall|w: int|
            0 <= w < sources.windows.len() ==> sources.entries[i].id != window_group(
                #[trigger] sources.windows[w],
            ),
    ensures
        windows_for(
            sources.entries,
            sources.cgroups,
            sources.windows,
            sources.entries[i].id,
        ).len() == 0,
        !sources.entry_summary(sources.entries[i]).running,
        sources.entry_summary(sources.entries[i]).instances.len() == 0,
        sources.entry_summary(sources.entries[i]).identity.kind == "desktop-shortcut"@,
{
    let id = sources.entries[i].id;
    let list = windows_for(sources.entries, sources.cgroups, sources.windows, id);
    if list.len() > 0 {
        let window = list[0];
        assert(list.contains(window));
        lemma_windows_for(sources.entries, sources.cgroups, sources.windows, id, window);
        lemma_target_owner(
            sources.entries,
            window,
            known_cgroup(sources.cgroups, window.pid),
        );
        let w = choose|w: int| 0 <= w < sources.windows.len() && sources.windows[w] == window;
        assert(sources.entries[i].id != window_group(sources.windows[w]));
        let k = choose|k: int|
            0 <= k < sources.entries.len() && (#[trigger] sources.entries[k]).id == id
                && !sources.entries[k].launch_only;
        if k < i {
            assert(sources.entries[k].id != sources.entries[i].id);
        } else if i < k {
            assert(sources.entries[i].id != sources.entries[k].id);
        }
        assert(false);
    }
}

} // verus!
