//! Which applications used how much energy.

use vstd::prelude::*;
use crate::action::{entry_place, find_entry, name_of, display_name};
use crate::catalog::{Catalog, EntryView, views_of};
use crate::history::EnergyTotal;
use crate::metrics::{counter_sum, rate, rated, round_div, wide_product};
use crate::text::{lemma_text_le_total, lemma_text_le_transitive, string_le, text_le};

verus! {

/// How many applications are listed where the client does not say.
pub const DEFAULT_OVERVIEW_LIMIT: usize = 20;

/// How many applications are listed at most.
pub const MAX_OVERVIEW_LIMIT: usize = 1000;

/// What a client asks for.
#[derive(Debug, Clone, Copy)]
pub struct EnergyOverviewParams {
    pub since_ms: u64,
    pub limit: usize,
}

impl Default for EnergyOverviewParams {
    fn default() -> (params: Self)
        ensures
            params.since_ms == 0,
            params.limit == DEFAULT_OVERVIEW_LIMIT,
    {
        EnergyOverviewParams { since_ms: 0, limit: DEFAULT_OVERVIEW_LIMIT }
    }
}

/// The energy that was attributed to an application.
#[derive(Debug)]
pub struct EnergyShare {
    pub target_id: String,
    pub name: String,
    pub icon: String,
    pub energy_mwh_e4: u64,
    /// The fraction of all energy that was attributed to any application.
    pub share_e4: u64,
    pub energy_source: String,
    pub energy_confidence: String,
}

/// The applications that used most energy, the most first.
#[derive(Debug)]
pub struct EnergyOverview {
    pub since_ms: u64,
    pub until_ms: u64,
    pub total_energy_mwh_e4: u64,
    pub applications: Vec<EnergyShare>,
    pub has_more: bool,
}

/// What an [`EnergyTotal`] stands for.
#[verifier::ext_equal]
pub struct TotalView {
    pub target: Seq<char>,
    pub energy: u64,
    pub source: Seq<char>,
    pub confidence: Seq<char>,
}

impl View for EnergyTotal {
    type V = TotalView;

    open spec fn view(&self) -> TotalView {
        TotalView {
            target: self.target_id@,
            energy: self.energy_mwh_e4,
            source: self.energy_source@,
            confidence: self.energy_confidence@,
        }
    }
}

pub open spec fn total_views(list: Seq<EnergyTotal>) -> Seq<TotalView> {
    list.map_values(|total: EnergyTotal| total@)
}

/// What an [`EnergyShare`] stands for.
#[verifier::ext_equal]
pub struct ShareView {
    pub target: Seq<char>,
    pub name: Seq<char>,
    pub icon: Seq<char>,
    pub energy: u64,
    pub share: u64,
    pub source: Seq<char>,
    pub confidence: Seq<char>,
}

impl View for EnergyShare {
    type V = ShareView;

    open spec fn view(&self) -> ShareView {
        ShareView {
            target: self.target_id@,
            name: self.name@,
            icon: self.icon@,
            energy: self.energy_mwh_e4,
            share: self.share_e4,
            source: self.energy_source@,
            confidence: self.energy_confidence@,
        }
    }
}

/// All energy together.
pub open spec fn all_energy(list: Seq<TotalView>) -> u64
    decreases list.len(),
{
    if list.len() == 0 {
        0
    } else {
        counter_sum(all_energy(list.drop_last()), list.last().energy)
    }
}

/// The icon of an application; a group of windows has none.
pub open spec fn icon_of(entries: Seq<EntryView>, id: Seq<char>) -> Seq<char> {
    let place = entry_place(entries, id);
    if place < entries.len() {
        entries[place].icon
    } else {
        ""@
    }
}

/// A part of a whole in ten-thousandths.
pub open spec fn share_of(part: u64, whole: u64) -> u64 {
    rated((part * 10_000) as nat, whole as nat)
}

/// An application's part of all energy.
pub open spec fn shared(entries: Seq<EntryView>, total: TotalView, all: u64) -> ShareView {
    ShareView {
        target: total.target,
        name: name_of(entries, total.target),
        icon: icon_of(entries, total.target),
        energy: total.energy,
        share: share_of(total.energy, all),
        source: total.source,
        confidence: total.confidence,
    }
}

/// By energy, the most first, and by id.
pub open spec fn uses_more(a: TotalView, b: TotalView) -> bool {
    if a.energy != b.energy {
        a.energy > b.energy
    } else {
        text_le(a.target, b.target)
    }
}

/// Where a total goes among others in order.
pub open spec fn place_among(list: Seq<TotalView>, total: TotalView) -> int
    decreases list.len(),
{
    if list.len() == 0 || uses_more(total, list[0]) {
        0
    } else {
        1 + place_among(list.skip(1), total)
    }
}

/// The totals in order.
pub open spec fn by_energy(list: Seq<TotalView>) -> Seq<TotalView>
    decreases list.len(),
{
    if list.len() == 0 {
        Seq::empty()
    } else {
        let rest = by_energy(list.skip(1));
        rest.insert(place_among(rest, list[0]), list[0])
    }
}

pub open spec fn overview_limit(limit: usize) -> nat {
    if limit < 1 {
        1
    } else if limit > MAX_OVERVIEW_LIMIT {
        MAX_OVERVIEW_LIMIT as nat
    } else {
        limit as nat
    }
}

/// The first of the totals.
pub open spec fn first_totals(list: Seq<TotalView>, limit: nat) -> Seq<TotalView> {
    if list.len() > limit {
        list.take(limit as int)
    } else {
        list
    }
}

proof fn lemma_uses_more(a: TotalView, b: TotalView, c: TotalView)
    ensures
        uses_more(a, b) || uses_more(b, a),
        uses_more(a, b) && uses_more(b, c) ==> uses_more(a, c),
{
    lemma_text_le_total(a.target, b.target);
    if text_le(a.target, b.target) && text_le(b.target, c.target) {
        lemma_text_le_transitive(a.target, b.target, c.target);
    }
}

proof fn lemma_place_among(list: Seq<TotalView>, total: TotalView)
    ensures
        0 <= place_among(list, total) <= list.len(),
        forall|i: int| 0 <= i < place_among(list, total) ==> uses_more(#[trigger] list[i], total),
        place_among(list, total) < list.len() ==> uses_more(total, list[place_among(list, total)]),
    decreases list.len(),
{
    if list.len() > 0 && !uses_more(total, list[0]) {
        lemma_uses_more(total, list[0], total);
        lemma_place_among(list.skip(1), total);
        let place = place_among(list.skip(1), total);
        assert forall|i: int| 0 <= i < place + 1 implies uses_more(#[trigger] list[i], total) by {
            if i > 0 {
                assert(list.skip(1)[i - 1] == list[i]);
            }
        }
        if place < list.skip(1).len() {
            assert(list.skip(1)[place] == list[place + 1]);
        }
    }
}

/// An overview lists what used more energy first; none is lost in ordering.
pub proof fn lemma_by_energy(list: Seq<TotalView>)
    ensures
        forall|i: int, j: int|
            0 <= i < j < by_energy(list).len() ==> (#[trigger] by_energy(list)[i]).energy >= (
            #[trigger] by_energy(list)[j]).energy,
        by_energy(list).to_multiset() == list.to_multiset(),
        by_energy(list).len() == list.len(),
    decreases list.len(),
{
    lemma_ordered(list);
    let now = by_energy(list);
    assert forall|i: int, j: int| 0 <= i < j < now.len() implies (#[trigger] now[i]).energy >= (
    #[trigger] now[j]).energy by {
        assert(uses_more(now[i], now[j]));
    }
    if list.len() == 0 {
        assert(now =~= list);
    } else {
        let rest = list.skip(1);
        lemma_by_energy(rest);
        let before = by_energy(rest);
        let place = place_among(before, list[0]);
        lemma_place_among(before, list[0]);
        let one = seq![list[0]];
        assert(list =~= one + rest);
        vstd::seq_lib::lemma_multiset_commutative(one, rest);
        assert(now =~= before.take(place) + one + before.skip(place));
        vstd::seq_lib::lemma_multiset_commutative(before.take(place), one);
        vstd::seq_lib::lemma_multiset_commutative(before.take(place) + one, before.skip(place));
        vstd::seq_lib::lemma_multiset_commutative(before.take(place), before.skip(place));
        assert(before =~= before.take(place) + before.skip(place));
        assert(now.to_multiset() =~= list.to_multiset());
    }
}

proof fn lemma_ordered(list: Seq<TotalView>)
    ensures
        forall|i: int, j: int|
            0 <= i < j < by_energy(list).len() ==> uses_more(
                #[trigger] by_energy(list)[i],
                #[trigger] by_energy(list)[j],
            ),
    decreases list.len(),
{
    if list.len() > 0 {
        let total = list[0];
        lemma_ordered(list.skip(1));
        let before = by_energy(list.skip(1));
        lemma_place_among(before, total);
        let place = place_among(before, total);
        let now = before.insert(place, total);
        assert forall|k: int| place <= k < before.len() implies uses_more(
            total,
            #[trigger] before[k],
        ) by {
            if k > place {
                assert(uses_more(before[place], before[k]));
                lemma_uses_more(total, before[place], before[k]);
            }
        }
        assert forall|i: int, j: int| 0 <= i < j < now.len() implies uses_more(
            #[trigger] now[i],
            #[trigger] now[j],
        ) by {
            let x = if i < place { i } else { i - 1 };
            let y = if j < place { j } else { j - 1 };
            if i == place {
                assert(now[j] == before[y]);
            } else if j == place {
                assert(now[i] == before[x]);
            } else {
                assert(now[i] == before[x] && now[j] == before[y]);
            }
        }
    }
}

/// No application's share is more than the whole.
pub proof fn lemma_share_at_most_whole(list: Seq<TotalView>, i: int)
    requires
        0 <= i < list.len(),
    ensures
        list[i].energy <= all_energy(list),
        share_of(list[i].energy, all_energy(list)) <= 10_000,
    decreases list.len(),
{
    if i < list.len() - 1 {
        lemma_share_at_most_whole(list.drop_last(), i);
        assert(list.drop_last()[i] == list[i]);
    }
    let part = list[i].energy as int;
    let whole = all_energy(list) as int;
    if whole > 0 {
        assert((2 * (part * 10_000) + whole) / (2 * whole) <= 10_000) by (nonlinear_arith)
            requires
                0 <= part <= whole,
                whole > 0,
        ;
        assert(round_div((part * 10_000) as nat, whole as nat) <= 10_000);
    }
}

fn more(a: &EnergyTotal, b: &EnergyTotal) -> (yes: bool)
    ensures
        yes == uses_more(a@, b@),
{
    if a.energy_mwh_e4 != b.energy_mwh_e4 {
        a.energy_mwh_e4 > b.energy_mwh_e4
    } else {
        string_le(a.target_id.as_str(), b.target_id.as_str())
    }
}

fn insert_total(list: &mut Vec<EnergyTotal>, total: EnergyTotal)
    ensures
        total_views(final(list)@) == total_views(old(list)@).insert(
            place_among(total_views(old(list)@), total@),
            total@,
        ),
{
    let ghost all = total_views(list@);
    let ghost t = total@;
    let mut place: usize = 0;
    assert(all.skip(0) =~= all);
    while place < list.len() && !more(&total, &list[place])
        invariant
            all == total_views(list@),
            t == total@,
            place <= list@.len(),
            place_among(all, t) == place + place_among(all.skip(place as int), t),
        decreases list@.len() - place,
    {
        assert(all.skip(place as int)[0] == list@[place as int]@);
        assert(all.skip(place as int).skip(1) =~= all.skip(place + 1));
        place = place + 1;
    }
    proof {
        if place < list@.len() {
            assert(all.skip(place as int)[0] == list@[place as int]@);
        }
        assert(place_among(all.skip(place as int), t) == 0);
    }
    list.insert(place, total);
    assert(total_views(list@) =~= all.insert(place as int, t));
}

fn sorted_totals(totals: Vec<EnergyTotal>) -> (sorted: Vec<EnergyTotal>)
    ensures
        total_views(sorted@) == by_energy(total_views(totals@)),
{
    let ghost all = total_views(totals@);
    let mut sorted: Vec<EnergyTotal> = Vec::new();
    let mut rest = totals;
    assert(all.skip(all.len() as int).len() == 0);
    assert(total_views(sorted@) =~= Seq::empty());
    while rest.len() > 0
        invariant
            rest@.len() <= all.len(),
            forall|k: int| 0 <= k < rest@.len() ==> (#[trigger] rest@[k])@ == all[k],
            total_views(sorted@) == by_energy(all.skip(rest@.len() as int)),
        decreases rest@.len(),
    {
        let ghost n = rest@.len() - 1;
        let total = match rest.pop() {
            Some(total) => total,
            None => {
                return sorted;
            },
        };
        assert(all.skip(n)[0] == total@);
        assert(all.skip(n).skip(1) =~= all.skip(n + 1));
        insert_total(&mut sorted, total);
    }
    assert(all.skip(0) =~= all);
    sorted
}

/// The applications that used most energy between two times.
pub fn energy_overview(
    catalog: &Catalog,
    totals: Vec<EnergyTotal>,
    params: EnergyOverviewParams,
    until_ms: u64,
) -> (overview: EnergyOverview)
    ensures
        overview.since_ms == params.since_ms,
        overview.until_ms == until_ms,
        overview.total_energy_mwh_e4 == all_energy(total_views(totals@)),
        overview.has_more == (totals@.len() > overview_limit(params.limit)),
        ({
            let entries = views_of(catalog.entries@);
            let shown = first_totals(
                by_energy(total_views(totals@)),
                overview_limit(params.limit),
            );
            let all = all_energy(total_views(totals@));
            &&& overview.applications@.len() == shown.len()
            &&& forall|i: int|
                0 <= i < shown.len() ==> (#[trigger] overview.applications@[i])@ == shared(
                    entries,
                    shown[i],
                    all,
                )
        }),
{
    let ghost views = total_views(totals@);
    let mut all: u64 = 0;
    for i in 0..totals.len()
        invariant
            views == total_views(totals@),
            all == all_energy(views.take(i as int)),
    {
        assert(views.take(i + 1).drop_last() =~= views.take(i as int));
        assert(views.take(i + 1).last() == totals@[i as int]@);
        all = all.saturating_add(totals[i].energy_mwh_e4);
    }
    assert(views.take(views.len() as int) =~= views);
    let limit: usize = if params.limit < 1 {
        1
    } else if params.limit > MAX_OVERVIEW_LIMIT {
        MAX_OVERVIEW_LIMIT
    } else {
        params.limit
    };
    let has_more = totals.len() > limit;
    let sorted = sorted_totals(totals);
    let ghost order = total_views(sorted@);
    proof {
        lemma_by_energy(views);
    }
    let count = if sorted.len() > limit {
        limit
    } else {
        sorted.len()
    };
    let ghost shown = first_totals(order, limit as nat);
    let mut applications: Vec<EnergyShare> = Vec::new();
    for i in 0..count
        invariant
            order == total_views(sorted@),
            shown == first_totals(order, limit as nat),
            count == shown.len(),
            count <= sorted@.len(),
            applications@.len() == i,
            forall|k: int|
                0 <= k < i ==> (#[trigger] applications@[k])@ == shared(
                    views_of(catalog.entries@),
                    shown[k],
                    all,
                ),
    {
        let total = &sorted[i];
        assert(shown[i as int] == total@);
        let target = total.target_id.as_str();
        let icon = match find_entry(catalog, target) {
            Some(place) => {
                assert(views_of(catalog.entries@)[place as int]
                    == catalog.entries@[place as int]@);
                catalog.entries[place].icon.clone()
            },
            None => "".to_owned(),
        };
        let share = EnergyShare {
            target_id: total.target_id.clone(),
            name: display_name(catalog, target),
            icon,
            energy_mwh_e4: total.energy_mwh_e4,
            share_e4: rate(wide_product(total.energy_mwh_e4, 10_000), all as u128),
            energy_source: total.energy_source.clone(),
            energy_confidence: total.energy_confidence.clone(),
        };
        applications.push(share);
    }
    EnergyOverview {
        since_ms: params.since_ms,
        until_ms,
        total_energy_mwh_e4: all,
        applications,
        has_more,
    }
}

} // verus!
