//! What is read back of a history.

use vstd::prelude::*;
use crate::action::{entry_place, name_of};
use crate::aggregate::{available, HistoryPoint};
use crate::catalog::EntryView;
use crate::cursor::{accepted, CursorError, HistoryCursor};
use crate::history::{
    cursor_result, energy_total, ledger_total, matching, merged_label, page_points, page_size,
    sample_milliseconds, EnergyEntry,
};
use crate::metrics::capped;
use crate::metrics_laws::{is_nearest, lemma_capped_sum, lemma_rated};
use crate::overview::{
    all_energy, by_energy, first_totals, icon_of, lemma_by_energy, overview_limit, shared,
    uses_more, TotalView,
};
use crate::series::{list_of, SeriesView};
use crate::text::text_le;
use crate::text_laws::lemma_endings;

verus! {

// ---------------------------------------------------------------------
// Pages

/// A query reads the points from a time on, and behind the cursor, in their order.
pub proof fn lemma_points_asked_for(
    points: Seq<HistoryPoint>,
    since: Option<u64>,
    after: Option<u64>,
)
    ensures
        matching(points, since, after) == points.filter(
            |p: HistoryPoint|
                (since is Some ==> since->0 <= p.timestamp_ms) && (after is Some ==> after->0
                    < p.timestamp_ms),
        ),
    decreases points.len(),
{
    reveal(Seq::filter);
    if points.len() > 0 {
        lemma_points_asked_for(points.drop_last(), since, after);
    }
}

/// A page is the beginning of what was asked for: as many points as the client wants,
/// one at least and ten thousand at most.
pub proof fn lemma_page_is_beginning(
    points: Seq<HistoryPoint>,
    since: Option<u64>,
    after: Option<u64>,
    limit: usize,
)
    ensures
        ({
            let all = matching(points, since, after);
            let page = page_points(points, since, after, limit);
            let n: int = if limit == 0 {
                1
            } else if limit > 10_000 {
                10_000
            } else {
                limit as int
            };
            &&& page_size(limit) == n
            &&& all.len() <= n ==> page == all
            &&& all.len() > n ==> page == all.take(n)
        }),
{
}

/// A cursor is taken for the application that it was made for, if it is of this
/// version, and for no other.
pub proof fn lemma_cursor(cursor: HistoryCursor, target: Seq<char>)
    ensures
        cursor.version == 1 && cursor.target_id@ == target ==> accepted(cursor, target) == Ok::<
            u64,
            CursorError,
        >(cursor.after_timestamp_ms),
        cursor.version != 1 ==> accepted(cursor, target) == Err::<u64, CursorError>(
            CursorError::UnsupportedVersion,
        ),
        cursor.version == 1 && cursor.target_id@ != target ==> accepted(cursor, target) == Err::<
            u64,
            CursorError,
        >(CursorError::OtherTarget),
{
}

/// Without a cursor a page begins at the beginning; a cursor that cannot be read or
/// is refused gives no page.
pub proof fn lemma_cursor_result(
    cursor: Option<Result<HistoryCursor, CursorError>>,
    target: Seq<char>,
)
    ensures
        cursor is None ==> cursor_result(cursor, target) == Ok::<Option<u64>, CursorError>(None),
        match cursor {
            Some(Err(e)) => cursor_result(cursor, target) == Err::<Option<u64>, CursorError>(e),
            Some(Ok(c)) => if c.version == 1 && c.target_id@ == target {
                cursor_result(cursor, target) == Ok::<Option<u64>, CursorError>(
                    Some(c.after_timestamp_ms),
                )
            } else {
                cursor_result(cursor, target) is Err
            },
            None => true,
        },
{
}

/// A sample counts for as many milliseconds as it lasted, and for one at least.
pub proof fn lemma_sample_milliseconds(nanoseconds: u64)
    ensures
        sample_milliseconds(nanoseconds) >= 1,
        nanoseconds >= 500_000 ==> is_nearest(
            sample_milliseconds(nanoseconds) as int,
            nanoseconds as int,
            1_000_000,
        ),
{
    lemma_rated(nanoseconds as nat, 1_000_000);
}

// ---------------------------------------------------------------------
// The energy ledger

/// The energy of the entries that end between two times.
pub open spec fn energy_between(entries: Seq<EnergyEntry>, since: u64, until: u64) -> nat
    decreases entries.len(),
{
    if entries.len() == 0 {
        0
    } else {
        energy_between(entries.drop_last(), since, until) + if since <= entries.last().timestamp_ms
            <= until {
            entries.last().energy_mwh_e4 as nat
        } else {
            0
        }
    }
}

proof fn lemma_ledger(entries: Seq<EnergyEntry>, since: u64, until: u64)
    ensures
        match ledger_total(entries, since, until) {
            Some(total) => total.energy_mwh_e4 == capped(energy_between(entries, since, until)),
            None => energy_between(entries, since, until) == 0,
        },
    decreases entries.len(),
{
    if entries.len() > 0 {
        let front = entries.drop_last();
        lemma_ledger(front, since, until);
        lemma_capped_sum(
            energy_between(front, since, until),
            entries.last().energy_mwh_e4 as nat,
        );
    }
}

/// The energy of an application between two times is that of its finished minutes
/// that end in that time, and of the minute that is still going on if it lies in it.
pub proof fn lemma_energy_total(
    s: SeriesView<EnergyEntry, EnergyEntry>,
    id: Seq<char>,
    since: u64,
    until: u64,
)
    ensures
        ({
            let finished = energy_between(list_of(s.points, id), since, until);
            let pending: nat = if s.pending.contains_key(id) && s.pending[id].timestamp_ms <= until
                && s.pending[id].timestamp_ms + 60_000 >= since {
                s.pending[id].energy_mwh_e4 as nat
            } else {
                0
            };
            energy_total(s, id, since, until).energy_mwh_e4 == capped(finished + pending)
        }),
{
    let list = list_of(s.points, id);
    lemma_ledger(list, since, until);
    if s.pending.contains_key(id) {
        lemma_capped_sum(
            energy_between(list, since, until),
            s.pending[id].energy_mwh_e4 as nat,
        );
    }
}

/// The energy of samples of one minute adds up, and the minute is dated by its end.
pub proof fn lemma_minute(start: u64, energies: Seq<u64>, source: Seq<char>, confidence: Seq<char>)
    requires
        start + 60_000 <= u64::MAX,
        source != ""@,
        confidence != ""@,
    ensures
        ({
            let entry = minute_of(start, energies, source, confidence).finished();
            &&& entry.timestamp_ms == start + 60_000
            &&& entry.energy_mwh_e4 == capped(sum_of(energies))
            &&& energies.len() > 0 ==> entry.energy_source == source && entry.energy_confidence
                == confidence
            &&& energies.len() == 0 ==> entry.energy_source == "unavailable"@
                && entry.energy_confidence == "unavailable"@
        }),
    decreases energies.len(),
{
    if energies.len() > 0 {
        lemma_minute(start, energies.drop_last(), source, confidence);
        lemma_capped_sum(sum_of(energies.drop_last()), energies.last() as nat);
        lemma_minute_label(start, energies, source, confidence);
    }
}

proof fn lemma_minute_label(
    start: u64,
    energies: Seq<u64>,
    source: Seq<char>,
    confidence: Seq<char>,
)
    requires
        source != ""@,
        confidence != ""@,
    ensures
        minute_of(start, energies, source, confidence).energy_source == (if energies.len() == 0 {
            ""@
        } else {
            source
        }),
        minute_of(start, energies, source, confidence).energy_confidence == (if energies.len()
            == 0 {
            ""@
        } else {
            confidence
        }),
    decreases energies.len(),
{
    if energies.len() > 0 {
        lemma_minute_label(start, energies.drop_last(), source, confidence);
    }
}

/// A minute with samples of these energies.
pub open spec fn minute_of(
    start: u64,
    energies: Seq<u64>,
    source: Seq<char>,
    confidence: Seq<char>,
) -> EnergyEntry
    decreases energies.len(),
{
    if energies.len() == 0 {
        EnergyEntry::empty(start)
    } else {
        minute_of(start, energies.drop_last(), source, confidence).plus(
            energies.last(),
            source,
            confidence,
        )
    }
}

pub open spec fn sum_of(list: Seq<u64>) -> nat
    decreases list.len(),
{
    if list.len() == 0 {
        0
    } else {
        sum_of(list.drop_last()) + list.last() as nat
    }
}

/// Labels that differ are mixed, and a missing label changes nothing.
pub proof fn lemma_labels(a: Seq<char>, b: Seq<char>)
    requires
        a != ""@,
        b != ""@,
    ensures
        merged_label(a, a) == a,
        a != b ==> merged_label(a, b) == "mixed"@,
        merged_label(a, ""@) == a,
        merged_label(""@, a) == a,
        available(a) == a,
        available(""@) == "unavailable"@,
{
}

// ---------------------------------------------------------------------
// The overview

pub open spec fn energies(list: Seq<TotalView>) -> nat
    decreases list.len(),
{
    if list.len() == 0 {
        0
    } else {
        energies(list.drop_last()) + list.last().energy as nat
    }
}

/// The whole is the energy of all applications together.
pub proof fn lemma_whole_energy(list: Seq<TotalView>)
    ensures
        all_energy(list) == capped(energies(list)),
    decreases list.len(),
{
    if list.len() > 0 {
        lemma_whole_energy(list.drop_last());
        lemma_capped_sum(energies(list.drop_last()), list.last().energy as nat);
    }
}

/// An application's share is its part of the whole, in ten-thousandths, under its
/// name and with its icon.
pub proof fn lemma_share(entries: Seq<EntryView>, total: TotalView, all: u64)
    ensures
        ({
            let share = shared(entries, total, all);
            &&& share.target == total.target
            &&& share.energy == total.energy
            &&& share.source == total.source
            &&& share.confidence == total.confidence
            &&& all == 0 ==> share.share == 0
            &&& 0 < all && total.energy <= all ==> is_nearest(
                share.share as int,
                total.energy * 10_000,
                all as int,
            )
        }),
{
    if 0 < all && total.energy <= all {
        lemma_rated((total.energy * 10_000) as nat, all as nat);
        assert(2 * (total.energy * 10_000) + all < 2 * u64::MAX * all) by (nonlinear_arith)
            requires
                total.energy <= all,
                all > 0,
        ;
    }
}

/// Where an application stands in the catalog: at the first entry with its id.
pub proof fn lemma_entry_place(entries: Seq<EntryView>, id: Seq<char>, i: int)
    requires
        0 <= i < entries.len(),
        entries[i].id == id,
        forall|j: int| 0 <= j < i ==> (#[trigger] entries[j]).id != id,
    ensures
        entry_place(entries, id) == i,
        name_of(entries, id) == entries[i].name,
        icon_of(entries, id) == entries[i].icon,
    decreases entries.len(),
{
    if i > 0 {
        let rest = entries.skip(1);
        assert(entries[0].id != id);
        assert(rest[i - 1] == entries[i]);
        assert forall|j: int| 0 <= j < i - 1 implies (#[trigger] rest[j]).id != id by {
            assert(rest[j] == entries[j + 1]);
        }
        lemma_entry_place(rest, id, i - 1);
    }
}

/// What is not in the catalog has no icon; a group of windows is called by its class,
/// anything else by its id.
pub proof fn lemma_no_entry(entries: Seq<EntryView>, id: Seq<char>, class: Seq<char>)
    requires
        forall|j: int| 0 <= j < entries.len() ==> (#[trigger] entries[j]).id != id,
    ensures
        entry_place(entries, id) == entries.len(),
        icon_of(entries, id) == ""@,
        id == "window-group:"@ + class ==> name_of(entries, id) == class,
        !crate::text::starts_with(id, "window-group:"@) ==> name_of(entries, id) == id,
    decreases entries.len(),
{
    lemma_endings(class, "window-group:"@);
    if entries.len() > 0 {
        let rest = entries.skip(1);
        assert(entries[0].id != id);
        assert forall|j: int| 0 <= j < rest.len() implies (#[trigger] rest[j]).id != id by {
            assert(rest[j] == entries[j + 1]);
        }
        lemma_no_entry(rest, id, class);
    }
}

/// An overview lists what used most first, and of equals the one with the lesser id;
/// it shows as many as asked for, one at least and a thousand at most.
pub proof fn lemma_overview_order(list: Seq<TotalView>, limit: usize, i: int, j: int)
    requires
        0 <= i < j < by_energy(list).len(),
    ensures
        by_energy(list)[i].energy >= by_energy(list)[j].energy,
        by_energy(list).to_multiset() == list.to_multiset(),
        ({
            let n: int = if limit == 0 {
                1
            } else if limit > 1000 {
                1000
            } else {
                limit as int
            };
            let shown = first_totals(by_energy(list), overview_limit(limit));
            &&& list.len() <= n ==> shown == by_energy(list)
            &&& list.len() > n ==> shown == by_energy(list).take(n)
        }),
{
    lemma_by_energy(list);
}

/// Of two that used the same, the one with the lesser id goes first.
pub proof fn lemma_equal_energy(a: TotalView, b: TotalView)
    ensures
        a.energy > b.energy ==> uses_more(a, b) && !uses_more(b, a),
        a.energy == b.energy ==> uses_more(a, b) == text_le(a.target, b.target),
{
}

} // verus!
