//! What is kept of a history, and for how long.

use vstd::prelude::*;
use crate::aggregate::{HistoryPoint, Pending, PendingPoint};
use crate::history::{
    energy_recorded, usage_recorded, EnergyEntry, EnergyHistoryPoint, PendingEnergy,
};
use crate::model::{ResourceHistoryPoint, ResourceUsage};
use crate::series::{
    closed_where, flushed, is_expired, list_of, pruned, recent, turned, Bucket, Dated,
    SeriesView,
};
use crate::series_laws::chronological;

verus! {

// ---------------------------------------------------------------------
// Points

/// A point that is not older than the cutoff stays.
pub proof fn lemma_recent_stays<P: Dated>(points: Seq<P::V>, cutoff: u64, i: int)
    requires
        0 <= i < points.len(),
        P::date_of(points[i]) >= cutoff,
    ensures
        recent::<P>(points, cutoff).contains(points[i]),
    decreases points.len(),
{
    if points.len() > 0 && P::date_of(points[0]) < cutoff {
        let rest = points.skip(1);
        assert(rest[i - 1] == points[i]);
        lemma_recent_stays::<P>(rest, cutoff, i - 1);
    }
}

/// Where no point is too old nothing is forgotten.
pub proof fn lemma_nothing_old<P: Dated>(
    points: Map<Seq<char>, Seq<P::V>>,
    cutoff: u64,
    id: Seq<char>,
)
    requires
        points.contains_key(id),
        points[id].len() > 0,
        forall|i: int| 0 <= i < points[id].len() ==> P::date_of(#[trigger] points[id][i]) >= cutoff,
    ensures
        pruned::<P>(points, cutoff).contains_key(id),
        pruned::<P>(points, cutoff)[id] == points[id],
{
    assert(P::date_of(points[id][0]) >= cutoff);
}

/// Closing buckets takes no point away.
proof fn lemma_closing_adds<Q: Bucket>(
    s: SeriesView<<Q::Point as View>::V, Q::V>,
    which: spec_fn(Seq<char>) -> bool,
    id: Seq<char>,
    point: <Q::Point as View>::V,
)
    requires
        s.points.contains_key(id),
        s.points[id].contains(point),
    ensures
        closed_where::<Q>(s, which).points.contains_key(id),
        closed_where::<Q>(s, which).points[id].contains(point),
{
    let i = choose|i: int| 0 <= i < s.points[id].len() && s.points[id][i] == point;
    assert(closed_where::<Q>(s, which).points[id][i] == point);
}

proof fn lemma_turning_adds<Q: Bucket>(
    s: SeriesView<<Q::Point as View>::V, Q::V>,
    own: Seq<char>,
    now: u64,
    id: Seq<char>,
    point: <Q::Point as View>::V,
)
    requires
        s.points.contains_key(id),
        s.points[id].contains(point),
    ensures
        turned::<Q>(s, own, now).points.contains_key(id),
        turned::<Q>(s, own, now).points[id].contains(point),
{
    lemma_closing_adds::<Q>(s, is_expired::<Q>(s, now), id, point);
    lemma_closing_adds::<Q>(flushed::<Q>(s, now), |other: Seq<char>| other == own, id, point);
}

/// A point that is no older than a day stays when a sample comes.
pub proof fn lemma_day_is_kept(
    s: SeriesView<HistoryPoint, Pending>,
    own: Seq<char>,
    now: u64,
    duration_ms: u64,
    usage: ResourceUsage,
    id: Seq<char>,
    i: int,
)
    requires
        s.points.contains_key(id),
        0 <= i < s.points[id].len(),
        s.points[id][i].timestamp_ms + 86_400_000 >= now,
    ensures
        ({
            let after = usage_recorded(s, own, now, duration_ms, usage);
            after.points.contains_key(id) && after.points[id].contains(s.points[id][i])
        }),
{
    let point = s.points[id][i];
    assert(s.points[id].contains(point));
    lemma_turning_adds::<PendingPoint>(s, own, now, id, point);
    let list = turned::<PendingPoint>(s, own, now).points[id];
    let k = choose|k: int| 0 <= k < list.len() && list[k] == point;
    let cutoff = crate::metrics::counter_increase(crate::history::RETENTION_MILLISECONDS, now);
    lemma_recent_stays::<ResourceHistoryPoint>(list, cutoff, k);
}

/// No point stays that is older than a day.
pub proof fn lemma_no_more_than_a_day(
    s: SeriesView<HistoryPoint, Pending>,
    before: u64,
    own: Seq<char>,
    now: u64,
    duration_ms: u64,
    usage: ResourceUsage,
    id: Seq<char>,
    i: int,
)
    requires
        chronological::<PendingPoint>(s, before),
        before <= now,
        now + 15_000 <= u64::MAX,
        usage_recorded(s, own, now, duration_ms, usage).points.contains_key(id),
        0 <= i < usage_recorded(s, own, now, duration_ms, usage).points[id].len(),
    ensures
        usage_recorded(s, own, now, duration_ms, usage).points[id][i].timestamp_ms + 86_400_000
            >= now,
{
    crate::history_laws::lemma_retention(s, before, own, now, duration_ms, usage, id, i);
}

/// An entry of the energy ledger that is no older than a week stays.
pub proof fn lemma_week_is_kept(
    s: SeriesView<EnergyEntry, EnergyEntry>,
    own: Seq<char>,
    now: u64,
    usage: ResourceUsage,
    id: Seq<char>,
    i: int,
)
    requires
        s.points.contains_key(id),
        0 <= i < s.points[id].len(),
        s.points[id][i].timestamp_ms + 604_800_000 >= now,
    ensures
        ({
            let after = energy_recorded(s, own, now, usage);
            after.points.contains_key(id) && after.points[id].contains(s.points[id][i])
        }),
{
    let point = s.points[id][i];
    assert(s.points[id].contains(point));
    lemma_turning_adds::<PendingEnergy>(s, own, now, id, point);
    let list = turned::<PendingEnergy>(s, own, now).points[id];
    let k = choose|k: int| 0 <= k < list.len() && list[k] == point;
    let cutoff = crate::metrics::counter_increase(
        crate::history::ENERGY_RETENTION_MILLISECONDS,
        now,
    );
    lemma_recent_stays::<EnergyHistoryPoint>(list, cutoff, k);
}

/// No entry stays that is older than a week.
pub proof fn lemma_no_more_than_a_week(
    s: SeriesView<EnergyEntry, EnergyEntry>,
    before: u64,
    own: Seq<char>,
    now: u64,
    usage: ResourceUsage,
    id: Seq<char>,
    i: int,
)
    requires
        chronological::<PendingEnergy>(s, before),
        before <= now,
        now + 60_000 <= u64::MAX,
        energy_recorded(s, own, now, usage).points.contains_key(id),
        0 <= i < energy_recorded(s, own, now, usage).points[id].len(),
    ensures
        energy_recorded(s, own, now, usage).points[id][i].timestamp_ms + 604_800_000 >= now,
{
    crate::ledger_laws::lemma_retention(s, before, own, now, usage, id, i);
}

// ---------------------------------------------------------------------
// Buckets

/// A bucket of a quarter of a minute that is not over stays as it is; one that is over
/// becomes the last point of its application.
pub proof fn lemma_quarter_minutes(
    s: SeriesView<HistoryPoint, Pending>,
    now: u64,
    id: Seq<char>,
)
    requires
        s.pending.contains_key(id),
        s.pending[id].timestamp_ms + 15_000 <= u64::MAX,
    ensures
        ({
            let after = flushed::<PendingPoint>(s, now);
            &&& s.pending[id].timestamp_ms + 15_000 > now ==> after.pending.contains_key(id)
                && after.pending[id] == s.pending[id] && list_of(after.points, id) == list_of(
                s.points,
                id,
            )
            &&& s.pending[id].timestamp_ms + 15_000 <= now && s.pending[id].weights.duration_ms > 0
                ==> !after.pending.contains_key(id) && list_of(after.points, id) == list_of(
                s.points,
                id,
            ).push(s.pending[id].finished())
        }),
{
}

/// The ledger has one entry for each minute.
pub proof fn lemma_minutes(s: SeriesView<EnergyEntry, EnergyEntry>, now: u64, id: Seq<char>)
    requires
        s.pending.contains_key(id),
        s.pending[id].timestamp_ms + 60_000 <= u64::MAX,
    ensures
        ({
            let after = flushed::<PendingEnergy>(s, now);
            &&& s.pending[id].timestamp_ms + 60_000 > now ==> after.pending.contains_key(id)
                && after.pending[id] == s.pending[id] && list_of(after.points, id) == list_of(
                s.points,
                id,
            )
            &&& s.pending[id].timestamp_ms + 60_000 <= now ==> !after.pending.contains_key(id)
                && list_of(after.points, id) == list_of(s.points, id).push(
                s.pending[id].finished(),
            )
        }),
{
}

/// What one application is recorded with is no other's.
pub proof fn lemma_others_stay(
    s: SeriesView<HistoryPoint, Pending>,
    own: Seq<char>,
    now: u64,
    duration_ms: u64,
    usage: ResourceUsage,
    id: Seq<char>,
)
    requires
        id != own,
    ensures
        ({
            let after = usage_recorded(s, own, now, duration_ms, usage);
            let before = flushed::<PendingPoint>(s, now);
            after.pending.contains_key(id) == before.pending.contains_key(id) && (
            before.pending.contains_key(id) ==> after.pending[id] == before.pending[id])
        }),
{
}

/// A sample goes into the bucket of its own time, even where the clock was set back; a
/// bucket begins at a full quarter of a minute, and an entry of the ledger at a full
/// minute.
pub proof fn lemma_own_time(
    s: SeriesView<HistoryPoint, Pending>,
    ledger: SeriesView<EnergyEntry, EnergyEntry>,
    own: Seq<char>,
    now: u64,
    duration_ms: u64,
    usage: ResourceUsage,
)
    ensures
        ({
            let start = usage_recorded(s, own, now, duration_ms, usage).pending[own].timestamp_ms;
            start <= now < start + 15_000 && start % 15_000 == 0
        }),
        ({
            let start = energy_recorded(ledger, own, now, usage).pending[own].timestamp_ms;
            start <= now < start + 60_000 && start % 60_000 == 0
        }),
{
    assert((now - now % 15_000) % 15_000 == 0);
    assert((now - now % 60_000) % 60_000 == 0);
}

/// An application without points has no list of them.
pub proof fn lemma_no_empty_list<P: Dated>(
    points: Map<Seq<char>, Seq<P::V>>,
    cutoff: u64,
    id: Seq<char>,
)
    ensures
        pruned::<P>(points, cutoff).contains_key(id) ==> points.contains_key(id) && pruned::<P>(
            points,
            cutoff,
        )[id].len() > 0,
{
}

} // verus!
