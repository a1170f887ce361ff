//! What holds of the energy ledger over many samples.

use vstd::prelude::*;
use crate::history::{
    energy_recorded, energy_total, ledger_total, EnergyEntry, EnergyHistoryPoint, PendingEnergy,
    ENERGY_BUCKET_MILLISECONDS, ENERGY_RETENTION_MILLISECONDS,
};
use crate::metrics::{counter_increase, counter_sum};
use crate::model::ResourceUsage;
use crate::series::{flushed, is_expired, list_of, recent, SeriesView};
use crate::series_laws::{
    chronological, lemma_bucket_is_present, lemma_bucket_start, lemma_refill_forgets,
    lemma_refill_keeps_order,
};

verus! {

/// A sample that is not older than the ledger keeps it in order: lists stay
/// oldest first, and entries stay aligned to the minutes of the wall clock.
pub proof fn lemma_record_keeps_order(
    s: SeriesView<EnergyEntry, EnergyEntry>,
    before: u64,
    id: Seq<char>,
    now: u64,
    usage: ResourceUsage,
)
    requires
        chronological::<PendingEnergy>(s, before),
        before <= now,
        now + ENERGY_BUCKET_MILLISECONDS <= u64::MAX,
    ensures
        chronological::<PendingEnergy>(energy_recorded(s, id, now, usage), now),
{
    let bucket = energy_recorded(s, id, now, usage).pending[id];
    let cutoff = counter_increase(ENERGY_RETENTION_MILLISECONDS, now);
    lemma_bucket_is_present::<PendingEnergy>(s, before, id, now);
    lemma_refill_keeps_order::<PendingEnergy>(s, before, id, now, bucket, cutoff);
}

/// After a sample no entry of a ledger in order is older than a week.
pub proof fn lemma_retention(
    s: SeriesView<EnergyEntry, EnergyEntry>,
    before: u64,
    id: Seq<char>,
    now: u64,
    usage: ResourceUsage,
    other: Seq<char>,
    i: int,
)
    requires
        chronological::<PendingEnergy>(s, before),
        before <= now,
        now + ENERGY_BUCKET_MILLISECONDS <= u64::MAX,
        energy_recorded(s, id, now, usage).points.contains_key(other),
        0 <= i < energy_recorded(s, id, now, usage).points[other].len(),
    ensures
        energy_recorded(s, id, now, usage).points[other][i].timestamp_ms
            >= now - ENERGY_RETENTION_MILLISECONDS,
{
    let bucket = energy_recorded(s, id, now, usage).pending[id];
    let cutoff = counter_increase(ENERGY_RETENTION_MILLISECONDS, now);
    lemma_bucket_is_present::<PendingEnergy>(s, before, id, now);
    lemma_refill_forgets::<PendingEnergy>(s, before, id, now, bucket, cutoff, other, i);
}

/// An entry before the asked time makes no difference to a total.
proof fn lemma_total_without_first(entries: Seq<EnergyEntry>, since: u64, until: u64)
    requires
        entries.len() > 0,
        entries[0].timestamp_ms < since,
    ensures
        ledger_total(entries.skip(1), since, until) == ledger_total(entries, since, until),
    decreases entries.len(),
{
    if entries.len() == 1 {
        assert(entries.skip(1).len() == 0);
        assert(entries.drop_last().len() == 0);
    } else {
        assert(entries.skip(1).drop_last() =~= entries.drop_last().skip(1));
        assert(entries.skip(1).last() == entries.last());
        assert(entries.drop_last()[0] == entries[0]);
        lemma_total_without_first(entries.drop_last(), since, until);
    }
}

/// Forgetting entries from before the asked time makes no difference to a total.
proof fn lemma_total_of_recent(entries: Seq<EnergyEntry>, cutoff: u64, since: u64, until: u64)
    requires
        cutoff <= since,
    ensures
        ledger_total(recent::<EnergyHistoryPoint>(entries, cutoff), since, until) == ledger_total(
            entries,
            since,
            until,
        ),
    decreases entries.len(),
{
    if entries.len() > 0 && entries[0].timestamp_ms < cutoff {
        lemma_total_without_first(entries, since, until);
        lemma_total_of_recent(entries.skip(1), cutoff, since, until);
    }
}

/// Finishing the minutes that are over changes no application's energy.
proof fn lemma_flush_keeps_energy(
    s: SeriesView<EnergyEntry, EnergyEntry>,
    id: Seq<char>,
    now: u64,
    since: u64,
    until: u64,
)
    requires
        now <= until,
    ensures
        energy_total(flushed::<PendingEnergy>(s, now), id, since, until).energy_mwh_e4
            == energy_total(s, id, since, until).energy_mwh_e4,
{
    let after = flushed::<PendingEnergy>(s, now);
    let list = list_of(s.points, id);
    if is_expired::<PendingEnergy>(s, now)(id) {
        let entry = s.pending[id].finished();
        assert(list_of(after.points, id) == list.push(entry));
        assert(list.push(entry).drop_last() =~= list);
        assert(list.push(entry).last() == entry);
        assert(!after.pending.contains_key(id));
    } else {
        assert(list_of(after.points, id) =~= list);
        assert(after.pending.contains_key(id) == s.pending.contains_key(id));
    }
}

/// The energy of a sample is added to its application's total and to no other:
/// nothing is lost where minutes end or old entries are forgotten.
pub proof fn lemma_recorded_energy_is_totalled(
    s: SeriesView<EnergyEntry, EnergyEntry>,
    before: u64,
    id: Seq<char>,
    now: u64,
    usage: ResourceUsage,
    other: Seq<char>,
    since: u64,
    until: u64,
)
    requires
        chronological::<PendingEnergy>(s, before),
        before <= now,
        now + ENERGY_BUCKET_MILLISECONDS <= u64::MAX,
        counter_increase(ENERGY_RETENTION_MILLISECONDS, now) <= since <= now <= until,
    ensures
        energy_total(energy_recorded(s, id, now, usage), other, since, until).energy_mwh_e4
            == counter_sum(
            energy_total(s, other, since, until).energy_mwh_e4,
            if other == id {
                usage.energy.energy_mwh_e4
            } else {
                0
            },
        ),
{
    let cutoff = counter_increase(ENERGY_RETENTION_MILLISECONDS, now);
    let over = flushed::<PendingEnergy>(s, now);
    let after = energy_recorded(s, id, now, usage);
    lemma_flush_keeps_energy(s, other, now, since, until);
    lemma_bucket_is_present::<PendingEnergy>(s, before, id, now);
    lemma_bucket_start(now, ENERGY_BUCKET_MILLISECONDS, 0);
    let list = list_of(over.points, other);
    lemma_total_of_recent(list, cutoff, since, until);
    assert(list_of(after.points, other) =~= recent::<EnergyHistoryPoint>(list, cutoff));
}

} // verus!
