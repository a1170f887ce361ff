//! What holds of a history over many samples and queries.

use vstd::prelude::*;
use crate::aggregate::{HistoryPoint, Pending, PendingPoint, BUCKET_MILLISECONDS};
use crate::history::{
    matches_query, matching, page_points, usage_recorded, EnergyEntry, EnergyHistoryPoint,
    HistoryFile, ENERGY_RETENTION_MILLISECONDS, RETENTION_MILLISECONDS,
};
use crate::metrics::counter_increase;
use crate::model::{ResourceHistoryPoint, ResourceUsage};
use crate::series::{bucket_start, flushed, is_expired, list_of, pruned, SeriesView};
use crate::series_laws::{
    chronological, lemma_bucket_is_present, lemma_bucket_start, lemma_prune_again,
    lemma_refill_forgets, lemma_refill_keeps_order, oldest_first,
};

verus! {

/// A sample that is not older than the history keeps it in order: lists stay
/// oldest first, and points and buckets stay aligned to the wall clock.
pub proof fn lemma_record_keeps_order(
    s: SeriesView<HistoryPoint, Pending>,
    before: u64,
    id: Seq<char>,
    now: u64,
    duration_ms: u64,
    usage: ResourceUsage,
)
    requires
        chronological::<PendingPoint>(s, before),
        before <= now,
        now + BUCKET_MILLISECONDS <= u64::MAX,
    ensures
        chronological::<PendingPoint>(usage_recorded(s, id, now, duration_ms, usage), now),
{
    let bucket = usage_recorded(s, id, now, duration_ms, usage).pending[id];
    let cutoff = counter_increase(RETENTION_MILLISECONDS, now);
    lemma_bucket_is_present::<PendingPoint>(s, before, id, now);
    lemma_refill_keeps_order::<PendingPoint>(s, before, id, now, bucket, cutoff);
}

/// After a sample no point of a history in order is older than a day.
pub proof fn lemma_retention(
    s: SeriesView<HistoryPoint, Pending>,
    before: u64,
    id: Seq<char>,
    now: u64,
    duration_ms: u64,
    usage: ResourceUsage,
    other: Seq<char>,
    i: int,
)
    requires
        chronological::<PendingPoint>(s, before),
        before <= now,
        now + BUCKET_MILLISECONDS <= u64::MAX,
        usage_recorded(s, id, now, duration_ms, usage).points.contains_key(other),
        0 <= i < usage_recorded(s, id, now, duration_ms, usage).points[other].len(),
    ensures
        usage_recorded(s, id, now, duration_ms, usage).points[other][i].timestamp_ms
            >= now - RETENTION_MILLISECONDS,
{
    let bucket = usage_recorded(s, id, now, duration_ms, usage).pending[id];
    let cutoff = counter_increase(RETENTION_MILLISECONDS, now);
    lemma_bucket_is_present::<PendingPoint>(s, before, id, now);
    lemma_refill_forgets::<PendingPoint>(s, before, id, now, bucket, cutoff, other, i);
}

/// How many points of a list in order a later page leaves out.
proof fn lemma_continue(
    points: Seq<HistoryPoint>,
    since: Option<u64>,
    after: Option<u64>,
    end: u64,
) -> (k: int)
    requires
        oldest_first::<ResourceHistoryPoint>(points),
        after is Some ==> after->0 <= end,
    ensures
        0 <= k <= matching(points, since, after).len(),
        matching(points, since, Some(end)) == matching(points, since, after).skip(k),
        forall|i: int|
            0 <= i < k ==> (#[trigger] matching(points, since, after)[i]).timestamp_ms <= end,
        forall|i: int|
            k <= i < matching(points, since, after).len() ==> (#[trigger] matching(
                points,
                since,
                after,
            )[i]).timestamp_ms > end,
        oldest_first::<ResourceHistoryPoint>(matching(points, since, after)),
        forall|i: int|
            0 <= i < matching(points, since, after).len() ==> (#[trigger] matching(
                points,
                since,
                after,
            )[i]).timestamp_ms <= points.last().timestamp_ms,
    decreases points.len(),
{
    if points.len() == 0 {
        assert(matching(points, since, Some(end)) =~= matching(points, since, after).skip(0));
        0
    } else {
        let front = points.drop_last();
        let last = points.last();
        let before = matching(front, since, after);
        let k = lemma_continue(front, since, after, end);
        let all = matching(points, since, after);
        assert forall|i: int| 0 <= i < before.len() implies (#[trigger] before[i]).timestamp_ms
            < last.timestamp_ms by {
            assert(before[i].timestamp_ms <= front.last().timestamp_ms);
            assert(front.last() == points[points.len() - 2]);
            assert(points[points.len() - 2].timestamp_ms < points[points.len() - 1].timestamp_ms);
        }
        if matches_query(last, since, after) {
            if last.timestamp_ms > end {
                assert(matching(points, since, Some(end)) =~= all.skip(k));
                k
            } else {
                assert(k == before.len()) by {
                    if k < before.len() {
                        assert(before[k].timestamp_ms > end);
                    }
                }
                assert(matching(points, since, Some(end)) =~= all.skip(all.len() as int));
                all.len() as int
            }
        } else {
            assert(matching(points, since, Some(end)) =~= all.skip(k));
            k
        }
    }
}

/// A page continues exactly where the page before ended: the next page begins
/// with the first point that was not shown, so following the cursors shows every
/// point once.
pub proof fn lemma_pages_continue(
    points: Seq<HistoryPoint>,
    since: Option<u64>,
    after: Option<u64>,
    limit: usize,
)
    requires
        oldest_first::<ResourceHistoryPoint>(points),
        page_points(points, since, after, limit).len() > 0,
    ensures
        ({
            let page = page_points(points, since, after, limit);
            let rest = matching(points, since, Some(page.last().timestamp_ms));
            &&& oldest_first::<ResourceHistoryPoint>(page)
            &&& page + rest == matching(points, since, after)
        }),
{
    let page = page_points(points, since, after, limit);
    let all = matching(points, since, after);
    let end = page.last().timestamp_ms;
    let last = page.len() - 1;
    lemma_matching(points, since, after);
    assert(page[last] == all[last]);
    assert(matches_query(all[last], since, after));
    let k = lemma_continue(points, since, after, end);
    assert(k == page.len()) by {
        if k < page.len() {
            if k <= last {
                assert(all[last].timestamp_ms > end);
            }
        }
        if k > page.len() {
            assert(all[last].timestamp_ms < all[last + 1].timestamp_ms);
            assert(all[last + 1].timestamp_ms <= end);
        }
    }
    assert(page =~= all.take(k));
    assert(page + all.skip(k) =~= all);
}

proof fn lemma_matching(points: Seq<HistoryPoint>, since: Option<u64>, after: Option<u64>)
    ensures
        forall|i: int|
            0 <= i < matching(points, since, after).len() ==> matches_query(
                #[trigger] matching(points, since, after)[i],
                since,
                after,
            ),
    decreases points.len(),
{
    if points.len() > 0 {
        let before = matching(points.drop_last(), since, after);
        lemma_matching(points.drop_last(), since, after);
        assert forall|i: int| 0 <= i < matching(points, since, after).len() implies matches_query(
            #[trigger] matching(points, since, after)[i],
            since,
            after,
        ) by {
            if i < before.len() {
                assert(matches_query(before[i], since, after));
            }
        }
    }
}

/// What was recorded can be read: once its bucket is over, the sample is part of
/// the newest point of its application's history, and the point is dated by the
/// end of the bucket.
pub proof fn lemma_recorded_is_read(
    s: SeriesView<HistoryPoint, Pending>,
    before: u64,
    id: Seq<char>,
    recorded: u64,
    duration_ms: u64,
    usage: ResourceUsage,
    now: u64,
)
    requires
        chronological::<PendingPoint>(s, before),
        before <= recorded,
        duration_ms > 0,
        recorded + BUCKET_MILLISECONDS <= now,
    ensures
        ({
            let after = usage_recorded(s, id, recorded, duration_ms, usage);
            let end = bucket_start(recorded, BUCKET_MILLISECONDS) + BUCKET_MILLISECONDS;
            let read = matching(
                list_of(flushed::<PendingPoint>(after, now).points, id),
                None,
                None,
            );
            &&& read.len() > 0
            &&& read.last().timestamp_ms == end
            &&& read.last() == after.pending[id].finished()
            &&& read.last().sample_count >= 1
        }),
{
    let after = usage_recorded(s, id, recorded, duration_ms, usage);
    let bucket = after.pending[id];
    lemma_bucket_is_present::<PendingPoint>(s, before, id, recorded);
    lemma_bucket_start(recorded, BUCKET_MILLISECONDS, 0);
    assert(bucket.weights.duration_ms > 0);
    assert(is_expired::<PendingPoint>(after, now)(id));
    let list = flushed::<PendingPoint>(after, now).points[id];
    assert(list == list_of(after.points, id).push(bucket.finished()));
    assert(matches_query(list.last(), None, None));
}

/// What was saved is loaded again as it was, as long as it is not too old.
pub proof fn lemma_load_restores(
    points: Map<Seq<char>, Seq<HistoryPoint>>,
    ledger: Map<Seq<char>, Seq<EnergyEntry>>,
    now: u64,
    file: HistoryFile,
)
    requires
        file.points() == pruned::<ResourceHistoryPoint>(
            points,
            counter_increase(RETENTION_MILLISECONDS, now),
        ),
        file.energy_points() == pruned::<EnergyHistoryPoint>(
            ledger,
            counter_increase(ENERGY_RETENTION_MILLISECONDS, now),
        ),
    ensures
        pruned::<ResourceHistoryPoint>(
            file.points(),
            counter_increase(RETENTION_MILLISECONDS, now),
        ) == file.points(),
        pruned::<EnergyHistoryPoint>(
            file.energy_points(),
            counter_increase(ENERGY_RETENTION_MILLISECONDS, now),
        ) == file.energy_points(),
{
    let cutoff = counter_increase(RETENTION_MILLISECONDS, now);
    let energy_cutoff = counter_increase(ENERGY_RETENTION_MILLISECONDS, now);
    lemma_prune_again::<ResourceHistoryPoint>(points, cutoff, cutoff);
    lemma_prune_again::<EnergyHistoryPoint>(ledger, energy_cutoff, energy_cutoff);
}

} // verus!
