//! What holds of every series over many samples.

use vstd::prelude::*;
use vstd::arithmetic::div_mod::{
    lemma_fundamental_div_mod, lemma_mod_add_multiples_vanish, lemma_mod_division_less_than_divisor,
    lemma_mod_multiples_basic,
};
use crate::metrics::counter_sum;
use crate::series::{
    bucket_start, flushed, is_expired, list_of, pruned, recent, refilled, turned, Bucket, Dated,
    SeriesView,
};

verus! {

/// Oldest first, and no time twice.
pub open spec fn oldest_first<P: Dated>(points: Seq<P::V>) -> bool {
    forall|i: int, j: int|
        0 <= i < j < points.len() ==> P::date_of(#[trigger] points[i]) < P::date_of(
            #[trigger] points[j],
        )
}

/// The points end on bucket boundaries, none of them after `end`.
pub open spec fn aligned_until<P: Dated>(points: Seq<P::V>, length: u64, end: u64) -> bool {
    forall|i: int|
        0 <= i < points.len() ==> P::date_of(#[trigger] points[i]) % length == 0 && P::date_of(
            points[i],
        ) <= end
}

/// A bucket starts on a bucket boundary, not after `now` and not before the end of
/// the application's points.
pub open spec fn follows<Q: Bucket>(
    s: SeriesView<<Q::Point as View>::V, Q::V>,
    id: Seq<char>,
    now: u64,
) -> bool {
    let start = Q::start_of(s.pending[id]);
    &&& start % Q::length() == 0
    &&& start <= now
    &&& aligned_until::<Q::Point>(list_of(s.points, id), Q::length(), start)
}

/// A series up to `now`: every list is oldest first and aligned to the buckets,
/// and every pending bucket is aligned and follows on the points before it.
pub open spec fn chronological<Q: Bucket>(
    s: SeriesView<<Q::Point as View>::V, Q::V>,
    now: u64,
) -> bool {
    &&& forall|id: Seq<char>| #[trigger]
        s.points.contains_key(id) ==> oldest_first::<Q::Point>(s.points[id]) && aligned_until::<
            Q::Point,
        >(s.points[id], Q::length(), now)
    &&& forall|id: Seq<char>| #[trigger] s.pending.contains_key(id) ==> follows::<Q>(s, id, now)
}

/// The bucket of a time starts on the last boundary that is not after it.
pub proof fn lemma_bucket_start(t: u64, length: u64, date: u64)
    requires
        length > 0,
        date % length == 0,
        date <= t,
    ensures
        bucket_start(t, length) % length == 0,
        date <= bucket_start(t, length) <= t,
        t < bucket_start(t, length) + length,
        t < date + length ==> date == bucket_start(t, length),
{
    let start = bucket_start(t, length);
    let whole = t as int / length as int;
    let earlier = date as int / length as int;
    lemma_fundamental_div_mod(t as int, length as int);
    lemma_mod_division_less_than_divisor(t as int, length as int);
    lemma_fundamental_div_mod(date as int, length as int);
    lemma_mod_multiples_basic(whole, length as int);
    assert(start == length * whole);
    assert(date == length * earlier);
    assert(whole * length == length * whole) by (nonlinear_arith);
    assert(earlier <= whole) by (nonlinear_arith)
        requires
            length > 0,
            length * earlier <= t,
            t < length * whole + length,
    ;
    assert(length * earlier <= length * whole) by (nonlinear_arith)
        requires
            length > 0,
            earlier <= whole,
    ;
    if t < date + length {
        assert(whole <= earlier) by (nonlinear_arith)
            requires
                length > 0,
                length * whole <= t,
                t < length * earlier + length,
        ;
    }
}

/// Finishing the buckets that are over keeps a series in order.
pub proof fn lemma_flush_keeps_order<Q: Bucket>(
    s: SeriesView<<Q::Point as View>::V, Q::V>,
    before: u64,
    now: u64,
)
    requires
        chronological::<Q>(s, before),
        before <= now,
        now + Q::length() <= u64::MAX,
    ensures
        chronological::<Q>(flushed::<Q>(s, now), now),
{
    let after = flushed::<Q>(s, now);
    assert forall|id: Seq<char>| #[trigger] after.points.contains_key(id) implies oldest_first::<
        Q::Point,
    >(after.points[id]) && aligned_until::<Q::Point>(after.points[id], Q::length(), now) by {
        let list = list_of(s.points, id);
        if s.points.contains_key(id) {
            assert(oldest_first::<Q::Point>(list));
        }
        if is_expired::<Q>(s, now)(id) && Q::closed(s.pending[id]) is Some {
            let bucket = s.pending[id];
            assert(s.pending.contains_key(id));
            assert(follows::<Q>(s, id, before));
            Q::lemma_closed(bucket);
            lemma_mod_add_multiples_vanish(Q::start_of(bucket) as int, Q::length() as int);
            assert(after.points[id] == list.push(Q::closed(bucket)->0));
        } else {
            assert(after.points[id] == list);
        }
    }
    assert forall|id: Seq<char>| #[trigger] after.pending.contains_key(id) implies follows::<Q>(
        after,
        id,
        now,
    ) by {
        assert(s.pending.contains_key(id));
        assert(follows::<Q>(s, id, before));
        assert(list_of(after.points, id) =~= list_of(s.points, id));
    }
}

/// In a series in order, a bucket that is not over is the one of the present time:
/// a sample finds no bucket that it has to close before its end.
pub proof fn lemma_bucket_is_present<Q: Bucket>(
    s: SeriesView<<Q::Point as View>::V, Q::V>,
    before: u64,
    id: Seq<char>,
    now: u64,
)
    requires
        chronological::<Q>(s, before),
        before <= now,
    ensures
        turned::<Q>(s, id, now) == flushed::<Q>(s, now),
        flushed::<Q>(s, now).pending.contains_key(id) ==> Q::start_of(
            flushed::<Q>(s, now).pending[id],
        ) == bucket_start(now, Q::length()),
{
    if flushed::<Q>(s, now).pending.contains_key(id) {
        assert(s.pending.contains_key(id));
        assert(follows::<Q>(s, id, before));
        assert(!is_expired::<Q>(s, now)(id));
        Q::lemma_closed(s.pending[id]);
        lemma_bucket_start(now, Q::length(), Q::start_of(s.pending[id]));
    }
}

/// Forgetting old points leaves the end of a list, and its first point is not old.
proof fn lemma_recent<P: Dated>(points: Seq<P::V>, cutoff: u64)
    ensures
        ({
            let kept = recent::<P>(points, cutoff);
            &&& kept.len() <= points.len()
            &&& kept == points.skip(points.len() - kept.len())
            &&& kept.len() > 0 ==> P::date_of(kept[0]) >= cutoff
        }),
    decreases points.len(),
{
    if points.len() > 0 && P::date_of(points[0]) < cutoff {
        let rest = recent::<P>(points.skip(1), cutoff);
        lemma_recent::<P>(points.skip(1), cutoff);
        assert(rest =~= points.skip(points.len() - rest.len()));
    } else {
        assert(points =~= points.skip(0));
    }
}

/// Forgetting old points keeps a list in order.
proof fn lemma_recent_keeps_order<P: Dated>(points: Seq<P::V>, cutoff: u64, length: u64, end: u64)
    requires
        aligned_until::<P>(points, length, end),
    ensures
        aligned_until::<P>(recent::<P>(points, cutoff), length, end),
        oldest_first::<P>(points) ==> oldest_first::<P>(recent::<P>(points, cutoff)),
{
    lemma_recent::<P>(points, cutoff);
}

/// A sample that is not older than the series keeps it in order: lists stay oldest
/// first, and points and buckets stay aligned to the wall clock.
pub proof fn lemma_refill_keeps_order<Q: Bucket>(
    s: SeriesView<<Q::Point as View>::V, Q::V>,
    before: u64,
    id: Seq<char>,
    now: u64,
    bucket: Q::V,
    cutoff: u64,
)
    requires
        chronological::<Q>(s, before),
        before <= now,
        now + Q::length() <= u64::MAX,
        Q::start_of(bucket) == bucket_start(now, Q::length()),
    ensures
        chronological::<Q>(refilled::<Q>(s, id, now, bucket, cutoff), now),
{
    let length = Q::length();
    let start = bucket_start(now, length);
    let over = flushed::<Q>(s, now);
    let after = refilled::<Q>(s, id, now, bucket, cutoff);
    lemma_flush_keeps_order::<Q>(s, before, now);
    lemma_bucket_is_present::<Q>(s, before, id, now);
    Q::lemma_closed(bucket);
    lemma_mod_multiples_basic(0, length as int);
    lemma_bucket_start(now, length, 0);
    assert forall|other: Seq<char>| #[trigger] after.points.contains_key(other) implies oldest_first::<
        Q::Point,
    >(after.points[other]) && aligned_until::<Q::Point>(after.points[other], length, now) by {
        assert(over.points.contains_key(other));
        lemma_recent_keeps_order::<Q::Point>(over.points[other], cutoff, length, now);
    }
    assert forall|other: Seq<char>| #[trigger] after.pending.contains_key(other) implies follows::<
        Q,
    >(after, other, now) by {
        let list = list_of(over.points, other);
        let end = Q::start_of(after.pending[other]);
        if other == id {
            assert forall|i: int| 0 <= i < list.len() implies <Q::Point as Dated>::date_of(
                #[trigger] list[i],
            ) % length == 0 && <Q::Point as Dated>::date_of(list[i]) <= start by {
                assert(over.points.contains_key(id));
                lemma_bucket_start(now, length, <Q::Point as Dated>::date_of(list[i]));
            }
        } else {
            assert(over.pending.contains_key(other));
            assert(follows::<Q>(over, other, now));
        }
        lemma_recent_keeps_order::<Q::Point>(list, cutoff, length, end);
    }
}

/// After a sample no point of a series in order is older than the cutoff.
pub proof fn lemma_refill_forgets<Q: Bucket>(
    s: SeriesView<<Q::Point as View>::V, Q::V>,
    before: u64,
    id: Seq<char>,
    now: u64,
    bucket: Q::V,
    cutoff: u64,
    other: Seq<char>,
    i: int,
)
    requires
        chronological::<Q>(s, before),
        before <= now,
        now + Q::length() <= u64::MAX,
        Q::start_of(bucket) == bucket_start(now, Q::length()),
        refilled::<Q>(s, id, now, bucket, cutoff).points.contains_key(other),
        0 <= i < refilled::<Q>(s, id, now, bucket, cutoff).points[other].len(),
    ensures
        <Q::Point as Dated>::date_of(refilled::<Q>(s, id, now, bucket, cutoff).points[other][i])
            >= cutoff,
{
    let list = refilled::<Q>(s, id, now, bucket, cutoff).points[other];
    lemma_refill_keeps_order::<Q>(s, before, id, now, bucket, cutoff);
    lemma_recent::<Q::Point>(turned::<Q>(s, id, now).points[other], cutoff);
    assert(oldest_first::<Q::Point>(list));
    assert(i > 0 ==> <Q::Point as Dated>::date_of(list[0]) < <Q::Point as Dated>::date_of(list[i]));
}

/// No bucket that is over stays unfinished, whether its application still runs
/// or not.
pub proof fn lemma_flush_is_complete<Q: Bucket>(
    s: SeriesView<<Q::Point as View>::V, Q::V>,
    now: u64,
    id: Seq<char>,
)
    requires
        flushed::<Q>(s, now).pending.contains_key(id),
    ensures
        counter_sum(Q::start_of(flushed::<Q>(s, now).pending[id]), Q::length()) > now,
{
    assert(!is_expired::<Q>(s, now)(id));
}

proof fn lemma_recent_again<P: Dated>(points: Seq<P::V>, first: u64, second: u64)
    requires
        first <= second,
    ensures
        recent::<P>(recent::<P>(points, first), second) == recent::<P>(points, second),
    decreases points.len(),
{
    if points.len() > 0 && P::date_of(points[0]) < first {
        lemma_recent_again::<P>(points.skip(1), first, second);
    }
}

/// Forgetting old points twice forgets what forgetting once at the later time
/// does: what was saved and loaded is what was kept.
pub proof fn lemma_prune_again<P: Dated>(
    points: Map<Seq<char>, Seq<P::V>>,
    first: u64,
    second: u64,
)
    requires
        first <= second,
    ensures
        pruned::<P>(pruned::<P>(points, first), second) == pruned::<P>(points, second),
{
    let once = pruned::<P>(points, first);
    let twice = pruned::<P>(once, second);
    let wanted = pruned::<P>(points, second);
    assert forall|id: Seq<char>| #[trigger] twice.contains_key(id) == wanted.contains_key(id) by {
        if points.contains_key(id) {
            lemma_recent_again::<P>(points[id], first, second);
        }
    }
    assert forall|id: Seq<char>| #[trigger] twice.contains_key(id) implies twice[id]
        == wanted[id] by {
        lemma_recent_again::<P>(points[id], first, second);
    }
    assert(twice =~= wanted);
}

} // verus!
