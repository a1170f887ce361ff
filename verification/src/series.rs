//! Dated points per application, and the buckets that are still being filled.

use vstd::prelude::*;
use crate::metrics::{add_counter, counter_sum};
use crate::table::{key_views, lemma_push_contains, lemma_take_next, Table};

verus! {

/// A point of a series.
pub trait Dated: View + Sized {
    spec fn date_of(point: Self::V) -> u64;

    fn date(&self) -> (date: u64)
        ensures
            date == Self::date_of(self@),
    ;

    fn copied(&self) -> (copy: Self)
        ensures
            copy@ == self@,
    ;
}

/// A bucket that becomes a point when it is closed.
pub trait Bucket: View + Sized {
    type Point: Dated;

    /// How long a bucket lasts.
    spec fn length() -> u64;

    spec fn start_of(bucket: Self::V) -> u64;

    /// The point that the bucket becomes; an empty bucket becomes none.
    spec fn closed(bucket: Self::V) -> Option<<Self::Point as View>::V>;

    /// A point is dated by the end of its bucket.
    proof fn lemma_closed(bucket: Self::V)
        ensures
            Self::length() > 0,
            Self::closed(bucket) is Some ==> <Self::Point as Dated>::date_of(
                Self::closed(bucket)->0,
            ) == counter_sum(Self::start_of(bucket), Self::length()),
    ;

    fn milliseconds() -> (length: u64)
        ensures
            length == Self::length(),
    ;

    fn start(&self) -> (start: u64)
        ensures
            start == Self::start_of(self@),
    ;

    fn close(self) -> (point: Option<Self::Point>)
        ensures
            match point {
                Some(p) => Self::closed(self@) == Some(p@),
                None => Self::closed(self@) is None,
            },
    ;
}

/// What the points of a list stand for.
pub open spec fn point_views<P: View>(points: Seq<P>) -> Seq<P::V> {
    points.map_values(|p: P| p@)
}

/// What a [`Series`] stands for.
#[verifier::ext_equal]
pub struct SeriesView<P, Q> {
    pub points: Map<Seq<char>, Seq<P>>,
    pub pending: Map<Seq<char>, Q>,
}

/// The points of an application, none if it has no list.
pub open spec fn list_of<P>(points: Map<Seq<char>, Seq<P>>, id: Seq<char>) -> Seq<P> {
    if points.contains_key(id) {
        points[id]
    } else {
        Seq::empty()
    }
}

/// Closes every bucket that `which` selects: its point is the last of the
/// application's list.
pub open spec fn closed_where<Q: Bucket>(
    s: SeriesView<<Q::Point as View>::V, Q::V>,
    which: spec_fn(Seq<char>) -> bool,
) -> SeriesView<<Q::Point as View>::V, Q::V> {
    let closes = |id: Seq<char>|
        which(id) && s.pending.contains_key(id) && Q::closed(s.pending[id]) is Some;
    SeriesView {
        points: Map::new(
            |id: Seq<char>| s.points.contains_key(id) || closes(id),
            |id: Seq<char>|
                if closes(id) {
                    list_of(s.points, id).push(Q::closed(s.pending[id])->0)
                } else {
                    s.points[id]
                },
        ),
        pending: Map::new(
            |id: Seq<char>| s.pending.contains_key(id) && !which(id),
            |id: Seq<char>| s.pending[id],
        ),
    }
}

/// A bucket is over.
pub open spec fn is_expired<Q: Bucket>(
    s: SeriesView<<Q::Point as View>::V, Q::V>,
    now: u64,
) -> spec_fn(Seq<char>) -> bool {
    |id: Seq<char>|
        s.pending.contains_key(id) && counter_sum(Q::start_of(s.pending[id]), Q::length()) <= now
}

/// Closes the buckets that are over.
pub open spec fn flushed<Q: Bucket>(
    s: SeriesView<<Q::Point as View>::V, Q::V>,
    now: u64,
) -> SeriesView<<Q::Point as View>::V, Q::V> {
    closed_where::<Q>(s, is_expired::<Q>(s, now))
}

/// Closes the bucket of an application if it started at another time.
pub open spec fn rolled<Q: Bucket>(
    s: SeriesView<<Q::Point as View>::V, Q::V>,
    id: Seq<char>,
    start: u64,
) -> SeriesView<<Q::Point as View>::V, Q::V> {
    if s.pending.contains_key(id) && Q::start_of(s.pending[id]) != start {
        closed_where::<Q>(s, |other: Seq<char>| other == id)
    } else {
        s
    }
}

/// A list without the points at its beginning that are older than `cutoff`.
pub open spec fn recent<P: Dated>(points: Seq<P::V>, cutoff: u64) -> Seq<P::V>
    decreases points.len(),
{
    if points.len() > 0 && P::date_of(points[0]) < cutoff {
        recent::<P>(points.skip(1), cutoff)
    } else {
        points
    }
}

/// Every list without its old points, and no empty list.
pub open spec fn pruned<P: Dated>(points: Map<Seq<char>, Seq<P::V>>, cutoff: u64) -> Map<
    Seq<char>,
    Seq<P::V>,
> {
    Map::new(
        |id: Seq<char>| points.contains_key(id) && recent::<P>(points[id], cutoff).len() > 0,
        |id: Seq<char>| recent::<P>(points[id], cutoff),
    )
}

/// The start of the bucket that a time lies in.
pub open spec fn bucket_start(timestamp_ms: u64, length: u64) -> u64 {
    (timestamp_ms - timestamp_ms % length) as u64
}

/// A series that is ready for a sample of an application: the buckets that are over
/// are closed, and so is the application's own if it is of another time.
pub open spec fn turned<Q: Bucket>(
    s: SeriesView<<Q::Point as View>::V, Q::V>,
    id: Seq<char>,
    now: u64,
) -> SeriesView<<Q::Point as View>::V, Q::V> {
    rolled::<Q>(flushed::<Q>(s, now), id, bucket_start(now, Q::length()))
}

/// A series after a sample: the application's bucket is `bucket`, and points older
/// than `cutoff` are gone.
pub open spec fn refilled<Q: Bucket>(
    s: SeriesView<<Q::Point as View>::V, Q::V>,
    id: Seq<char>,
    now: u64,
    bucket: Q::V,
    cutoff: u64,
) -> SeriesView<<Q::Point as View>::V, Q::V> {
    let ready = turned::<Q>(s, id, now);
    SeriesView {
        points: pruned::<Q::Point>(ready.points, cutoff),
        pending: ready.pending.insert(id, bucket),
    }
}

/// Points and pending buckets of all applications.
pub struct Series<Q: Bucket> {
    pub points: Table<String, Vec<Q::Point>>,
    pub pending: Table<String, Q>,
}

impl<Q: Bucket> View for Series<Q> {
    type V = SeriesView<<Q::Point as View>::V, Q::V>;

    open spec fn view(&self) -> SeriesView<<Q::Point as View>::V, Q::V> {
        SeriesView {
            points: self.points@.map_values(|list: Vec<Q::Point>| point_views(list@)),
            pending: self.pending@.map_values(|bucket: Q| bucket@),
        }
    }
}

impl<Q: Bucket> Series<Q> {
    pub open spec fn wf(&self) -> bool {
        self.points.wf() && self.pending.wf()
    }

    pub fn new() -> (series: Self)
        ensures
            series.wf(),
            series@.points == Map::<Seq<char>, Seq<<Q::Point as View>::V>>::empty(),
            series@.pending == Map::<Seq<char>, Q::V>::empty(),
    {
        let series = Series { points: Table::new(), pending: Table::new() };
        assert(series@.points =~= Map::<Seq<char>, Seq<<Q::Point as View>::V>>::empty());
        assert(series@.pending =~= Map::<Seq<char>, Q::V>::empty());
        series
    }

    fn append(&mut self, id: String, point: Q::Point)
        requires
            old(self).wf(),
        ensures
            final(self).wf(),
            final(self)@.points == old(self)@.points.insert(
                id@,
                list_of(old(self)@.points, id@).push(point@),
            ),
            final(self).pending == old(self).pending,
    {
        let ghost key = id@;
        let mut list = match self.points.remove(&id) {
            Some(list) => list,
            None => Vec::new(),
        };
        let ghost before = point_views(list@);
        assert(before =~= list_of(old(self)@.points, key));
        list.push(point);
        assert(point_views(list@) =~= before.push(point@));
        let _ = self.points.insert(id, list);
        assert(self@.points =~= old(self)@.points.insert(
            key,
            list_of(old(self)@.points, key).push(point@),
        ));
    }

    fn close_one(&mut self, id: &String)
        requires
            old(self).wf(),
        ensures
            final(self).wf(),
            final(self)@ == closed_where::<Q>(old(self)@, |other: Seq<char>| other == id@),
    {
        let ghost which = |other: Seq<char>| other == id@;
        let ghost wanted = closed_where::<Q>(self@, which);
        let ghost before = self@;
        if let Some(bucket) = self.pending.remove(id) {
            assert(before.pending[id@] == bucket@);
            assert(self@.pending =~= before.pending.remove(id@));
            assert(self@.points =~= before.points);
            if let Some(point) = bucket.close() {
                self.append(id.clone(), point);
            }
        }
        assert(self@.pending =~= wanted.pending);
        assert(self@.points =~= wanted.points);
    }

    fn close_all(&mut self, ids: &Vec<String>)
        requires
            old(self).wf(),
            key_views(ids@).no_duplicates(),
        ensures
            final(self).wf(),
            final(self)@ == closed_where::<Q>(
                old(self)@,
                |id: Seq<char>| key_views(ids@).contains(id),
            ),
    {
        let ghost all = key_views(ids@);
        let ghost before = self@;
        proof {
            let none = closed_where::<Q>(before, |id: Seq<char>| all.take(0).contains(id));
            assert(none.points =~= before.points);
            assert(none.pending =~= before.pending);
        }
        for i in 0..ids.len()
            invariant
                self.wf(),
                all == key_views(ids@),
                all.no_duplicates(),
                self@ == closed_where::<Q>(
                    before,
                    |id: Seq<char>| all.take(i as int).contains(id),
                ),
        {
            self.close_one(&ids[i]);
            proof {
                let next = all.take(i + 1);
                assert(all[i as int] == ids@[i as int]@);
                lemma_take_next(all, i as int);
                let wanted = closed_where::<Q>(before, |other: Seq<char>| next.contains(other));
                assert(self@.points =~= wanted.points);
                assert(self@.pending =~= wanted.pending);
            }
        }
        assert(all.take(all.len() as int) =~= all);
    }

    /// Closes the buckets that are over.
    pub fn flush_expired(&mut self, now: u64)
        requires
            old(self).wf(),
        ensures
            final(self).wf(),
            final(self)@ == flushed::<Q>(old(self)@, now),
    {
        let ghost before = self@;
        let ghost expired = is_expired::<Q>(before, now);
        let keys = self.pending.keys();
        let ghost all = key_views(keys@);
        let mut ids: Vec<String> = Vec::new();
        for i in 0..keys.len()
            invariant
                self.wf(),
                self@ == before,
                expired == is_expired::<Q>(before, now),
                all == key_views(keys@),
                all.no_duplicates(),
                forall|k: Seq<char>| #[trigger] all.contains(k) == self.pending@.contains_key(k),
                key_views(ids@).no_duplicates(),
                forall|id: Seq<char>| #[trigger]
                    key_views(ids@).contains(id) == (all.take(i as int).contains(id) && expired(
                        id,
                    )),
        {
            let ghost earlier = key_views(ids@);
            assert(all[i as int] == keys@[i as int]@);
            assert(all.contains(keys@[i as int]@));
            if let Some(bucket) = self.pending.get(&keys[i]) {
                assert(before.pending[keys@[i as int]@] == bucket@);
                let mut end = bucket.start();
                add_counter(&mut end, Q::milliseconds());
                if end <= now {
                    ids.push(keys[i].clone());
                }
            }
            proof {
                let id = keys@[i as int]@;
                lemma_take_next(all, i as int);
                if expired(id) {
                    assert(key_views(ids@) =~= earlier.push(id));
                    assert(!earlier.contains(id));
                    lemma_push_contains(earlier, id);
                } else {
                    assert(key_views(ids@) =~= earlier);
                }
            }
        }
        proof {
            assert(all.take(all.len() as int) =~= all);
            assert forall|id: Seq<char>| expired(id) implies #[trigger] all.contains(id) by {
                assert(before.pending.contains_key(id));
                assert(self.pending@.contains_key(id));
            }
        }
        self.close_all(&ids);
        proof {
            let wanted = flushed::<Q>(before, now);
            assert forall|id: Seq<char>| #[trigger] key_views(ids@).contains(id) == expired(id) by {
                if expired(id) {
                    assert(all.contains(id));
                }
            }
            assert(self@.points =~= wanted.points);
            assert(self@.pending =~= wanted.pending);
        }
    }

    /// Closes all buckets.
    pub fn flush_pending(&mut self)
        requires
            old(self).wf(),
        ensures
            final(self).wf(),
            final(self)@ == closed_where::<Q>(old(self)@, |id: Seq<char>| true),
    {
        let ghost before = self@;
        let ids = self.pending.keys();
        self.close_all(&ids);
        proof {
            let wanted = closed_where::<Q>(before, |id: Seq<char>| true);
            assert forall|id: Seq<char>| before.pending.contains_key(
                id,
            ) implies #[trigger] key_views(ids@).contains(id) by {}
            assert(self@.points =~= wanted.points);
            assert(self@.pending =~= wanted.pending);
        }
    }

    /// Takes the pending bucket of an application out of the series, closing it
    /// first if it started at another time than `start`.
    pub fn take_bucket(&mut self, id: &String, start: u64) -> (bucket: Option<Q>)
        requires
            old(self).wf(),
        ensures
            final(self).wf(),
            ({
                let s = rolled::<Q>(old(self)@, id@, start);
                &&& final(self)@.points == s.points
                &&& final(self)@.pending == s.pending.remove(id@)
                &&& match bucket {
                    Some(b) => s.pending.contains_key(id@) && b@ == s.pending[id@]
                        && Q::start_of(b@) == start,
                    None => !s.pending.contains_key(id@),
                }
            }),
    {
        let ghost before = self@;
        let rolls = match self.pending.get(id) {
            Some(bucket) => {
                assert(before.pending[id@] == bucket@);
                bucket.start() != start
            },
            None => false,
        };
        if rolls {
            self.close_one(id);
        }
        let ghost s = self@;
        let bucket = self.pending.remove(id);
        assert(self@.points =~= s.points);
        assert(self@.pending =~= s.pending.remove(id@));
        bucket
    }

    /// Puts a bucket under an application that has none.
    pub fn put_bucket(&mut self, id: String, bucket: Q)
        requires
            old(self).wf(),
        ensures
            final(self).wf(),
            final(self)@.points == old(self)@.points,
            final(self)@.pending == old(self)@.pending.insert(id@, bucket@),
    {
        let ghost before = self@;
        let ghost key = id@;
        let _ = self.pending.insert(id, bucket);
        assert(self@.points =~= before.points);
        assert(self@.pending =~= before.pending.insert(key, bucket@));
    }

    /// The points of all applications once more.
    pub fn copied_points(&self) -> (copy: Table<String, Vec<Q::Point>>)
        requires
            self.wf(),
        ensures
            copy.wf(),
            copy@.map_values(|list: Vec<Q::Point>| point_views(list@)) == self@.points,
    {
        let ghost view = |list: Vec<Q::Point>| point_views(list@);
        let ids = self.points.keys();
        let ghost all = key_views(ids@);
        let mut copy: Table<String, Vec<Q::Point>> = Table::new();
        for i in 0..ids.len()
            invariant
                self.wf(),
                copy.wf(),
                all == key_views(ids@),
                forall|id: Seq<char>| #[trigger]
                    copy@.contains_key(id) == all.take(i as int).contains(id),
                forall|id: Seq<char>| #[trigger] all.contains(id) == self.points@.contains_key(id),
                forall|id: Seq<char>| #[trigger]
                    copy@.contains_key(id) ==> point_views(copy@[id]@) == point_views(
                        self.points@[id]@,
                    ),
        {
            proof {
                assert(all[i as int] == ids@[i as int]@);
                assert(all.contains(ids@[i as int]@));
                lemma_take_next(all, i as int);
            }
            if let Some(list) = self.points.get(&ids[i]) {
                let mut points: Vec<Q::Point> = Vec::new();
                for k in 0..list.len()
                    invariant
                        point_views(points@) == point_views(list@).take(k as int),
                {
                    let ghost was = point_views(points@);
                    points.push(list[k].copied());
                    assert(point_views(points@) =~= was.push(list@[k as int]@));
                    assert(point_views(list@).take(k + 1) =~= was.push(list@[k as int]@));
                }
                assert(point_views(list@).take(list@.len() as int) =~= point_views(list@));
                let _ = copy.insert(ids[i].clone(), points);
            }
        }
        proof {
            assert(all.take(all.len() as int) =~= all);
            assert(copy@.map_values(view) =~= self@.points);
        }
        copy
    }

    /// Forgets the points that are older than `cutoff`.
    pub fn prune(&mut self, cutoff: u64)
        requires
            old(self).wf(),
        ensures
            final(self).wf(),
            final(self)@.points == pruned::<Q::Point>(old(self)@.points, cutoff),
            final(self)@.pending == old(self)@.pending,
    {
        let ghost before = self@;
        let ids = self.points.keys();
        let ghost all = key_views(ids@);
        for i in 0..ids.len()
            invariant
                self.wf(),
                all == key_views(ids@),
                all.no_duplicates(),
                self@.pending == before.pending,
                forall|id: Seq<char>| #[trigger]
                    self@.points.contains_key(id) == if all.take(i as int).contains(id) {
                        pruned::<Q::Point>(before.points, cutoff).contains_key(id)
                    } else {
                        before.points.contains_key(id)
                    },
                forall|id: Seq<char>| #[trigger]
                    self@.points.contains_key(id) ==> self@.points[id] == if all.take(
                        i as int,
                    ).contains(id) {
                        recent::<Q::Point>(before.points[id], cutoff)
                    } else {
                        before.points[id]
                    },
        {
            let ghost earlier = self@;
            let ghost done = all.take(i as int);
            let ghost next = all.take(i + 1);
            let ghost id = ids@[i as int]@;
            proof {
                assert(all[i as int] == id);
                lemma_take_next(all, i as int);
                assert(earlier.points.contains_key(id) == before.points.contains_key(id));
            }
            if let Some(list) = self.points.remove(&ids[i]) {
                let mut list = list;
                let ghost full = point_views(list@);
                assert(earlier.points[id] == full);
                while list.len() > 0 && list[0].date() < cutoff
                    invariant
                        recent::<Q::Point>(full, cutoff) == recent::<Q::Point>(
                            point_views(list@),
                            cutoff,
                        ),
                    decreases list@.len(),
                {
                    let ghost was = list@;
                    assert(point_views(was)[0] == was[0]@);
                    let _ = list.remove(0);
                    assert(point_views(list@) =~= point_views(was).skip(1));
                }
                proof {
                    if list@.len() > 0 {
                        assert(point_views(list@)[0] == list@[0]@);
                    }
                    assert(recent::<Q::Point>(full, cutoff) == point_views(list@));
                }
                if list.len() > 0 {
                    let _ = self.points.insert(ids[i].clone(), list);
                }
            }
            assert(self@.pending =~= before.pending);
            proof {
                assert forall|other: Seq<char>| #[trigger]
                    self@.points.contains_key(other) == if next.contains(other) {
                        pruned::<Q::Point>(before.points, cutoff).contains_key(other)
                    } else {
                        before.points.contains_key(other)
                    } by {
                    assert(earlier.points.contains_key(other) == if done.contains(other) {
                        pruned::<Q::Point>(before.points, cutoff).contains_key(other)
                    } else {
                        before.points.contains_key(other)
                    });
                }
                assert forall|other: Seq<char>| #[trigger]
                    self@.points.contains_key(other) implies self@.points[other] == if next.contains(
                    other,
                ) {
                    recent::<Q::Point>(before.points[other], cutoff)
                } else {
                    before.points[other]
                } by {
                    if other != id {
                        assert(earlier.points.contains_key(other));
                    }
                }
            }
        }
        proof {
            assert(all.take(all.len() as int) =~= all);
            assert forall|id: Seq<char>| before.points.contains_key(id) implies #[trigger]
            all.contains(id) by {}
            assert forall|id: Seq<char>| #[trigger] self@.points.contains_key(id) == pruned::<
                Q::Point,
            >(before.points, cutoff).contains_key(id) by {
                if before.points.contains_key(id) {
                    assert(all.contains(id));
                }
            }
            assert forall|id: Seq<char>| #[trigger] self@.points.contains_key(
                id,
            ) implies self@.points[id] == pruned::<Q::Point>(before.points, cutoff)[id] by {
                assert(before.points.contains_key(id));
                assert(all.contains(id));
            }
            assert(self@.points =~= pruned::<Q::Point>(before.points, cutoff));
        }
    }
}

} // verus!
