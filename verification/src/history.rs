//! What applications used over time.

use vstd::prelude::*;
use crate::aggregate::{
    available, available_label, HistoryPoint, Pending, PendingPoint, BUCKET_MILLISECONDS,
};
use crate::cursor::{
    accept_cursor, accepted, cursor_after, CursorError, HistoryCursor, FILE_VERSION,
};
use crate::disk::{join, joined};
use crate::metrics::{add_counter, counter_increase, counter_sum, increase, rate, rated};
use crate::model::{ResourceHistoryPoint, ResourceUsage};
use crate::series::{
    bucket_start, closed_where, flushed, list_of, point_views, pruned, refilled, rolled, turned,
    Bucket, Dated, Series, SeriesView,
};
use crate::table::{key_views, lemma_push_contains, lemma_take_next, Table};
use crate::text::{concat, same_text};

verus! {

/// How long points are kept: one day.
pub const RETENTION_MILLISECONDS: u64 = 86_400_000;

/// The length of a bucket of the energy ledger.
pub const ENERGY_BUCKET_MILLISECONDS: u64 = 60_000;

/// How long the energy ledger is kept: seven days.
pub const ENERGY_RETENTION_MILLISECONDS: u64 = 604_800_000;

/// The energy of an application during one bucket of the ledger. `timestamp_ms`
/// is the end of the bucket.
#[derive(Debug)]
pub struct EnergyHistoryPoint {
    pub timestamp_ms: u64,
    pub energy_mwh_e4: u64,
    pub energy_source: String,
    pub energy_confidence: String,
}

/// A bucket of the ledger that is still being filled. `timestamp_ms` is its start.
#[derive(Debug)]
pub struct PendingEnergy {
    pub timestamp_ms: u64,
    pub energy_mwh_e4: u64,
    pub energy_source: String,
    pub energy_confidence: String,
}

/// What an entry of the ledger stands for.
#[verifier::ext_equal]
pub struct EnergyEntry {
    pub timestamp_ms: u64,
    pub energy_mwh_e4: u64,
    pub energy_source: Seq<char>,
    pub energy_confidence: Seq<char>,
}

/// The label of several entries: that of all which have one, or `mixed`.
pub open spec fn merged_label(current: Seq<char>, next: Seq<char>) -> Seq<char> {
    if next == ""@ {
        current
    } else if current == ""@ {
        next
    } else if current != next {
        "mixed"@
    } else {
        current
    }
}

fn merge_label(current: &mut String, next: &str)
    ensures
        final(current)@ == merged_label(old(current)@, next@),
{
    if same_text(next, "") {
        return ;
    }
    if same_text(current.as_str(), "") {
        *current = next.to_owned();
    } else if !same_text(current.as_str(), next) {
        *current = "mixed".to_owned();
    }
}

impl EnergyEntry {
    pub open spec fn empty(timestamp_ms: u64) -> Self {
        EnergyEntry {
            timestamp_ms,
            energy_mwh_e4: 0,
            energy_source: ""@,
            energy_confidence: ""@,
        }
    }

    pub open spec fn plus(self, energy: u64, source: Seq<char>, confidence: Seq<char>) -> Self {
        EnergyEntry {
            timestamp_ms: self.timestamp_ms,
            energy_mwh_e4: counter_sum(self.energy_mwh_e4, energy),
            energy_source: merged_label(self.energy_source, source),
            energy_confidence: merged_label(self.energy_confidence, confidence),
        }
    }

    /// The finished entry, dated by its end.
    pub open spec fn finished(self) -> Self {
        EnergyEntry {
            timestamp_ms: counter_sum(self.timestamp_ms, ENERGY_BUCKET_MILLISECONDS),
            energy_mwh_e4: self.energy_mwh_e4,
            energy_source: available(self.energy_source),
            energy_confidence: available(self.energy_confidence),
        }
    }
}

impl View for EnergyHistoryPoint {
    type V = EnergyEntry;

    open spec fn view(&self) -> EnergyEntry {
        EnergyEntry {
            timestamp_ms: self.timestamp_ms,
            energy_mwh_e4: self.energy_mwh_e4,
            energy_source: self.energy_source@,
            energy_confidence: self.energy_confidence@,
        }
    }
}

impl View for PendingEnergy {
    type V = EnergyEntry;

    open spec fn view(&self) -> EnergyEntry {
        EnergyEntry {
            timestamp_ms: self.timestamp_ms,
            energy_mwh_e4: self.energy_mwh_e4,
            energy_source: self.energy_source@,
            energy_confidence: self.energy_confidence@,
        }
    }
}

impl Dated for EnergyHistoryPoint {
    open spec fn date_of(point: EnergyEntry) -> u64 {
        point.timestamp_ms
    }

    fn date(&self) -> (date: u64) {
        self.timestamp_ms
    }

    fn copied(&self) -> (copy: Self) {
        EnergyHistoryPoint {
            timestamp_ms: self.timestamp_ms,
            energy_mwh_e4: self.energy_mwh_e4,
            energy_source: self.energy_source.clone(),
            energy_confidence: self.energy_confidence.clone(),
        }
    }
}

impl Dated for ResourceHistoryPoint {
    open spec fn date_of(point: HistoryPoint) -> u64 {
        point.timestamp_ms
    }

    fn date(&self) -> (date: u64) {
        self.timestamp_ms
    }

    fn copied(&self) -> (copy: Self) {
        ResourceHistoryPoint::copied(self)
    }
}

impl Bucket for PendingEnergy {
    type Point = EnergyHistoryPoint;

    open spec fn length() -> u64 {
        ENERGY_BUCKET_MILLISECONDS
    }

    open spec fn start_of(bucket: EnergyEntry) -> u64 {
        bucket.timestamp_ms
    }

    open spec fn closed(bucket: EnergyEntry) -> Option<EnergyEntry> {
        Some(bucket.finished())
    }

    proof fn lemma_closed(bucket: EnergyEntry) {
    }

    fn milliseconds() -> (length: u64) {
        ENERGY_BUCKET_MILLISECONDS
    }

    fn start(&self) -> (start: u64) {
        self.timestamp_ms
    }

    fn close(self) -> (point: Option<EnergyHistoryPoint>) {
        let mut timestamp_ms = self.timestamp_ms;
        add_counter(&mut timestamp_ms, ENERGY_BUCKET_MILLISECONDS);
        Some(
            EnergyHistoryPoint {
                timestamp_ms,
                energy_mwh_e4: self.energy_mwh_e4,
                energy_source: available_label(self.energy_source),
                energy_confidence: available_label(self.energy_confidence),
            },
        )
    }
}

impl Bucket for PendingPoint {
    type Point = ResourceHistoryPoint;

    open spec fn length() -> u64 {
        BUCKET_MILLISECONDS
    }

    open spec fn start_of(bucket: Pending) -> u64 {
        bucket.timestamp_ms
    }

    open spec fn closed(bucket: Pending) -> Option<HistoryPoint> {
        if bucket.weights.duration_ms > 0 {
            Some(bucket.finished())
        } else {
            None
        }
    }

    proof fn lemma_closed(bucket: Pending) {
    }

    fn milliseconds() -> (length: u64) {
        BUCKET_MILLISECONDS
    }

    fn start(&self) -> (start: u64) {
        self.timestamp_ms
    }

    fn close(self) -> (point: Option<ResourceHistoryPoint>) {
        self.finish()
    }
}

impl PendingEnergy {
    pub fn new(timestamp_ms: u64) -> (pending: Self)
        ensures
            pending@ == EnergyEntry::empty(timestamp_ms),
    {
        PendingEnergy {
            timestamp_ms,
            energy_mwh_e4: 0,
            energy_source: "".to_owned(),
            energy_confidence: "".to_owned(),
        }
    }

    pub fn add(&mut self, energy_mwh_e4: u64, source: &str, confidence: &str)
        ensures
            final(self)@ == old(self)@.plus(energy_mwh_e4, source@, confidence@),
    {
        add_counter(&mut self.energy_mwh_e4, energy_mwh_e4);
        merge_label(&mut self.energy_source, source);
        merge_label(&mut self.energy_confidence, confidence);
    }
}

/// The energy of an application over a time.
#[derive(Debug)]
pub struct EnergyTotal {
    pub target_id: String,
    pub energy_mwh_e4: u64,
    pub energy_source: String,
    pub energy_confidence: String,
}

/// A part of an application's history, oldest first.
#[derive(Debug)]
pub struct HistoryPage {
    pub points: Vec<ResourceHistoryPoint>,
    pub has_more: bool,
    pub next_cursor: Option<HistoryCursor>,
}

/// What is kept on disk.
pub struct HistoryFile {
    pub version: u8,
    pub applications: Table<String, Vec<ResourceHistoryPoint>>,
    pub energy_applications: Table<String, Vec<EnergyHistoryPoint>>,
}

impl HistoryFile {
    pub open spec fn wf(&self) -> bool {
        self.applications.wf() && self.energy_applications.wf()
    }

    pub open spec fn points(&self) -> Map<Seq<char>, Seq<HistoryPoint>> {
        self.applications@.map_values(|list: Vec<ResourceHistoryPoint>| point_views(list@))
    }

    pub open spec fn energy_points(&self) -> Map<Seq<char>, Seq<EnergyEntry>> {
        self.energy_applications@.map_values(|list: Vec<EnergyHistoryPoint>| point_views(list@))
    }
}

/// The history of all applications: full points for a day, and a compact energy
/// ledger for a week.
pub struct HistoryStore {
    pub resources: Series<PendingPoint>,
    pub energy: Series<PendingEnergy>,
}

/// The length of a sample in milliseconds, at least one.
pub open spec fn sample_milliseconds(nanoseconds: u64) -> u64 {
    let rounded = rated(nanoseconds as nat, 1_000_000);
    if rounded == 0 {
        1
    } else {
        rounded
    }
}

/// The energy ledger with one more sample.
pub open spec fn energy_recorded(
    s: SeriesView<EnergyEntry, EnergyEntry>,
    id: Seq<char>,
    timestamp_ms: u64,
    usage: ResourceUsage,
) -> SeriesView<EnergyEntry, EnergyEntry> {
    let ready = turned::<PendingEnergy>(s, id, timestamp_ms);
    let bucket = if ready.pending.contains_key(id) {
        ready.pending[id]
    } else {
        EnergyEntry::empty(bucket_start(timestamp_ms, ENERGY_BUCKET_MILLISECONDS))
    };
    refilled::<PendingEnergy>(
        s,
        id,
        timestamp_ms,
        bucket.plus(
            usage.energy.energy_mwh_e4,
            usage.energy.energy_source@,
            usage.energy.energy_confidence@,
        ),
        counter_increase(ENERGY_RETENTION_MILLISECONDS, timestamp_ms),
    )
}

/// The points with one more sample.
pub open spec fn usage_recorded(
    s: SeriesView<HistoryPoint, Pending>,
    id: Seq<char>,
    timestamp_ms: u64,
    duration_ms: u64,
    usage: ResourceUsage,
) -> SeriesView<HistoryPoint, Pending> {
    let ready = turned::<PendingPoint>(s, id, timestamp_ms);
    let bucket = if ready.pending.contains_key(id) {
        ready.pending[id]
    } else {
        Pending::empty(bucket_start(timestamp_ms, BUCKET_MILLISECONDS))
    };
    refilled::<PendingPoint>(
        s,
        id,
        timestamp_ms,
        bucket.plus(duration_ms, usage),
        counter_increase(RETENTION_MILLISECONDS, timestamp_ms),
    )
}

/// A point lies in the time that a query asks for.
pub open spec fn matches_query(point: HistoryPoint, since: Option<u64>, after: Option<u64>) -> bool {
    &&& match since {
        Some(t) => point.timestamp_ms >= t,
        None => true,
    }
    &&& match after {
        Some(t) => point.timestamp_ms > t,
        None => true,
    }
}

/// The points that a query asks for, in their order.
pub open spec fn matching(
    points: Seq<HistoryPoint>,
    since: Option<u64>,
    after: Option<u64>,
) -> Seq<HistoryPoint>
    decreases points.len(),
{
    if points.len() == 0 {
        Seq::empty()
    } else {
        let before = matching(points.drop_last(), since, after);
        if matches_query(points.last(), since, after) {
            before.push(points.last())
        } else {
            before
        }
    }
}

/// How many points a page may have.
pub open spec fn page_size(limit: usize) -> int {
    if limit < 1 {
        1
    } else if limit > 10_000 {
        10_000
    } else {
        limit as int
    }
}

/// The first points that a query asks for.
pub open spec fn page_points(
    points: Seq<HistoryPoint>,
    since: Option<u64>,
    after: Option<u64>,
    limit: usize,
) -> Seq<HistoryPoint> {
    let all = matching(points, since, after);
    if all.len() <= page_size(limit) {
        all
    } else {
        all.take(page_size(limit))
    }
}

/// What became of a client's cursor: it could not be read, is refused, or says
/// after which time the page begins.
pub open spec fn cursor_result(
    cursor: Option<Result<HistoryCursor, CursorError>>,
    target: Seq<char>,
) -> Result<Option<u64>, CursorError> {
    match cursor {
        None => Ok(None),
        Some(Err(e)) => Err(e),
        Some(Ok(c)) => match accepted(c, target) {
            Ok(after) => Ok(Some(after)),
            Err(e) => Err(e),
        },
    }
}

/// The entries of a ledger that end between two times, added up; `None` where
/// there are none.
pub open spec fn ledger_total(entries: Seq<EnergyEntry>, since: u64, until: u64) -> Option<EnergyEntry>
    decreases entries.len(),
{
    if entries.len() == 0 {
        None
    } else {
        let before = ledger_total(entries.drop_last(), since, until);
        let entry = entries.last();
        if since <= entry.timestamp_ms <= until {
            let base = match before {
                Some(total) => total,
                None => EnergyEntry::empty(0),
            };
            Some(base.plus(entry.energy_mwh_e4, entry.energy_source, entry.energy_confidence))
        } else {
            before
        }
    }
}

/// The energy of one application between two times: its ledger and the bucket
/// that is still being filled.
pub open spec fn energy_total(
    s: SeriesView<EnergyEntry, EnergyEntry>,
    id: Seq<char>,
    since: u64,
    until: u64,
) -> EnergyEntry {
    let base = match ledger_total(list_of(s.points, id), since, until) {
        Some(total) => total,
        None => EnergyEntry::empty(0),
    };
    if s.pending.contains_key(id) && counter_sum(
        s.pending[id].timestamp_ms,
        ENERGY_BUCKET_MILLISECONDS,
    ) >= since && s.pending[id].timestamp_ms <= until {
        let pending = s.pending[id];
        base.plus(pending.energy_mwh_e4, pending.energy_source, pending.energy_confidence)
    } else {
        base
    }
}

/// A total speaks of this application and says what its ledger says.
pub open spec fn is_total(
    total: EnergyTotal,
    s: SeriesView<EnergyEntry, EnergyEntry>,
    since: u64,
    until: u64,
) -> bool {
    let entry = energy_total(s, total.target_id@, since, until);
    &&& total.energy_mwh_e4 == entry.energy_mwh_e4
    &&& total.energy_source@ == available(entry.energy_source)
    &&& total.energy_confidence@ == available(entry.energy_confidence)
}

impl HistoryStore {
    pub open spec fn wf(&self) -> bool {
        self.resources.wf() && self.energy.wf()
    }

    /// The history as it was kept on disk; a file of another version is ignored,
    /// and old points are forgotten.
    pub fn load(file: Option<HistoryFile>, now: u64) -> (store: Self)
        requires
            file is Some ==> file->0.wf(),
        ensures
            store.wf(),
            store.resources@.pending == Map::<Seq<char>, Pending>::empty(),
            store.energy@.pending == Map::<Seq<char>, EnergyEntry>::empty(),
            match file {
                Some(f) if f.version == FILE_VERSION => {
                    &&& store.resources@.points == pruned::<ResourceHistoryPoint>(
                        f.points(),
                        counter_increase(RETENTION_MILLISECONDS, now),
                    )
                    &&& store.energy@.points == pruned::<EnergyHistoryPoint>(
                        f.energy_points(),
                        counter_increase(ENERGY_RETENTION_MILLISECONDS, now),
                    )
                },
                _ => {
                    &&& store.resources@.points == Map::<Seq<char>, Seq<HistoryPoint>>::empty()
                    &&& store.energy@.points == Map::<Seq<char>, Seq<EnergyEntry>>::empty()
                },
            },
    {
        let mut store = HistoryStore { resources: Series::new(), energy: Series::new() };
        if let Some(file) = file {
            if file.version == FILE_VERSION {
                store.resources.points = file.applications;
                store.energy.points = file.energy_applications;
                assert(store.resources@.points =~= file.points());
                assert(store.energy@.points =~= file.energy_points());
                assert(store.resources@.pending =~= Map::<Seq<char>, Pending>::empty());
                assert(store.energy@.pending =~= Map::<Seq<char>, EnergyEntry>::empty());
            }
        }
        let ghost before = store;
        store.prune(now);
        proof {
            if before.resources@.points =~= Map::<Seq<char>, Seq<HistoryPoint>>::empty() {
                assert(store.resources@.points =~= Map::<Seq<char>, Seq<HistoryPoint>>::empty());
            }
            if before.energy@.points =~= Map::<Seq<char>, Seq<EnergyEntry>>::empty() {
                assert(store.energy@.points =~= Map::<Seq<char>, Seq<EnergyEntry>>::empty());
            }
        }
        store
    }

    /// Forgets points that are past their time.
    pub fn prune(&mut self, now: u64)
        requires
            old(self).wf(),
        ensures
            final(self).wf(),
            final(self).resources@ == (SeriesView {
                points: pruned::<ResourceHistoryPoint>(
                    old(self).resources@.points,
                    counter_increase(RETENTION_MILLISECONDS, now),
                ),
                pending: old(self).resources@.pending,
            }),
            final(self).energy@ == (SeriesView {
                points: pruned::<EnergyHistoryPoint>(
                    old(self).energy@.points,
                    counter_increase(ENERGY_RETENTION_MILLISECONDS, now),
                ),
                pending: old(self).energy@.pending,
            }),
    {
        self.resources.prune(increase(RETENTION_MILLISECONDS, now));
        self.energy.prune(increase(ENERGY_RETENTION_MILLISECONDS, now));
    }

    /// Finishes the buckets that are over, also of applications that have exited.
    pub fn flush_expired(&mut self, now: u64)
        requires
            old(self).wf(),
        ensures
            final(self).wf(),
            final(self).resources@ == flushed::<PendingPoint>(old(self).resources@, now),
            final(self).energy@ == flushed::<PendingEnergy>(old(self).energy@, now),
    {
        self.resources.flush_expired(now);
        self.energy.flush_expired(now);
    }

    /// Finishes all buckets.
    pub fn flush_pending(&mut self)
        requires
            old(self).wf(),
        ensures
            final(self).wf(),
            final(self).resources@ == closed_where::<PendingPoint>(
                old(self).resources@,
                |id: Seq<char>| true,
            ),
            final(self).energy@ == closed_where::<PendingEnergy>(
                old(self).energy@,
                |id: Seq<char>| true,
            ),
    {
        self.resources.flush_pending();
        self.energy.flush_pending();
    }

    /// Adds a sample. A sample without length is ignored.
    pub fn record(
        &mut self,
        target_id: &String,
        timestamp_ms: u64,
        duration_nanoseconds: u64,
        usage: &ResourceUsage,
    )
        requires
            old(self).wf(),
        ensures
            final(self).wf(),
            duration_nanoseconds == 0 ==> *final(self) == *old(self),
            duration_nanoseconds > 0 ==> {
                &&& final(self).resources@ == usage_recorded(
                    old(self).resources@,
                    target_id@,
                    timestamp_ms,
                    sample_milliseconds(duration_nanoseconds),
                    *usage,
                )
                &&& final(self).energy@ == energy_recorded(
                    old(self).energy@,
                    target_id@,
                    timestamp_ms,
                    *usage,
                )
            },
    {
        if duration_nanoseconds == 0 {
            return ;
        }
        self.flush_expired(timestamp_ms);
        self.record_energy(target_id, timestamp_ms, usage);
        let rounded = rate(duration_nanoseconds as u128, 1_000_000);
        let duration_ms: u64 = if rounded == 0 {
            1
        } else {
            rounded
        };
        let start = timestamp_ms - timestamp_ms % BUCKET_MILLISECONDS;
        let ghost over = self.resources@;
        let ghost ready = rolled::<PendingPoint>(over, target_id@, start);
        let mut pending = match self.resources.take_bucket(target_id, start) {
            Some(bucket) => bucket,
            None => PendingPoint::new(start),
        };
        pending.add(duration_ms, usage);
        self.resources.put_bucket(target_id.clone(), pending);
        assert(ready.pending.remove(target_id@).insert(target_id@, pending@)
            =~= ready.pending.insert(target_id@, pending@));
        self.prune(timestamp_ms);
    }

    fn record_energy(&mut self, target_id: &String, timestamp_ms: u64, usage: &ResourceUsage)
        requires
            old(self).wf(),
        ensures
            final(self).wf(),
            final(self).resources == old(self).resources,
            ({
                let start = bucket_start(timestamp_ms, ENERGY_BUCKET_MILLISECONDS);
                let ready = rolled::<PendingEnergy>(old(self).energy@, target_id@, start);
                let bucket = if ready.pending.contains_key(target_id@) {
                    ready.pending[target_id@]
                } else {
                    EnergyEntry::empty(start)
                };
                &&& final(self).energy@.points == ready.points
                &&& final(self).energy@.pending == ready.pending.insert(
                    target_id@,
                    bucket.plus(
                        usage.energy.energy_mwh_e4,
                        usage.energy.energy_source@,
                        usage.energy.energy_confidence@,
                    ),
                )
            }),
    {
        let start = timestamp_ms - timestamp_ms % ENERGY_BUCKET_MILLISECONDS;
        let ghost ready = rolled::<PendingEnergy>(self.energy@, target_id@, start);
        let mut pending = match self.energy.take_bucket(target_id, start) {
            Some(bucket) => bucket,
            None => PendingEnergy::new(start),
        };
        pending.add(
            usage.energy.energy_mwh_e4,
            usage.energy.energy_source,
            usage.energy.energy_confidence,
        );
        self.energy.put_bucket(target_id.clone(), pending);
        assert(ready.pending.remove(target_id@).insert(target_id@, pending@)
            =~= ready.pending.insert(target_id@, pending@));
    }

    /// A page of an application's history, oldest first. The cursor of the page
    /// before continues after its last point.
    pub fn query(
        &mut self,
        target_id: &String,
        since_ms: Option<u64>,
        cursor: Option<Result<HistoryCursor, CursorError>>,
        limit: usize,
        now: u64,
    ) -> (page: Result<HistoryPage, CursorError>)
        requires
            old(self).wf(),
        ensures
            final(self).wf(),
            final(self).resources@ == flushed::<PendingPoint>(old(self).resources@, now),
            final(self).energy@ == flushed::<PendingEnergy>(old(self).energy@, now),
            match page {
                Err(e) => cursor_result(cursor, target_id@) == Err::<Option<u64>, CursorError>(e),
                Ok(p) => {
                    let list = list_of(final(self).resources@.points, target_id@);
                    let after = cursor_result(cursor, target_id@)->Ok_0;
                    let shown = page_points(list, since_ms, after, limit);
                    &&& cursor_result(cursor, target_id@) is Ok
                    &&& point_views(p.points@) == shown
                    &&& p.has_more == (matching(list, since_ms, after).len() > page_size(limit))
                    &&& match p.next_cursor {
                        Some(next) => shown.len() > 0 && next.version == FILE_VERSION
                            && next.target_id@ == target_id@ && next.after_timestamp_ms
                            == shown.last().timestamp_ms,
                        None => shown.len() == 0,
                    }
                },
            },
    {
        self.flush_expired(now);
        let after = match &cursor {
            None => None,
            Some(Err(e)) => {
                return Err(*e);
            },
            Some(Ok(c)) => match accept_cursor(c, target_id.as_str()) {
                Ok(after) => Some(after),
                Err(e) => {
                    return Err(e);
                },
            },
        };
        let size: usize = if limit < 1 {
            1
        } else if limit > 10_000 {
            10_000
        } else {
            limit
        };
        let ghost list = list_of(self.resources@.points, target_id@);
        let mut points: Vec<ResourceHistoryPoint> = Vec::new();
        let mut has_more = false;
        if let Some(all) = self.resources.points.get(target_id) {
            let ghost views = point_views(all@);
            assert(views == list);
            assert(point_views(points@) =~= matching(views.take(0), since_ms, after));
            for i in 0..all.len()
                invariant
                    views == point_views(all@),
                    1 <= size,
                    points@.len() <= size,
                    has_more == (matching(views.take(i as int), since_ms, after).len() > size),
                    point_views(points@) == (if has_more {
                        matching(views.take(i as int), since_ms, after).take(size as int)
                    } else {
                        matching(views.take(i as int), since_ms, after)
                    }),
            {
                let ghost before = matching(views.take(i as int), since_ms, after);
                let ghost shown = point_views(points@);
                proof {
                    assert(views.take(i + 1).drop_last() =~= views.take(i as int));
                    assert(views.take(i + 1).last() == all@[i as int]@);
                }
                let point = &all[i];
                let late = match since_ms {
                    Some(t) => point.timestamp_ms >= t,
                    None => true,
                };
                let new = match after {
                    Some(t) => point.timestamp_ms > t,
                    None => true,
                };
                if late && new {
                    if points.len() < size {
                        points.push(point.copied());
                        assert(point_views(points@) =~= shown.push(point@));
                    } else {
                        has_more = true;
                        assert(before.push(point@).take(size as int) =~= before.take(size as int));
                        assert(before.take(size as int) =~= shown);
                    }
                }
            }
            assert(views.take(views.len() as int) =~= views);
        } else {
            assert(list =~= Seq::<HistoryPoint>::empty());
            assert(point_views(points@) =~= Seq::<HistoryPoint>::empty());
        }
        let next_cursor = if points.len() > 0 {
            let last = &points[points.len() - 1];
            assert(point_views(points@).last() == last@);
            Some(cursor_after(target_id.as_str(), last.timestamp_ms))
        } else {
            None
        };
        Ok(HistoryPage { points, has_more, next_cursor })
    }

    fn target_total(&self, id: &String, since_ms: u64, until_ms: u64) -> (total: EnergyTotal)
        requires
            self.wf(),
        ensures
            total.target_id@ == id@,
            is_total(total, self.energy@, since_ms, until_ms),
    {
        let mut total = PendingEnergy::new(0);
        let ghost list = list_of(self.energy@.points, id@);
        if let Some(entries) = self.energy.points.get(id) {
            let ghost views = point_views(entries@);
            assert(views == list);
            for i in 0..entries.len()
                invariant
                    views == point_views(entries@),
                    total@ == (match ledger_total(views.take(i as int), since_ms, until_ms) {
                        Some(t) => t,
                        None => EnergyEntry::empty(0),
                    }),
            {
                proof {
                    assert(views.take(i + 1).drop_last() =~= views.take(i as int));
                    assert(views.take(i + 1).last() == entries@[i as int]@);
                }
                let entry = &entries[i];
                if since_ms <= entry.timestamp_ms && entry.timestamp_ms <= until_ms {
                    total.add(
                        entry.energy_mwh_e4,
                        entry.energy_source.as_str(),
                        entry.energy_confidence.as_str(),
                    );
                }
            }
            assert(views.take(views.len() as int) =~= views);
        } else {
            assert(list =~= Seq::<EnergyEntry>::empty());
        }
        if let Some(pending) = self.energy.pending.get(id) {
            assert(self.energy@.pending[id@] == pending@);
            let mut end = pending.timestamp_ms;
            add_counter(&mut end, ENERGY_BUCKET_MILLISECONDS);
            if end >= since_ms && pending.timestamp_ms <= until_ms {
                total.add(
                    pending.energy_mwh_e4,
                    pending.energy_source.as_str(),
                    pending.energy_confidence.as_str(),
                );
            }
        }
        EnergyTotal {
            target_id: id.clone(),
            energy_mwh_e4: total.energy_mwh_e4,
            energy_source: available_label(total.energy_source),
            energy_confidence: available_label(total.energy_confidence),
        }
    }

    /// The energy of each application between two times, of those that used any.
    pub fn energy_totals(&mut self, since_ms: u64, until_ms: u64) -> (totals: Vec<EnergyTotal>)
        requires
            old(self).wf(),
        ensures
            final(self).wf(),
            final(self).resources@ == flushed::<PendingPoint>(old(self).resources@, until_ms),
            final(self).energy@ == flushed::<PendingEnergy>(old(self).energy@, until_ms),
            forall|i: int|
                0 <= i < totals@.len() ==> is_total(
                    #[trigger] totals@[i],
                    final(self).energy@,
                    since_ms,
                    until_ms,
                ) && totals@[i].energy_mwh_e4 > 0,
            forall|i: int, j: int|
                0 <= i < j < totals@.len() ==> (#[trigger] totals@[i]).target_id@ != (
                #[trigger] totals@[j]).target_id@,
            forall|id: Seq<char>|
                (#[trigger] energy_total(
                    final(self).energy@,
                    id,
                    since_ms,
                    until_ms,
                )).energy_mwh_e4 > 0 ==> exists|i: int|
                    0 <= i < totals@.len() && (#[trigger] totals@[i]).target_id@ == id,
    {
        self.flush_expired(until_ms);
        let ghost s = self.energy@;
        let mut ids = self.energy.points.keys();
        let ghost listed = key_views(ids@);
        let more = self.energy.pending.keys();
        let ghost pending = key_views(more@);
        for i in 0..more.len()
            invariant
                self.wf(),
                s == self.energy@,
                pending == key_views(more@),
                pending.no_duplicates(),
                key_views(ids@).no_duplicates(),
                forall|id: Seq<char>| #[trigger]
                    key_views(ids@).contains(id) == (s.points.contains_key(id) || pending.take(
                        i as int,
                    ).contains(id)),
        {
            let ghost before = key_views(ids@);
            let ghost id = more@[i as int]@;
            proof {
                assert(pending[i as int] == id);
                lemma_take_next(pending, i as int);
            }
            if !self.energy.points.contains(&more[i]) {
                ids.push(more[i].clone());
                proof {
                    assert(key_views(ids@) =~= before.push(id));
                    assert(!before.contains(id));
                    lemma_push_contains(before, id);
                }
            }
        }
        assert(pending.take(pending.len() as int) =~= pending);
        let ghost all = key_views(ids@);
        let mut totals: Vec<EnergyTotal> = Vec::new();
        for i in 0..ids.len()
            invariant
                self.wf(),
                s == self.energy@,
                all == key_views(ids@),
                all.no_duplicates(),
                forall|k: int|
                    0 <= k < totals@.len() ==> is_total(
                        #[trigger] totals@[k],
                        s,
                        since_ms,
                        until_ms,
                    ) && totals@[k].energy_mwh_e4 > 0 && all.take(i as int).contains(
                        totals@[k].target_id@,
                    ),
                forall|a: int, b: int|
                    0 <= a < b < totals@.len() ==> (#[trigger] totals@[a]).target_id@ != (
                    #[trigger] totals@[b]).target_id@,
                forall|k: int|
                    0 <= k < i && energy_total(
                        s,
                        #[trigger] all[k],
                        since_ms,
                        until_ms,
                    ).energy_mwh_e4 > 0 ==> exists|m: int|
                        0 <= m < totals@.len() && (#[trigger] totals@[m]).target_id@ == all[k],
        {
            let ghost before = totals@;
            let ghost done = all.take(i as int);
            let ghost next = all.take(i + 1);
            let ghost id = ids@[i as int]@;
            proof {
                assert(all[i as int] == id);
                lemma_take_next(all, i as int);
            }
            let total = self.target_total(&ids[i], since_ms, until_ms);
            if total.energy_mwh_e4 > 0 {
                totals.push(total);
                proof {
                    assert(totals@[before.len() as int].target_id@ == id);
                    assert forall|a: int, b: int| 0 <= a < b < totals@.len() implies (
                    #[trigger] totals@[a]).target_id@ != (#[trigger] totals@[b]).target_id@ by {
                        assert(totals@[a] == before[a]);
                        if b < before.len() {
                            assert(totals@[b] == before[b]);
                        } else {
                            assert(done.contains(before[a].target_id@));
                        }
                    }
                }
            }
            proof {
                assert forall|k: int| 0 <= k < totals@.len() implies is_total(
                    #[trigger] totals@[k],
                    s,
                    since_ms,
                    until_ms,
                ) && totals@[k].energy_mwh_e4 > 0 && next.contains(totals@[k].target_id@) by {
                    if k < before.len() {
                        assert(totals@[k] == before[k]);
                    }
                }
                assert forall|k: int|
                    0 <= k < i + 1 && energy_total(
                        s,
                        #[trigger] all[k],
                        since_ms,
                        until_ms,
                    ).energy_mwh_e4 > 0 implies exists|m: int|
                    0 <= m < totals@.len() && (#[trigger] totals@[m]).target_id@ == all[k] by {
                    if k < i {
                        let m = choose|m: int|
                            0 <= m < before.len() && (#[trigger] before[m]).target_id@ == all[k];
                        assert(totals@[m] == before[m]);
                    }
                }
            }
        }
        proof {
            assert forall|id: Seq<char>|
                (#[trigger] energy_total(s, id, since_ms, until_ms)).energy_mwh_e4
                    > 0 implies exists|i: int|
                0 <= i < totals@.len() && (#[trigger] totals@[i]).target_id@ == id by {
                assert(s.points.contains_key(id) || s.pending.contains_key(id));
                if s.pending.contains_key(id) {
                    assert(self.energy.pending@.contains_key(id));
                    assert(pending.contains(id));
                }
                assert(all.contains(id));
                let k = choose|k: int| 0 <= k < all.len() && all[k] == id;
                assert(energy_total(s, all[k], since_ms, until_ms).energy_mwh_e4 > 0);
            }
        }
        totals
    }

    fn to_file(&self) -> (file: HistoryFile)
        requires
            self.wf(),
        ensures
            file.wf(),
            file.version == FILE_VERSION,
            file.points() == self.resources@.points,
            file.energy_points() == self.energy@.points,
    {
        HistoryFile {
            version: FILE_VERSION,
            applications: self.resources.copied_points(),
            energy_applications: self.energy.copied_points(),
        }
    }

    /// What to keep on disk now. Buckets that are still being filled are not part
    /// of it.
    pub fn save(&mut self, now: u64) -> (file: HistoryFile)
        requires
            old(self).wf(),
        ensures
            final(self).wf(),
            file.wf(),
            file.version == FILE_VERSION,
            final(self).resources@ == (SeriesView {
                points: pruned::<ResourceHistoryPoint>(
                    flushed::<PendingPoint>(old(self).resources@, now).points,
                    counter_increase(RETENTION_MILLISECONDS, now),
                ),
                pending: flushed::<PendingPoint>(old(self).resources@, now).pending,
            }),
            final(self).energy@ == (SeriesView {
                points: pruned::<EnergyHistoryPoint>(
                    flushed::<PendingEnergy>(old(self).energy@, now).points,
                    counter_increase(ENERGY_RETENTION_MILLISECONDS, now),
                ),
                pending: flushed::<PendingEnergy>(old(self).energy@, now).pending,
            }),
            file.points() == final(self).resources@.points,
            file.energy_points() == final(self).energy@.points,
    {
        self.flush_expired(now);
        self.prune(now);
        self.to_file()
    }

    /// What to keep on disk at the end: all buckets are finished.
    pub fn save_final(&mut self, now: u64) -> (file: HistoryFile)
        requires
            old(self).wf(),
        ensures
            final(self).wf(),
            file.wf(),
            file.version == FILE_VERSION,
            final(self).resources@ == (SeriesView {
                points: pruned::<ResourceHistoryPoint>(
                    closed_where::<PendingPoint>(
                        old(self).resources@,
                        |id: Seq<char>| true,
                    ).points,
                    counter_increase(RETENTION_MILLISECONDS, now),
                ),
                pending: Map::<Seq<char>, Pending>::empty(),
            }),
            final(self).energy@ == (SeriesView {
                points: pruned::<EnergyHistoryPoint>(
                    closed_where::<PendingEnergy>(old(self).energy@, |id: Seq<char>| true).points,
                    counter_increase(ENERGY_RETENTION_MILLISECONDS, now),
                ),
                pending: Map::<Seq<char>, EnergyEntry>::empty(),
            }),
            file.points() == final(self).resources@.points,
            file.energy_points() == final(self).energy@.points,
    {
        self.flush_pending();
        self.prune(now);
        assert(self.resources@.pending =~= Map::<Seq<char>, Pending>::empty());
        assert(self.energy@.pending =~= Map::<Seq<char>, EnergyEntry>::empty());
        self.to_file()
    }
}

/// Where the history is kept: below the state directory, or in its place below
/// the home directory.
pub fn history_path(state: &Option<String>, home: &Option<String>) -> (path: Option<String>)
    ensures
        match (*state, *home) {
            (Some(root), _) => path is Some && path->0@ == joined(
                root@,
                "app-daemon/resource-history-v1.json"@,
            ),
            (None, Some(root)) => path is Some && path->0@ == joined(
                joined(root@, ".local/state"@),
                "app-daemon/resource-history-v1.json"@,
            ),
            (None, None) => path is None,
        },
{
    match state {
        Some(root) => Some(join(root.as_str(), "app-daemon/resource-history-v1.json")),
        None => match home {
            Some(root) => {
                let state = join(root.as_str(), ".local/state");
                Some(join(state.as_str(), "app-daemon/resource-history-v1.json"))
            },
            None => None,
        },
    }
}

/// The name under which a file is written before it takes its place.
pub fn temporary_name(path: &str) -> (name: String)
    ensures
        name@ == path@ + ".tmp"@,
{
    concat(path, ".tmp")
}

} // verus!
