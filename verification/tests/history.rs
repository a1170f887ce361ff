use app_daemon::aggregate::BUCKET_MILLISECONDS;
use app_daemon::clock::{epoch_milliseconds, now_milliseconds};
use app_daemon::cursor::{accept_cursor, cursor_after, cursor_bytes, cursor_text, CursorError, HistoryCursor};
use app_daemon::history::{
    history_path, temporary_name, HistoryFile, HistoryStore, ENERGY_BUCKET_MILLISECONDS,
    ENERGY_RETENTION_MILLISECONDS, RETENTION_MILLISECONDS,
};
use app_daemon::model::{
    ComputeUsage, EnergyUsage, ResourceMeasurement, ResourceUsage, StorageUsage,
};
use app_daemon::service::{record_sample, resource_history, save_due, ResourceHistoryParams};
use app_daemon::snapshot::ResourceSnapshot;
use app_daemon::table::Table;

fn name(text: &str) -> String {
    text.to_owned()
}

#[test]
fn ignores_unknown_and_future_history_formats() {
    let now = now_milliseconds();
    let mut applications = Table::new();
    applications.insert(name("app"), Vec::new());
    let file = HistoryFile {
        version: 99,
        applications,
        energy_applications: Table::new(),
    };
    let mut unknown = HistoryStore::load(Some(file), now);
    let page = unknown.query(&name("app"), None, None, 10, now);
    assert!(page.expect("page").points.is_empty());
    let mut malformed = HistoryStore::load(None, now);
    let page = malformed.query(&name("app"), None, None, 10, now);
    assert!(page.expect("page").points.is_empty());
}

#[test]
fn aggregates_and_persists_resource_buckets() {
    let usage = ResourceUsage {
        compute: ComputeUsage {
            cpu_percent_tenths: 500,
            cpu_percent_of_machine_tenths: 125,
            memory_bytes: 1024,
            gpu_percent_tenths: 250,
            gpu_memory_bytes: 2048,
            ..ComputeUsage::default()
        },
        storage: StorageUsage {
            disk_read_bytes: 100,
            disk_write_bytes: 200,
            disk_read_bytes_per_second_tenths: 200,
            disk_write_bytes_per_second_tenths: 400,
            open_file_disk_bytes: 4096,
            ..StorageUsage::default()
        },
        energy: EnergyUsage {
            energy_mwh_e4: 20_000,
            battery_percent_e6: 4_000,
            power_watts_e3: 3_600,
            estimated_app_power_watts_e3: 3_600,
            battery_percent_per_hour_e4: 72_000,
            energy_source: "rapl",
            energy_confidence: "low",
            ..EnergyUsage::default()
        },
        ..ResourceUsage::default()
    };
    let now = now_milliseconds();
    let mut store = HistoryStore::load(None, now);
    let bucket = now - now % BUCKET_MILLISECONDS;
    for timestamp in [bucket + 2_000, bucket + 7_000, bucket + 12_000] {
        store.record(&name("example.desktop"), timestamp, 5_000_000_000, &usage);
    }
    store.record(
        &name("example.desktop"),
        bucket + BUCKET_MILLISECONDS + 2_000,
        2_000_000_000,
        &ResourceUsage::default(),
    );
    let page = store
        .query(&name("example.desktop"), None, None, 10, now)
        .expect("page");
    assert!(!page.has_more);
    assert_eq!(page.points.len(), 1);
    let point = &page.points[0].resources;
    assert_eq!(point.compute.cpu_percent_tenths, 500);
    assert_eq!(point.compute.gpu_percent_tenths, 250);
    assert_eq!(point.compute.gpu_memory_bytes, 2048);
    assert_eq!(point.storage.disk_read_bytes, 300);
    assert_eq!(point.storage.disk_write_bytes, 600);
    assert_eq!(point.storage.disk_read_bytes_per_second_tenths, 200);
    assert_eq!(point.storage.disk_write_bytes_per_second_tenths, 400);
    assert_eq!(point.storage.open_file_disk_bytes, 4096);
    assert_eq!(point.energy_mwh_e4, 60_000);
    let file = store.save(now);

    let mut loaded = HistoryStore::load(Some(file), now);
    let again = loaded
        .query(&name("example.desktop"), None, None, 10, now)
        .expect("page");
    assert_eq!(format!("{:?}", again.points), format!("{:?}", page.points));
}

#[test]
fn keeps_compact_energy_totals_for_week_overviews() {
    let usage = ResourceUsage {
        energy: EnergyUsage {
            energy_mwh_e4: 12_500,
            energy_source: "rapl",
            energy_confidence: "low",
            ..EnergyUsage::default()
        },
        ..ResourceUsage::default()
    };
    let current = now_milliseconds();
    let mut store = HistoryStore::load(None, current);
    let now = current - current % ENERGY_BUCKET_MILLISECONDS + 1_000;
    store.record(&name("example.desktop"), now, 2_000_000_000, &usage);
    store.record(&name("example.desktop"), now + 2_000, 2_000_000_000, &usage);
    let totals = store.energy_totals(now.saturating_sub(1), now + 3_000);
    assert_eq!(totals.len(), 1);
    assert_eq!(totals[0].energy_mwh_e4, 25_000);
    assert_eq!(totals[0].energy_source, "rapl");
    let file = store.save_final(current);

    let mut loaded = HistoryStore::load(Some(file), current);
    let totals = loaded.energy_totals(
        now.saturating_sub(1),
        now + ENERGY_BUCKET_MILLISECONDS,
    );
    assert_eq!(totals.len(), 1);
    assert_eq!(totals[0].energy_mwh_e4, 25_000);
}

#[test]
fn paginates_forward_with_target_bound_cursors() {
    let now = now_milliseconds();
    let mut store = HistoryStore::load(None, now);
    let first_bucket =
        now.saturating_sub(4 * BUCKET_MILLISECONDS) / BUCKET_MILLISECONDS * BUCKET_MILLISECONDS;
    for index in 0..3 {
        store.record(
            &name("example.desktop"),
            first_bucket + index * BUCKET_MILLISECONDS + 1_000,
            1_000_000_000,
            &ResourceUsage::default(),
        );
    }

    let first = store
        .query(&name("example.desktop"), None, None, 2, now)
        .expect("first page");
    assert_eq!(first.points.len(), 2);
    assert!(first.has_more);
    let cursor = first.next_cursor.expect("next cursor");
    let copy = || {
        Some(Ok(HistoryCursor {
            version: cursor.version,
            target_id: cursor.target_id.clone(),
            after_timestamp_ms: cursor.after_timestamp_ms,
        }))
    };
    let second = store
        .query(&name("example.desktop"), None, copy(), 2, now)
        .expect("second page");
    assert_eq!(second.points.len(), 1);
    assert!(!second.has_more);
    assert!(second.next_cursor.is_some());
    assert!(store
        .query(&name("another.desktop"), None, copy(), 2, now)
        .is_err());
}

#[test]
fn refuses_cursors_that_are_not_its_own() {
    let cursor = cursor_after("a.desktop", 7);
    assert_eq!(accept_cursor(&cursor, "a.desktop"), Ok(7));
    assert_eq!(
        accept_cursor(&cursor, "b.desktop"),
        Err(CursorError::OtherTarget)
    );
    let old = HistoryCursor {
        version: 0,
        target_id: name("a.desktop"),
        after_timestamp_ms: 7,
    };
    assert_eq!(
        accept_cursor(&old, "a.desktop"),
        Err(CursorError::UnsupportedVersion)
    );
    let text = cursor_text(b"{\"v\":1}");
    assert_eq!(text, "eyJ2IjoxfQ");
    assert_eq!(cursor_bytes(&text), Ok(b"{\"v\":1}".to_vec()));
    assert_eq!(cursor_bytes("not base64!"), Err(CursorError::NotBase64));
    assert_eq!(
        CursorError::NotBase64.message(),
        "history cursor is not valid base64url"
    );
    assert_eq!(
        CursorError::NotJson.message(),
        "history cursor is not valid JSON"
    );
    let mut store = HistoryStore::load(None, 0);
    let params = ResourceHistoryParams::new(name("a.desktop"));
    assert_eq!(params.limit, 1_000);
    let refused = resource_history(&mut store, &params, Some(Err(CursorError::NotJson)), 0);
    assert!(matches!(refused, Err(CursorError::NotJson)));
}

#[test]
fn forgets_points_after_their_time() {
    let mut store = HistoryStore::load(None, 0);
    let usage = ResourceUsage::default();
    store.record(&name("a.desktop"), 1_000, 1_000_000_000, &usage);
    store.flush_pending();
    assert_eq!(
        store
            .query(&name("a.desktop"), None, None, 10, 20_000)
            .expect("page")
            .points
            .len(),
        1
    );
    store.prune(RETENTION_MILLISECONDS + 20_000);
    assert!(store
        .query(&name("a.desktop"), None, None, 10, 20_000)
        .expect("page")
        .points
        .is_empty());
}

fn measured(part: u64, whole: u64) -> ResourceUsage {
    ResourceUsage {
        measurement: ResourceMeasurement {
            coverage_part: part,
            coverage_whole: whole,
            ..ResourceMeasurement::default()
        },
        ..ResourceUsage::default()
    }
}

#[test]
fn averages_the_coverage_of_its_samples() {
    let app = name("app");
    let bucket = 1_000 * BUCKET_MILLISECONDS;
    let mut store = HistoryStore::load(None, bucket);
    store.record(&app, bucket, 5_000_000_000, &measured(1, 3));
    store.record(&app, bucket + 5_000, 10_000_000_000, &measured(1, 1));
    let next = bucket + BUCKET_MILLISECONDS;
    store.record(&app, next, 9_000_000_000, &measured(1, 3));
    store.record(&app, next + 5_000, 87_000_000_000, &measured(0, 0));
    let page = store
        .query(&app, None, None, 10, next + BUCKET_MILLISECONDS)
        .expect("page");
    assert_eq!(page.points.len(), 2);
    assert_eq!(page.points[0].resources.coverage_e4, 7_778);
    assert_eq!(page.points[1].resources.coverage_e4, 313);
}

#[test]
fn forgets_energy_after_a_week() {
    let mut store = HistoryStore::load(None, 0);
    let usage = ResourceUsage {
        energy: EnergyUsage {
            energy_mwh_e4: 10_000,
            energy_source: "rapl",
            energy_confidence: "low",
            ..EnergyUsage::default()
        },
        ..ResourceUsage::default()
    };
    store.record(&name("a.desktop"), 1_000, 1_000_000_000, &usage);
    let later = ENERGY_RETENTION_MILLISECONDS + 2 * ENERGY_BUCKET_MILLISECONDS;
    store.record(&name("b.desktop"), later, 1_000_000_000, &usage);
    let totals = store.energy_totals(0, later);
    assert_eq!(totals.len(), 1);
    assert_eq!(totals[0].target_id, "b.desktop");
    assert_eq!(totals[0].energy_mwh_e4, 10_000);
}

#[test]
fn records_all_applications_of_a_sample() {
    let mut store = HistoryStore::load(None, 0);
    let mut snapshot = ResourceSnapshot::new();
    snapshot.interval_nanoseconds = 2_000_000_000;
    let mut targets = Table::new();
    targets.insert(name("a.desktop"), vec![1]);
    targets.insert(name("b.desktop"), vec![2]);
    record_sample(&mut store, &snapshot, &targets, 1_000);
    record_sample(&mut store, &snapshot, &targets, 3_000);
    for id in ["a.desktop", "b.desktop"] {
        let part = resource_history(
            &mut store,
            &ResourceHistoryParams::new(name(id)),
            None,
            BUCKET_MILLISECONDS + 1,
        )
        .expect("history");
        assert_eq!(part.points.len(), 1);
        assert_eq!(part.points[0].resources.sample_count, 2);
        assert_eq!(part.target_id, id);
    }
    assert!(save_due(60_000));
    assert!(!save_due(59_999));
}

#[test]
fn finds_the_history_file() {
    assert_eq!(
        history_path(&Some(name("/state")), &None).as_deref(),
        Some("/state/app-daemon/resource-history-v1.json")
    );
    assert_eq!(
        history_path(&None, &Some(name("/home/user"))).as_deref(),
        Some("/home/user/.local/state/app-daemon/resource-history-v1.json")
    );
    assert_eq!(history_path(&None, &None), None);
    assert_eq!(temporary_name("/state/x.json"), "/state/x.json.tmp");
    assert_eq!(epoch_milliseconds(2, 5_999_999), 2_005);
    assert!(now_milliseconds() > 1_600_000_000_000);
}
