use chrono::{Datelike, Duration, Local, TimeZone};
use farm_os::models::SnapshotInfo;
use farm_os::snapshots::{
    parse_snapshot_stamp,
    farm_shm_path, farm_wal_path, last_snapshot_at, parse_snapshot_name, retention_keep_set,
    sidecar_path, snapshot_file_name, SnapshotEntry, Stamp,
};
use std::collections::HashSet;
use std::path::PathBuf;

fn stamp(t: chrono::DateTime<Local>) -> Stamp {
    Stamp {
        instant_nanos: (t.timestamp() as i128) * 1_000_000_000 + t.timestamp_subsec_nanos() as i128,
        local_day: t.date_naive().num_days_from_ce(),
    }
}

#[test]
fn retention_keeps_48h_and_one_per_day_for_30_days() {
    let now = Local.with_ymd_and_hms(2026, 8, 5, 18, 0, 0).single().unwrap();

    let mut entries: Vec<(PathBuf, chrono::DateTime<Local>)> = Vec::new();
    // Two within 48h on the same day — both kept.
    let a = PathBuf::from("farm-2026-08-05-100000.db");
    let b = PathBuf::from("farm-2026-08-04-200000.db");
    entries.push((a.clone(), now - Duration::hours(8)));
    entries.push((b.clone(), now - Duration::hours(22)));
    // Older than 48h but within 30 days — keep newest per day only.
    let c_old = PathBuf::from("farm-2026-07-20-080000.db");
    let c_new = PathBuf::from("farm-2026-07-20-210000.db");
    let day20 = Local.with_ymd_and_hms(2026, 7, 20, 8, 0, 0).single().unwrap();
    let day20_late = Local.with_ymd_and_hms(2026, 7, 20, 21, 0, 0).single().unwrap();
    entries.push((c_old.clone(), day20));
    entries.push((c_new.clone(), day20_late));
    // Outside 30 calendar days — deleted.
    let ancient = PathBuf::from("farm-2026-06-01-120000.db");
    let ancient_t = Local.with_ymd_and_hms(2026, 6, 1, 12, 0, 0).single().unwrap();
    entries.push((ancient.clone(), ancient_t));
    // Another day within 30 days.
    let d = PathBuf::from("farm-2026-07-15-090000.db");
    let day15 = Local.with_ymd_and_hms(2026, 7, 15, 9, 0, 0).single().unwrap();
    entries.push((d.clone(), day15));

    let lib_entries: Vec<SnapshotEntry> = entries
        .iter()
        .map(|(p, t)| SnapshotEntry { path: p.to_str().unwrap().to_string(), taken: stamp(*t) })
        .collect();
    let keep: HashSet<PathBuf> = retention_keep_set(&lib_entries, &stamp(now)).into_iter().map(PathBuf::from).collect();
    let expected: HashSet<PathBuf> = [a, b, c_new, d].into_iter().collect();
    assert_eq!(keep, expected);
    assert!(!keep.contains(&c_old));
    assert!(!keep.contains(&ancient));
}

#[test]
fn retention_tie_keeps_the_first_newest() {
    let now = Local.with_ymd_and_hms(2026, 8, 5, 18, 0, 0).single().unwrap();
    let t = Local.with_ymd_and_hms(2026, 7, 30, 9, 0, 0).single().unwrap();
    let es = vec![
        SnapshotEntry { path: "x".into(), taken: stamp(t) },
        SnapshotEntry { path: "y".into(), taken: stamp(t) },
    ];
    assert_eq!(retention_keep_set(&es, &stamp(now)), vec!["x".to_string()]);
}

#[test]
fn snapshot_names() {
    let n = parse_snapshot_name("farm-2026-08-05-183005.db").unwrap();
    assert_eq!((n.year, n.month, n.day, n.hour, n.minute, n.second), (2026, 8, 5, 18, 30, 5));
    let n = parse_snapshot_name("farm-2026-08-05-183005-2.db").unwrap();
    assert_eq!(n.second, 5);
    assert!(parse_snapshot_name("farm-2026-08-05.db").is_none());
    assert!(parse_snapshot_name("farm-2026-02-30-120000.db").is_none());
    assert!(parse_snapshot_name("farm-2026-08-05-250000.db").is_none());
    assert!(parse_snapshot_name("farm-2026-08-05-12000.db").is_none());
    assert!(parse_snapshot_name("farm-2026-08-05-12a000.db").is_none());
    assert!(parse_snapshot_name("snap-2026-08-05-120000.db").is_none());
    assert!(parse_snapshot_name("farm-2026-08-05-120000.sqlite").is_none());
    assert_eq!(snapshot_file_name("2026-08-05-183005", 0), "farm-2026-08-05-183005.db");
    assert_eq!(snapshot_file_name("2026-08-05-183005", 3), "farm-2026-08-05-183005-3.db");
}

#[test]
fn sidecars_and_latest_snapshot() {
    assert_eq!(farm_wal_path("/data/farm.db"), "/data/farm.db-wal");
    assert_eq!(farm_shm_path("/data/farm.db"), "/data/farm.db-shm");
    assert_eq!(sidecar_path("a", "-x"), "a-x");
    let info = |t: &str| SnapshotInfo { file_name: "f".into(), path: "p".into(), taken_at: t.into(), size_bytes: 1 };
    assert_eq!(last_snapshot_at(&vec![]), None);
    assert_eq!(
        last_snapshot_at(&vec![info("2026-08-01T10:00:00-06:00"), info("2026-08-05T10:00:00-06:00"), info("2026-08-03T10:00:00-06:00")]),
        Some("2026-08-05T10:00:00-06:00".to_string())
    );
}

#[test]
fn a_stamp_lies_on_the_names_date_within_a_day() {
    let st = parse_snapshot_stamp("farm-1970-01-02-120000.db").unwrap();
    assert_eq!(st.local_day, 719_164);
    assert_eq!(st.instant_nanos % 1_000_000_000, 0);
    let wall: i128 = (86_400 + 12 * 3600) * 1_000_000_000;
    let day: i128 = 86_400 * 1_000_000_000;
    assert!(st.instant_nanos > wall - day && st.instant_nanos < wall + day);
    assert!(parse_snapshot_stamp("farm-1970-02-30-120000.db").is_none());
}
