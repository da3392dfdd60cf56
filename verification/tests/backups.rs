use dormitory::backup::{BackupError, BackupFile, Store};
use dormitory::db::Db;
use dormitory::points::PointType;

fn live_db() -> Db {
    let mut db = Db::new();
    db.insert_record("2024001", "Kim", "Late", 5, PointType::Demerit, "2024-01-01", "2024-01-01 10:00");
    db.insert_record("2024002", "Lee", "Helped", 3, PointType::Merit, "2024-01-02", "2024-01-02 10:00");
    db
}

#[test]
fn reset_snapshots_then_clears() {
    let mut store = Store { live: Some(live_db()), backups: Vec::new() };
    store.reset_data("20240105_120000");
    let live = store.live.as_ref().unwrap();
    assert_eq!(live.rows.len(), 0);
    assert_eq!(live.next_id, 3);
    assert!(live.has_date_column);
    assert_eq!(store.backups.len(), 1);
    assert_eq!(store.backups[0].name, "backup_20240105_120000.db");
    assert_eq!(store.backups[0].contents.rows.len(), 2);
}

#[test]
fn reset_without_live_database_does_nothing() {
    let mut store = Store { live: None, backups: Vec::new() };
    store.reset_data("20240105_120000");
    assert!(store.live.is_none());
    assert_eq!(store.backups.len(), 0);
}

#[test]
fn restore_of_missing_backup_is_refused() {
    let mut store = Store { live: Some(live_db()), backups: Vec::new() };
    let r = store.restore_backup("backup_20200101_000000.db", "20240106_090000");
    assert_eq!(r, Err(BackupError::NotFound));
    assert_eq!(store.backups.len(), 0);
    assert_eq!(store.live.as_ref().unwrap().rows.len(), 2);
}

#[test]
fn restore_round_trip_reproduces_the_backed_up_records() {
    let mut store = Store { live: Some(live_db()), backups: Vec::new() };
    store.reset_data("20240105_120000");
    // a record added after the backup
    store.live.as_mut().unwrap().add_record(
        "2024003",
        "Park",
        "New",
        1,
        PointType::Merit,
        Some("2024-01-06".to_string()),
    );
    assert_eq!(store.live.as_ref().unwrap().rows.len(), 1);
    let r = store.restore_backup("backup_20240105_120000.db", "20240106_090000");
    assert_eq!(r, Ok(()));
    let live = store.live.as_ref().unwrap();
    assert_eq!(live.rows.len(), 2);
    assert_eq!(live.rows[0].student_id, "2024001");
    assert_eq!(live.rows[0].points, -5);
    assert_eq!(live.rows[1].student_id, "2024002");
    // the replaced state was itself snapshotted
    let names = store.list_backups();
    assert!(names.contains(&"before_restore_20240106_090000.db".to_string()));
    assert!(names.contains(&"backup_20240105_120000.db".to_string()));
}

#[test]
fn restore_migrates_an_old_backup() {
    let mut old = Db::new();
    old.insert_record("s1", "Kim", "r", 1, PointType::Merit, "x", "2023-06-01 09:30");
    // strip the date column, as a backup from before the migration has it
    let mut rows = old.rows;
    rows[0].date = None;
    let old = Db { has_date_column: false, next_id: old.next_id, rows };
    let mut store = Store {
        live: None,
        backups: vec![BackupFile { name: "backup_20230601_093000.db".to_string(), contents: old }],
    };
    let r = store.restore_backup("backup_20230601_093000.db", "20240106_090000");
    assert_eq!(r, Ok(()));
    let live = store.live.as_ref().unwrap();
    assert!(live.has_date_column);
    assert_eq!(live.rows[0].date.as_deref(), Some("2023-06-01"));
}

#[test]
fn list_backups_sorts_descending_and_keeps_only_db_files() {
    let store = Store {
        live: None,
        backups: vec![
            BackupFile { name: "backup_20240101_000000.db".to_string(), contents: Db::new() },
            BackupFile { name: "notes.txt".to_string(), contents: Db::new() },
            BackupFile { name: "backup_20240301_000000.db".to_string(), contents: Db::new() },
            BackupFile { name: "backup_20231231_235959.db".to_string(), contents: Db::new() },
        ],
    };
    let names = store.list_backups();
    assert_eq!(
        names,
        vec![
            "backup_20240301_000000.db".to_string(),
            "backup_20240101_000000.db".to_string(),
            "backup_20231231_235959.db".to_string(),
        ]
    );
}

#[test]
fn list_backups_of_missing_directory_is_empty() {
    let store = Store { live: None, backups: Vec::new() };
    assert_eq!(store.list_backups().len(), 0);
}
