use dormitory::db::{Db, Row};
use dormitory::points::{normalize_points, PointType};

#[test]
fn normalize_demerit_forces_negative() {
    assert_eq!(normalize_points(5, PointType::Demerit), -5);
    assert_eq!(normalize_points(-5, PointType::Demerit), -5);
    assert_eq!(normalize_points(0, PointType::Demerit), 0);
}

#[test]
fn normalize_merit_and_offset_kept_verbatim() {
    assert_eq!(normalize_points(5, PointType::Merit), 5);
    assert_eq!(normalize_points(-5, PointType::Merit), -5);
    assert_eq!(normalize_points(3, PointType::Offset), 3);
    assert_eq!(normalize_points(-3, PointType::Offset), -3);
}

#[test]
fn add_record_stores_normalized_points() {
    let mut db = Db::new();
    db.add_record(
        "2024001",
        "Kim",
        "Late",
        5,
        PointType::Demerit,
        Some("2024-01-01".to_string()),
    );
    let records = db.get_records();
    assert_eq!(records.len(), 1);
    assert_eq!(records[0].id, Some(1));
    assert_eq!(records[0].student_id, "2024001");
    assert_eq!(records[0].name, "Kim");
    assert_eq!(records[0].reason, "Late");
    assert_eq!(records[0].points, -5);
    assert_eq!(records[0].point_type, PointType::Demerit);
    assert_eq!(records[0].date, "2024-01-01");
}

#[test]
fn records_ordered_by_date_then_timestamp_descending() {
    let mut db = Db::new();
    db.insert_record("s1", "A", "r", 1, PointType::Merit, "2024-01-02", "2024-01-01 10:00");
    db.insert_record("s2", "B", "r", 1, PointType::Merit, "2024-01-03", "2024-01-01 09:00");
    db.insert_record("s3", "C", "r", 1, PointType::Merit, "2024-01-02", "2024-01-02 08:00");
    let records = db.get_records();
    // latest effective date first; equal dates fall back to timestamp
    assert_eq!(records[0].student_id, "s2");
    assert_eq!(records[1].student_id, "s3");
    assert_eq!(records[2].student_id, "s1");
}

#[test]
fn records_with_equal_keys_keep_entry_order() {
    let mut db = Db::new();
    db.insert_record("first", "A", "r", 1, PointType::Merit, "2024-01-02", "2024-01-01 10:00");
    db.insert_record("second", "B", "r", 1, PointType::Merit, "2024-01-02", "2024-01-01 10:00");
    let records = db.get_records();
    assert_eq!(records[0].student_id, "first");
    assert_eq!(records[1].student_id, "second");
}

#[test]
fn search_is_case_insensitive_substring() {
    let mut db = Db::new();
    db.insert_record("2024001", "Kim", "Late", 5, PointType::Merit, "2024-01-01", "2024-01-01 10:00");
    db.insert_record("2024002", "Lee", "Helped", 5, PointType::Merit, "2024-01-01", "2024-01-01 10:01");
    let hits = db.search_records("im");
    assert_eq!(hits.len(), 1);
    assert_eq!(hits[0].name, "Kim");
    let hits = db.search_records("KIM");
    assert_eq!(hits.len(), 1);
    let hits = db.search_records("kIm");
    assert_eq!(hits.len(), 1);
}

#[test]
fn search_matches_reason_and_empty_term_matches_all() {
    let mut db = Db::new();
    db.insert_record("2024001", "Kim", "Late at night", 5, PointType::Merit, "2024-01-01", "2024-01-01 10:00");
    db.insert_record("2024002", "Lee", "Helped", 5, PointType::Merit, "2024-01-01", "2024-01-01 10:01");
    let hits = db.search_records("night");
    assert_eq!(hits.len(), 1);
    assert_eq!(hits[0].student_id, "2024001");
    assert_eq!(db.search_records("").len(), 2);
    assert_eq!(db.search_records("zzz").len(), 0);
}

#[test]
fn student_details_match_exact_id() {
    let mut db = Db::new();
    db.insert_record("2024001", "Kim", "a", 1, PointType::Merit, "2024-01-01", "2024-01-01 10:00");
    db.insert_record("2024001", "Kim", "b", 2, PointType::Merit, "2024-01-02", "2024-01-02 10:00");
    db.insert_record("2024010", "Lee", "c", 3, PointType::Merit, "2024-01-01", "2024-01-01 11:00");
    let details = db.get_student_details("2024001");
    assert_eq!(details.len(), 2);
    assert_eq!(details[0].reason, "b");
    assert_eq!(details[1].reason, "a");
    // substring of an id is not an exact match
    assert_eq!(db.get_student_details("2024").len(), 0);
}

#[test]
fn update_overwrites_and_renormalizes() {
    let mut db = Db::new();
    db.insert_record("s1", "Kim", "Late", 5, PointType::Merit, "2024-01-01", "2024-01-01 10:00");
    db.update_record(1, "s1", "Kim", "Very late", 4, PointType::Demerit, "2024-01-05");
    let records = db.get_records();
    assert_eq!(records.len(), 1);
    assert_eq!(records[0].reason, "Very late");
    assert_eq!(records[0].points, -4);
    assert_eq!(records[0].date, "2024-01-05");
}

#[test]
fn update_of_missing_id_is_a_no_op() {
    let mut db = Db::new();
    db.insert_record("s1", "Kim", "Late", 5, PointType::Merit, "2024-01-01", "2024-01-01 10:00");
    db.update_record(77, "x", "y", "z", 1, PointType::Offset, "2024-02-02");
    let records = db.get_records();
    assert_eq!(records.len(), 1);
    assert_eq!(records[0].reason, "Late");
    assert_eq!(records[0].points, 5);
}

#[test]
fn delete_removes_only_the_named_id() {
    let mut db = Db::new();
    db.insert_record("s1", "Kim", "a", 1, PointType::Merit, "2024-01-01", "2024-01-01 10:00");
    db.insert_record("s2", "Lee", "b", 2, PointType::Merit, "2024-01-01", "2024-01-01 10:01");
    db.delete_record(1);
    let records = db.get_records();
    assert_eq!(records.len(), 1);
    assert_eq!(records[0].student_id, "s2");
    // absent ids are a silent no-op
    db.delete_record(99);
    assert_eq!(db.get_records().len(), 1);
}

#[test]
fn migration_backfills_date_from_timestamp_prefix() {
    let mut db = Db {
        has_date_column: false,
        next_id: 2,
        rows: vec![Row {
            id: 1,
            student_id: "s1".to_string(),
            name: "Kim".to_string(),
            reason: "old row".to_string(),
            points: 3,
            point_type: PointType::Merit,
            timestamp: "2023-12-31 23:59".to_string(),
            date: None,
        }],
    };
    db.migrate();
    assert!(db.has_date_column);
    assert_eq!(db.rows[0].date.as_deref(), Some("2023-12-31"));
    // the coalesced view agrees
    assert_eq!(db.get_records()[0].date, "2023-12-31");
}

#[test]
fn migration_is_idempotent() {
    let mut db = Db {
        has_date_column: false,
        next_id: 2,
        rows: vec![Row {
            id: 1,
            student_id: "s1".to_string(),
            name: "Kim".to_string(),
            reason: "old row".to_string(),
            points: 3,
            point_type: PointType::Merit,
            timestamp: "2023-12-31 23:59".to_string(),
            date: None,
        }],
    };
    db.migrate();
    let once_date = db.rows[0].date.clone();
    let once_len = db.rows.len();
    db.migrate();
    assert!(db.has_date_column);
    assert_eq!(db.rows.len(), once_len);
    assert_eq!(db.rows[0].date, once_date);
    assert_eq!(db.rows[0].timestamp, "2023-12-31 23:59");
}

#[test]
fn reads_coalesce_missing_dates() {
    let db = Db {
        has_date_column: true,
        next_id: 3,
        rows: vec![Row {
            id: 1,
            student_id: "s1".to_string(),
            name: "Kim".to_string(),
            reason: "kept".to_string(),
            points: 3,
            point_type: PointType::Merit,
            timestamp: "2024-02-02 08:00".to_string(),
            date: None,
        }],
    };
    let records = db.get_records();
    assert_eq!(records[0].date, "2024-02-02");
}
