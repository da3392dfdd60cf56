use dormitory::db::{Db, Row};
use dormitory::points::PointType;

fn sample_db() -> Db {
    let mut db = Db::new();
    db.insert_record("2024001", "Kim", "Helped", 5, PointType::Merit, "2024-01-01", "2024-01-01 10:00");
    db.insert_record("2024001", "Kim", "Late", 3, PointType::Demerit, "2024-01-02", "2024-01-02 10:00");
    db.insert_record("2024001", "Kim", "Makeup", 2, PointType::Offset, "2024-01-03", "2024-01-03 10:00");
    db.insert_record("2024002", "Lee", "Late", 4, PointType::Demerit, "2024-01-04", "2024-01-04 10:00");
    db
}

#[test]
fn summary_aggregates_per_group() {
    let db = sample_db();
    let summaries = db.get_summary();
    assert_eq!(summaries.len(), 2);
    // ordered by last activity descending: Lee acted last
    assert_eq!(summaries[0].student_id, "2024002");
    assert_eq!(summaries[0].name, "Lee");
    assert_eq!(summaries[0].merit, 0);
    assert_eq!(summaries[0].demerit, 4);
    assert_eq!(summaries[0].offset, 0);
    assert_eq!(summaries[0].total, -4);
    assert_eq!(summaries[0].last_activity, "2024-01-04 10:00");
    assert_eq!(summaries[1].student_id, "2024001");
    assert_eq!(summaries[1].merit, 5);
    assert_eq!(summaries[1].demerit, 3);
    assert_eq!(summaries[1].offset, 2);
    assert_eq!(summaries[1].total, 5 - 3 + 2);
    assert_eq!(summaries[1].last_activity, "2024-01-03 10:00");
}

#[test]
fn demerit_example_from_the_record_path() {
    let mut db = Db::new();
    db.add_record("2024001", "Kim", "Late", 5, PointType::Demerit, Some("2024-01-01".to_string()));
    let records = db.get_records();
    assert_eq!(records[0].points, -5);
    let summaries = db.get_summary();
    assert_eq!(summaries.len(), 1);
    assert_eq!(summaries[0].demerit, 5);
    assert_eq!(summaries[0].total, -5);
}

#[test]
fn total_is_the_stored_sum_not_a_recombination() {
    // a demerit row stored positive (as restored foreign data might be):
    // the total follows the stored points, while the demerit column still
    // reports the magnitude, so the naive merit-demerit+offset formula
    // does not apply
    let db = Db {
        has_date_column: true,
        next_id: 2,
        rows: vec![Row {
            id: 1,
            student_id: "s1".to_string(),
            name: "Kim".to_string(),
            reason: "odd".to_string(),
            points: 7,
            point_type: PointType::Demerit,
            timestamp: "2024-01-01 10:00".to_string(),
            date: Some("2024-01-01".to_string()),
        }],
    };
    let summaries = db.get_summary();
    assert_eq!(summaries[0].demerit, 7);
    assert_eq!(summaries[0].total, 7);
    assert!(summaries[0].demerit >= 0);
    assert_ne!(
        summaries[0].total,
        summaries[0].merit - summaries[0].demerit + summaries[0].offset
    );
}

#[test]
fn summary_search_matches_id_and_name_only() {
    let mut db = Db::new();
    db.insert_record("2024001", "Kim", "night duty", 5, PointType::Merit, "2024-01-01", "2024-01-01 10:00");
    db.insert_record("2024002", "Lee", "Helped", 2, PointType::Merit, "2024-01-02", "2024-01-02 10:00");
    // the record search matches the reason ...
    assert_eq!(db.search_records("night").len(), 1);
    // ... but the summary search deliberately does not
    assert_eq!(db.search_summary("night").len(), 0);
    // it does match student id and name, case-insensitively
    assert_eq!(db.search_summary("kim").len(), 1);
    assert_eq!(db.search_summary("2024").len(), 2);
    assert_eq!(db.search_summary("LEE").len(), 1);
}

#[test]
fn summary_search_aggregates_only_matching_groups() {
    let db = sample_db();
    let summaries = db.search_summary("Kim");
    assert_eq!(summaries.len(), 1);
    assert_eq!(summaries[0].student_id, "2024001");
    assert_eq!(summaries[0].merit, 5);
    assert_eq!(summaries[0].demerit, 3);
    assert_eq!(summaries[0].offset, 2);
    assert_eq!(summaries[0].total, 4);
}

#[test]
fn groups_split_on_name_as_well_as_id() {
    let mut db = Db::new();
    db.insert_record("s1", "Kim", "a", 1, PointType::Merit, "2024-01-01", "2024-01-01 10:00");
    db.insert_record("s1", "Kimberly", "b", 2, PointType::Merit, "2024-01-02", "2024-01-02 10:00");
    let summaries = db.get_summary();
    assert_eq!(summaries.len(), 2);
}
