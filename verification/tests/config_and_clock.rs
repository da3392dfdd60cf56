use dormitory::clock::{format_compact_stamp, format_date, format_minute_stamp, now_strings};
use dormitory::config::{change_password, effective_password, login, ChangeOutcome};
use dormitory::db::Db;
use dormitory::points::PointType;
use dormitory::text::{str_contains_ci, str_eq, str_lt};

#[test]
fn missing_config_falls_back_to_the_default_password() {
    assert_eq!(effective_password(None), "admin123");
    assert_eq!(effective_password(Some("secret".to_string())), "secret");
}

#[test]
fn login_compares_against_the_effective_password() {
    assert!(login("admin123", None));
    assert!(!login("admin124", None));
    assert!(login("secret", Some("secret".to_string())));
    assert!(!login("admin123", Some("secret".to_string())));
}

#[test]
fn change_password_rejects_a_wrong_old_password() {
    let (outcome, cfg) = change_password("nope", "newpass", None);
    assert_eq!(outcome, ChangeOutcome::WrongOldPassword);
    assert!(cfg.is_none());
}

#[test]
fn change_password_rejects_a_short_new_password() {
    let (outcome, cfg) = change_password("admin123", "ab", None);
    assert_eq!(outcome, ChangeOutcome::TooShort);
    assert!(cfg.is_none());
}

#[test]
fn change_password_accepts_and_builds_the_new_config() {
    let (outcome, cfg) = change_password("admin123", "abc", None);
    assert_eq!(outcome, ChangeOutcome::Accepted);
    assert_eq!(cfg.unwrap().password, "abc");
    let (outcome, cfg) = change_password("old", "newpass", Some("old".to_string()));
    assert_eq!(outcome, ChangeOutcome::Accepted);
    assert_eq!(cfg.unwrap().password, "newpass");
}

#[test]
fn stamps_format_with_zero_padding() {
    assert_eq!(format_date(2024, 3, 7), "2024-03-07");
    assert_eq!(format_date(987, 1, 2), "0987-01-02");
    assert_eq!(format_minute_stamp(2024, 3, 7, 9, 5), "2024-03-07 09:05");
    assert_eq!(format_compact_stamp(2024, 3, 7, 9, 5, 59), "20240307_090559");
    assert_eq!(format_compact_stamp(2024, 12, 31, 23, 59, 0), "20241231_235900");
}

#[test]
fn the_clock_yields_a_minute_stamp_and_its_date() {
    let (ts, date) = now_strings();
    assert_eq!(ts.len(), 16);
    assert_eq!(date.len(), 10);
    assert_eq!(&ts[..10], date.as_str());
    let bytes = ts.as_bytes();
    assert_eq!(bytes[4], b'-');
    assert_eq!(bytes[7], b'-');
    assert_eq!(bytes[10], b' ');
    assert_eq!(bytes[13], b':');
}

#[test]
fn a_record_created_without_a_date_gets_the_clock_date() {
    let mut db = Db::new();
    db.add_record("s1", "Kim", "r", 1, PointType::Merit, None);
    let records = db.get_records();
    assert_eq!(records[0].timestamp.len(), 16);
    assert_eq!(records[0].date.len(), 10);
    assert_eq!(&records[0].timestamp[..10], records[0].date.as_str());
}

#[test]
fn text_primitives_behave_like_their_specifications() {
    assert!(str_eq("abc", "abc"));
    assert!(!str_eq("abc", "abd"));
    assert!(!str_eq("abc", "abcd"));
    assert!(str_lt("abc", "abd"));
    assert!(str_lt("abc", "abcd"));
    assert!(!str_lt("abc", "abc"));
    assert!(!str_lt("b", "abc"));
    assert!(str_contains_ci("Kim", "im"));
    assert!(str_contains_ci("Kim", "KIM"));
    assert!(str_contains_ci("anything", ""));
    assert!(!str_contains_ci("", "a"));
    assert!(!str_contains_ci("Kim", "kims"));
}
