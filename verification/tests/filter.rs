use chrono::NaiveDateTime;
use duifene::clock::Moment;
use duifene::filter::{parse_time, qualified, qualified_activities, qualified_at, IdSet};
use duifene::json::Json;
use duifene::models::RawRow;

const TIME_FMT: &str = "%Y/%m/%d %H:%M:%S";

fn row(json: &str) -> RawRow {
    let value: serde_json::Value = serde_json::from_str(json).expect("Json should be parsed");
    let entries = value
        .as_object()
        .unwrap()
        .iter()
        .map(|(name, value)| (name.clone(), Json::Text(value.as_str().unwrap().to_string())))
        .collect();
    RawRow::from_json(&Json::Object(entries)).unwrap()
}

fn dt(s: &str) -> Moment {
    let read = NaiveDateTime::parse_from_str(s, TIME_FMT).unwrap().and_utc();
    Moment { seconds: read.timestamp(), nanos: read.timestamp_subsec_nanos() }
}

fn empty_seen() -> IdSet {
    IdSet::new()
}

const NOW: &str = "2026/08/10 10:00:00";

#[test]
fn fresh_activity_is_qualified() {
    let activity = row(r#"{"ID":"1","CanApply":"1"}"#);
    assert!(qualified(&activity, &empty_seen(), dt(NOW)));
}

#[test]
fn seen_activities_are_skipped() {
    let activity = row(r#"{"ID":"1","CanApply":"1"}"#);
    let mut seen = IdSet::new();
    seen.insert("1".to_string());
    assert!(!qualified(&activity, &seen, dt(NOW)));
}

#[test]
fn signed_activities_are_skipped() {
    for json in [
        r#"{"ID":"1","CheckInStatus":"ok"}"#,
        r#"{"ID":"1","CheckInDate":"2026/08/10 09:00:00"}"#,
        r#"{"ID":"1","StudentID":"2023001"}"#,
    ] {
        assert!(!qualified(&row(json), &empty_seen(), dt(NOW)));
    }
}

#[test]
fn attended_activities_are_skipped() {
    assert!(!qualified(
        &row(r#"{"ID":"1","StatusID":"1"}"#),
        &empty_seen(),
        dt(NOW)
    ));
    assert!(!qualified(
        &row(r#"{"ID":"1","StatusName":"出勤"}"#),
        &empty_seen(),
        dt(NOW)
    ));
}

#[test]
fn cannot_apply_activities_are_skipped() {
    assert!(!qualified(
        &row(r#"{"ID":"1","CanApply":"0"}"#),
        &empty_seen(),
        dt(NOW)
    ));
    assert!(!qualified(&row(r#"{"ID":"1"}"#), &empty_seen(), dt(NOW)));
}

#[test]
fn expired_activities_are_skipped() {
    let activity = row(r#"{"ID":"1","CanApply":"1","ApplyLimitDate":"2026/08/10 09:59:00"}"#);
    assert!(!qualified(&activity, &empty_seen(), dt(NOW)));
}

#[test]
fn too_old_activities_are_skipped() {
    let old = row(r#"{"ID":"1","CanApply":"1","CreaterDate":"2026/08/10 09:20:00"}"#);
    assert!(!qualified(&old, &empty_seen(), dt(NOW)));
    let quarter_hour = row(r#"{"ID":"1","CanApply":"1","CreaterDate":"2026/08/10 09:35:00"}"#);
    assert!(!qualified(&quarter_hour, &empty_seen(), dt(NOW)));
    let boundary = row(r#"{"ID":"1","CanApply":"1","CreaterDate":"2026/08/10 09:50:00"}"#);
    assert!(qualified(&boundary, &empty_seen(), dt(NOW)));
    let fresh = row(r#"{"ID":"1","CanApply":"1","CreaterDate":"2026/08/10 09:55:00"}"#);
    assert!(qualified(&fresh, &empty_seen(), dt(NOW)));
}

#[test]
fn empty_and_bad_times_are_tolerated() {
    let activity = row(r#"{"ID":"1","CanApply":"1","ApplyLimitDate":"","CreaterDate":"不是时间"}"#);
    assert!(qualified(&activity, &empty_seen(), dt(NOW)));
}

#[test]
fn pick_all_qualified_keeping_order() {
    let rows = vec![
        row(r#"{"ID":"1","CanApply":"1"}"#),
        row(r#"{"ID":"2","CheckInDate":"2026/08/10 09:00:00"}"#),
        row(r#"{"ID":"3","CanApply":"1"}"#),
    ];
    let picked = qualified_activities(&rows, &empty_seen(), dt(NOW));
    let ids: Vec<&str> = picked.iter().map(|a| a.id.as_str()).collect();
    assert_eq!(ids, ["1", "3"]);
}

#[test]
fn last_moment_itself_is_in_time() {
    let activity = row(r#"{"ID":"1","CanApply":"1","ApplyLimitDate":"2026/08/10 10:00:00"}"#);
    assert!(qualified(&activity, &empty_seen(), dt(NOW)));
    let mut late = dt(NOW);
    late.nanos = 1;
    assert!(!qualified(&activity, &empty_seen(), late));
}

#[test]
fn age_is_taken_to_the_nanosecond() {
    let activity = row(r#"{"ID":"1","CanApply":"1"}"#);
    let created = Some(dt("2026/08/10 09:50:00"));
    assert!(qualified_at(&activity, &empty_seen(), None, created, dt(NOW)));
    let mut late = dt(NOW);
    late.nanos = 1;
    assert!(!qualified_at(&activity, &empty_seen(), None, created, late));
}

#[test]
fn times_are_read_as_the_service_writes_them() {
    assert_eq!(parse_time("2026/08/10 10:00:00"), Some(dt(NOW)));
    assert_eq!(parse_time(""), None);
    assert_eq!(parse_time("2026-08-10 10:00:00"), None);
    assert_eq!(parse_time("2026/02/30 10:00:00"), None);
    assert_eq!(
        parse_time("1970/01/02 00:00:01"),
        Some(Moment { seconds: 86401, nanos: 0 })
    );
}

#[test]
fn set_of_ids_knows_what_is_new() {
    let mut seen = IdSet::new();
    assert!(seen.insert("a".to_string()));
    assert!(!seen.insert("a".to_string()));
    assert!(seen.contains("a"));
    assert!(!seen.contains("b"));
}

#[test]
fn open_rows_close_for_good() {
    let activity = row(
        r#"{"ID":"1","CanApply":"1","CreaterDate":"2026/08/10 10:00:00","ApplyLimitDate":"2026/08/10 10:20:00"}"#,
    );
    let seen = empty_seen();
    let open: Vec<bool> = ["09:00:00", "10:00:00", "10:10:00", "10:10:01", "10:20:01", "23:59:59"]
        .iter()
        .map(|time| qualified(&activity, &seen, dt(&format!("2026/08/10 {time}"))))
        .collect();
    assert_eq!(open, [true, true, true, false, false, false]);
}

#[test]
fn row_made_in_a_leap_second_closes_for_good_on_its_day() {
    let activity = row(r#"{"ID":"1","CanApply":"1","CreaterDate":"2026/08/10 10:00:60"}"#);
    let seen = empty_seen();
    let open: Vec<bool> = ["10:00:59", "10:01:00", "10:10:59", "10:11:00", "10:11:01"]
        .iter()
        .map(|time| qualified(&activity, &seen, dt(&format!("2026/08/10 {time}"))))
        .collect();
    assert_eq!(open, [true, true, true, false, false]);
}
