use p2boards::submission::{ChangelogInsert, SubmissionChangelog, Timestamp};
use p2boards::text::decimal_string;

fn submission(timestamp: &str, category_id: Option<i32>) -> SubmissionChangelog {
    SubmissionChangelog {
        timestamp: timestamp.to_string(),
        profile_number: "76561198040982247".to_string(),
        score: 1234,
        map_id: "47458".to_string(),
        category_id,
        youtube_id: Some("dQw4w9WgXcQ".to_string()),
        note: None,
    }
}

fn defaults() -> Vec<(String, i32)> {
    vec![("47455".to_string(), 1), ("47458".to_string(), 3)]
}

#[test]
fn submission_time_is_parsed() {
    let c = ChangelogInsert::new_from_submission(&submission("2023-07-14 09:05:30", Some(8)), &defaults())
        .unwrap();
    assert_eq!(
        c.timestamp,
        Some(Timestamp { year: 2023, month: 7, day: 14, hour: 9, minute: 5, second: 30 })
    );
    assert_eq!(c.category_id, 8);
    assert_eq!(c.profile_number, "76561198040982247");
    assert_eq!(c.score, 1234);
    assert_eq!(c.map_id, "47458");
    assert_eq!(c.youtube_id.as_deref(), Some("dQw4w9WgXcQ"));
    assert_eq!(c.note, None);
    assert!(c.submission);
    assert!(!c.banned);
    assert_eq!(c.demo_id, None);
    assert_eq!(c.verified, None);
}

#[test]
fn malformed_time_is_left_empty() {
    let c = ChangelogInsert::new_from_submission(&submission("2023-02-30 10:00:00", Some(1)), &defaults())
        .unwrap();
    assert_eq!(c.timestamp, None);
    let c = ChangelogInsert::new_from_submission(&submission("yesterday", Some(1)), &defaults())
        .unwrap();
    assert_eq!(c.timestamp, None);
}

#[test]
fn category_falls_back_to_map_default() {
    let c = ChangelogInsert::new_from_submission(&submission("2023-07-14 09:05:30", None), &defaults())
        .unwrap();
    assert_eq!(c.category_id, 3);
}

#[test]
fn no_category_and_no_default_gives_nothing() {
    let mut s = submission("2023-07-14 09:05:30", None);
    s.map_id = "99999".to_string();
    assert!(ChangelogInsert::new_from_submission(&s, &defaults()).is_none());
}

#[test]
fn explicit_time_is_kept() {
    let t = Timestamp { year: 2011, month: 4, day: 19, hour: 0, minute: 0, second: 0 };
    let c = ChangelogInsert::from_submission_at(&submission("ignored", None), Some(t), &defaults())
        .unwrap();
    assert_eq!(c.timestamp, Some(t));
    assert_eq!(c.category_id, 3);
}

#[test]
fn decimal_rendering() {
    assert_eq!(decimal_string(0), "0");
    assert_eq!(decimal_string(7), "7");
    assert_eq!(decimal_string(10), "10");
    assert_eq!(decimal_string(4096), "4096");
    assert_eq!(decimal_string(u64::MAX), u64::MAX.to_string());
}
