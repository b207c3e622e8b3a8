use beesync::aggregate::{
    judge_reply, judgment_from_reply, judgment_without_classifier, no_activity_judgment,
    plan_day_correction, values_differ, Correction, Judgment,
};
use beesync::datapoint::{CanonicalDatapoint, MappingError, TargetDatapoint, UNIT};
use beesync::dedup::{DedupIndex, DedupKey};
use beesync::watermark::{history_limit, resolve_watermark, session_window_end};
use beesync::{plan_append, KeyStrategy};

fn record(id: &str, ts: i64) -> CanonicalDatapoint {
    CanonicalDatapoint {
        value: UNIT,
        timestamp: Some(ts),
        day_bucket: Some("20240101".to_string()),
        comment: format!("record {id}"),
        external_id: Some(id.to_string()),
    }
}

fn stored(id: &str, value: i64, ts: i64, bucket: &str, ext: Option<&str>, comment: Option<&str>) -> TargetDatapoint {
    TargetDatapoint {
        id: id.to_string(),
        value,
        timestamp: ts,
        day_bucket: bucket.to_string(),
        comment: comment.map(|c| c.to_string()),
        external_id: ext.map(|e| e.to_string()),
    }
}

/// What the goal tracker stores for a created datapoint.
fn mirror(n: usize, c: &CanonicalDatapoint) -> TargetDatapoint {
    TargetDatapoint {
        id: format!("new{n}"),
        value: c.value,
        timestamp: c.timestamp.unwrap_or(0),
        day_bucket: c.day_bucket.clone().unwrap_or_default(),
        comment: Some(c.comment.clone()),
        external_id: c.external_id.clone(),
    }
}

#[test]
fn creations_come_oldest_first() {
    let mapped = vec![Ok(record("c", 300)), Ok(record("a", 100)), Ok(record("b", 200))];
    let plan = plan_append(KeyStrategy::Identifier, &mapped, &[]);
    let times: Vec<i64> = plan.creations.iter().map(|c| c.timestamp.unwrap()).collect();
    assert_eq!(times, vec![100, 200, 300]);
    assert!(plan.rejected.is_empty());
}

#[test]
fn equal_times_keep_source_order() {
    let mapped = vec![Ok(record("x", 5)), Ok(record("y", 5)), Ok(record("z", 1))];
    let plan = plan_append(KeyStrategy::Identifier, &mapped, &[]);
    let ids: Vec<&str> = plan.creations.iter().map(|c| c.external_id.as_deref().unwrap()).collect();
    assert_eq!(ids, vec!["z", "x", "y"]);
}

#[test]
fn rerun_without_new_activity_creates_nothing() {
    let mapped = vec![Ok(record("a", 100)), Ok(record("b", 200))];
    let existing = vec![stored("s1", UNIT, 50, "20231231", Some("old"), None)];
    let first = plan_append(KeyStrategy::Identifier, &mapped, &existing);
    assert_eq!(first.creations.len(), 2);
    let mut after = existing;
    for (n, c) in first.creations.iter().enumerate() {
        after.push(mirror(n, c));
    }
    let second = plan_append(KeyStrategy::Identifier, &mapped, &after);
    assert!(second.creations.is_empty());
}

#[test]
fn overlapping_windows_create_each_key_once() {
    let first_window = vec![Ok(record("a", 100)), Ok(record("b", 200)), Ok(record("a", 100))];
    let first = plan_append(KeyStrategy::Identifier, &first_window, &[]);
    assert_eq!(first.creations.len(), 2);
    let after: Vec<TargetDatapoint> = first.creations.iter().enumerate().map(|(n, c)| mirror(n, c)).collect();
    let second_window = vec![Ok(record("b", 200)), Ok(record("c", 300))];
    let second = plan_append(KeyStrategy::Identifier, &second_window, &after);
    let ids: Vec<&str> = second.creations.iter().map(|c| c.external_id.as_deref().unwrap()).collect();
    assert_eq!(ids, vec!["c"]);
}

#[test]
fn timestamp_keys_skip_stored_instants() {
    let existing = vec![stored("s1", UNIT, 100, "19700101", None, Some("x"))];
    let mut a = record("a", 100);
    a.external_id = None;
    let mut b = record("b", 200);
    b.external_id = None;
    let plan = plan_append(KeyStrategy::Timestamp, &[Ok(a), Ok(b)], &existing);
    assert_eq!(plan.creations.len(), 1);
    assert_eq!(plan.creations[0].timestamp, Some(200));
}

#[test]
fn label_keys_skip_logged_titles() {
    let existing = vec![
        stored("s1", UNIT, 1, "20240101", None, Some("Seen video")),
        stored("s2", UNIT, 2, "20240101", None, None),
    ];
    let mut seen = record("a", 9);
    seen.comment = "Seen video".to_string();
    let mut fresh = record("b", 9);
    fresh.comment = "New video".to_string();
    let mut blank = record("c", 9);
    blank.comment = String::new();
    let plan = plan_append(KeyStrategy::Label, &[Ok(seen), Ok(fresh), Ok(blank)], &existing);
    assert_eq!(plan.creations.len(), 1);
    assert_eq!(plan.creations[0].comment, "New video");
}

#[test]
fn records_without_key_are_not_created() {
    let mut keyless = record("a", 1);
    keyless.external_id = None;
    let plan = plan_append(KeyStrategy::Identifier, &[Ok(keyless)], &[]);
    assert!(plan.creations.is_empty());
}

#[test]
fn one_mapping_failure_leaves_four_creations() {
    let mapped = vec![
        Ok(record("a", 1)),
        Ok(record("b", 2)),
        Err(MappingError::MissingTimestamp),
        Ok(record("c", 3)),
        Ok(record("d", 4)),
    ];
    let plan = plan_append(KeyStrategy::Identifier, &mapped, &[]);
    assert_eq!(plan.creations.len(), 4);
    assert_eq!(plan.rejected, vec![MappingError::MissingTimestamp]);
}

#[test]
fn dedup_index_membership() {
    let existing = vec![
        stored("s1", UNIT, 10, "x", Some("k1"), None),
        stored("s2", UNIT, 20, "x", None, None),
    ];
    let index = DedupIndex::build(KeyStrategy::Identifier, &existing);
    assert!(index.contains(&DedupKey::Id("k1".to_string())));
    assert!(!index.contains(&DedupKey::Id("k2".to_string())));
    let by_time = DedupIndex::build(KeyStrategy::Timestamp, &existing);
    assert!(by_time.contains(&DedupKey::At(20)));
    assert!(!by_time.contains(&DedupKey::At(30)));
}

#[test]
fn watermark_from_most_recent() {
    assert_eq!(resolve_watermark(&[]), 0);
    let positive = vec![stored("s1", UNIT, 1_700_000_000, "x", None, None)];
    assert_eq!(resolve_watermark(&positive), 1_700_000_000);
    let negative = vec![stored("s1", 0, 1_700_000_000, "x", None, None)];
    assert_eq!(resolve_watermark(&negative), 0);
    assert!(resolve_watermark(&negative) <= negative[0].timestamp);
    assert_eq!(history_limit(7), 7);
    assert_eq!(session_window_end(100), Some(86_500));
    assert_eq!(session_window_end(i64::MAX), None);
}

#[test]
fn classifier_replies() {
    let approved = judge_reply("  no \n");
    assert_eq!(approved.value, UNIT);
    assert_eq!(approved.comment, "✨ GPT approved.");
    let rejected = judge_reply("yes\nSocial media at night\nmore");
    assert_eq!(rejected.value, 0);
    assert_eq!(rejected.comment, "Social media at night");
    let short = judge_reply("yes");
    assert_eq!((short.value, short.comment.as_str()), (0, ""));
    let spaced = judge_reply("\u{3000}no\u{a0}\r\n");
    assert_eq!(spaced.value, UNIT);
    let exact = judgment_from_reply("no", "no");
    assert_eq!(exact.value, UNIT);
    let case = judgment_from_reply("No", "No");
    assert_eq!(case.value, 0);
    let empty = no_activity_judgment();
    assert_eq!((empty.value, empty.comment.as_str()), (UNIT, "🫙 No titles."));
    assert!(judgment_without_classifier(&[]).is_some());
    assert!(judgment_without_classifier(&["t".to_string()]).is_none());
}

fn apply(store: &mut Vec<TargetDatapoint>, plan: &[Correction]) {
    for (n, step) in plan.iter().enumerate() {
        match step {
            Correction::Delete(id) => store.retain(|t| &t.id != id),
            Correction::Create(c) => store.push(mirror(100 + n, c)),
        }
    }
}

#[test]
fn correction_replaces_wrong_day_value() {
    let mut store = vec![
        stored("old", 0, 0, "20240101", None, Some("dirty")),
        stored("other", 0, 0, "20240102", None, Some("dirty")),
    ];
    let fresh = Judgment { comment: "clean".to_string(), value: UNIT };
    let plan = plan_day_correction("20240101", &fresh, &store);
    assert_eq!(plan.len(), 2);
    assert!(matches!(&plan[0], Correction::Delete(id) if id == "old"));
    match &plan[1] {
        Correction::Create(c) => {
            assert_eq!(c.value, UNIT);
            assert_eq!(c.day_bucket.as_deref(), Some("20240101"));
            assert_eq!(c.comment, "clean");
            assert_eq!(c.timestamp, None);
        }
        Correction::Delete(_) => panic!("expected a creation"),
    }
    apply(&mut store, &plan);
    let day: Vec<&TargetDatapoint> = store.iter().filter(|t| t.day_bucket == "20240101").collect();
    assert_eq!(day.len(), 1);
    assert_eq!(day[0].value, UNIT);
    assert!(store.iter().all(|t| t.id != "old"));
    assert!(plan_day_correction("20240101", &fresh, &store).is_empty());
}

#[test]
fn correction_is_noop_when_value_matches() {
    let store = vec![stored("s1", UNIT - 5_000, 0, "20240101", None, None)];
    let fresh = Judgment { comment: "ok".to_string(), value: UNIT };
    assert!(plan_day_correction("20240101", &fresh, &store).is_empty());
    assert!(!values_differ(UNIT - 10_000, UNIT));
    assert!(values_differ(UNIT - 10_001, UNIT));
}

#[test]
fn correction_leaves_day_alone_when_one_matches() {
    let store = vec![
        stored("wrong", 0, 0, "20240101", None, None),
        stored("right", UNIT, 0, "20240101", None, None),
    ];
    let fresh = Judgment { comment: "ok".to_string(), value: UNIT };
    assert!(plan_day_correction("20240101", &fresh, &store).is_empty());
}

#[test]
fn correction_deletes_every_differing_datapoint_of_day() {
    let store = vec![
        stored("a", 0, 0, "20240101", None, None),
        stored("b", 500_000, 0, "20240101", None, None),
        stored("c", 0, 0, "20240102", None, None),
    ];
    let fresh = Judgment { comment: "ok".to_string(), value: UNIT };
    let plan = plan_day_correction("20240101", &fresh, &store);
    assert_eq!(plan.len(), 3);
    assert!(matches!(&plan[0], Correction::Delete(id) if id == "a"));
    assert!(matches!(&plan[1], Correction::Delete(id) if id == "b"));
    assert!(matches!(&plan[2], Correction::Create(c) if c.value == UNIT));
}

#[test]
fn correction_creates_for_empty_day() {
    let fresh = Judgment { comment: "c".to_string(), value: 0 };
    let plan = plan_day_correction("20240105", &fresh, &[]);
    assert_eq!(plan.len(), 1);
    assert!(matches!(&plan[0], Correction::Create(c) if c.value == 0));
}
