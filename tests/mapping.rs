use beesync::datapoint::{MappingError, TargetDatapoint, UNIT};
use beesync::records::{
    commit_to_datapoint, first_line_of, get_session_title, map_completed_sessions, partner_wanted,
    question_to_datapoint, session_to_datapoint, task_to_datapoint, video_to_datapoint,
    Participant, SessionRecord, TaskRecord,
};
use beesync::{find_matching_tags, Commit, Question};

fn question(id: &str, title: &str, created_at: i64) -> Question {
    Question {
        id: id.to_string(),
        title: title.to_string(),
        resolve_by: created_at + 86_400,
        created_at,
        comment: None,
        profile_id: None,
        question_type: "BINARY".to_string(),
        resolved: false,
        pinged_for_resolution: false,
        resolution: None,
        resolved_at: None,
        notes: None,
        hide_forecasts_until: None,
        hide_forecasts_until_prediction: false,
        user_id: "u1".to_string(),
    }
}

#[test]
fn task_maps_with_id_and_completion() {
    let task = TaskRecord {
        id: Some("t1".to_string()),
        title: Some("Write report".to_string()),
        done_at: Some(1_704_103_200_123),
    };
    let dp = task_to_datapoint(&task).unwrap();
    assert_eq!(dp.value, UNIT);
    assert_eq!(dp.timestamp, Some(1_704_103_200));
    assert_eq!(dp.day_bucket.as_deref(), Some("20240101"));
    assert_eq!(dp.comment, "Write report");
    assert_eq!(dp.external_id.as_deref(), Some("t1"));
}

#[test]
fn task_without_title_or_fields() {
    let untitled = TaskRecord { id: Some("t2".to_string()), title: None, done_at: Some(0) };
    assert_eq!(task_to_datapoint(&untitled).unwrap().comment, "Untitled task");
    let no_id = TaskRecord { id: None, title: None, done_at: Some(0) };
    assert_eq!(task_to_datapoint(&no_id).unwrap_err(), MappingError::MissingId);
    let no_time = TaskRecord { id: Some("t3".to_string()), title: None, done_at: None };
    assert_eq!(task_to_datapoint(&no_time).unwrap_err(), MappingError::MissingTimestamp);
    let far = TaskRecord { id: Some("t4".to_string()), title: None, done_at: Some(u64::MAX) };
    assert_eq!(task_to_datapoint(&far).unwrap_err(), MappingError::TimestampOutOfRange);
}

#[test]
fn question_maps_to_created_day() {
    let dp = question_to_datapoint(&question("q1", "Will it rain?", 1_704_067_200)).unwrap();
    assert_eq!(dp.day_bucket.as_deref(), Some("20240101"));
    assert_eq!(dp.comment, "Will it rain?");
    assert_eq!(dp.external_id.as_deref(), Some("q1"));
    assert_eq!(dp.timestamp, Some(1_704_067_200));
    let bad = question_to_datapoint(&question("q2", "Later", i64::MAX));
    assert_eq!(bad.unwrap_err(), MappingError::TimestampOutOfRange);
}

#[test]
fn commit_comment_uses_trimmed_first_line() {
    let commit = Commit {
        sha: "abc123".to_string(),
        message: "  Fix parser  \r\n\nLonger body".to_string(),
        repository: "me/tool".to_string(),
        committer_date: 1_704_067_200,
    };
    let dp = commit_to_datapoint(&commit).unwrap();
    assert_eq!(dp.comment, "me/tool: Fix parser");
    assert_eq!(dp.external_id.as_deref(), Some("abc123"));
    assert_eq!(first_line_of(""), "");
    let empty = Commit { message: String::new(), ..commit };
    assert_eq!(commit_to_datapoint(&empty).unwrap().comment, "me/tool: ");
}

fn session(start: i64, title: Option<&str>, partner: Option<&str>, completed: bool) -> SessionRecord {
    SessionRecord {
        start_time: start,
        duration: 3_000_000,
        completed,
        users: vec![Participant { session_title: title.map(|t| t.to_string()) }],
        partner: partner.map(|p| p.to_string()),
    }
}

#[test]
fn session_comment_and_bucket() {
    // 2024-01-01 09:05 UTC, a Monday.
    let dp = session_to_datapoint(&session(1_704_099_900, Some("Deep work #write"), Some("Ann"), true))
        .unwrap();
    assert_eq!(dp.comment, "Monday, 09:05 (UTC), Deep work #write with Ann for 50 mins");
    assert_eq!(dp.day_bucket.as_deref(), Some("20240101"));
    assert_eq!(dp.timestamp, Some(1_704_099_900));
    assert_eq!(dp.external_id, None);
    let unknown = session_to_datapoint(&session(0, None, None, true)).unwrap();
    assert_eq!(unknown.comment, "Thursday, 00:00 (UTC),  with unknown partner for 50 mins");
}

#[test]
fn session_minutes_round_toward_zero() {
    let mut s = session(0, Some("t"), Some("Bo"), true);
    s.duration = -90_000;
    assert_eq!(session_to_datapoint(&s).unwrap().comment, "Thursday, 00:00 (UTC), t with Bo for -1 mins");
    s.duration = -30_000;
    assert_eq!(session_to_datapoint(&s).unwrap().comment, "Thursday, 00:00 (UTC), t with Bo for 0 mins");
    s.duration = 119_999;
    assert_eq!(session_to_datapoint(&s).unwrap().comment, "Thursday, 00:00 (UTC), t with Bo for 1 mins");
}

#[test]
fn partner_needed_only_for_new_completed_sessions() {
    let sessions = vec![
        session(100, None, None, true),
        session(200, None, None, true),
        session(300, None, None, false),
    ];
    let existing = vec![TargetDatapoint {
        id: "d".to_string(),
        value: UNIT,
        timestamp: 100,
        day_bucket: "19700101".to_string(),
        comment: None,
        external_id: None,
    }];
    assert_eq!(partner_wanted(&sessions, &existing), vec![false, true, false]);
}

#[test]
fn session_without_participants() {
    let mut s = session(0, None, None, true);
    s.users.clear();
    assert_eq!(get_session_title(&s).unwrap_err(), MappingError::MissingParticipant);
    assert_eq!(session_to_datapoint(&s).unwrap_err(), MappingError::MissingParticipant);
}

#[test]
fn only_completed_sessions_are_mapped() {
    let sessions = vec![
        session(100, Some("a"), None, true),
        session(200, Some("b"), None, false),
        session(300, Some("c"), None, true),
    ];
    let mapped = map_completed_sessions(&sessions);
    assert_eq!(mapped.len(), 2);
    assert_eq!(mapped[0].as_ref().unwrap().timestamp, Some(100));
    assert_eq!(mapped[1].as_ref().unwrap().timestamp, Some(300));
}

#[test]
fn tags_found_in_comment() {
    let tags = vec!["write".to_string(), "read".to_string(), "code".to_string()];
    let found = find_matching_tags(&tags, "Deep work #write and #code");
    assert_eq!(found, vec!["write".to_string(), "code".to_string()]);
    assert!(find_matching_tags(&tags, "write without hash").is_empty());
}

#[test]
fn video_datapoint() {
    let dp = video_to_datapoint("A talk", 42);
    assert_eq!(dp.comment, "A talk");
    assert_eq!(dp.timestamp, Some(42));
    assert_eq!(dp.day_bucket, None);
    assert_eq!(dp.value, UNIT);
}
