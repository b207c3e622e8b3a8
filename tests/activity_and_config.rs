use beesync::activity::{is_browser_title, seen_videos, totals_by_label, video_title, window_titles};
use beesync::config::{recent_completion_cutoff, single_category_id, CategoryLookupError};
use beesync::report::{RunReport, SyncError};
use beesync::{get_prompt, sum_duration_by_title, Event, EventData, GetQuestionsConfig};

fn event(title: &str, duration: u64) -> Event {
    Event {
        id: 1,
        timestamp: 0,
        duration,
        data: EventData { app: "browser".to_string(), title: title.to_string() },
    }
}

#[test]
fn durations_summed_per_title() {
    let events = vec![event("a", 10), event("b", 5), event("a", 7)];
    let totals = sum_duration_by_title(&events);
    assert_eq!(totals, vec![("a".to_string(), 17), ("b".to_string(), 5)]);
    let capped = totals_by_label(&[("x".to_string(), u64::MAX), ("x".to_string(), 3)]);
    assert_eq!(capped, vec![("x".to_string(), u64::MAX)]);
}

#[test]
fn videos_watched_long_enough() {
    assert_eq!(video_title(" Song  - YouTube — Mozilla Firefox"), Some("Song".to_string()));
    assert_eq!(video_title("Inbox - Mail"), None);
    let events = vec![
        event("Zeta - YouTube — Firefox", 40_000),
        event("Alpha - YouTube — Firefox", 10_000),
        event("Zeta - YouTube — Brave", 30_000),
        event("Beta - YouTube — Firefox", 90_000),
        event("Mail", 500_000),
    ];
    assert_eq!(seen_videos(&events, 60_000), vec!["Beta".to_string(), "Zeta".to_string()]);
    assert!(seen_videos(&events, 1_000_000).is_empty());
}

#[test]
fn browser_titles_of_a_day() {
    assert!(is_browser_title("News — Mozilla FIREFOX"));
    assert!(!is_browser_title("Terminal"));
    let events = vec![
        event("Docs - Chromium", 5_000),
        event("Docs - Chromium", 9_000),
        event("Short - Brave", 100),
        event("Editor", 9_000),
        event("Page - Firefox", 9_000),
    ];
    assert_eq!(
        window_titles(&events, 1_000),
        vec!["Docs - Chromium".to_string(), "Page - Firefox".to_string()]
    );
}

#[test]
fn prompt_lists_titles() {
    let titles = vec!["One".to_string(), "Two".to_string()];
    assert_eq!(get_prompt("Check:\n{{titles}}\nEnd", &titles), "Check:\nOne\nTwo\nEnd");
    assert_eq!(get_prompt("no placeholder", &titles), "no placeholder");
}

#[test]
fn category_lookup() {
    assert_eq!(single_category_id(&[]), Err(CategoryLookupError::NotFound));
    assert_eq!(single_category_id(&[Some("c1".to_string())]), Ok("c1".to_string()));
    assert_eq!(single_category_id(&[None]), Err(CategoryLookupError::MissingId));
    assert_eq!(
        single_category_id(&[Some("a".to_string()), Some("b".to_string())]),
        Err(CategoryLookupError::Ambiguous(2))
    );
    assert_eq!(recent_completion_cutoff(2_000_000_000), 2_000_000_000 - 1_209_600_000);
    assert_eq!(recent_completion_cutoff(5), 0);
}

#[test]
fn question_filters_default_to_absent() {
    let c = GetQuestionsConfig::default();
    assert!(c.resolved.is_none() && c.limit.is_none() && c.search_string.is_none());
}

#[test]
fn run_report_counts() {
    let mut report = RunReport::new();
    report.record_created();
    report.record_deleted();
    assert!(report.succeeded());
    report.record_failure(SyncError::TargetWrite("boom".to_string()));
    assert!(!report.succeeded());
    assert_eq!((report.created, report.deleted, report.failures.len()), (1, 1, 1));
}
