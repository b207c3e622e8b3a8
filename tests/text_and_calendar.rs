use beesync::calendar::{
    civil_time, day_bucket, lookback_start, lookback_windows, MAX_INSTANT, MIN_INSTANT,
};
use beesync::text::{find_text, join_texts, line_at, replace_text, text_contains};

#[test]
fn lines_follow_std_lines() {
    let text = "first\r\nsecond\nthird";
    assert_eq!(line_at(text, 0), Some("first".to_string()));
    assert_eq!(line_at(text, 1), Some("second".to_string()));
    assert_eq!(line_at(text, 2), Some("third".to_string()));
    assert_eq!(line_at(text, 3), None);
    assert_eq!(line_at("", 0), None);
    assert_eq!(line_at("only\n", 1), None);
    assert_eq!(line_at("\n\nx", 1), Some(String::new()));
    for sample in ["a\nb\r\n", "x\r", "\r\n\r\n", "one two"] {
        let expected: Vec<&str> = sample.lines().collect();
        for (k, line) in expected.iter().enumerate() {
            assert_eq!(line_at(sample, k), Some(line.to_string()));
        }
        assert_eq!(line_at(sample, expected.len()), None);
    }
}

#[test]
fn substring_search() {
    assert!(text_contains("Mozilla Firefox", "Fire"));
    assert!(!text_contains("Mozilla", "Firefox"));
    assert!(text_contains("abc", ""));
    assert_eq!(find_text("ab - YouTube — x - YouTube —", " - YouTube —"), Some(2));
    assert_eq!(find_text("nothing here", "zz"), None);
}

#[test]
fn join_and_replace() {
    let parts = vec!["a".to_string(), "b".to_string(), "c".to_string()];
    assert_eq!(join_texts(&parts, "\n"), "a\nb\nc");
    assert_eq!(join_texts(&[], "\n"), "");
    assert_eq!(replace_text("x {{t}} y {{t}}", "{{t}}", "Z"), "x Z y Z");
    assert_eq!(replace_text("aaa", "aa", "b"), "aaa".replace("aa", "b"));
    assert_eq!(replace_text("no match", "{{t}}", "Z"), "no match");
}

#[test]
fn day_buckets_of_instants() {
    assert_eq!(day_bucket(0), Some("19700101".to_string()));
    assert_eq!(day_bucket(1_546_300_800), Some("20190101".to_string()));
    assert_eq!(day_bucket(1_704_067_199), Some("20231231".to_string()));
    assert_eq!(day_bucket(-1), Some("19691231".to_string()));
    assert_eq!(day_bucket(MIN_INSTANT), Some("-99990101".to_string()));
    assert_eq!(day_bucket(MAX_INSTANT), Some("99991231".to_string()));
    assert_eq!(day_bucket(MAX_INSTANT + 1), None);
    assert_eq!(day_bucket(MIN_INSTANT - 1), None);
}

#[test]
fn civil_time_fields() {
    let c = civil_time(0).unwrap();
    assert_eq!((c.year, c.month, c.day, c.weekday, c.hour, c.minute), (1970, 1, 1, 3, 0, 0));
    // 2024-01-01 09:05 UTC was a Monday.
    let c = civil_time(1_704_099_900).unwrap();
    assert_eq!((c.year, c.month, c.day, c.weekday, c.hour, c.minute), (2024, 1, 1, 0, 9, 5));
    assert!(civil_time(MAX_INSTANT + 1).is_none());
}

#[test]
fn lookback_windows_end_at_local_midnight() {
    // 2024-01-03 10:00 UTC, on a clock one hour ahead.
    let now = 1_704_276_000;
    let windows = lookback_windows(now, 3600, 2).unwrap();
    assert_eq!(windows.len(), 2);
    // Local midnight of 2024-01-03 is 2024-01-02 23:00 UTC.
    let midnight = 1_704_236_400;
    assert_eq!(windows[1].end, midnight);
    assert_eq!(windows[1].start, midnight - 86_400);
    assert_eq!(windows[1].day_bucket, "20240103");
    assert_eq!(windows[0].end, midnight - 86_400);
    assert_eq!(windows[0].day_bucket, "20240102");
    assert_eq!(lookback_windows(now, 0, 0).unwrap().len(), 0);
    assert!(lookback_windows(now, 0, 10_000_000).is_none());
}

#[test]
fn fixed_lookback_start() {
    assert_eq!(lookback_start(1_000_000, 2), Some(1_000_000 - 172_800));
    assert_eq!(lookback_start(i64::MIN + 10, 1), None);
}
