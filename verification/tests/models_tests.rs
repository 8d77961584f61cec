use progit::models::{parse_priority, priority_from_key, Activity, Task};

fn activity(difficulty: Option<i64>, tags: Option<&str>) -> Activity {
    Activity {
        id: 1,
        platform: "codeforces".to_string(),
        date: "2026-08-01".to_string(),
        time: Some("10:00".to_string()),
        difficulty,
        rating: Some(1700),
        lc_difficulty: Some("Medium".to_string()),
        topic: None,
        tags: tags.map(|t| t.to_string()),
        notes: None,
        created_at: String::new(),
        updated_at: String::new(),
    }
}

fn task(priority: i64, status: Option<&str>) -> Task {
    Task {
        id: 3,
        title: "Write".to_string(),
        description: None,
        status: status.map(|s| s.to_string()),
        priority,
        deadline: None,
        created_at: String::new(),
        updated_at: String::new(),
    }
}

#[test]
fn difficulty_stars_three() {
    assert_eq!(activity(Some(3), None).difficulty_stars(), "★★★☆☆");
}

#[test]
fn difficulty_stars_clamped() {
    assert_eq!(activity(Some(0), None).difficulty_stars(), "★☆☆☆☆");
    assert_eq!(activity(Some(-7), None).difficulty_stars(), "★☆☆☆☆");
    assert_eq!(activity(Some(9), None).difficulty_stars(), "★★★★★");
    assert_eq!(activity(Some(5), None).difficulty_stars(), "★★★★★");
    assert_eq!(activity(Some(1), None).difficulty_stars(), "★☆☆☆☆");
}

#[test]
fn difficulty_stars_absent() {
    assert_eq!(activity(None, None).difficulty_stars(), "–");
}

#[test]
fn parse_tags_reads_json_array() {
    let a = activity(None, Some("[\"E1\",\"WA3\",\"Binary|Search\"]"));
    assert_eq!(a.parse_tags(), vec!["E1".to_string(), "WA3".to_string(), "Binary|Search".to_string()]);
}

#[test]
fn parse_tags_bad_or_absent() {
    assert!(activity(None, Some("not json")).parse_tags().is_empty());
    assert!(activity(None, Some("{\"a\":1}")).parse_tags().is_empty());
    assert!(activity(None, None).parse_tags().is_empty());
}

#[test]
fn lc_diff_display_copies() {
    assert_eq!(activity(None, None).lc_diff_display(), Some("Medium".to_string()));
}

#[test]
fn priority_labels() {
    assert_eq!(task(1, None).priority_label(), "Low");
    assert_eq!(task(2, None).priority_label(), "Medium");
    assert_eq!(task(3, None).priority_label(), "High");
    assert_eq!(task(7, None).priority_label(), "Low");
    assert_eq!(task(0, None).priority_label(), "Low");
}

#[test]
fn status_display_or_dash() {
    assert_eq!(task(1, Some("Doing")).status_display(), "Doing");
    assert_eq!(task(1, None).status_display(), "–");
}

#[test]
fn parse_priority_words_and_numbers() {
    assert_eq!(parse_priority("1"), Some(1));
    assert_eq!(parse_priority("low"), Some(1));
    assert_eq!(parse_priority("2"), Some(2));
    assert_eq!(parse_priority("Medium"), Some(2));
    assert_eq!(parse_priority("3"), Some(3));
    assert_eq!(parse_priority("  HIGH \n"), Some(3));
    assert_eq!(parse_priority("4"), None);
    assert_eq!(parse_priority(""), None);
    assert_eq!(parse_priority("hi gh"), None);
}

#[test]
fn priority_from_key_exact() {
    assert_eq!(priority_from_key("low"), Some(1));
    assert_eq!(priority_from_key("Low"), None);
    assert_eq!(priority_from_key("3"), Some(3));
}

#[test]
fn priority_label_parses_back() {
    for p in 1..=3 {
        assert_eq!(parse_priority(task(p, None).priority_label()), Some(p));
    }
    assert_eq!(parse_priority(" HIGH "), Some(3));
    assert_eq!(parse_priority("Medium\n"), Some(2));
    assert_eq!(parse_priority("4"), None);
}
