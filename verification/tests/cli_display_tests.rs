use progit::cli::{cf_request, lc_request, tasks_filter, CfRequest, LcRequest};
use progit::display::{
    cf_cells, has_anything, lc_cells, lc_tone, list_heading, note_time_part, platform_indices,
    priority_cell, rating_text, status_cell, Tone,
};
use progit::models::{Activity, DayView, Note, Task};
use progit::view::day_offsets;

fn words(ws: &[&str]) -> Vec<String> {
    ws.iter().map(|w| w.to_string()).collect()
}

fn act(platform: &str) -> Activity {
    Activity {
        id: 4,
        platform: platform.to_string(),
        date: "2026-08-01".to_string(),
        time: None,
        difficulty: Some(2),
        rating: Some(1500),
        lc_difficulty: Some("Easy".to_string()),
        topic: Some("DP".to_string()),
        tags: Some("[\"E1\",\"WA3\"]".to_string()),
        notes: None,
        created_at: String::new(),
        updated_at: String::new(),
    }
}

#[test]
fn cf_requests() {
    assert!(matches!(cf_request(true, &words(&["1700"])), CfRequest::Help));
    assert!(matches!(cf_request(false, &words(&["help"])), CfRequest::Help));
    assert!(matches!(cf_request(false, &words(&["list"])), CfRequest::List { show_all: false }));
    assert!(matches!(cf_request(false, &words(&["list", "--all"])), CfRequest::List { show_all: true }));
    match cf_request(false, &words(&["1900", "3", "E2", "T5"])) {
        CfRequest::Log { rating, difficulty, rest } => {
            assert_eq!((rating, difficulty), (Some(1900), Some(3)));
            assert_eq!(rest, words(&["E2", "T5"]));
        }
        other => panic!("{other:?}"),
    }
    match cf_request(false, &words(&["abc"])) {
        CfRequest::Log { rating, difficulty, rest } => {
            assert_eq!((rating, difficulty), (None, None));
            assert!(rest.is_empty());
        }
        other => panic!("{other:?}"),
    }
    assert!(matches!(cf_request(false, &Vec::new()), CfRequest::Log { rating: None, difficulty: None, .. }));
}

#[test]
fn lc_requests() {
    let s = |x: &str| Some(x.to_string());
    assert_eq!(lc_request(&s("help"), &None), LcRequest::Help);
    assert_eq!(lc_request(&s("list"), &s("--all")), LcRequest::List { show_all: true });
    assert_eq!(lc_request(&s("list"), &None), LcRequest::List { show_all: false });
    assert_eq!(lc_request(&s("Easy"), &s("--all")), LcRequest::Log);
    assert_eq!(lc_request(&None, &None), LcRequest::Log);
}

#[test]
fn tasks_filters() {
    assert_eq!(tasks_filter(true, false, false, false), Some("Todo"));
    assert_eq!(tasks_filter(false, true, false, false), Some("Doing"));
    assert_eq!(tasks_filter(false, false, true, false), Some("Done"));
    assert_eq!(tasks_filter(false, false, false, true), Some("Cancelled"));
    assert_eq!(tasks_filter(false, false, false, false), None);
}

#[test]
fn activity_cells() {
    let a = act("codeforces");
    assert_eq!(cf_cells(&a), words(&["2026-08-01", "–", "1500", "★★☆☆☆", "E1, WA3", ""]));
    assert_eq!(lc_cells(&a), words(&["2026-08-01", "–", "Easy", "DP", ""]));
    assert_eq!(rating_text(None), "–");
    assert_eq!(rating_text(Some(-3)), "-3");
}

#[test]
fn tones_and_cells() {
    assert_eq!(lc_tone("Easy"), Tone::Green);
    assert_eq!(lc_tone("Medium"), Tone::Yellow);
    assert_eq!(lc_tone("Hard"), Tone::Red);
    assert_eq!(lc_tone("–"), Tone::Plain);
    assert_eq!(status_cell(&Some("Done".to_string())), ("Done".to_string(), Tone::Green));
    assert_eq!(status_cell(&Some("Todo".to_string())), ("Todo".to_string(), Tone::DarkGrey));
    assert_eq!(status_cell(&Some("Doing".to_string())), ("Doing".to_string(), Tone::Yellow));
    assert_eq!(status_cell(&Some("Cancelled".to_string())), ("Cancelled".to_string(), Tone::Red));
    assert_eq!(status_cell(&Some("Blocked".to_string())), ("Blocked".to_string(), Tone::Cyan));
    assert_eq!(status_cell(&None), ("–".to_string(), Tone::DarkGrey));
    assert_eq!(priority_cell(3), ("High", Tone::Red));
    assert_eq!(priority_cell(2), ("Medium", Tone::Yellow));
    assert_eq!(priority_cell(1), ("Low", Tone::DarkGrey));
}

#[test]
fn view_selection() {
    let acts = vec![act("leetcode"), act("codeforces"), act("leetcode")];
    assert_eq!(platform_indices(&acts, "leetcode"), vec![0, 2]);
    assert_eq!(platform_indices(&acts, "codeforces"), vec![1]);
    let empty = DayView { date: "2026-08-01".to_string(), activities: Vec::new(), tasks: Vec::new(), notes: Vec::new() };
    assert!(!has_anything(&empty));
    let task = Task { id: 1, title: "t".to_string(), description: None, status: None, priority: 1, deadline: None, created_at: String::new(), updated_at: String::new() };
    let v = DayView { date: "d".to_string(), activities: Vec::new(), tasks: vec![task], notes: Vec::new() };
    assert!(has_anything(&v));
    assert_eq!(day_offsets(3), vec![2, 1, 0]);
    assert!(day_offsets(0).is_empty());
}

#[test]
fn headings_and_note_parts() {
    assert_eq!(list_heading("codeforces"), ("⚡", "CODEFORCES".to_string()));
    assert_eq!(list_heading("leetcode"), ("📘", "LEETCODE".to_string()));
    assert_eq!(list_heading("atcoder"), ("·", "atcoder".to_string()));
    let n = Note { id: 1, date: "d".to_string(), time: Some("10:00".to_string()), text: "x".to_string(), created_at: String::new(), updated_at: String::new() };
    assert_eq!(note_time_part(&n), " [10:00]");
    let n = Note { time: None, ..n };
    assert_eq!(note_time_part(&n), "");
}
