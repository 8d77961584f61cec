use progit::edit::{merge_activity_edit, merge_note_edit, split_tag_list, ActivityEdit};
use progit::models::{Activity, Note};
use progit::task::{add_priority_answer, edit_optional_answer, edit_priority_answer, edit_title_answer, optional_answer, title_answer};

fn existing() -> Activity {
    Activity {
        id: 7,
        platform: "codeforces".to_string(),
        date: "2026-08-01".to_string(),
        time: Some("10:00".to_string()),
        difficulty: Some(2),
        rating: Some(1600),
        lc_difficulty: None,
        topic: None,
        tags: Some("[\"old\"]".to_string()),
        notes: Some("keep".to_string()),
        created_at: String::new(),
        updated_at: String::new(),
    }
}

fn no_edit() -> ActivityEdit {
    ActivityEdit { date: None, time: None, rating: None, difficulty: None, notes: None, tags: None, topic: None, lc_difficulty: None }
}

#[test]
fn split_tags_trims_and_drops_empty() {
    assert_eq!(split_tag_list("E1, WA3,,BinarySearch , "), vec!["E1", "WA3", "BinarySearch"]);
    assert!(split_tag_list(" , ,").is_empty());
    assert!(split_tag_list("").is_empty());
}

#[test]
fn edit_keeps_what_is_not_given() {
    let u = merge_activity_edit(&existing(), no_edit());
    assert_eq!(u.date, "2026-08-01");
    assert_eq!(u.time, Some("10:00".to_string()));
    assert_eq!(u.rating, Some(1600));
    assert_eq!(u.difficulty, Some(2));
    assert_eq!(u.tags, Some("[\"old\"]".to_string()));
    assert_eq!(u.notes, Some("keep".to_string()));
    assert_eq!(u.topic, None);
}

#[test]
fn edit_replaces_what_is_given() {
    let mut e = no_edit();
    e.rating = Some(1900);
    e.difficulty = Some(3);
    e.notes = Some("Needed editorial".to_string());
    e.tags = Some("E1,WA3,BinarySearch".to_string());
    e.date = Some("2026-08-02".to_string());
    let u = merge_activity_edit(&existing(), e);
    assert_eq!(u.rating, Some(1900));
    assert_eq!(u.difficulty, Some(3));
    assert_eq!(u.notes, Some("Needed editorial".to_string()));
    assert_eq!(u.date, "2026-08-02");
    assert_eq!(u.tags, Some("[\"E1\",\"WA3\",\"BinarySearch\"]".to_string()));
    assert_eq!(u.time, Some("10:00".to_string()));
}

#[test]
fn edit_tags_read_back() {
    let mut e = no_edit();
    e.tags = Some(" DP , Greedy ".to_string());
    let u = merge_activity_edit(&existing(), e);
    let mut a = existing();
    a.tags = u.tags.clone();
    assert_eq!(a.parse_tags(), vec!["DP", "Greedy"]);
}

#[test]
fn edit_empty_tag_list_clears() {
    let mut e = no_edit();
    e.tags = Some(" , ".to_string());
    let u = merge_activity_edit(&existing(), e);
    assert_eq!(u.tags, None);
}

#[test]
fn note_edit() {
    let n = Note { id: 2, date: "2026-08-04".to_string(), time: Some("09:00".to_string()), text: "Groww".to_string(), created_at: String::new(), updated_at: String::new() };
    let u = merge_note_edit(&n, Some("GROWw OA Rejected".to_string()), None, None);
    assert_eq!((u.text.as_str(), u.date.as_str()), ("GROWw OA Rejected", "2026-08-04"));
    assert_eq!(u.time, Some("09:00".to_string()));
    let u = merge_note_edit(&n, None, Some("2026-08-05".to_string()), Some("10:00".to_string()));
    assert_eq!((u.text.as_str(), u.date.as_str(), u.time.as_deref()), ("Groww", "2026-08-05", Some("10:00")));
}

#[test]
fn task_prompt_answers() {
    assert_eq!(title_answer("  Write report \n"), Some("Write report".to_string()));
    assert_eq!(title_answer("   "), None);
    assert_eq!(optional_answer("\n"), None);
    assert_eq!(optional_answer(" Todo\n"), Some("Todo".to_string()));
    assert_eq!(add_priority_answer("\n"), Some(1));
    assert_eq!(add_priority_answer("high\n"), Some(3));
    assert_eq!(add_priority_answer("urgent"), None);
}

#[test]
fn task_edit_answers() {
    let cur = Some("old".to_string());
    assert_eq!(edit_optional_answer("\n", &cur), cur);
    assert_eq!(edit_optional_answer(" - \n", &cur), None);
    assert_eq!(edit_optional_answer("new\n", &cur), Some("new".to_string()));
    assert_eq!(edit_title_answer("\n", &"T".to_string()), "T");
    assert_eq!(edit_title_answer(" U \n", &"T".to_string()), "U");
    assert_eq!(edit_priority_answer("\n", 2), (2, false));
    assert_eq!(edit_priority_answer("LOW\n", 2), (1, false));
    assert_eq!(edit_priority_answer("9\n", 2), (2, true));
}
