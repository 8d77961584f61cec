use progit::backup::{append_cf, append_lc, append_note, difficulty_stars, CF_LOG_FILE, LC_LOG_FILE, NOTE_LOG_FILE};

#[test]
fn cf_line_with_tags_and_notes() {
    let mut log = String::new();
    let tags = vec!["E1".to_string(), "WA3".to_string()];
    append_cf(&mut log, 1700, 2, &tags, Some("Needed editorial"), "2026-08-01", "10:15");
    assert_eq!(
        log,
        "[2026-08-01 10:15] CF | Rating: 1700 | Diff: ★★☆☆☆ | Tags: E1, WA3 | Notes: Needed editorial\n"
    );
}

#[test]
fn cf_line_without_tags_or_notes() {
    let mut log = "earlier\n".to_string();
    append_cf(&mut log, -5, 9, &Vec::new(), None, "d", "t");
    assert_eq!(log, "earlier\n[d t] CF | Rating: -5 | Diff: ★★★★★ | Tags: – | Notes: –\n");
}

#[test]
fn lc_line() {
    let mut log = String::new();
    append_lc(&mut log, "Hard", Some("Graph"), None, "2026-08-02", "09:00");
    assert_eq!(log, "[2026-08-02 09:00] LC | Hard | Topic: Graph | Notes: –\n");
    append_lc(&mut log, "Easy", None, Some("quick"), "x", "y");
    assert_eq!(
        log,
        "[2026-08-02 09:00] LC | Hard | Topic: Graph | Notes: –\n[x y] LC | Easy | Topic: – | Notes: quick\n"
    );
}

#[test]
fn note_line() {
    let mut log = String::new();
    append_note(&mut log, "Learnt CHT", "2026-08-03", "21:30");
    assert_eq!(log, "[2026-08-03 21:30] NOTE | Learnt CHT\n");
}

#[test]
fn stars_helper_and_files() {
    assert_eq!(difficulty_stars(4), "★★★★☆");
    assert_eq!(CF_LOG_FILE, "codeforces.txt");
    assert_eq!(LC_LOG_FILE, "leetcode.txt");
    assert_eq!(NOTE_LOG_FILE, "notes.txt");
}
