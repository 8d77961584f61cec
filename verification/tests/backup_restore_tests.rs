use progit::backup_restore::{
    dump_activities, dump_notes, dump_tasks, parse_activities_backup, parse_notes_backup,
    parse_tasks_backup, ActivityRecord, NoteRecord, TaskRecord, ACTIVITIES_FILE, NOTES_FILE,
    TASKS_FILE,
};

fn s(x: &str) -> Option<String> {
    Some(x.to_string())
}

fn activities() -> Vec<ActivityRecord> {
    vec![
        ActivityRecord {
            id: 1,
            platform: "codeforces".to_string(),
            date: "2026-08-01".to_string(),
            time: s("10:15"),
            difficulty: Some(3),
            rating: Some(1900),
            lc_difficulty: None,
            topic: None,
            tags: s("[\"E2\",\"T5\"]"),
            notes: s("pipes | in | notes"),
        },
        ActivityRecord {
            id: 2,
            platform: "leetcode".to_string(),
            date: "2026-08-02".to_string(),
            time: None,
            difficulty: Some(4),
            rating: None,
            lc_difficulty: s("Hard"),
            topic: s("Graph"),
            tags: None,
            notes: None,
        },
    ]
}

#[test]
fn activities_dump_text() {
    let out = dump_activities(&activities(), "2026-08-07 12:00");
    assert_eq!(
        out,
        "# Progit Activities Backup — 2026-08-07 12:00\n\
         # Fields: id|platform|date|time|difficulty|rating|lc_difficulty|topic|tags|notes\n\
         1|codeforces|2026-08-01|10:15|3|1900|||[\"E2\",\"T5\"]|pipes \\| in \\| notes\n\
         2|leetcode|2026-08-02||4||Hard|Graph||\n"
    );
}

fn same_activity(a: &ActivityRecord, b: &ActivityRecord) -> bool {
    a.id == b.id && a.platform == b.platform && a.date == b.date && a.time == b.time
        && a.difficulty == b.difficulty && a.rating == b.rating && a.lc_difficulty == b.lc_difficulty
        && a.topic == b.topic && a.tags == b.tags && a.notes == b.notes
}

#[test]
fn activities_backup_restore() {
    let rows = activities();
    let text = dump_activities(&rows, "now");
    let back = parse_activities_backup(&text);
    assert_eq!(back.len(), rows.len());
    for (a, b) in rows.iter().zip(back.iter()) {
        assert!(same_activity(a, b), "{a:?} vs {b:?}");
    }
}

#[test]
fn activities_restore_skips_and_defaults() {
    let text = "# comment\n\n   \nshort|line\nx|p|d| t |||| top\\|ic |a\\|b| n \r\n";
    let back = parse_activities_backup(text);
    assert_eq!(back.len(), 1);
    let a = &back[0];
    assert_eq!(a.id, 0);
    assert_eq!(a.platform, "p");
    assert_eq!(a.date, "d");
    assert_eq!(a.time, s("t"));
    assert_eq!(a.difficulty, None);
    assert_eq!(a.rating, None);
    assert_eq!(a.lc_difficulty, None);
    // A pipe splits a field even where it is escaped, but for the last field.
    assert_eq!(a.topic, s("top\\"));
    assert_eq!(a.tags, s("ic"));
    assert_eq!(a.notes, s("a|b| n"));
}

#[test]
fn notes_backup_restore() {
    let rows = vec![
        NoteRecord { id: 5, date: "2026-08-04".to_string(), time: s("08:00"), text: "Groww OA | Rejected".to_string() },
        NoteRecord { id: 6, date: "2026-08-05".to_string(), time: None, text: "  spaced  ".to_string() },
    ];
    let text = dump_notes(&rows, "ts");
    assert_eq!(
        text,
        "# Progit Notes Backup — ts\n# Fields: id|date|time|text\n5|2026-08-04|08:00|Groww OA \\| Rejected\n6|2026-08-05||  spaced  \n"
    );
    let back = parse_notes_backup(&text);
    assert_eq!(back.len(), 2);
    for (a, b) in rows.iter().zip(back.iter()) {
        assert_eq!((a.id, &a.date, &a.time, &a.text), (b.id, &b.date, &b.time, &b.text));
    }
}

#[test]
fn tasks_backup_restore() {
    let rows = vec![
        TaskRecord {
            id: 9,
            title: "Ship v1".to_string(),
            description: s("all of it"),
            status: s("Doing"),
            priority: 3,
            deadline: s("2026-09-01"),
        },
        TaskRecord { id: 10, title: "".to_string(), description: None, status: None, priority: 1, deadline: None },
    ];
    let text = dump_tasks(&rows, "ts");
    assert_eq!(
        text,
        "# Progit Tasks Backup — ts\n# Fields: id|title|description|status|priority|deadline\n9|Ship v1|all of it|Doing|3|2026-09-01\n10||||1|\n"
    );
    let back = parse_tasks_backup(&text);
    assert_eq!(back.len(), 2);
    for (a, b) in rows.iter().zip(back.iter()) {
        assert_eq!(
            (a.id, &a.title, &a.description, &a.status, a.priority, &a.deadline),
            (b.id, &b.title, &b.description, &b.status, b.priority, &b.deadline)
        );
    }
}

#[test]
fn tasks_restore_priority_default() {
    let back = parse_tasks_backup("1|t||| high |\n");
    assert_eq!(back.len(), 1);
    assert_eq!(back[0].priority, 1);
    assert_eq!(back[0].title, "t");
}

#[test]
fn checkpoint_file_names() {
    assert_eq!(ACTIVITIES_FILE, "activities.txt");
    assert_eq!(NOTES_FILE, "notes.txt");
    assert_eq!(TASKS_FILE, "tasks.txt");
}
