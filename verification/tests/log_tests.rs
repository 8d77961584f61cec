use progit::cf::{parse_cf_rest, plan_cf, CfOutcome};
use progit::lc::{lc_difficulty_to_int, lc_level_from_key, lc_name_from_key, normalize_difficulty, plan_lc, LcOutcome};
use progit::note::plan_note;

fn words(ws: &[&str]) -> Vec<String> {
    ws.iter().map(|w| w.to_string()).collect()
}

#[test]
fn cf_rest_tags_and_notes() {
    let r = parse_cf_rest(&words(&["E2", "T5", "Needed editorial"]));
    assert_eq!(r.tags, words(&["E2", "T5"]));
    assert_eq!(r.notes, Some("Needed editorial".to_string()));
    assert_eq!(r.date, None);
    assert_eq!(r.time, None);
}

#[test]
fn cf_rest_flags() {
    let r = parse_cf_rest(&words(&["--date", "2026-08-01", "CHT", "-t", "09:30", "--date=2026-08-02", "a b", "c d"]));
    assert_eq!(r.tags, words(&["CHT"]));
    assert_eq!(r.date, Some("2026-08-02".to_string()));
    assert_eq!(r.time, Some("09:30".to_string()));
    assert_eq!(r.notes, Some("c d".to_string()));
    let r = parse_cf_rest(&words(&["x", "--time=", "-d"]));
    assert_eq!(r.tags, words(&["x"]));
    assert_eq!(r.time, Some(String::new()));
    assert_eq!(r.date, None);
}

#[test]
fn cf_missing_and_out_of_range() {
    let now = || ("2026-08-07".to_string(), "12:00".to_string());
    let (d, t) = now();
    assert!(matches!(plan_cf(None, Some(2), &Vec::new(), None, None, d, t), CfOutcome::MissingRating));
    let (d, t) = now();
    assert!(matches!(plan_cf(Some(1700), None, &Vec::new(), None, None, d, t), CfOutcome::MissingDifficulty(1700)));
    let (d, t) = now();
    assert!(matches!(plan_cf(Some(1700), Some(6), &Vec::new(), None, None, d, t), CfOutcome::DifficultyOutOfRange(6)));
    let (d, t) = now();
    assert!(matches!(plan_cf(Some(1700), Some(0), &Vec::new(), None, None, d, t), CfOutcome::DifficultyOutOfRange(0)));
}

#[test]
fn cf_log_entry() {
    let rest = words(&["E1", "--date", "2026-01-02", "Off by one"]);
    match plan_cf(Some(1800), Some(3), &rest, None, Some("23:59".to_string()), "2026-08-07".to_string(), "12:00".to_string()) {
        CfOutcome::Log(e) => {
            assert_eq!(e.rating, 1800);
            assert_eq!(e.difficulty, 3);
            assert_eq!(e.tags, words(&["E1"]));
            assert_eq!(e.notes, Some("Off by one".to_string()));
            assert_eq!(e.tags_json, Some("[\"E1\"]".to_string()));
            assert_eq!(e.date, "2026-01-02");
            assert_eq!(e.time, "23:59");
        }
        other => panic!("{other:?}"),
    }
    match plan_cf(Some(1800), Some(1), &Vec::new(), Some("2025-05-05".to_string()), None, "2026-08-07".to_string(), "12:00".to_string()) {
        CfOutcome::Log(e) => {
            assert_eq!(e.tags_json, None);
            assert_eq!(e.date, "2025-05-05");
            assert_eq!(e.time, "12:00");
        }
        other => panic!("{other:?}"),
    }
}

#[test]
fn lc_difficulty_words() {
    assert_eq!(lc_difficulty_to_int("Easy"), Some(2));
    assert_eq!(lc_difficulty_to_int("MEDIUM"), Some(3));
    assert_eq!(lc_difficulty_to_int("hard"), Some(4));
    assert_eq!(lc_difficulty_to_int("insane"), None);
    assert_eq!(normalize_difficulty("eAsY"), "Easy");
    assert_eq!(normalize_difficulty("HARD"), "Hard");
    assert_eq!(normalize_difficulty("x"), "Unknown");
    assert_eq!(lc_level_from_key("Easy"), None);
    assert_eq!(lc_name_from_key("medium"), "Medium");
}

#[test]
fn lc_plans() {
    let today = || "2026-08-07".to_string();
    let now = || "12:00".to_string();
    assert!(matches!(plan_lc(None, None, None, None, None, today(), now()), LcOutcome::MissingDifficulty));
    match plan_lc(Some("Tough".to_string()), None, None, None, None, today(), now()) {
        LcOutcome::InvalidDifficulty(d) => assert_eq!(d, "Tough"),
        other => panic!("{other:?}"),
    }
    match plan_lc(Some("medium".to_string()), Some("DP".to_string()), Some("hints".to_string()), None, Some("08:00".to_string()), today(), now()) {
        LcOutcome::Log(e) => {
            assert_eq!(e.difficulty, 3);
            assert_eq!(e.lc_difficulty, "Medium");
            assert_eq!(e.topic, Some("DP".to_string()));
            assert_eq!(e.notes, Some("hints".to_string()));
            assert_eq!(e.date, "2026-08-07");
            assert_eq!(e.time, "08:00");
        }
        other => panic!("{other:?}"),
    }
}

#[test]
fn note_plan_defaults() {
    let e = plan_note("Learnt CHT".to_string(), None, None, "2026-08-07".to_string(), "12:00".to_string());
    assert_eq!((e.text.as_str(), e.date.as_str(), e.time.as_str()), ("Learnt CHT", "2026-08-07", "12:00"));
    let e = plan_note("x".to_string(), Some("2026-01-01".to_string()), Some("01:02".to_string()), "a".to_string(), "b".to_string());
    assert_eq!((e.date.as_str(), e.time.as_str()), ("2026-01-01", "01:02"));
}

#[test]
fn normalize_agrees_with_level_and_is_idempotent() {
    for d in ["easy", "EASY", "Medium", "hArD", "Unknown", "expert", "", "Éasy"] {
        let n = normalize_difficulty(d);
        assert_eq!(n == "Unknown", lc_difficulty_to_int(d).is_none(), "{d:?}");
        assert_eq!(lc_difficulty_to_int(n), lc_difficulty_to_int(d));
        assert_eq!(normalize_difficulty(n), n);
        if n != "Unknown" {
            assert_eq!(n.to_lowercase(), d.to_lowercase());
        }
    }
}
