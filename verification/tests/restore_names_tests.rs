use progit::names::{sorted_names, text_at_most};
use progit::restore::{restore_first_question, restore_next, yes_answer, RestoreAction, RestoreStage};

fn strings(v: &[&str]) -> Vec<String> {
    v.iter().map(|s| s.to_string()).collect()
}

#[test]
fn yes_is_y_either_case() {
    assert!(yes_answer("y"));
    assert!(yes_answer("Y\n"));
    assert!(yes_answer("  y  \r\n"));
    assert!(!yes_answer("yes"));
    assert!(!yes_answer(""));
    assert!(!yes_answer("n\n"));
}

#[test]
fn first_question_depends_on_current_snapshot() {
    assert_eq!(restore_first_question(true), RestoreStage::ConfirmRestore);
    assert_eq!(restore_first_question(false), RestoreStage::OfferBackup);
}

#[test]
fn confirm_restore_answers() {
    assert!(matches!(restore_next(RestoreStage::ConfirmRestore, "y\n", "2026-01-02"), RestoreAction::Restore));
    assert!(matches!(restore_next(RestoreStage::ConfirmRestore, "no\n", "2026-01-02"), RestoreAction::Cancel));
    assert!(matches!(restore_next(RestoreStage::ConfirmWithoutBackup, "Y\n", "2026-01-02"), RestoreAction::Restore));
    assert!(matches!(restore_next(RestoreStage::ConfirmWithoutBackup, "\n", "2026-01-02"), RestoreAction::Cancel));
}

#[test]
fn offer_backup_answers() {
    assert!(matches!(
        restore_next(RestoreStage::OfferBackup, "y\n", "2026-01-02"),
        RestoreAction::Ask(RestoreStage::NameBackup)
    ));
    assert!(matches!(
        restore_next(RestoreStage::OfferBackup, "n\n", "2026-01-02"),
        RestoreAction::Ask(RestoreStage::ConfirmWithoutBackup)
    ));
}

#[test]
fn backup_name_defaults_to_today() {
    match restore_next(RestoreStage::NameBackup, "  \n", "2026-01-02") {
        RestoreAction::BackupThenRestore(n) => assert_eq!(n, "2026-01-02"),
        _ => panic!("expected a backup"),
    }
    match restore_next(RestoreStage::NameBackup, " before-restore \n", "2026-01-02") {
        RestoreAction::BackupThenRestore(n) => assert_eq!(n, "before-restore"),
        _ => panic!("expected a backup"),
    }
}

#[test]
fn text_order_matches_string_order() {
    let words = ["", "a", "ab", "b", "B", "2026-01-02", "2026-01-10", "é", "z", "zz"];
    for a in words {
        for b in words {
            assert_eq!(text_at_most(a, b), a <= b, "{a:?} {b:?}");
        }
    }
}

#[test]
fn names_sorted_like_sort() {
    let cases: Vec<Vec<String>> = vec![
        strings(&[]),
        strings(&["b", "a"]),
        strings(&["2026-03-01", "before-exam", "2026-01-15", "2026-03-01", "A", "a"]),
        strings(&["z", "y", "x", "w"]),
    ];
    for c in cases {
        let mut expected = c.clone();
        expected.sort();
        assert_eq!(sorted_names(c), expected);
    }
}
