//! The questions `restore` asks before it replaces the database, and where
//! each answer leads. The caller asks, reads the answer and carries out the
//! action; the decisions are made here.

use vstd::prelude::*;
use crate::text::{same_text, trim, trimmed};

verus! {

/// A question of the restore dialogue.
#[derive(Debug, Clone, Copy, PartialEq, Eq)]
pub enum RestoreStage {
    /// A current snapshot exists: go on with the restore?
    ConfirmRestore,
    /// No current snapshot: make a backup before restoring?
    OfferBackup,
    /// The name of that backup (blank for today's date).
    NameBackup,
    /// Restore without any backup?
    ConfirmWithoutBackup,
}

/// What the dialogue does next.
#[derive(Debug, Clone)]
pub enum RestoreAction {
    /// Ask this question.
    Ask(RestoreStage),
    /// Make a backup under this name, then restore.
    BackupThenRestore(String),
    /// Replace the database from the checkpoint.
    Restore,
    /// Leave the database as it is.
    Cancel,
}

/// A restore action with its name as text.
pub enum RestoreMove {
    Ask(RestoreStage),
    BackupThenRestore(Seq<char>),
    Restore,
    Cancel,
}

impl View for RestoreAction {
    type V = RestoreMove;

    open spec fn view(&self) -> RestoreMove {
        match self {
            RestoreAction::Ask(s) => RestoreMove::Ask(*s),
            RestoreAction::BackupThenRestore(n) => RestoreMove::BackupThenRestore(n@),
            RestoreAction::Restore => RestoreMove::Restore,
            RestoreAction::Cancel => RestoreMove::Cancel,
        }
    }
}

/// An answer of yes: `y` or `Y`, whitespace around it aside.
pub open spec fn is_yes(answer: Seq<char>) -> bool {
    trimmed(answer) == "y"@ || trimmed(answer) == "Y"@
}

/// Whether an answer is a yes.
pub fn yes_answer(answer: &str) -> (b: bool)
    ensures
        b == is_yes(answer@),
{
    let t = trim(answer);
    same_text(t.as_str(), "y") || same_text(t.as_str(), "Y")
}

/// The first question, once the checkpoint is known to exist.
pub open spec fn first_stage(has_current: bool) -> RestoreStage {
    if has_current {
        RestoreStage::ConfirmRestore
    } else {
        RestoreStage::OfferBackup
    }
}

/// The first question: whether to go on when a current snapshot exists,
/// else whether to make a backup first.
pub fn restore_first_question(has_current: bool) -> (s: RestoreStage)
    ensures
        s == first_stage(has_current),
{
    if has_current {
        RestoreStage::ConfirmRestore
    } else {
        RestoreStage::OfferBackup
    }
}

/// Where an answer to a question leads; `today` names a backup whose name
/// was left blank.
pub open spec fn next_move(stage: RestoreStage, answer: Seq<char>, today: Seq<char>) -> RestoreMove {
    match stage {
        RestoreStage::ConfirmRestore => if is_yes(answer) {
            RestoreMove::Restore
        } else {
            RestoreMove::Cancel
        },
        RestoreStage::OfferBackup => if is_yes(answer) {
            RestoreMove::Ask(RestoreStage::NameBackup)
        } else {
            RestoreMove::Ask(RestoreStage::ConfirmWithoutBackup)
        },
        RestoreStage::NameBackup => RestoreMove::BackupThenRestore(
            if trimmed(answer).len() == 0 {
                today
            } else {
                trimmed(answer)
            },
        ),
        RestoreStage::ConfirmWithoutBackup => if is_yes(answer) {
            RestoreMove::Restore
        } else {
            RestoreMove::Cancel
        },
    }
}

/// Where an answer to a question of the restore dialogue leads.
pub fn restore_next(stage: RestoreStage, answer: &str, today: &str) -> (a: RestoreAction)
    ensures
        a@ == next_move(stage, answer@, today@),
{
    match stage {
        RestoreStage::ConfirmRestore | RestoreStage::ConfirmWithoutBackup => {
            if yes_answer(answer) {
                RestoreAction::Restore
            } else {
                RestoreAction::Cancel
            }
        },
        RestoreStage::OfferBackup => {
            if yes_answer(answer) {
                RestoreAction::Ask(RestoreStage::NameBackup)
            } else {
                RestoreAction::Ask(RestoreStage::ConfirmWithoutBackup)
            }
        },
        RestoreStage::NameBackup => {
            let t = trim(answer);
            if t.as_str().is_empty() {
                RestoreAction::BackupThenRestore(today.to_owned())
            } else {
                RestoreAction::BackupThenRestore(t)
            }
        },
    }
}

/// The database is replaced only on a yes: an answer that leads to a
/// restore is a yes, or names the backup that is made first, which is
/// asked only after a yes.
pub proof fn lemma_restore_needs_yes(stage: RestoreStage, answer: Seq<char>, today: Seq<char>)
    ensures
        next_move(stage, answer, today) is Restore ==> is_yes(answer),
        next_move(stage, answer, today) is BackupThenRestore ==> stage == RestoreStage::NameBackup,
        next_move(RestoreStage::OfferBackup, answer, today) == RestoreMove::Ask(
            RestoreStage::NameBackup,
        ) ==> is_yes(answer),
{
}

/// Every yes/no question takes `y` and `Y` alike, whitespace around it
/// aside, and only those: a confirmation restores exactly on such an answer
/// and cancels on any other, and the offer of a backup goes on to its name
/// exactly on such an answer.
pub proof fn lemma_yes_means_yes(answer: Seq<char>, today: Seq<char>)
    ensures
        (next_move(RestoreStage::ConfirmRestore, answer, today) is Restore) <==> (trimmed(answer)
            == "y"@ || trimmed(answer) == "Y"@),
        (next_move(RestoreStage::ConfirmRestore, answer, today) is Cancel) <==> !(trimmed(answer)
            == "y"@ || trimmed(answer) == "Y"@),
        (next_move(RestoreStage::ConfirmWithoutBackup, answer, today) is Restore) <==> (trimmed(
            answer,
        ) == "y"@ || trimmed(answer) == "Y"@),
        (next_move(RestoreStage::ConfirmWithoutBackup, answer, today) is Cancel) <==> !(trimmed(
            answer,
        ) == "y"@ || trimmed(answer) == "Y"@),
        (next_move(RestoreStage::OfferBackup, answer, today) == RestoreMove::Ask(
            RestoreStage::NameBackup,
        )) <==> (trimmed(answer) == "y"@ || trimmed(answer) == "Y"@),
        (next_move(RestoreStage::OfferBackup, answer, today) == RestoreMove::Ask(
            RestoreStage::ConfirmWithoutBackup,
        )) <==> !(trimmed(answer) == "y"@ || trimmed(answer) == "Y"@),
{
}

} // verus!
