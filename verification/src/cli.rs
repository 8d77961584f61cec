//! The commands of the `progit` command line, and the decisions the command
//! line makes before a command runs.

use vstd::prelude::*;
use crate::num::{parse_i64, parse_i64_spec};
use crate::text::{same_text, views};

verus! {

/// The parsed command line.
#[derive(Debug, Clone)]
pub struct Cli {
    pub command: Commands,
}

/// The commands.
#[derive(Debug, Clone)]
pub enum Commands {
    /// Log a Codeforces problem: `cf <rating> <difficulty> [tags...] ["notes"]`,
    /// also `cf help` and `cf list [--all]`.
    Cf { help_me: bool, args: Vec<String>, date: Option<String>, time: Option<String> },
    /// Log a LeetCode problem: `lc <difficulty> [topic] ["notes"]`, also
    /// `lc help` and `lc list [--all]`.
    Lc {
        difficulty: Option<String>,
        topic: Option<String>,
        notes: Option<String>,
        date: Option<String>,
        time: Option<String>,
    },
    /// Manage tasks.
    Task { action: TaskAction },
    /// List tasks, optionally only those of one status.
    Tasks { todo: bool, doing: bool, done: bool, cancelled: bool },
    /// List Codeforces entries (the last 20, or all).
    CfList { all: bool },
    /// List LeetCode entries (the last 20, or all).
    LcList { all: bool },
    /// Log a quick note.
    Note { text: String, date: Option<String>, time: Option<String> },
    /// Show today's activity.
    Today,
    /// Show yesterday's activity.
    Yesterday,
    /// Show the activity of a date (YYYY-MM-DD).
    Date { date: String },
    /// Show the activity of the last N days.
    Last { days: u32 },
    /// Edit an activity; only the fields given change.
    Edit {
        id: i64,
        date: Option<String>,
        time: Option<String>,
        rating: Option<i64>,
        difficulty: Option<i64>,
        notes: Option<String>,
        tags: Option<String>,
        topic: Option<String>,
        lc_difficulty: Option<String>,
    },
    /// Edit a note; only the fields given change.
    EditNote { id: i64, text: Option<String>, date: Option<String>, time: Option<String> },
    /// Remove the binary and the data directory.
    Uninstall,
    /// Show progress statistics, optionally over the last N days.
    Stats { days: Option<u32> },
    /// Create a backup checkpoint (named by today's date by default).
    Backup { name: Option<String> },
    /// Restore the database from a named checkpoint.
    Restore { name: String },
    /// List the backup checkpoints.
    Backups,
}

/// The task subcommands.
#[derive(Debug, Clone)]
pub enum TaskAction {
    /// Add a task (interactive).
    Add,
    /// Edit a task (interactive).
    Edit { id: i64 },
    /// Set the status of a task.
    Status { id: i64, status: String },
    /// List tasks, optionally only those of one status.
    List { filter: Option<String> },
}

/// The status that the `tasks` flags select: Todo, Doing, Done or
/// Cancelled, in that order of precedence; none when no flag is set.
pub open spec fn tasks_filter_of(todo: bool, doing: bool, done: bool, cancelled: bool) -> Option<
    Seq<char>,
> {
    if todo {
        Some("Todo"@)
    } else if doing {
        Some("Doing"@)
    } else if done {
        Some("Done"@)
    } else if cancelled {
        Some("Cancelled"@)
    } else {
        None
    }
}

/// The status filter of the `tasks` command.
pub fn tasks_filter(todo: bool, doing: bool, done: bool, cancelled: bool) -> (r: Option<&'static str>)
    ensures
        match r {
            Some(s) => tasks_filter_of(todo, doing, done, cancelled) == Some(s@),
            None => tasks_filter_of(todo, doing, done, cancelled) is None,
        },
{
    if todo {
        Some("Todo")
    } else if doing {
        Some("Doing")
    } else if done {
        Some("Done")
    } else if cancelled {
        Some("Cancelled")
    } else {
        None
    }
}

/// What a `cf` command line asks for.
#[derive(Debug, Clone)]
pub enum CfRequest {
    /// Show the usage help.
    Help,
    /// List entries; all of them or the last 20.
    List { show_all: bool },
    /// Log a problem: the first word read as the rating, the second as the
    /// difficulty (each `None` when absent or not a number), the rest as tags,
    /// notes and flags.
    Log { rating: Option<i64>, difficulty: Option<i64>, rest: Vec<String> },
}

/// Whether some word of `args` is `--all`.
pub open spec fn has_all_flag(args: Seq<Seq<char>>) -> bool {
    exists|i: int| 0 <= i < args.len() && args[i] == "--all"@
}

/// Decides a `cf` command line from its `--help-me` flag and its words.
pub fn cf_request(help_me: bool, args: &Vec<String>) -> (r: CfRequest)
    ensures
        ({
            let a = views(args@);
            let first_is = |w: Seq<char>| a.len() > 0 && a[0] == w;
            if help_me || first_is("help"@) {
                r is Help
            } else if first_is("list"@) {
                r matches CfRequest::List { show_all } && show_all == has_all_flag(a)
            } else {
                r matches CfRequest::Log { rating, difficulty, rest } && {
                    &&& rating == (if a.len() > 0 {
                        parse_i64_spec(a[0])
                    } else {
                        None
                    })
                    &&& difficulty == (if a.len() > 1 {
                        parse_i64_spec(a[1])
                    } else {
                        None
                    })
                    &&& views(rest@) == (if a.len() > 2 {
                        a.skip(2)
                    } else {
                        Seq::empty()
                    })
                }
            }
        }),
{
    let ghost a = views(args@);
    let n = args.len();
    if n > 0 {
        assert(a[0] == args@[0]@);
    }
    if n > 1 {
        assert(a[1] == args@[1]@);
    }
    if help_me || (n > 0 && same_text(args[0].as_str(), "help")) {
        return CfRequest::Help;
    }
    if n > 0 && same_text(args[0].as_str(), "list") {
        let mut show_all = false;
        let mut i: usize = 0;
        while i < n
            invariant
                i <= n == args.len(),
                a == views(args@),
                show_all == exists|k: int| 0 <= k < i && a[k] == "--all"@,
            decreases n - i,
        {
            assert(a[i as int] == args@[i as int]@);
            if same_text(args[i].as_str(), "--all") {
                show_all = true;
            }
            i += 1;
        }
        return CfRequest::List { show_all };
    }
    let rating = if n > 0 {
        parse_i64(args[0].as_str())
    } else {
        None
    };
    let difficulty = if n > 1 {
        parse_i64(args[1].as_str())
    } else {
        None
    };
    let mut rest: Vec<String> = Vec::new();
    let mut i: usize = 2;
    while i < n
        invariant
            2 <= i <= n || (n < 2 && i == 2),
            n == args.len(),
            a == views(args@),
            views(rest@) == (if i <= n { a.subrange(2, i as int) } else { Seq::empty() }),
        decreases n - i,
    {
        let ghost before = views(rest@);
        rest.push(args[i].clone());
        assert(views(rest@) =~= before.push(args@[i as int]@));
        assert(a.subrange(2, i + 1) =~= a.subrange(2, i as int).push(a[i as int]));
        i += 1;
    }
    assert(n > 2 ==> a.subrange(2, n as int) =~= a.skip(2));
    assert(n == 2 ==> a.subrange(2, 2) =~= Seq::<Seq<char>>::empty());
    assert(n < 2 ==> views(rest@) =~= Seq::<Seq<char>>::empty());
    CfRequest::Log { rating, difficulty, rest }
}

/// What an `lc` command line asks for.
#[derive(Debug, Clone, Copy, PartialEq, Eq)]
pub enum LcRequest {
    /// Show the usage help.
    Help,
    /// List entries; all of them (`lc list --all`) or the last 20.
    List { show_all: bool },
    /// Log a problem.
    Log,
}

/// Decides an `lc` command line from its first two words.
pub fn lc_request(difficulty: &Option<String>, topic: &Option<String>) -> (r: LcRequest)
    ensures
        match difficulty {
            Some(d) => if d@ == "help"@ {
                r == LcRequest::Help
            } else if d@ == "list"@ {
                r == (LcRequest::List {
                    show_all: topic matches Some(t) && t@ == "--all"@,
                })
            } else {
                r == LcRequest::Log
            },
            None => r == LcRequest::Log,
        },
{
    match difficulty {
        Some(d) => {
            if same_text(d.as_str(), "help") {
                LcRequest::Help
            } else if same_text(d.as_str(), "list") {
                let show_all = match topic {
                    Some(t) => same_text(t.as_str(), "--all"),
                    None => false,
                };
                LcRequest::List { show_all }
            } else {
                LcRequest::Log
            }
        },
        None => LcRequest::Log,
    }
}

} // verus!
