use chrono::{Datelike, NaiveDate};
use progit::calendar::{day_number, format_date_heading};
use progit::stats::{compute_streak, frequencies, overall_stats, tally_cf, tally_lc, CfRow, LcRow};

fn day(y: i32, m: u32, d: u32) -> i64 {
    NaiveDate::from_ymd_opt(y, m, d).unwrap().num_days_from_ce() as i64
}

fn dates(ds: &[&str]) -> Vec<String> {
    ds.iter().map(|d| d.to_string()).collect()
}

fn cf(rating: Option<i64>, difficulty: Option<i64>, tags: Option<&str>) -> CfRow {
    CfRow { rating, difficulty, tags: tags.map(|t| t.to_string()) }
}

#[test]
fn cf_tally_counts() {
    let rows = vec![
        cf(Some(1100), Some(1), Some("[\"E1\",\"DP\"]")),
        cf(Some(1200), Some(3), Some("[\"DP\"]")),
        cf(Some(2199), Some(9), Some("bad json")),
        cf(Some(2200), None, None),
        cf(None, Some(0), Some("[\"DP\",\"E1\",\"Greedy\"]")),
    ];
    let st = tally_cf(&rows, 2, 4);
    assert_eq!(st.total, 5);
    assert_eq!(st.rating_sum, 1100 + 1200 + 2199 + 2200);
    assert_eq!(st.rated_count, 4);
    assert_eq!(st.this_week, 2);
    assert_eq!(st.this_month, 4);
    assert_eq!(st.rating_buckets, [1, 1, 0, 0, 0, 1, 1]);
    assert_eq!(st.difficulty_counts, [2, 0, 1, 0, 1]);
    assert_eq!(st.top_tags, vec![("DP".to_string(), 3), ("E1".to_string(), 2), ("Greedy".to_string(), 1)]);
}

#[test]
fn cf_top_tags_at_most_five() {
    let rows = vec![cf(None, None, Some("[\"a\",\"b\",\"c\",\"d\",\"e\",\"f\",\"f\",\"e\"]"))];
    let st = tally_cf(&rows, 0, 0);
    assert_eq!(st.top_tags.len(), 5);
    assert_eq!(st.top_tags[0].1, 2);
    assert_eq!(st.top_tags[1].1, 2);
    assert!(st.top_tags[2..].iter().all(|t| t.1 == 1));
}

#[test]
fn lc_tally_counts() {
    let lc = |d: Option<&str>, t: Option<&str>| LcRow { lc_difficulty: d.map(|x| x.to_string()), topic: t.map(|x| x.to_string()) };
    let rows = vec![
        lc(Some("Easy"), Some("DP")),
        lc(Some("Hard"), Some("")),
        lc(Some("easy"), Some("Graph")),
        lc(Some("Medium"), Some("DP")),
        lc(None, None),
    ];
    let st = tally_lc(&rows, 1, 3);
    assert_eq!((st.total, st.easy, st.medium, st.hard), (5, 1, 1, 1));
    assert_eq!((st.this_week, st.this_month), (1, 3));
    assert_eq!(st.top_topics, vec![("DP".to_string(), 2), ("Graph".to_string(), 1)]);
}

#[test]
fn frequencies_first_seen_order() {
    let f = frequencies(&dates(&["x", "y", "x", "z", "x"]));
    assert_eq!(f, vec![("x".to_string(), 3), ("y".to_string(), 1), ("z".to_string(), 1)]);
}

#[test]
fn streak_from_today() {
    let today = day(2026, 8, 7);
    let ds = dates(&["2026-08-03", "2026-08-05", "2026-08-06", "2026-08-07"]);
    assert_eq!(compute_streak(&ds, today), 3);
}

#[test]
fn streak_from_yesterday() {
    let today = day(2026, 3, 1);
    let ds = dates(&["2026-02-27", "2026-02-28", "junk"]);
    assert_eq!(compute_streak(&ds, today), 2);
}

#[test]
fn streak_broken_or_empty() {
    let today = day(2026, 8, 7);
    assert_eq!(compute_streak(&dates(&["2026-08-05"]), today), 0);
    assert_eq!(compute_streak(&Vec::new(), today), 0);
}

#[test]
fn overall_from_dates() {
    let today = day(2026, 8, 7);
    let o = overall_stats(&dates(&["2026-08-01", "2026-08-06"]), today);
    assert_eq!(o.active_days, 2);
    assert_eq!(o.first_log_date, Some("2026-08-01".to_string()));
    assert_eq!(o.current_streak, 1);
    let o = overall_stats(&Vec::new(), today);
    assert_eq!((o.active_days, o.first_log_date, o.current_streak), (0, None, 0));
}

#[test]
fn date_headings() {
    assert_eq!(format_date_heading("2026-08-05"), "05 August 2026");
    assert_eq!(format_date_heading("0987-12-31"), "31 December 0987");
    assert_eq!(format_date_heading("not a date"), "not a date");
    for d in ["2026-01-01", "1999-11-30", "0001-02-03"] {
        let expected = NaiveDate::parse_from_str(d, "%Y-%m-%d").unwrap().format("%d %B %Y").to_string();
        assert_eq!(format_date_heading(d), expected);
    }
}

#[test]
fn day_numbers() {
    assert_eq!(day_number("2026-08-07"), Some(day(2026, 8, 7)));
    assert_eq!(day_number("0001-01-01"), Some(1));
    assert_eq!(day_number("2026-13-01"), None);
}

#[test]
fn date_clause_text() {
    assert_eq!(progit::stats::date_clause(Some(7)), "AND date >= date('now', '-6 days')");
    assert_eq!(progit::stats::date_clause(Some(1)), "AND date >= date('now', '0 days')");
    assert_eq!(progit::stats::date_clause(Some(0)), "AND date >= date('now', '1 days')");
    assert_eq!(progit::stats::date_clause(None), "");
}

#[test]
fn last_days_end_today() {
    let today = day(2026, 3, 2);
    let ds = progit::view::last_days(today, 4);
    let got: Vec<String> = ds.into_iter().map(|d| d.unwrap()).collect();
    assert_eq!(got, vec!["2026-02-27", "2026-02-28", "2026-03-01", "2026-03-02"]);
    assert!(progit::view::last_days(today, 0).is_empty());
    assert_eq!(progit::view::last_days(1, 2), vec![Some("0000-12-31".to_string()), Some("0001-01-01".to_string())]);
}
