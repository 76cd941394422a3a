use pidx::activity::{activity_row, activity_row_for, sort_newest_first, ActivityRow};
use pidx::records::CommitRow;

fn commit(sha: &str, at: &str, msg: &str) -> CommitRow {
    CommitRow {
        id: 1,
        repo_id: 1,
        sha: sha.to_string(),
        message: msg.to_string(),
        author: None,
        committed_at: at.to_string(),
        category: "feature".to_string(),
    }
}

#[test]
fn row_from_commit() {
    let long = "x".repeat(80);
    let r = activity_row_for("pidx", &commit("0123456789abcdef", "2024-03-05T23:30:00-02:00", &long));
    assert_eq!(r.date, "2024-03-06");
    assert_eq!(r.repo, "pidx");
    assert_eq!(r.sha_short, "0123456");
    assert_eq!(r.category, "feature");
    assert_eq!(r.message, "x".repeat(60));
}

#[test]
fn unreadable_timestamp_is_kept() {
    let r = activity_row_for("pidx", &commit("ab", "yesterday", "é".repeat(70).as_str()));
    assert_eq!(r.date, "yesterday");
    assert_eq!(r.sha_short, "ab");
    assert_eq!(r.message.chars().count(), 60);
    let r = activity_row("p", &commit("ab", "t", "m"), Some("2020-01-01".to_string()));
    assert_eq!(r.date, "2020-01-01");
}

fn row(date: &str, tag: &str) -> ActivityRow {
    ActivityRow {
        date: date.to_string(),
        repo: tag.to_string(),
        sha_short: String::new(),
        category: String::new(),
        message: String::new(),
    }
}

#[test]
fn newest_day_first_and_stable() {
    let rows = vec![
        row("2024-01-02", "a"),
        row("2024-01-05", "b"),
        row("2024-01-02", "c"),
        row("2024-01-05", "d"),
        row("2023-12-31", "e"),
    ];
    let mut expected = rows.clone();
    expected.sort_by(|a, b| b.date.cmp(&a.date));
    let sorted = sort_newest_first(rows);
    let tags: Vec<&str> = sorted.iter().map(|r| r.repo.as_str()).collect();
    assert_eq!(tags, vec!["b", "d", "a", "c", "e"]);
    let expected_tags: Vec<&str> = expected.iter().map(|r| r.repo.as_str()).collect();
    assert_eq!(tags, expected_tags);
    assert!(sort_newest_first(vec![]).is_empty());
}
