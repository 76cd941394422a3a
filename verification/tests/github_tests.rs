use pidx::classify::CommitCategory;
use pidx::github::{
    commit_record, drop_pull_requests, first_line_of, issue_record, repo_url, resource_url,
    GithubCommit, GithubCommitAuthor, GithubCommitDetail, GithubIssue, GithubLabel, GithubUser,
};

#[test]
fn api_urls() {
    assert_eq!(repo_url("octo", "pidx"), "https://api.github.com/repos/octo/pidx");
    assert_eq!(
        resource_url("octo", "pidx", "commits"),
        "https://api.github.com/repos/octo/pidx/commits"
    );
}

fn issue(number: i32, pr: bool, labels: &[&str]) -> GithubIssue {
    GithubIssue {
        number,
        title: format!("issue {number}"),
        state: "open".to_string(),
        labels: labels.iter().map(|l| GithubLabel { name: l.to_string() }).collect(),
        created_at: "2024-01-01T00:00:00Z".to_string(),
        updated_at: None,
        closed_at: Some("2024-02-01T00:00:00Z".to_string()),
        pull_request: if pr { Some("{\"url\":\"x\"}".to_string()) } else { None },
    }
}

#[test]
fn pull_requests_are_dropped() {
    let kept = drop_pull_requests(vec![issue(1, false, &[]), issue(2, true, &[]), issue(3, false, &[])]);
    assert_eq!(kept.iter().map(|i| i.number).collect::<Vec<_>>(), vec![1, 3]);
}

#[test]
fn issue_labels_as_json() {
    let rec = issue_record(&issue(7, false, &["bug", "ui \"x\""])).unwrap();
    assert_eq!(rec.number, 7);
    assert_eq!(rec.title, "issue 7");
    assert_eq!(rec.labels, "[\"bug\",\"ui \\\"x\\\"\"]");
    assert_eq!(rec.closed_at.as_deref(), Some("2024-02-01T00:00:00Z"));
    assert_eq!(issue_record(&issue(8, false, &[])).unwrap().labels, "[]");
}

#[test]
fn first_lines() {
    assert_eq!(first_line_of("feat: x\n\nbody"), "feat: x");
    assert_eq!(first_line_of("fix: y\r\nmore"), "fix: y");
    assert_eq!(first_line_of("single"), "single");
    assert_eq!(first_line_of("trailing cr\r"), "trailing cr\r");
    assert_eq!(first_line_of(""), "");
    assert_eq!(first_line_of("\nsecond"), "");
    for s in ["a\nb", "a\r\nb", "x\r", "", "\n", "\r\n"] {
        assert_eq!(first_line_of(s), s.lines().next().unwrap_or(""));
    }
}

fn commit(login: Option<&str>, name: Option<&str>, date: Option<&str>, msg: &str) -> GithubCommit {
    GithubCommit {
        sha: "abcdef1234567".to_string(),
        commit: GithubCommitDetail {
            message: msg.to_string(),
            author: Some(GithubCommitAuthor {
                name: name.map(|s| s.to_string()),
                date: date.map(|s| s.to_string()),
            }),
        },
        author: login.map(|l| GithubUser { login: l.to_string() }),
    }
}

#[test]
fn commit_records() {
    let r = commit_record(&commit(Some("ana"), Some("Ana B"), Some("2024-01-02T03:04:05Z"), "Feat: thing\n\ndetails"));
    assert_eq!(r.sha, "abcdef1234567");
    assert_eq!(r.message, "Feat: thing");
    assert_eq!(r.author.as_deref(), Some("ana"));
    assert_eq!(r.date, "2024-01-02T03:04:05Z");
    assert_eq!(r.category, CommitCategory::Feature);
    assert_eq!(r.category.as_str(), "feature");

    let r = commit_record(&commit(None, Some("Ana B"), None, "docs: a"));
    assert_eq!(r.author.as_deref(), Some("Ana B"));
    assert_eq!(r.date, "");
    assert_eq!(r.category, CommitCategory::Docs);

    let mut c = commit(None, None, None, "wip");
    c.commit.author = None;
    let r = commit_record(&c);
    assert_eq!(r.author, None);
    assert_eq!(r.date, "");
    assert_eq!(r.category, CommitCategory::Chore);
}
