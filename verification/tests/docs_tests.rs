use pidx::docs::{
    byte_prefix_of, changelog_markdown, changelog_with_days, health_markdown, issues_markdown,
    overview_markdown, releases_markdown,
};
use pidx::health::{HealthFigures, HealthLabel};
use pidx::records::{CommitRow, IssueRow, ReleaseRow, RepoRow};

const NOW: &str = "2024-06-01T12:00:00Z";

fn repo(lang: Option<&str>, pushed: Option<&str>) -> RepoRow {
    RepoRow {
        id: 1,
        owner: "octo".to_string(),
        name: "pidx".to_string(),
        language: lang.map(|s| s.to_string()),
        description: None,
        open_issues: 3,
        pushed_at: pushed.map(|s| s.to_string()),
        synced_at: None,
        category: Some("tools".to_string()),
    }
}

#[test]
fn overview_document() {
    let r = repo(Some("Rust"), None);
    let expected = format!(
        "---\ngenerated_at: {NOW}\nrepo: {}\nperiod: all\n---\n\n# {}\n\n- **Owner:** {}\n- **Language:** {}\n- **Description:** {}\n- **Open Issues:** {}\n- **Last Push:** {}\n- **Category:** {}\n",
        "pidx", "pidx", "octo", "Rust", "N/A", 3, "never", "tools",
    );
    assert_eq!(overview_markdown(&r, NOW), expected);
    let mut r = repo(None, Some("2024-05-01T00:00:00Z"));
    r.category = None;
    r.open_issues = -1;
    assert!(overview_markdown(&r, NOW).contains("- **Language:** unknown\n"));
    assert!(overview_markdown(&r, NOW).contains("- **Open Issues:** -1\n"));
    assert!(overview_markdown(&r, NOW).contains("- **Last Push:** 2024-05-01T00:00:00Z\n"));
    assert!(overview_markdown(&r, NOW).ends_with("- **Category:** uncategorized\n"));
}

fn commit(sha: &str, at: &str, msg: &str, cat: &str) -> CommitRow {
    CommitRow {
        id: 1,
        repo_id: 1,
        sha: sha.to_string(),
        message: msg.to_string(),
        author: None,
        committed_at: at.to_string(),
        category: cat.to_string(),
    }
}

#[test]
fn changelog_groups_by_day() {
    let commits = vec![
        commit("aaaaaaaaaa", "2024-05-03T10:00:00Z", "feat: a", "feature"),
        commit("bbbbbbbbbb", "2024-05-03T09:00:00Z", "fix: b", "bugfix"),
        commit("cc", "not a time", "c", "chore"),
        commit("ddddddddd", "2024-05-01T00:00:00+00:00", "d", "docs"),
    ];
    let got = changelog_markdown("pidx", NOW, &commits);
    let expected = format!(
        "---\ngenerated_at: {NOW}\nrepo: pidx\nperiod: all\n---\n\n# Changelog\n\n\
\n## 2024-05-03\n\n- **[feature]** `aaaaaaa` feat: a\n- **[bugfix]** `bbbbbbb` fix: b\n\
\n## unknown\n\n- **[chore]** `cc` c\n\
\n## 2024-05-01\n\n- **[docs]** `ddddddd` d\n"
    );
    assert_eq!(got, expected);
}

#[test]
fn changelog_with_given_days() {
    let commits = vec![commit("1234567890", "x", "m", "chore"), commit("abc", "y", "n", "test")];
    let got = changelog_with_days("r", NOW, &commits, &vec![None, None]);
    assert!(got.ends_with("# Changelog\n\n\n## unknown\n\n- **[chore]** `1234567` m\n- **[test]** `abc` n\n"));
}

#[test]
fn sha_cut_by_bytes() {
    assert_eq!(byte_prefix_of("abcdefghij", 7), "abcdefg");
    assert_eq!(byte_prefix_of("abc", 7), "abc");
    assert_eq!(byte_prefix_of("abcdeé!", 7), "abcdeé");
    assert_eq!(&"abcdeé!"[..7], "abcdeé");
}

fn issue(number: i32, state: &str) -> IssueRow {
    IssueRow {
        id: number as i64,
        repo_id: 1,
        number,
        title: format!("T{number}"),
        state: state.to_string(),
        labels: "[]".to_string(),
        created_at: "2024-01-01".to_string(),
        updated_at: None,
        closed_at: None,
    }
}

fn issues_reference(issues: &[IssueRow]) -> String {
    let mut issues_md = format!("---\ngenerated_at: {NOW}\nrepo: {}\nperiod: all\n---\n\n# Issues\n\n", "pidx");
    let open: Vec<_> = issues.iter().filter(|i| i.state == "open").collect();
    let closed: Vec<_> = issues.iter().filter(|i| i.state == "closed").collect();
    issues_md.push_str(&format!("**Open:** {} | **Closed:** {}\n\n", open.len(), closed.len()));
    if !open.is_empty() {
        issues_md.push_str("## Open Issues\n\n");
        for i in &open {
            issues_md.push_str(&format!("- #{} {}\n", i.number, i.title));
        }
    }
    if !closed.is_empty() {
        issues_md.push_str("\n## Recently Closed\n\n");
        for i in closed.iter().take(10) {
            issues_md.push_str(&format!("- #{} {}\n", i.number, i.title));
        }
    }
    issues_md
}

#[test]
fn issues_document() {
    let mut issues = vec![issue(20, "open"), issue(19, "closed"), issue(18, "weird")];
    for n in 1..=12 {
        issues.push(issue(n, "closed"));
    }
    let got = issues_markdown("pidx", NOW, &issues);
    assert_eq!(got, issues_reference(&issues));
    assert!(got.contains("**Open:** 1 | **Closed:** 13\n\n## Open Issues\n\n- #20 T20\n\n## Recently Closed\n\n- #19 T19\n"));
    assert!(!got.contains("#11 T11"));
    assert_eq!(issues_markdown("pidx", NOW, &vec![]), issues_reference(&[]));
    let only_closed = vec![issue(5, "closed")];
    assert_eq!(issues_markdown("pidx", NOW, &only_closed), issues_reference(&only_closed));
}

#[test]
fn releases_document() {
    let none = releases_markdown("pidx", NOW, &vec![]);
    assert_eq!(none, format!("---\ngenerated_at: {NOW}\nrepo: pidx\nperiod: all\n---\n\n# Releases\n\nNo releases found.\n"));
    let rels = vec![
        ReleaseRow {
            id: 1,
            repo_id: 1,
            tag_name: "v1.0".to_string(),
            name: Some("First".to_string()),
            body: Some("Notes".to_string()),
            published_at: Some("2024-01-01".to_string()),
        },
        ReleaseRow { id: 2, repo_id: 1, tag_name: "v0.9".to_string(), name: None, body: None, published_at: None },
    ];
    let got = releases_markdown("pidx", NOW, &rels);
    assert!(got.ends_with("# Releases\n\n## v1.0 First\n\nPublished: 2024-01-01\n\nNotes\n\n## v0.9 \n\nPublished: unknown\n\n\n\n"));
}

#[test]
fn health_document() {
    let h = HealthFigures {
        total: "72".to_string(),
        recency: "80".to_string(),
        velocity: "60".to_string(),
        issues: "70".to_string(),
        label: HealthLabel::Healthy,
    };
    let expected = format!(
        "---\ngenerated_at: {NOW}\nrepo: {}\nperiod: 30d\n---\n\n# Health Score\n\n- **Total:** {}/100 ({})\n- **Recency:** {}/100 (weight: 40%)\n- **Velocity:** {}/100 (weight: 40%, {} commits/30d)\n- **Issues:** {}/100 (weight: 20%, {} open)\n",
        "pidx", "72", "Healthy", "80", "60", 6, "70", 3,
    );
    assert_eq!(health_markdown("pidx", NOW, &h, 6, 3), expected);
}
