use pidx::health::{health_color, CellColor, HealthLabel};
use pidx::records::RepoRow;
use pidx::report::{
    category_breakdown, last_push_display, render_report_markdown, status_cells, status_row,
    RepoStatusRow,
};

fn cats(v: &[&str]) -> Vec<String> {
    v.iter().map(|s| s.to_string()).collect()
}

#[test]
fn breakdown_counts_and_order() {
    let b = category_breakdown(&cats(&["chore", "feature", "feature", "bugfix", "feature", "chore"]));
    assert_eq!(
        b,
        vec![("feature".to_string(), 3), ("chore".to_string(), 2), ("bugfix".to_string(), 1)]
    );
    assert!(category_breakdown(&vec![]).is_empty());
}

#[test]
fn breakdown_accounts_for_every_commit() {
    let input = cats(&["a", "b", "a", "c", "c", "c", "d"]);
    let b = category_breakdown(&input);
    assert_eq!(b.iter().map(|(_, n)| *n as usize).sum::<usize>(), input.len());
    for w in b.windows(2) {
        assert!(w[0].1 >= w[1].1);
    }
}

#[test]
fn last_push_texts() {
    assert_eq!(last_push_display(None), "never");
    assert_eq!(last_push_display(Some(0)), "today");
    assert_eq!(last_push_display(Some(1)), "1d ago");
    assert_eq!(last_push_display(Some(45)), "45d ago");
    assert_eq!(last_push_display(Some(-2)), "-2d ago");
}

fn repo_row(category: Option<&str>, language: Option<&str>) -> RepoRow {
    RepoRow {
        id: 1,
        owner: "o".to_string(),
        name: "pidx".to_string(),
        language: language.map(|s| s.to_string()),
        description: None,
        open_issues: 4,
        pushed_at: None,
        synced_at: None,
        category: category.map(|s| s.to_string()),
    }
}

#[test]
fn status_rows_and_cells() {
    let r = status_row(&repo_row(None, None), 12, "57".to_string(), HealthLabel::Moderate, None, Some(3));
    assert_eq!(r.category, "");
    assert_eq!(r.language, "-");
    assert_eq!(r.last_push, "3d ago");
    let cells = status_cells(&r);
    assert_eq!(cells, vec!["pidx", "", "-", "4", "3d ago", "12/30d", "57 Moderate", "-"]);
    assert_eq!(health_color(r.health_label), CellColor::Yellow);
    assert_eq!(health_color(HealthLabel::Active), CellColor::Green);
    assert_eq!(health_color(HealthLabel::Dormant), CellColor::DarkRed);
    assert_eq!(HealthLabel::Stale.as_str(), "Stale");
}

fn status(name: &str, llm: Option<&str>) -> RepoStatusRow {
    RepoStatusRow {
        name: name.to_string(),
        category: "tools".to_string(),
        language: "Rust".to_string(),
        open_issues: 2,
        last_push: "today".to_string(),
        commits_30d: 9,
        health_score: "88".to_string(),
        health_label: HealthLabel::Active,
        llm_status: llm.map(|s| s.to_string()),
    }
}

fn report_reference(rows: &[RepoStatusRow], period: &str, breakdown: &[(String, u32)], generated: &str) -> String {
    let mut out = String::new();
    out.push_str(&format!("# pidx Report ({period})\n\n"));
    out.push_str(&format!("Generated: {}\n\n", generated));
    out.push_str("## Repository Status\n\n");
    out.push_str("| Repo | Category | Lang | Issues | Last Push | Velocity | Health | LLM Status |\n");
    out.push_str("|------|----------|------|--------|-----------|----------|--------|------------|\n");
    for row in rows {
        out.push_str(&format!(
            "| {} | {} | {} | {} | {} | {}/30d | {} {} | {} |\n",
            row.name, row.category, row.language, row.open_issues, row.last_push, row.commits_30d,
            row.health_score, row.health_label.as_str(), row.llm_status.as_deref().unwrap_or("-"),
        ));
    }
    out.push_str("\n## Commit Breakdown by Category\n\n");
    out.push_str("| Category | Commits |\n");
    out.push_str("|----------|---------|\n");
    for (cat, count) in breakdown {
        out.push_str(&format!("| {} | {} |\n", cat, count));
    }
    if rows.iter().any(|r| r.llm_status.is_some()) {
        out.push_str("\n## LLM Insights\n\n");
        for row in rows {
            if let Some(status) = &row.llm_status {
                out.push_str(&format!("### {}\n\n{}\n\n", row.name, status));
            }
        }
    }
    out
}

#[test]
fn report_markdown() {
    let rows = vec![status("a", None), status("b", Some("On track"))];
    let breakdown = vec![("feature".to_string(), 3u32), ("chore".to_string(), 1u32)];
    let got = render_report_markdown(&rows, "7d", &breakdown, "2024-06-01 12:00 UTC");
    assert_eq!(got, report_reference(&rows, "7d", &breakdown, "2024-06-01 12:00 UTC"));
    assert!(got.contains("| a | tools | Rust | 2 | today | 9/30d | 88 Active | - |\n"));
    assert!(got.ends_with("## LLM Insights\n\n### b\n\nOn track\n\n"));
    let plain = render_report_markdown(&vec![status("a", None)], "2w", &vec![], "g");
    assert_eq!(plain, report_reference(&[status("a", None)], "2w", &[], "g"));
    assert!(!plain.contains("LLM Insights"));
}
