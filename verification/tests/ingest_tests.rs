use pidx::docs::issues_markdown;
use pidx::ingest::{extract_section, parse_frontmatter, summary_from_document};

#[test]
fn frontmatter_and_body() {
    let doc = "---\nanalyzed_at: 2024-05-01T10:00:00Z\nmodel: gemini-pro\n---\n\n# Summary\n\nAll good.\n";
    let (fm, body) = parse_frontmatter(doc);
    assert_eq!(fm.get("analyzed_at").map(|s| s.as_str()), Some("2024-05-01T10:00:00Z"));
    assert_eq!(fm.get("model").map(|s| s.as_str()), Some("gemini-pro"));
    assert_eq!(fm.get("missing"), None);
    assert_eq!(body, "# Summary\n\nAll good.");
}

#[test]
fn no_frontmatter() {
    let (fm, body) = parse_frontmatter("  \n# Just a body\n\n");
    assert_eq!(fm.get("model"), None);
    assert_eq!(body, "# Just a body");
}

#[test]
fn unclosed_frontmatter_is_body() {
    let (fm, body) = parse_frontmatter("---\nmodel: x\n# no end\n");
    assert_eq!(fm.get("model"), None);
    assert_eq!(body, "---\nmodel: x\n# no end");
}

#[test]
fn frontmatter_line_rules() {
    let doc = "---\r\n  model :  first \r\nurl: http://example.com:8080/x\nno colon here\nmodel: second\n: empty key\n---body";
    let (fm, body) = parse_frontmatter(doc);
    assert_eq!(fm.get("model").map(|s| s.as_str()), Some("second"));
    assert_eq!(fm.get("url").map(|s| s.as_str()), Some("http://example.com:8080/x"));
    assert_eq!(fm.get("").map(|s| s.as_str()), Some("empty key"));
    assert_eq!(body, "body");
}

#[test]
fn sections() {
    let body = "# T\n\n## Project Status\n\nOn track.\nShipping soon.\n\n## Key Risks\n- none\n## Recommendations\n\n";
    assert_eq!(
        extract_section(body, "## Project Status").as_deref(),
        Some("On track.\nShipping soon.")
    );
    assert_eq!(extract_section(body, "## Key Risks").as_deref(), Some("- none"));
    assert_eq!(extract_section(body, "## Recommendations"), None);
    assert_eq!(extract_section(body, "## Missing"), None);
}

#[test]
fn section_runs_to_next_level_two_heading_only() {
    let body = "## Key Risks\nA\n### Detail\nB\n## Next\nC";
    assert_eq!(extract_section(body, "## Key Risks").as_deref(), Some("A\n### Detail\nB"));
}

#[test]
fn summary_record() {
    let doc = "---\nanalyzed_at: 2024-06-01\nmodel: m1\n---\n## Project Status\nfine\n## Key Risks\nbus factor\n";
    let s = summary_from_document(doc, "2099-01-01T00:00:00Z");
    assert_eq!(s.analyzed_at, "2024-06-01");
    assert_eq!(s.model.as_deref(), Some("m1"));
    assert_eq!(s.status_summary.as_deref(), Some("fine"));
    assert_eq!(s.risks.as_deref(), Some("bus factor"));
    assert_eq!(s.recommendations, None);
    assert_eq!(s.raw_content, doc);
}

#[test]
fn summary_without_frontmatter_uses_now() {
    let s = summary_from_document("## Project Status\nok", "2099-01-01T00:00:00Z");
    assert_eq!(s.analyzed_at, "2099-01-01T00:00:00Z");
    assert_eq!(s.model, None);
    assert_eq!(s.status_summary.as_deref(), Some("ok"));
}

#[test]
fn exported_header_reads_back() {
    let doc = issues_markdown("pidx", "2024-05-01T10:00:00+00:00", &vec![]);
    let (fm, body) = parse_frontmatter(&doc);
    assert_eq!(fm.get("generated_at").map(|s| s.as_str()), Some("2024-05-01T10:00:00+00:00"));
    assert_eq!(fm.get("repo").map(|s| s.as_str()), Some("pidx"));
    assert_eq!(fm.get("period").map(|s| s.as_str()), Some("all"));
    assert_eq!(body, doc["---\ngenerated_at: 2024-05-01T10:00:00+00:00\nrepo: pidx\nperiod: all\n---\n\n".len()..].trim());
}

#[test]
fn read_text_is_trimmed() {
    let (_, body) = parse_frontmatter("---\nmodel: x\n---\n\n  \t## Key Risks\n\n  none  \n\n## Next\n \n");
    assert_eq!(body, "## Key Risks\n\n  none  \n\n## Next");
    assert_eq!(extract_section(&body, "## Key Risks").as_deref(), Some("none"));
    assert_eq!(extract_section(&body, "## Next"), None);
}
