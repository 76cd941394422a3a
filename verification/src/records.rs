//! The rows the tool keeps per repository: repositories, commits, issues,
//! releases and stored LLM analyses.
use vstd::prelude::*;

verus! {

/// A synced repository.
#[derive(Debug, Clone)]
pub struct RepoRow {
    pub id: i64,
    pub owner: String,
    pub name: String,
    pub language: Option<String>,
    pub description: Option<String>,
    pub open_issues: i32,
    pub pushed_at: Option<String>,
    pub synced_at: Option<String>,
    pub category: Option<String>,
}

/// A synced commit; `category` is the name of its `CommitCategory`.
#[derive(Debug, Clone)]
pub struct CommitRow {
    pub id: i64,
    pub repo_id: i64,
    pub sha: String,
    pub message: String,
    pub author: Option<String>,
    pub committed_at: String,
    pub category: String,
}

/// A synced issue; `labels` is a JSON array of the label names.
#[derive(Debug, Clone)]
pub struct IssueRow {
    pub id: i64,
    pub repo_id: i64,
    pub number: i32,
    pub title: String,
    pub state: String,
    pub labels: String,
    pub created_at: String,
    pub updated_at: Option<String>,
    pub closed_at: Option<String>,
}

/// A synced release.
#[derive(Debug, Clone)]
pub struct ReleaseRow {
    pub id: i64,
    pub repo_id: i64,
    pub tag_name: String,
    pub name: Option<String>,
    pub body: Option<String>,
    pub published_at: Option<String>,
}

/// A stored LLM analysis of a repository.
#[derive(Debug, Clone)]
pub struct LlmSummaryRow {
    pub id: i64,
    pub repo_id: i64,
    pub analyzed_at: String,
    pub model: Option<String>,
    pub status_summary: Option<String>,
    pub risks: Option<String>,
    pub recommendations: Option<String>,
    pub raw_content: String,
    pub ingested_at: String,
}

/// The text of an optional string, or `default` when there is none.
pub open spec fn text_or(o: Option<String>, default: Seq<char>) -> Seq<char> {
    match o {
        Some(s) => s@,
        None => default,
    }
}

/// A copy of an optional string.
pub fn copy_opt(o: &Option<String>) -> (r: Option<String>)
    ensures
        r == *o,
{
    match o {
        Some(s) => Some(s.clone()),
        None => None,
    }
}

} // verus!
