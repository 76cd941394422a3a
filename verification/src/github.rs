//! What the GitHub API answers, and the records the tool stores from it.
use vstd::prelude::*;
use crate::classify::{category_of, CommitCategory};
use crate::records::copy_opt;
use crate::text::{chars_of, find, find_char_in, substring};

verus! {

/// A repository as the API describes it.
#[derive(Debug, Clone)]
pub struct GithubRepo {
    pub name: String,
    pub language: Option<String>,
    pub description: Option<String>,
    pub open_issues_count: i32,
    pub pushed_at: Option<String>,
}

/// A commit as the API lists it.
#[derive(Debug, Clone)]
pub struct GithubCommit {
    pub sha: String,
    pub commit: GithubCommitDetail,
    pub author: Option<GithubUser>,
}

/// The git data of a commit.
#[derive(Debug, Clone)]
pub struct GithubCommitDetail {
    pub message: String,
    pub author: Option<GithubCommitAuthor>,
}

/// The git author of a commit.
#[derive(Debug, Clone)]
pub struct GithubCommitAuthor {
    pub name: Option<String>,
    pub date: Option<String>,
}

/// A GitHub account.
#[derive(Debug, Clone)]
pub struct GithubUser {
    pub login: String,
}

/// An issue as the API lists it. The API lists pull requests as issues too;
/// for those `pull_request` holds the JSON text of the API's
/// `pull_request` object.
#[derive(Debug, Clone)]
pub struct GithubIssue {
    pub number: i32,
    pub title: String,
    pub state: String,
    pub labels: Vec<GithubLabel>,
    pub created_at: String,
    pub updated_at: Option<String>,
    pub closed_at: Option<String>,
    pub pull_request: Option<String>,
}

/// An issue label.
#[derive(Debug, Clone)]
pub struct GithubLabel {
    pub name: String,
}

/// A release as the API lists it.
#[derive(Debug, Clone)]
pub struct GithubRelease {
    pub tag_name: String,
    pub name: Option<String>,
    pub body: Option<String>,
    pub published_at: Option<String>,
}

/// The address of a repository in the GitHub API.
pub open spec fn repo_api_url(owner: Seq<char>, repo: Seq<char>) -> Seq<char> {
    "https://api.github.com/repos/"@ + owner + "/"@ + repo
}

/// The address of a repository's `repo` resource list `path` in the GitHub API.
pub open spec fn repo_resource_url(owner: Seq<char>, repo: Seq<char>, path: Seq<char>) -> Seq<
    char,
> {
    repo_api_url(owner, repo) + "/"@ + path
}

/// The API address of the repository `repo` of `owner`.
pub fn repo_url(owner: &str, repo: &str) -> (r: String)
    ensures
        r@ == repo_api_url(owner@, repo@),
{
    let mut out = String::new();
    out.append("https://api.github.com/repos/");
    out.append(owner);
    out.append("/");
    out.append(repo);
    assert(out@ =~= repo_api_url(owner@, repo@));
    out
}

/// The API address of the resource list `path` (`commits`, `issues`,
/// `releases`) of the repository `repo` of `owner`.
pub fn resource_url(owner: &str, repo: &str, path: &str) -> (r: String)
    ensures
        r@ == repo_resource_url(owner@, repo@, path@),
{
    let mut out = repo_url(owner, repo);
    out.append("/");
    out.append(path);
    assert(out@ =~= repo_resource_url(owner@, repo@, path@));
    out
}

/// Whether an issue the API listed is a real issue, not a pull request.
pub open spec fn is_plain_issue(i: GithubIssue) -> bool {
    i.pull_request is None
}

/// The issues of a listing without its pull requests, in their order.
pub fn drop_pull_requests(issues: Vec<GithubIssue>) -> (r: Vec<GithubIssue>)
    ensures
        r@ == issues@.filter(|i: GithubIssue| is_plain_issue(i)),
{
    let ghost all = issues@;
    let mut out: Vec<GithubIssue> = Vec::new();
    for issue in it: issues.into_iter()
        invariant
            it.seq() == all,
            out@ == all.take(it.index() as int).filter(|i: GithubIssue| is_plain_issue(i)),
    {
        proof {
            reveal_with_fuel(Seq::<GithubIssue>::filter, 1);
            assert(all.take(it.index() + 1).drop_last() =~= all.take(it.index() as int));
        }
        if issue.pull_request.is_none() {
            out.push(issue);
        }
    }
    proof {
        assert(all.take(all.len() as int) =~= all);
    }
    out
}

/// The first line of a text, as `str::lines` gives it: the text up to the
/// first newline without a carriage return just before that newline, or
/// the whole text when it holds no newline.
pub open spec fn first_line(s: Seq<char>) -> Seq<char> {
    match find(s, seq!['\n']) {
        Some(i) => {
            let l = s.take(i);
            if l.len() > 0 && l.last() == '\r' {
                l.drop_last()
            } else {
                l
            }
        },
        None => s,
    }
}

/// What is stored for one commit.
#[derive(Debug)]
pub struct CommitRecord {
    pub sha: String,
    pub message: String,
    pub author: Option<String>,
    pub date: String,
    pub category: CommitCategory,
}

/// The author stored for a commit: the GitHub login when the API names one,
/// else the git author's name.
pub open spec fn commit_author(c: GithubCommit) -> Option<Seq<char>> {
    match c.author {
        Some(u) => Some(u.login@),
        None => match c.commit.author {
            Some(a) => match a.name {
                Some(n) => Some(n@),
                None => None,
            },
            None => None,
        },
    }
}

/// The date stored for a commit: the git author's date, or empty.
pub open spec fn commit_date(c: GithubCommit) -> Seq<char> {
    match c.commit.author {
        Some(a) => match a.date {
            Some(d) => d@,
            None => Seq::empty(),
        },
        None => Seq::empty(),
    }
}

/// The first line of `s`.
pub fn first_line_of(s: &str) -> (r: String)
    ensures
        r@ == first_line(s@),
{
    let v = chars_of(s);
    let n = v.len();
    assert(v@.subrange(0, n as int) =~= v@);
    match find_char_in(&v, 0, n, '\n') {
        Some(i) => {
            if i > 0 && v[i - 1] == '\r' {
                assert(v@.take(i as int).drop_last() =~= v@.subrange(0, i - 1));
                substring(s, 0, i - 1)
            } else {
                assert(v@.take(i as int) =~= v@.subrange(0, i as int));
                substring(s, 0, i)
            }
        },
        None => substring(s, 0, n),
    }
}

/// The record stored for a commit the API listed: its sha, the first line
/// of its message, its author and date, and the category of that first line.
pub fn commit_record(c: &GithubCommit) -> (r: CommitRecord)
    ensures
        r.sha@ == c.sha@,
        r.message@ == first_line(c.commit.message@),
        match r.author {
            Some(a) => commit_author(*c) == Some(a@),
            None => commit_author(*c) is None,
        },
        r.date@ == commit_date(*c),
        r.category == category_of(first_line(c.commit.message@)),
{
    let message = first_line_of(c.commit.message.as_str());
    let author = match &c.author {
        Some(u) => Some(u.login.clone()),
        None => match &c.commit.author {
            Some(a) => copy_opt(&a.name),
            None => None,
        },
    };
    let date = match &c.commit.author {
        Some(a) => match &a.date {
            Some(d) => d.clone(),
            None => String::new(),
        },
        None => String::new(),
    };
    let category = CommitCategory::from_message(message.as_str());
    CommitRecord { sha: c.sha.clone(), message, author, date, category }
}

/// What is stored for one issue; `labels` is the JSON array of its label names.
#[derive(Debug)]
pub struct IssueRecord {
    pub number: i32,
    pub title: String,
    pub state: String,
    pub labels: String,
    pub created_at: String,
    pub updated_at: Option<String>,
    pub closed_at: Option<String>,
}

/// The names of an issue's labels.
pub open spec fn label_names(i: GithubIssue) -> Seq<Seq<char>> {
    i.labels@.map_values(|l: GithubLabel| l.name@)
}

/// The text `serde_json::to_string` writes for a list of strings.
pub uninterp spec fn json_of_strings(items: Seq<Seq<char>>) -> Seq<char>;

/// Declares serde_json's error type, which serialising can return.
#[verifier::external_type_specification]
#[verifier::external_body]
pub struct ExJsonError(serde_json::Error);

/// Writes a list of strings as a JSON array with `serde_json::to_string`.
/// Claimed: it succeeds, and the text is `json_of_strings` of the list, which
/// depends on the list alone. serde_json documents that serialising fails
/// only when a `Serialize` impl decides to fail or a map has non-string keys;
/// a list of strings has neither, and the bytes go to a `Vec<u8>`, whose
/// writes do not fail.
#[verifier::external_body]
fn json_string_list(items: &Vec<String>) -> (r: Result<String, serde_json::Error>)
    ensures
        r is Ok,
        r matches Ok(t) ==> t@ == json_of_strings(items@.map_values(|s: String| s@)),
{
    serde_json::to_string(items)
}

/// The record stored for an issue, given the JSON text of its label names.
pub fn issue_record_with_labels(issue: &GithubIssue, labels: String) -> (r: IssueRecord)
    ensures
        r.number == issue.number,
        r.title@ == issue.title@,
        r.state@ == issue.state@,
        r.labels == labels,
        r.created_at@ == issue.created_at@,
        r.updated_at == issue.updated_at,
        r.closed_at == issue.closed_at,
{
    IssueRecord {
        number: issue.number,
        title: issue.title.clone(),
        state: issue.state.clone(),
        labels,
        created_at: issue.created_at.clone(),
        updated_at: copy_opt(&issue.updated_at),
        closed_at: copy_opt(&issue.closed_at),
    }
}

/// Why an issue's record could not be made.
#[derive(Debug, Clone, Copy, PartialEq, Eq, Structural)]
pub enum RecordError {
    /// serde_json failed to write the label names as JSON.
    LabelsNotWritten,
}

/// The record stored for an issue the API listed, with its label names
/// written as a JSON array. Writing a list of strings as JSON does not fail,
/// so the record is always made.
pub fn issue_record(issue: &GithubIssue) -> (r: Result<IssueRecord, RecordError>)
    ensures
        r matches Ok(rec) && {
            &&& rec.number == issue.number
            &&& rec.title@ == issue.title@
            &&& rec.state@ == issue.state@
            &&& rec.labels@ == json_of_strings(label_names(*issue))
            &&& rec.created_at@ == issue.created_at@
            &&& rec.updated_at == issue.updated_at
            &&& rec.closed_at == issue.closed_at
        },
{
    let mut names: Vec<String> = Vec::new();
    let n = issue.labels.len();
    let mut i: usize = 0;
    while i < n
        invariant
            n == issue.labels@.len(),
            i <= n,
            names@.map_values(|s: String| s@) =~= label_names(*issue).take(i as int),
        decreases n - i,
    {
        let name = issue.labels[i].name.clone();
        let ghost before = names@;
        names.push(name);
        assert(names@.map_values(|s: String| s@) =~= before.map_values(|s: String| s@).push(
            name@,
        ));
        assert(label_names(*issue).take(i + 1) =~= label_names(*issue).take(i as int).push(
            label_names(*issue)[i as int],
        ));
        i = i + 1;
    }
    assert(label_names(*issue).take(n as int) =~= label_names(*issue));
    match json_string_list(&names) {
        Ok(labels) => Ok(issue_record_with_labels(issue, labels)),
        Err(_) => Err(RecordError::LabelsNotWritten),
    }
}

/// Dropping pull requests keeps exactly the entries that are not pull
/// requests, in their order: whether an issue is kept depends on its
/// `pull_request` field alone, not on its state or any other field.
pub proof fn law_only_pull_requests_dropped(issues: Seq<GithubIssue>)
    ensures
        issues.filter(|i: GithubIssue| is_plain_issue(i)) == issues.filter(
            |i: GithubIssue| i.pull_request is None,
        ),
        forall|x: GithubIssue, y: GithubIssue|
            x.pull_request == y.pull_request ==> #[trigger] is_plain_issue(x)
                == #[trigger] is_plain_issue(y),
        forall|x: GithubIssue| #[trigger] is_plain_issue(x) <==> x.pull_request is None,
{
    assert((|i: GithubIssue| is_plain_issue(i)) =~= (|i: GithubIssue| i.pull_request is None));
}

} // verus!
