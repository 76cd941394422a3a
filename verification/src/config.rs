//! The configuration and the places the tool keeps its files.
//!
//! Paths are held as text. The home directory is read by the caller (from
//! `HOME`) and handed in.
use vstd::prelude::*;
use crate::records::copy_opt;
use crate::text::{chars_of, same_text, starts_with, substring};

verus! {

/// The configuration file's contents.
#[derive(Debug)]
pub struct Config {
    pub owner: String,
    pub index_path: Option<String>,
    pub sync: SyncConfig,
    pub repos: Vec<RepoEntry>,
    pub categories: Vec<CategoryEntry>,
}

/// How syncing is done.
#[derive(Debug)]
pub struct SyncConfig {
    pub github_token_env: String,
    pub commits_per_sync: u32,
    pub db_path: String,
}

/// A repository the configuration lists.
#[derive(Debug, Clone)]
pub struct RepoEntry {
    pub name: String,
    pub category: String,
    pub description: Option<String>,
}

/// A category the configuration names.
#[derive(Debug, Clone)]
pub struct CategoryEntry {
    pub key: String,
    pub title: String,
}

/// Why a configured value is missing.
#[derive(Debug, PartialEq, Eq)]
pub enum ConfigError {
    /// The configuration sets no `index_path`.
    IndexPathNotSet,
    /// The environment variable named here, which should hold the GitHub token, is not set.
    TokenNotSet(String),
}

/// `base` joined with `rest` as `Path::join` does on Unix: an absolute
/// `rest` replaces `base`; otherwise a `/` separates them unless `base` is
/// empty or already ends in one.
pub open spec fn join_path(base: Seq<char>, rest: Seq<char>) -> Seq<char> {
    if rest.len() > 0 && rest[0] == '/' {
        rest
    } else if base.len() > 0 && base.last() != '/' {
        base + seq!['/'] + rest
    } else {
        base + rest
    }
}

/// A path with a leading `~/` replaced by the home directory.
pub open spec fn expand_tilde_spec(path: Seq<char>, home: Seq<char>) -> Seq<char> {
    if starts_with(path, seq!['~', '/']) {
        join_path(home, path.skip(2))
    } else {
        path
    }
}

/// The tool's own directory, `~/.pidx`.
pub open spec fn pidx_dir_spec(home: Seq<char>) -> Seq<char> {
    join_path(home, ".pidx"@)
}

/// The directory of the exported documents, `~/.pidx/docs`.
pub open spec fn docs_dir_spec(home: Seq<char>) -> Seq<char> {
    join_path(pidx_dir_spec(home), "docs"@)
}

/// `base` joined with `rest` (see `join_path`).
pub fn join(base: &str, rest: &str) -> (r: String)
    ensures
        r@ == join_path(base@, rest@),
{
    proof {
        reveal_strlit("/");
    }
    let b = chars_of(base);
    let t = chars_of(rest);
    if t.len() > 0 && t[0] == '/' {
        return rest.to_owned();
    }
    let mut out = base.to_owned();
    if b.len() > 0 && b[b.len() - 1] != '/' {
        out.append("/");
    }
    out.append(rest);
    assert(out@ =~= join_path(base@, rest@));
    out
}

/// A path with a leading `~/` replaced by the home directory `home`.
pub fn expand_tilde(path: &str, home: &str) -> (r: String)
    ensures
        r@ == expand_tilde_spec(path@, home@),
{
    let v = chars_of(path);
    let n = v.len();
    if n >= 2 && v[0] == '~' && v[1] == '/' {
        assert(path@.subrange(0, 2) =~= seq!['~', '/']);
        let rest = substring(path, 2, n);
        assert(rest@ =~= path@.skip(2));
        join(home, rest.as_str())
    } else {
        assert(!starts_with(path@, seq!['~', '/'])) by {
            if n >= 2 {
                assert(path@.subrange(0, 2)[0] == path@[0]);
                assert(path@.subrange(0, 2)[1] == path@[1]);
            }
        }
        path.to_owned()
    }
}

impl Config {
    /// The configuration file, `~/.pidx/pidx.toml`.
    pub fn config_path(home: &str) -> (r: String)
        ensures
            r@ == join_path(pidx_dir_spec(home@), "pidx.toml"@),
    {
        let dir = Self::pidx_dir(home);
        join(dir.as_str(), "pidx.toml")
    }

    /// The tool's own directory, `~/.pidx`.
    pub fn pidx_dir(home: &str) -> (r: String)
        ensures
            r@ == pidx_dir_spec(home@),
    {
        join(home, ".pidx")
    }

    /// The database file: the configured path, with a leading `~/` expanded.
    pub fn db_path(&self, home: &str) -> (r: String)
        ensures
            r@ == expand_tilde_spec(self.sync.db_path@, home@),
    {
        expand_tilde(self.sync.db_path.as_str(), home)
    }

    /// The directory of the exported documents, `~/.pidx/docs`.
    pub fn docs_dir(home: &str) -> (r: String)
        ensures
            r@ == docs_dir_spec(home@),
    {
        let dir = Self::pidx_dir(home);
        join(dir.as_str(), "docs")
    }

    /// The directory of one repository's documents, `~/.pidx/docs/{repo}`.
    pub fn repo_docs_dir(home: &str, repo_name: &str) -> (r: String)
        ensures
            r@ == join_path(docs_dir_spec(home@), repo_name@),
    {
        let dir = Self::docs_dir(home);
        join(dir.as_str(), repo_name)
    }

    /// The index file: the configured path, with a leading `~/` expanded;
    /// an error when the configuration sets none.
    pub fn index_path(&self, home: &str) -> (r: Result<String, ConfigError>)
        ensures
            match self.index_path {
                Some(p) => r matches Ok(s) && s@ == expand_tilde_spec(p@, home@),
                None => r == Err::<String, ConfigError>(ConfigError::IndexPathNotSet),
            },
    {
        match &self.index_path {
            Some(p) => Ok(expand_tilde(p.as_str(), home)),
            None => Err(ConfigError::IndexPathNotSet),
        }
    }

    /// The GitHub token, given the value of the environment variable the
    /// configuration names (`None` when that variable is not set).
    pub fn github_token(&self, env_value: Option<String>) -> (r: Result<String, ConfigError>)
        ensures
            match env_value {
                Some(v) => r == Ok::<String, ConfigError>(v),
                None => r matches Err(ConfigError::TokenNotSet(name)) && name@
                    == self.sync.github_token_env@,
            },
    {
        match env_value {
            Some(v) => Ok(v),
            None => Err(ConfigError::TokenNotSet(self.sync.github_token_env.clone())),
        }
    }
}

/// The configuration file and the documents live inside the tool's
/// directory: the configuration file is `pidx.toml` in it, the documents
/// are in its `docs` directory, and each repository's documents in a
/// directory of that one named after the repository (a relative name).
pub proof fn law_files_inside_pidx_dir(home: Seq<char>, repo: Seq<char>)
    requires
        !(repo.len() > 0 && repo[0] == '/'),
    ensures
        join_path(pidx_dir_spec(home), "pidx.toml"@) == pidx_dir_spec(home) + "/pidx.toml"@,
        docs_dir_spec(home) == pidx_dir_spec(home) + "/docs"@,
        join_path(docs_dir_spec(home), repo) == docs_dir_spec(home) + seq!['/'] + repo,
{
    reveal_strlit(".pidx");
    reveal_strlit("pidx.toml");
    reveal_strlit("/pidx.toml");
    reveal_strlit("docs");
    reveal_strlit("/docs");
    let p = pidx_dir_spec(home);
    assert(p.len() > 0 && p.last() == 'x');
    assert(p + seq!['/'] + "pidx.toml"@ =~= p + "/pidx.toml"@);
    let d = docs_dir_spec(home);
    assert(d =~= p + "/docs"@);
    assert(d.len() > 0 && d.last() == 's');
}

/// Whether a repository named `name` passes the optional name filter.
pub open spec fn passes_filter(name: Seq<char>, filter: Option<&str>) -> bool {
    match filter {
        Some(f) => name == f@,
        None => true,
    }
}

/// Whether a repository named `name` passes the optional name filter.
pub fn repo_selected(name: &str, filter: Option<&str>) -> (r: bool)
    ensures
        r == passes_filter(name@, filter),
{
    match filter {
        Some(f) => same_text(name, f),
        None => true,
    }
}

impl RepoEntry {
    /// A copy of the entry.
    pub fn duplicate(&self) -> (r: RepoEntry)
        ensures
            r == *self,
    {
        RepoEntry {
            name: self.name.clone(),
            category: self.category.clone(),
            description: copy_opt(&self.description),
        }
    }
}

/// Why a sync cannot start.
#[derive(Debug, PartialEq, Eq)]
pub enum SyncError {
    /// No configured repository passes the filter.
    NoMatchingRepos,
}

/// The configured repositories to sync: those that pass the filter, in the
/// configuration's order; an error when there are none.
pub fn select_repos(repos: &Vec<RepoEntry>, filter: Option<&str>) -> (r: Result<
    Vec<RepoEntry>,
    SyncError,
>)
    ensures
        ({
            let chosen = repos@.filter(|e: RepoEntry| passes_filter(e.name@, filter));
            if chosen.len() == 0 {
                r == Err::<Vec<RepoEntry>, SyncError>(SyncError::NoMatchingRepos)
            } else {
                r matches Ok(v) && v@ == chosen
            }
        }),
{
    let ghost pred = |e: RepoEntry| passes_filter(e.name@, filter);
    let mut out: Vec<RepoEntry> = Vec::new();
    let n = repos.len();
    let mut i: usize = 0;
    while i < n
        invariant
            n == repos@.len(),
            i <= n,
            pred == (|e: RepoEntry| passes_filter(e.name@, filter)),
            out@ == repos@.take(i as int).filter(pred),
        decreases n - i,
    {
        proof {
            assert(repos@.take(i + 1) =~= repos@.take(i as int).push(repos@[i as int]));
            repos@.take(i as int).lemma_filter_push(repos@[i as int], pred);
        }
        if repo_selected(repos[i].name.as_str(), filter) {
            out.push(repos[i].duplicate());
        }
        i = i + 1;
    }
    assert(repos@.take(n as int) =~= repos@);
    if out.len() == 0 {
        Err(SyncError::NoMatchingRepos)
    } else {
        Ok(out)
    }
}

} // verus!
