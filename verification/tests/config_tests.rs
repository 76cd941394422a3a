use pidx::config::{
    expand_tilde, join, repo_selected, select_repos, CategoryEntry, Config, ConfigError, RepoEntry,
    SyncConfig, SyncError,
};

fn config(db: &str, index: Option<&str>) -> Config {
    Config {
        owner: "me".to_string(),
        index_path: index.map(|s| s.to_string()),
        sync: SyncConfig {
            github_token_env: "GITHUB_TOKEN".to_string(),
            commits_per_sync: 50,
            db_path: db.to_string(),
        },
        repos: vec![],
        categories: vec![CategoryEntry { key: "k".to_string(), title: "T".to_string() }],
    }
}

#[test]
fn tool_paths() {
    assert_eq!(Config::pidx_dir("/home/ana"), "/home/ana/.pidx");
    assert_eq!(Config::config_path("/home/ana"), "/home/ana/.pidx/pidx.toml");
    assert_eq!(Config::docs_dir("/home/ana/"), "/home/ana/.pidx/docs");
    assert_eq!(Config::repo_docs_dir("/home/ana", "pidx"), "/home/ana/.pidx/docs/pidx");
}

#[test]
fn paths_match_pathbuf() {
    for (base, rest) in [("/a", "b"), ("/a/", "b"), ("", "b"), ("/a", "/etc"), ("a", ""), ("/", "x")] {
        let expected = std::path::Path::new(base).join(rest);
        assert_eq!(join(base, rest), expected.to_str().unwrap());
    }
}

#[test]
fn tilde_expansion() {
    assert_eq!(expand_tilde("~/data/pidx.db", "/home/ana"), "/home/ana/data/pidx.db");
    assert_eq!(expand_tilde("/var/pidx.db", "/home/ana"), "/var/pidx.db");
    assert_eq!(expand_tilde("~", "/home/ana"), "~");
    assert_eq!(expand_tilde("~//abs", "/home/ana"), "/abs");
    assert_eq!(config("~/p.db", None).db_path("/h"), "/h/p.db");
}

#[test]
fn index_path_needs_setting() {
    assert_eq!(config("x", None).index_path("/h"), Err(ConfigError::IndexPathNotSet));
    assert_eq!(config("x", Some("~/README.md")).index_path("/h"), Ok("/h/README.md".to_string()));
}

#[test]
fn token_from_environment() {
    let c = config("x", None);
    assert_eq!(c.github_token(Some("abc".to_string())), Ok("abc".to_string()));
    assert_eq!(c.github_token(None), Err(ConfigError::TokenNotSet("GITHUB_TOKEN".to_string())));
}

fn entry(name: &str) -> RepoEntry {
    RepoEntry { name: name.to_string(), category: "tools".to_string(), description: None }
}

#[test]
fn repo_selection() {
    let repos = vec![entry("a"), entry("b"), entry("a")];
    let all = select_repos(&repos, None).unwrap();
    assert_eq!(all.len(), 3);
    let only_a = select_repos(&repos, Some("a")).unwrap();
    assert_eq!(only_a.iter().map(|e| e.name.as_str()).collect::<Vec<_>>(), vec!["a", "a"]);
    assert_eq!(select_repos(&repos, Some("zzz")).unwrap_err(), SyncError::NoMatchingRepos);
    assert_eq!(select_repos(&vec![], None).unwrap_err(), SyncError::NoMatchingRepos);
    assert!(repo_selected("x", None));
    assert!(repo_selected("x", Some("x")));
    assert!(!repo_selected("x", Some("X")));
}
