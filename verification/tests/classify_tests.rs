use pidx::classify::CommitCategory;

#[test]
fn fix_prefixes_are_bugfixes() {
    assert_eq!(CommitCategory::from_message("fix: crash on start"), CommitCategory::Bugfix);
    assert_eq!(CommitCategory::from_message("fix(parser): off by one"), CommitCategory::Bugfix);
    assert_eq!(CommitCategory::from_message("FIX: shouting"), CommitCategory::Bugfix);
}

#[test]
fn feature_prefixes() {
    assert_eq!(CommitCategory::from_message("feat: new command"), CommitCategory::Feature);
    assert_eq!(CommitCategory::from_message("Feat(cli): flags"), CommitCategory::Feature);
    assert_eq!(CommitCategory::from_message("Add support for tags"), CommitCategory::Feature);
    assert_eq!(CommitCategory::from_message("added things"), CommitCategory::Chore);
    assert_eq!(CommitCategory::from_message("add"), CommitCategory::Chore);
}

#[test]
fn other_prefixes() {
    assert_eq!(CommitCategory::from_message("docs: readme"), CommitCategory::Docs);
    assert_eq!(CommitCategory::from_message("docs(api): x"), CommitCategory::Docs);
    assert_eq!(CommitCategory::from_message("refactor: split"), CommitCategory::Refactor);
    assert_eq!(CommitCategory::from_message("Refactor(db): x"), CommitCategory::Refactor);
    assert_eq!(CommitCategory::from_message("test: more"), CommitCategory::Test);
    assert_eq!(CommitCategory::from_message("test(unit): x"), CommitCategory::Test);
    assert_eq!(CommitCategory::from_message("sync: upstream"), CommitCategory::Sync);
    assert_eq!(CommitCategory::from_message("SYNC(x): y"), CommitCategory::Sync);
}

#[test]
fn everything_else_is_a_chore() {
    assert_eq!(CommitCategory::from_message(""), CommitCategory::Chore);
    assert_eq!(CommitCategory::from_message("chore: bump"), CommitCategory::Chore);
    assert_eq!(CommitCategory::from_message("fixup typo"), CommitCategory::Chore);
    assert_eq!(CommitCategory::from_message(" fix: leading space"), CommitCategory::Chore);
    assert_eq!(CommitCategory::from_message("f"), CommitCategory::Chore);
}

#[test]
fn non_ascii_capitals_do_not_match() {
    // 'İ' lowercases to "i" followed by a combining dot, so it cannot start "fix:".
    assert_eq!(CommitCategory::from_message("fİx: x"), CommitCategory::Chore);
    assert_eq!("fİx: x".to_lowercase().starts_with("fix:"), false);
}

#[test]
fn case_does_not_matter() {
    let pairs = [("FEAT: A", "feat: a"), ("Docs: X", "docs: x"), ("TeSt(q): z", "test(q): z")];
    for (a, b) in pairs {
        assert_eq!(CommitCategory::from_message(a), CommitCategory::from_message(b));
    }
}

#[test]
fn category_names() {
    let all = [
        (CommitCategory::Feature, "feature"),
        (CommitCategory::Bugfix, "bugfix"),
        (CommitCategory::Docs, "docs"),
        (CommitCategory::Refactor, "refactor"),
        (CommitCategory::Test, "test"),
        (CommitCategory::Sync, "sync"),
        (CommitCategory::Chore, "chore"),
    ];
    for (c, name) in all {
        assert_eq!(c.as_str(), name);
    }
    for (i, (_, a)) in all.iter().enumerate() {
        for (j, (_, b)) in all.iter().enumerate() {
            assert_eq!(i == j, a == b);
        }
    }
}
