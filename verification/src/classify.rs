//! Commit categories, read from the conventional prefix of a commit message.
use vstd::prelude::*;
use crate::text::chars_of;

verus! {

/// What kind of change a commit is.
#[derive(Debug, Clone, Copy, PartialEq, Eq, Structural)]
pub enum CommitCategory {
    Feature,
    Bugfix,
    Docs,
    Refactor,
    Test,
    Sync,
    Chore,
}

/// `c` with an ASCII capital letter turned into its small letter.
pub open spec fn ascii_lower(c: char) -> char {
    if 'A' <= c && c <= 'Z' {
        ((c as u32) + 32) as char
    } else {
        c
    }
}

/// Whether the lowercased `s` starts with `p`, for a prefix `p` of small
/// ASCII letters and punctuation.
///
/// For such a `p` this is what `s.to_lowercase().starts_with(p)` decides:
/// the only characters outside ASCII whose lowercase holds an ASCII letter
/// are KELVIN SIGN (to `k`, which no prefix holds) and CAPITAL I WITH DOT
/// ABOVE (to `i` followed by a combining dot, which no prefix can match).
pub open spec fn lower_starts_with(s: Seq<char>, p: Seq<char>) -> bool {
    &&& p.len() <= s.len()
    &&& forall|i: int| 0 <= i < p.len() ==> ascii_lower(#[trigger] s[i]) == p[i]
}

/// The category of a commit message: `fix:` or `fix(` makes a bug fix;
/// `feat:`, `feat(` or `add ` a feature; `docs:`/`docs(` documentation;
/// `refactor:`/`refactor(` a refactoring; `test:`/`test(` tests;
/// `sync:`/`sync(` a sync; anything else a chore. Letter case does not matter.
pub open spec fn category_of(m: Seq<char>) -> CommitCategory {
    if lower_starts_with(m, "fix:"@) || lower_starts_with(m, "fix("@) {
        CommitCategory::Bugfix
    } else if lower_starts_with(m, "feat:"@) || lower_starts_with(m, "feat("@) || lower_starts_with(
        m,
        "add "@,
    ) {
        CommitCategory::Feature
    } else if lower_starts_with(m, "docs:"@) || lower_starts_with(m, "docs("@) {
        CommitCategory::Docs
    } else if lower_starts_with(m, "refactor:"@) || lower_starts_with(m, "refactor("@) {
        CommitCategory::Refactor
    } else if lower_starts_with(m, "test:"@) || lower_starts_with(m, "test("@) {
        CommitCategory::Test
    } else if lower_starts_with(m, "sync:"@) || lower_starts_with(m, "sync("@) {
        CommitCategory::Sync
    } else {
        CommitCategory::Chore
    }
}

/// The name under which a category is stored and shown.
pub open spec fn category_name(c: CommitCategory) -> Seq<char> {
    match c {
        CommitCategory::Feature => "feature"@,
        CommitCategory::Bugfix => "bugfix"@,
        CommitCategory::Docs => "docs"@,
        CommitCategory::Refactor => "refactor"@,
        CommitCategory::Test => "test"@,
        CommitCategory::Sync => "sync"@,
        CommitCategory::Chore => "chore"@,
    }
}

/// Whether the lowercased `m` starts with the text `p`.
fn lower_prefix(m: &Vec<char>, p: &str) -> (r: bool)
    ensures
        r == lower_starts_with(m@, p@),
{
    let q = chars_of(p);
    if q.len() > m.len() {
        return false;
    }
    let n = q.len();
    let mut i: usize = 0;
    while i < n
        invariant
            n == q@.len(),
            q@ == p@,
            n <= m@.len(),
            i <= n,
            forall|j: int| 0 <= j < i ==> ascii_lower(#[trigger] m@[j]) == q@[j],
        decreases n - i,
    {
        let c = m[i];
        let low = if 'A' <= c && c <= 'Z' {
            ((c as u8) + 32) as char
        } else {
            c
        };
        if low != q[i] {
            return false;
        }
        i = i + 1;
    }
    true
}

impl CommitCategory {
    /// The category of a commit message (see `category_of`).
    pub fn from_message(message: &str) -> (r: CommitCategory)
        ensures
            r == category_of(message@),
    {
        let m = chars_of(message);
        if lower_prefix(&m, "fix:") || lower_prefix(&m, "fix(") {
            CommitCategory::Bugfix
        } else if lower_prefix(&m, "feat:") || lower_prefix(&m, "feat(") || lower_prefix(
            &m,
            "add ",
        ) {
            CommitCategory::Feature
        } else if lower_prefix(&m, "docs:") || lower_prefix(&m, "docs(") {
            CommitCategory::Docs
        } else if lower_prefix(&m, "refactor:") || lower_prefix(&m, "refactor(") {
            CommitCategory::Refactor
        } else if lower_prefix(&m, "test:") || lower_prefix(&m, "test(") {
            CommitCategory::Test
        } else if lower_prefix(&m, "sync:") || lower_prefix(&m, "sync(") {
            CommitCategory::Sync
        } else {
            CommitCategory::Chore
        }
    }

    /// The category's name.
    pub fn as_str(&self) -> (r: &'static str)
        ensures
            r@ == category_name(*self),
    {
        match self {
            CommitCategory::Feature => "feature",
            CommitCategory::Bugfix => "bugfix",
            CommitCategory::Docs => "docs",
            CommitCategory::Refactor => "refactor",
            CommitCategory::Test => "test",
            CommitCategory::Sync => "sync",
            CommitCategory::Chore => "chore",
        }
    }
}

/// Classification ignores the case of ASCII letters: two messages that agree
/// once their ASCII letters are lowercased fall in the same category.
pub proof fn law_category_ignores_ascii_case(m: Seq<char>, n: Seq<char>)
    requires
        m.len() == n.len(),
        forall|i: int| 0 <= i < m.len() ==> ascii_lower(#[trigger] m[i]) == ascii_lower(n[i]),
    ensures
        category_of(m) == category_of(n),
{
    assert forall|p: Seq<char>| lower_starts_with(m, p) == lower_starts_with(n, p) by {
        if lower_starts_with(m, p) {
            assert forall|i: int| 0 <= i < p.len() implies ascii_lower(#[trigger] n[i]) == p[i] by {
                assert(ascii_lower(m[i]) == p[i]);
            }
        }
        if lower_starts_with(n, p) {
            assert forall|i: int| 0 <= i < p.len() implies ascii_lower(#[trigger] m[i]) == p[i] by {
                assert(ascii_lower(n[i]) == p[i]);
            }
        }
    }
}

/// Distinct categories have distinct names, so a stored name gives back its category.
pub proof fn law_category_names_distinct(a: CommitCategory, b: CommitCategory)
    ensures
        category_name(a) == category_name(b) ==> a == b,
{
    reveal_strlit("feature");
    reveal_strlit("bugfix");
    reveal_strlit("docs");
    reveal_strlit("refactor");
    reveal_strlit("test");
    reveal_strlit("sync");
    reveal_strlit("chore");
    if category_name(a) == category_name(b) && a != b {
        let x = category_name(a);
        let y = category_name(b);
        assert(x.len() != y.len() || x[0] != y[0] || x[1] != y[1]);
    }
}

/// A message that starts with `p` has `p`'s first two letters first, once lowercased.
proof fn lemma_first_two(m: Seq<char>, p: Seq<char>)
    requires
        p.len() >= 2,
    ensures
        lower_starts_with(m, p) ==> ascii_lower(m[0]) == p[0] && ascii_lower(m[1]) == p[1],
{
}

/// Each category comes from its own prefixes only: a message is a bug fix
/// exactly when it starts with `fix:` or `fix(`, a feature exactly when it
/// starts with `feat:`, `feat(` or `add `, documentation with `docs:` or
/// `docs(`, a refactoring with `refactor:` or `refactor(`, tests with
/// `test:` or `test(`, a sync with `sync:` or `sync(` (letter case aside),
/// and a chore exactly when it starts with none of these thirteen prefixes.
pub proof fn law_category_from_prefix(m: Seq<char>)
    ensures
        (category_of(m) == CommitCategory::Bugfix) == (lower_starts_with(m, "fix:"@)
            || lower_starts_with(m, "fix("@)),
        (category_of(m) == CommitCategory::Feature) == (lower_starts_with(m, "feat:"@)
            || lower_starts_with(m, "feat("@) || lower_starts_with(m, "add "@)),
        (category_of(m) == CommitCategory::Docs) == (lower_starts_with(m, "docs:"@)
            || lower_starts_with(m, "docs("@)),
        (category_of(m) == CommitCategory::Refactor) == (lower_starts_with(m, "refactor:"@)
            || lower_starts_with(m, "refactor("@)),
        (category_of(m) == CommitCategory::Test) == (lower_starts_with(m, "test:"@)
            || lower_starts_with(m, "test("@)),
        (category_of(m) == CommitCategory::Sync) == (lower_starts_with(m, "sync:"@)
            || lower_starts_with(m, "sync("@)),
        (category_of(m) == CommitCategory::Chore) == !(lower_starts_with(m, "fix:"@)
            || lower_starts_with(m, "fix("@) || lower_starts_with(m, "feat:"@)
            || lower_starts_with(m, "feat("@) || lower_starts_with(m, "add "@)
            || lower_starts_with(m, "docs:"@) || lower_starts_with(m, "docs("@)
            || lower_starts_with(m, "refactor:"@) || lower_starts_with(m, "refactor("@)
            || lower_starts_with(m, "test:"@) || lower_starts_with(m, "test("@)
            || lower_starts_with(m, "sync:"@) || lower_starts_with(m, "sync("@)),
{
    reveal_strlit("fix:");
    reveal_strlit("fix(");
    reveal_strlit("feat:");
    reveal_strlit("feat(");
    reveal_strlit("add ");
    reveal_strlit("docs:");
    reveal_strlit("docs(");
    reveal_strlit("refactor:");
    reveal_strlit("refactor(");
    reveal_strlit("test:");
    reveal_strlit("test(");
    reveal_strlit("sync:");
    reveal_strlit("sync(");
    lemma_first_two(m, "fix:"@);
    lemma_first_two(m, "fix("@);
    lemma_first_two(m, "feat:"@);
    lemma_first_two(m, "feat("@);
    lemma_first_two(m, "add "@);
    lemma_first_two(m, "docs:"@);
    lemma_first_two(m, "docs("@);
    lemma_first_two(m, "refactor:"@);
    lemma_first_two(m, "refactor("@);
    lemma_first_two(m, "test:"@);
    lemma_first_two(m, "test("@);
    lemma_first_two(m, "sync:"@);
    lemma_first_two(m, "sync("@);
}

} // verus!
