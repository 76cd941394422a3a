//! The status overview and the periodic report: one row per repository and
//! the breakdown of recent commits by category.
use vstd::prelude::*;
use crate::health::{label_name, HealthLabel};
use crate::records::{copy_opt, text_or, RepoRow};
use crate::text::{decimal_int, push_int, same_text};

verus! {

/// How many entries of `s` read `k`.
pub open spec fn count_in(s: Seq<String>, k: Seq<char>) -> nat
    decreases s.len(),
{
    if s.len() == 0 {
        0
    } else {
        count_in(s.drop_last(), k) + if s.last()@ == k {
            1nat
        } else {
            0nat
        }
    }
}

/// Whether some entry of `b` has the category `k`.
pub open spec fn has_category(b: Seq<(String, u32)>, k: Seq<char>) -> bool {
    exists|j: int| 0 <= j < b.len() && #[trigger] b[j].0@ == k
}

/// No two entries of `b` have the same category.
pub open spec fn categories_distinct(b: Seq<(String, u32)>) -> bool {
    forall|i: int, j: int| 0 <= i < j < b.len() ==> #[trigger] b[i].0@ != #[trigger] b[j].0@
}

/// Each entry of `b` counts its category in `cats`, and is not zero.
pub open spec fn counts_match(b: Seq<(String, u32)>, cats: Seq<String>) -> bool {
    forall|i: int| 0 <= i < b.len() ==> #[trigger] b[i].1 == count_in(cats, b[i].0@) && b[i].1 > 0
}

/// Every category of `cats` has an entry in `b`.
pub open spec fn covers_all(b: Seq<(String, u32)>, cats: Seq<String>) -> bool {
    forall|i: int| 0 <= i < cats.len() ==> has_category(b, (#[trigger] cats[i])@)
}

/// The counts of `b` never increase.
pub open spec fn most_first(b: Seq<(String, u32)>) -> bool {
    forall|i: int, j: int| 0 <= i < j < b.len() ==> #[trigger] b[i].1 >= #[trigger] b[j].1
}

/// A breakdown of `cats`: each category that occurs, once, with the number of
/// times it occurs, most frequent first.
pub open spec fn is_breakdown(b: Seq<(String, u32)>, cats: Seq<String>) -> bool {
    &&& counts_match(b, cats)
    &&& categories_distinct(b)
    &&& covers_all(b, cats)
    &&& most_first(b)
}

/// Counting one more entry.
proof fn lemma_count_push(s: Seq<String>, x: String, k: Seq<char>)
    ensures
        count_in(s.push(x), k) == count_in(s, k) + if x@ == k {
            1nat
        } else {
            0nat
        },
{
    assert(s.push(x).drop_last() =~= s);
}

/// Every entry is counted.
proof fn lemma_count_positive(s: Seq<String>, i: int)
    requires
        0 <= i < s.len(),
    ensures
        count_in(s, s[i]@) > 0,
    decreases s.len(),
{
    if i < s.len() - 1 {
        lemma_count_positive(s.drop_last(), i);
    }
}

/// No more entries are counted than there are.
proof fn lemma_count_bound(s: Seq<String>, k: Seq<char>)
    ensures
        count_in(s, k) <= s.len(),
    decreases s.len(),
{
    if s.len() > 0 {
        lemma_count_bound(s.drop_last(), k);
    }
}

/// The breakdown of commit categories: each category once with its number
/// of commits, most frequent first. (Categories with equal counts come in
/// the order they first occur.)
pub fn category_breakdown(categories: &Vec<String>) -> (r: Vec<(String, u32)>)
    requires
        categories@.len() <= u32::MAX,
    ensures
        is_breakdown(r@, categories@),
{
    let tally = tally_categories(categories);
    sort_by_count(tally, Ghost(categories@))
}

/// The categories of `cats`, each once in order of first occurrence, with
/// their counts.
fn tally_categories(cats: &Vec<String>) -> (r: Vec<(String, u32)>)
    requires
        cats@.len() <= u32::MAX,
    ensures
        counts_match(r@, cats@),
        categories_distinct(r@),
        covers_all(r@, cats@),
{
    let n = cats.len();
    let mut out: Vec<(String, u32)> = Vec::new();
    let mut i: usize = 0;
    while i < n
        invariant
            n == cats@.len(),
            n <= u32::MAX,
            i <= n,
            counts_match(out@, cats@.take(i as int)),
            categories_distinct(out@),
            covers_all(out@, cats@.take(i as int)),
        decreases n - i,
    {
        let c = &cats[i];
        let m = out.len();
        let mut j: usize = 0;
        while j < m && !same_text(out[j].0.as_str(), c.as_str())
            invariant
                m == out@.len(),
                j <= m,
                forall|b: int| 0 <= b < j ==> #[trigger] out@[b].0@ != c@,
            decreases m - j,
        {
            j = j + 1;
        }
        let ghost before = out@;
        let ghost prefix = cats@.take(i as int);
        let ghost next = cats@.take(i + 1);
        proof {
            assert(next =~= prefix.push(*c));
            lemma_count_bound(prefix, c@);
        }
        if j < m {
            let key = out[j].0.clone();
            let cnt = out[j].1;
            out.set(j, (key, cnt + 1));
            proof {
                assert forall|a: int| 0 <= a < out@.len() implies #[trigger] out@[a].1 == count_in(
                    next,
                    out@[a].0@,
                ) && out@[a].1 > 0 by {
                    lemma_count_push(prefix, *c, out@[a].0@);
                }
                assert forall|a: int| 0 <= a < next.len() implies has_category(
                    out@,
                    (#[trigger] next[a])@,
                ) by {
                    if a < i {
                        assert(next[a] == prefix[a]);
                        assert(has_category(before, prefix[a]@));
                        let b = choose|b: int| 0 <= b < before.len() && #[trigger] before[b].0@ == prefix[a]@;
                        assert(out@[b].0@ == next[a]@);
                    } else {
                        assert(out@[j as int].0@ == next[a]@);
                    }
                }
            }
        } else {
            proof {
                assert(count_in(prefix, c@) == 0) by {
                    if count_in(prefix, c@) > 0 {
                        count_witness(prefix, c@);
                        let a = choose|a: int| 0 <= a < prefix.len() && prefix[a]@ == c@;
                        assert(has_category(before, prefix[a]@));
                    }
                }
            }
            out.push((c.clone(), 1));
            proof {
                assert forall|a: int| 0 <= a < out@.len() implies #[trigger] out@[a].1 == count_in(
                    next,
                    out@[a].0@,
                ) && out@[a].1 > 0 by {
                    lemma_count_push(prefix, *c, out@[a].0@);
                }
                assert forall|a: int| 0 <= a < next.len() implies has_category(
                    out@,
                    (#[trigger] next[a])@,
                ) by {
                    if a < i {
                        assert(next[a] == prefix[a]);
                        assert(has_category(before, prefix[a]@));
                        let b = choose|b: int| 0 <= b < before.len() && #[trigger] before[b].0@ == prefix[a]@;
                        assert(out@[b].0@ == next[a]@);
                    } else {
                        assert(out@[m as int].0@ == next[a]@);
                    }
                }
            }
        }
        i = i + 1;
    }
    assert(cats@.take(n as int) =~= cats@);
    out
}

/// A category that is counted occurs.
proof fn count_witness(s: Seq<String>, k: Seq<char>)
    requires
        count_in(s, k) > 0,
    ensures
        exists|a: int| 0 <= a < s.len() && s[a]@ == k,
    decreases s.len(),
{
    if s.last()@ == k {
        assert(s[s.len() - 1]@ == k);
    } else {
        count_witness(s.drop_last(), k);
        let a = choose|a: int| 0 <= a < s.len() - 1 && s.drop_last()[a]@ == k;
        assert(s[a]@ == k);
    }
}

/// Every entry of `out` is one of the first `n` entries of `all`.
pub open spec fn drawn_from(out: Seq<(String, u32)>, all: Seq<(String, u32)>, n: int) -> bool {
    forall|a: int| 0 <= a < out.len() ==> drawn(all, n, #[trigger] out[a])
}

/// Whether `x` is one of the first `n` entries of `all`.
pub open spec fn drawn(all: Seq<(String, u32)>, n: int, x: (String, u32)) -> bool {
    exists|b: int| 0 <= b < n && #[trigger] all[b] == x
}

/// Whether `x` is an entry of `out`.
pub open spec fn holds(out: Seq<(String, u32)>, x: (String, u32)) -> bool {
    exists|a: int| 0 <= a < out.len() && #[trigger] out[a] == x
}

/// Each of the first `n` entries of `all` is an entry of `out`.
pub open spec fn holds_first(out: Seq<(String, u32)>, all: Seq<(String, u32)>, n: int) -> bool {
    forall|b: int| 0 <= b < n ==> holds(out, #[trigger] all[b])
}

/// Inserting the next entry of `all` before the first entry with a smaller
/// count keeps the entries distinct and most frequent first.
proof fn lemma_insert_by_count(
    before: Seq<(String, u32)>,
    all: Seq<(String, u32)>,
    idx: int,
    p: int,
)
    requires
        0 <= idx < all.len(),
        0 <= p <= before.len(),
        categories_distinct(all),
        drawn_from(before, all, idx),
        holds_first(before, all, idx),
        categories_distinct(before),
        most_first(before),
        forall|q: int| 0 <= q < p ==> #[trigger] before[q].1 >= all[idx].1,
        p < before.len() ==> before[p].1 < all[idx].1,
    ensures
        drawn_from(before.insert(p, all[idx]), all, idx + 1),
        holds_first(before.insert(p, all[idx]), all, idx + 1),
        categories_distinct(before.insert(p, all[idx])),
        most_first(before.insert(p, all[idx])),
{
    let x = all[idx];
    let out = before.insert(p, x);
    assert forall|a: int| 0 <= a < out.len() implies drawn(all, idx + 1, #[trigger] out[a]) by {
        if a < p {
            assert(out[a] == before[a]);
            assert(drawn(all, idx, before[a]));
            let b = choose|b: int| 0 <= b < idx && #[trigger] all[b] == before[a];
        } else if a == p {
            assert(all[idx] == out[a]);
        } else {
            assert(out[a] == before[a - 1]);
            assert(drawn(all, idx, before[a - 1]));
            let b = choose|b: int| 0 <= b < idx && #[trigger] all[b] == before[a - 1];
        }
    }
    assert forall|b: int| 0 <= b < idx + 1 implies holds(out, #[trigger] all[b]) by {
        if b == idx {
            assert(out[p] == all[b]);
        } else {
            assert(holds(before, all[b]));
            let a = choose|a: int| 0 <= a < before.len() && #[trigger] before[a] == all[b];
            if a < p {
                assert(out[a] == all[b]);
            } else {
                assert(out[a + 1] == all[b]);
            }
        }
    }
    assert forall|a: int, c: int| 0 <= a < c < out.len() implies #[trigger] out[a].0@
        != #[trigger] out[c].0@ by {
        if a != p && c != p {
            let a0 = if a < p { a } else { a - 1 };
            let c0 = if c < p { c } else { c - 1 };
            assert(out[a] == before[a0]);
            assert(out[c] == before[c0]);
        } else {
            let o = if a == p { c } else { a };
            let o0 = if o < p { o } else { o - 1 };
            assert(out[o] == before[o0]);
            assert(drawn(all, idx, before[o0]));
            let b = choose|b: int| 0 <= b < idx && #[trigger] all[b] == before[o0];
            assert(all[b].0@ != all[idx].0@);
        }
    }
    assert forall|a: int, c: int| 0 <= a < c < out.len() implies #[trigger] out[a].1
        >= #[trigger] out[c].1 by {
        if a < p && c == p {
        } else if a == p {
            assert(out[c] == before[c - 1]);
            if c - 1 > p {
                assert(before[p].1 >= before[c - 1].1);
            }
        } else if a < p && c > p {
            assert(before[a].1 >= before[c - 1].1);
        } else if a > p {
            assert(before[a - 1].1 >= before[c - 1].1);
        } else {
            assert(before[a].1 >= before[c].1);
        }
    }
}

/// Sorts a tally, most frequent first, keeping what `is_breakdown` asks of it.
fn sort_by_count(tally: Vec<(String, u32)>, Ghost(cats): Ghost<Seq<String>>) -> (r: Vec<(String, u32)>)
    requires
        counts_match(tally@, cats),
        categories_distinct(tally@),
        covers_all(tally@, cats),
    ensures
        is_breakdown(r@, cats),
{
    let ghost all = tally@;
    let mut out: Vec<(String, u32)> = Vec::new();
    for x in it: tally.into_iter()
        invariant
            it.seq() == all,
            categories_distinct(all),
            drawn_from(out@, all, it.index() as int),
            holds_first(out@, all, it.index() as int),
            categories_distinct(out@),
            most_first(out@),
    {
        let ghost idx = it.index() as int;
        let ghost before = out@;
        let n = out.len();
        let mut p: usize = 0;
        while p < n && out[p].1 >= x.1
            invariant
                n == out@.len(),
                p <= n,
                forall|q: int| 0 <= q < p ==> #[trigger] out@[q].1 >= x.1,
            decreases n - p,
        {
            p = p + 1;
        }
        out.insert(p, x);
        proof {
            lemma_insert_by_count(before, all, idx, p as int);
        }
    }
    proof {
        assert forall|i: int| 0 <= i < out@.len() implies #[trigger] out@[i].1 == count_in(
            cats,
            out@[i].0@,
        ) && out@[i].1 > 0 by {
            assert(drawn(all, all.len() as int, out@[i]));
            let b = choose|b: int| 0 <= b < all.len() && #[trigger] all[b] == out@[i];
        }
        assert forall|i: int| 0 <= i < cats.len() implies has_category(out@, (#[trigger] cats[i])@) by {
            assert(has_category(all, cats[i]@));
            let b = choose|b: int| 0 <= b < all.len() && #[trigger] all[b].0@ == cats[i]@;
            assert(holds(out@, all[b]));
            let a = choose|a: int| 0 <= a < out@.len() && #[trigger] out@[a] == all[b];
            assert(out@[a].0@ == cats[i]@);
        }
    }
    out
}

/// One row of the status overview.
#[derive(Debug, Clone)]
pub struct RepoStatusRow {
    pub name: String,
    pub category: String,
    pub language: String,
    pub open_issues: i32,
    pub last_push: String,
    pub commits_30d: u32,
    /// The health score, rounded to whole points.
    pub health_score: String,
    pub health_label: HealthLabel,
    pub llm_status: Option<String>,
}

/// How long ago the last push was, from the whole days since it: `today`,
/// `{days}d ago`, or `never` when the repository has no readable push time.
pub open spec fn last_push_text(days: Option<i64>) -> Seq<char> {
    match days {
        None => "never"@,
        Some(d) => if d == 0 {
            "today"@
        } else {
            decimal_int(d as int) + "d ago"@
        },
    }
}

/// How long ago the last push was (see `last_push_text`).
pub fn last_push_display(days: Option<i64>) -> (r: String)
    ensures
        r@ == last_push_text(days),
{
    match days {
        None => "never".to_owned(),
        Some(d) => {
            if d == 0 {
                "today".to_owned()
            } else {
                let mut out = String::new();
                push_int(&mut out, d);
                out.append("d ago");
                out
            }
        },
    }
}

/// The overview row of a repository: its name, category (empty when it has
/// none), language (`-` when unknown), open issues, how long ago it was
/// pushed, its commits of the last 30 days, its health and the status line
/// of its latest LLM analysis.
pub fn status_row(
    repo: &RepoRow,
    commits_30d: u32,
    health_score: String,
    health_label: HealthLabel,
    llm_status: Option<String>,
    days_since_push: Option<i64>,
) -> (r: RepoStatusRow)
    ensures
        r.name@ == repo.name@,
        r.category@ == text_or(repo.category, Seq::empty()),
        r.language@ == text_or(repo.language, "-"@),
        r.open_issues == repo.open_issues,
        r.last_push@ == last_push_text(days_since_push),
        r.commits_30d == commits_30d,
        r.health_score == health_score,
        r.health_label == health_label,
        r.llm_status == llm_status,
{
    let category = match &repo.category {
        Some(c) => c.clone(),
        None => String::new(),
    };
    let language = match &repo.language {
        Some(l) => l.clone(),
        None => "-".to_owned(),
    };
    RepoStatusRow {
        name: repo.name.clone(),
        category,
        language,
        open_issues: repo.open_issues,
        last_push: last_push_display(days_since_push),
        commits_30d,
        health_score,
        health_label,
        llm_status,
    }
}

/// The velocity cell: `{commits}/30d`.
pub open spec fn velocity_text(commits: u32) -> Seq<char> {
    decimal_int(commits as int) + "/30d"@
}

/// The health cell: the rounded score, a space, and the label.
pub open spec fn health_text(r: RepoStatusRow) -> Seq<char> {
    r.health_score@ + " "@ + label_name(r.health_label)
}

/// The cells of a row of the status table, left to right: repository,
/// category, language, open issues, last push, velocity, health, and the
/// LLM status (`-` when there is none).
pub fn status_cells(row: &RepoStatusRow) -> (r: Vec<String>)
    ensures
        r@.len() == 8,
        r@[0]@ == row.name@,
        r@[1]@ == row.category@,
        r@[2]@ == row.language@,
        r@[3]@ == decimal_int(row.open_issues as int),
        r@[4]@ == row.last_push@,
        r@[5]@ == velocity_text(row.commits_30d),
        r@[6]@ == health_text(*row),
        r@[7]@ == text_or(row.llm_status, "-"@),
{
    let mut cells: Vec<String> = Vec::new();
    cells.push(row.name.clone());
    cells.push(row.category.clone());
    cells.push(row.language.clone());
    let mut issues = String::new();
    push_int(&mut issues, row.open_issues as i64);
    cells.push(issues);
    cells.push(row.last_push.clone());
    let mut velocity = String::new();
    push_int(&mut velocity, row.commits_30d as i64);
    velocity.append("/30d");
    cells.push(velocity);
    let mut health = row.health_score.clone();
    health.append(" ");
    health.append(row.health_label.as_str());
    cells.push(health);
    let llm = match &row.llm_status {
        Some(s) => s.clone(),
        None => "-".to_owned(),
    };
    cells.push(llm);
    cells
}

/// The line of a repository in the report's status table.
pub open spec fn report_line(r: RepoStatusRow) -> Seq<char> {
    "| "@ + r.name@ + " | "@ + r.category@ + " | "@ + r.language@ + " | "@ + decimal_int(
        r.open_issues as int,
    ) + " | "@ + r.last_push@ + " | "@ + velocity_text(r.commits_30d) + " | "@ + health_text(r)
        + " | "@ + text_or(r.llm_status, "-"@) + " |\n"@
}

/// The lines of the report's status table for `rows`.
pub open spec fn report_lines(rows: Seq<RepoStatusRow>) -> Seq<char>
    decreases rows.len(),
{
    if rows.len() == 0 {
        Seq::empty()
    } else {
        report_lines(rows.drop_last()) + report_line(rows.last())
    }
}

/// The lines of the report's category table for `b`.
pub open spec fn breakdown_lines(b: Seq<(String, u32)>) -> Seq<char>
    decreases b.len(),
{
    if b.len() == 0 {
        Seq::empty()
    } else {
        breakdown_lines(b.drop_last()) + "| "@ + b.last().0@ + " | "@ + decimal_int(
            b.last().1 as int,
        ) + " |\n"@
    }
}

/// Whether some row has an LLM status.
pub open spec fn any_llm_status(rows: Seq<RepoStatusRow>) -> bool {
    exists|i: int| 0 <= i < rows.len() && (#[trigger] rows[i]).llm_status is Some
}

/// The insight paragraphs of the rows that have an LLM status.
pub open spec fn insight_lines(rows: Seq<RepoStatusRow>) -> Seq<char>
    decreases rows.len(),
{
    if rows.len() == 0 {
        Seq::empty()
    } else {
        insight_lines(rows.drop_last()) + match rows.last().llm_status {
            Some(s) => "### "@ + rows.last().name@ + "\n\n"@ + s@ + "\n\n"@,
            None => Seq::empty(),
        }
    }
}

/// The report in Markdown: a title with the period, the time it was
/// generated, the status table, the category table and, when any
/// repository has an LLM status, the LLM insights.
pub open spec fn report_markdown(
    rows: Seq<RepoStatusRow>,
    period: Seq<char>,
    breakdown: Seq<(String, u32)>,
    generated: Seq<char>,
) -> Seq<char> {
    "# pidx Report ("@ + period + ")\n\n"@ + "Generated: "@ + generated + "\n\n"@
        + "## Repository Status\n\n"@
        + "| Repo | Category | Lang | Issues | Last Push | Velocity | Health | LLM Status |\n"@
        + "|------|----------|------|--------|-----------|----------|--------|------------|\n"@
        + report_lines(rows) + "\n## Commit Breakdown by Category\n\n"@
        + "| Category | Commits |\n"@ + "|----------|---------|\n"@ + breakdown_lines(breakdown)
        + if any_llm_status(rows) {
        "\n## LLM Insights\n\n"@ + insight_lines(rows)
    } else {
        Seq::empty()
    }
}

/// Appends the report line of `r` to `out`.
fn push_report_line(out: &mut String, r: &RepoStatusRow)
    ensures
        final(out)@ == old(out)@ + report_line(*r),
{
    let mut line = String::new();
    line.append("| ");
    line.append(r.name.as_str());
    line.append(" | ");
    line.append(r.category.as_str());
    line.append(" | ");
    line.append(r.language.as_str());
    line.append(" | ");
    let ghost a = line@;
    push_int(&mut line, r.open_issues as i64);
    line.append(" | ");
    line.append(r.last_push.as_str());
    line.append(" | ");
    let ghost b = line@;
    push_int(&mut line, r.commits_30d as i64);
    line.append("/30d");
    assert(line@ =~= b + velocity_text(r.commits_30d));
    line.append(" | ");
    line.append(r.health_score.as_str());
    line.append(" ");
    line.append(r.health_label.as_str());
    line.append(" | ");
    match &r.llm_status {
        Some(s) => line.append(s.as_str()),
        None => line.append("-"),
    }
    line.append(" |\n");
    assert(line@ =~= report_line(*r));
    out.append(line.as_str());
}

/// The report in Markdown (see `report_markdown`); `generated` is the time
/// the report is made.
pub fn render_report_markdown(
    rows: &Vec<RepoStatusRow>,
    period: &str,
    category_breakdown: &Vec<(String, u32)>,
    generated: &str,
) -> (r: String)
    ensures
        r@ == report_markdown(rows@, period@, category_breakdown@, generated@),
{
    let mut out = String::new();
    out.append("# pidx Report (");
    out.append(period);
    out.append(")\n\n");
    out.append("Generated: ");
    out.append(generated);
    out.append("\n\n");
    out.append("## Repository Status\n\n");
    out.append("| Repo | Category | Lang | Issues | Last Push | Velocity | Health | LLM Status |\n");
    out.append("|------|----------|------|--------|-----------|----------|--------|------------|\n");
    let ghost head = out@;
    let n = rows.len();
    let mut i: usize = 0;
    let mut has_llm = false;
    while i < n
        invariant
            n == rows@.len(),
            i <= n,
            out@ == head + report_lines(rows@.take(i as int)),
            has_llm == any_llm_status(rows@.take(i as int)),
        decreases n - i,
    {
        assert(rows@.take(i + 1).drop_last() =~= rows@.take(i as int));
        push_report_line(&mut out, &rows[i]);
        proof {
            if rows@[i as int].llm_status is Some {
                assert(rows@.take(i + 1)[i as int] == rows@[i as int]);
            }
            if any_llm_status(rows@.take(i + 1)) && !any_llm_status(rows@.take(i as int)) {
                let j = choose|j: int| 0 <= j < i + 1 && (#[trigger] rows@.take(i + 1)[j]).llm_status is Some;
                if j < i {
                    assert(rows@.take(i as int)[j] == rows@.take(i + 1)[j]);
                }
            }
            if any_llm_status(rows@.take(i as int)) {
                let j = choose|j: int| 0 <= j < i && (#[trigger] rows@.take(i as int)[j]).llm_status is Some;
                assert(rows@.take(i as int)[j] == rows@.take(i + 1)[j]);
            }
        }
        if rows[i].llm_status.is_some() {
            has_llm = true;
        }
        i = i + 1;
    }
    assert(rows@.take(n as int) =~= rows@);
    out.append("\n## Commit Breakdown by Category\n\n");
    out.append("| Category | Commits |\n");
    out.append("|----------|---------|\n");
    let ghost mid = out@;
    let m = category_breakdown.len();
    let mut j: usize = 0;
    while j < m
        invariant
            m == category_breakdown@.len(),
            j <= m,
            out@ == mid + breakdown_lines(category_breakdown@.take(j as int)),
        decreases m - j,
    {
        assert(category_breakdown@.take(j + 1).drop_last() =~= category_breakdown@.take(j as int));
        out.append("| ");
        out.append(category_breakdown[j].0.as_str());
        out.append(" | ");
        push_int(&mut out, category_breakdown[j].1 as i64);
        out.append(" |\n");
        assert(out@ =~= mid + breakdown_lines(category_breakdown@.take(j + 1)));
        j = j + 1;
    }
    assert(category_breakdown@.take(m as int) =~= category_breakdown@);
    if has_llm {
        out.append("\n## LLM Insights\n\n");
        let ghost top = out@;
        let mut k: usize = 0;
        while k < n
            invariant
                n == rows@.len(),
                k <= n,
                out@ == top + insight_lines(rows@.take(k as int)),
            decreases n - k,
        {
            assert(rows@.take(k + 1).drop_last() =~= rows@.take(k as int));
            match &rows[k].llm_status {
                Some(s) => {
                    out.append("### ");
                    out.append(rows[k].name.as_str());
                    out.append("\n\n");
                    out.append(s.as_str());
                    out.append("\n\n");
                },
                None => {},
            }
            assert(out@ =~= top + insight_lines(rows@.take(k + 1)));
            k = k + 1;
        }
        assert(rows@.take(n as int) =~= rows@);
    }
    assert(out@ =~= report_markdown(rows@, period@, category_breakdown@, generated@));
    out
}

/// The sum of the counts of a breakdown.
pub open spec fn total_count(b: Seq<(String, u32)>) -> int
    decreases b.len(),
{
    if b.len() == 0 {
        0
    } else {
        total_count(b.drop_last()) + b.last().1
    }
}

/// The sum over `b`'s categories of how often each occurs in `cats`.
spec fn sum_counts(b: Seq<(String, u32)>, cats: Seq<String>) -> int
    decreases b.len(),
{
    if b.len() == 0 {
        0
    } else {
        sum_counts(b.drop_last(), cats) + count_in(cats, b.last().0@)
    }
}

/// How many entries of `b` have the category `k`.
spec fn entries_for(b: Seq<(String, u32)>, k: Seq<char>) -> int
    decreases b.len(),
{
    if b.len() == 0 {
        0
    } else {
        entries_for(b.drop_last(), k) + if b.last().0@ == k {
            1int
        } else {
            0int
        }
    }
}

/// With distinct categories, a category has one entry if it has any, else none.
proof fn lemma_entries_for(b: Seq<(String, u32)>, k: Seq<char>)
    requires
        categories_distinct(b),
    ensures
        entries_for(b, k) == if has_category(b, k) {
            1int
        } else {
            0int
        },
    decreases b.len(),
{
    if b.len() > 0 {
        let c = b.drop_last();
        assert(categories_distinct(c)) by {
            assert forall|i: int, j: int| 0 <= i < j < c.len() implies #[trigger] c[i].0@ != #[trigger] c[j].0@ by {
                assert(c[i] == b[i] && c[j] == b[j]);
            }
        }
        lemma_entries_for(c, k);
        if has_category(b, k) {
            let j = choose|j: int| 0 <= j < b.len() && #[trigger] b[j].0@ == k;
            if b.last().0@ == k {
                if has_category(c, k) {
                    let i = choose|i: int| 0 <= i < c.len() && #[trigger] c[i].0@ == k;
                    assert(b[i].0@ == b[b.len() - 1].0@);
                }
            } else {
                assert(c[j].0@ == k);
            }
        } else {
            if has_category(c, k) {
                let i = choose|i: int| 0 <= i < c.len() && #[trigger] c[i].0@ == k;
                assert(b[i].0@ == k);
            }
            if b.last().0@ == k {
                assert(b[b.len() - 1].0@ == k);
            }
        }
    }
}

/// Counting one more entry of `cats` adds the entries for its category.
proof fn lemma_sum_counts_push(b: Seq<(String, u32)>, cats: Seq<String>, x: String)
    ensures
        sum_counts(b, cats.push(x)) == sum_counts(b, cats) + entries_for(b, x@),
    decreases b.len(),
{
    if b.len() > 0 {
        lemma_sum_counts_push(b.drop_last(), cats, x);
        lemma_count_push(cats, x, b.last().0@);
    }
}

/// Summing, over distinct categories that include every entry of `cats`,
/// how often each occurs gives the number of entries.
proof fn lemma_sum_counts_covers(b: Seq<(String, u32)>, cats: Seq<String>)
    requires
        categories_distinct(b),
        covers_all(b, cats),
    ensures
        sum_counts(b, cats) == cats.len(),
    decreases cats.len(),
{
    if cats.len() == 0 {
        sum_counts_empty(b);
        assert(cats =~= Seq::<String>::empty());
    } else {
        let c = cats.drop_last();
        let x = cats.last();
        assert(covers_all(b, c)) by {
            assert forall|i: int| 0 <= i < c.len() implies has_category(b, (#[trigger] c[i])@) by {
                assert(c[i] == cats[i]);
            }
        }
        lemma_sum_counts_covers(b, c);
        assert(cats =~= c.push(x));
        lemma_sum_counts_push(b, c, x);
        assert(has_category(b, cats[cats.len() - 1]@));
        lemma_entries_for(b, x@);
    }
}

/// Nothing is counted in an empty list.
proof fn sum_counts_empty(b: Seq<(String, u32)>)
    ensures
        sum_counts(b, Seq::<String>::empty()) == 0,
    decreases b.len(),
{
    if b.len() > 0 {
        sum_counts_empty(b.drop_last());
    }
}

/// The counts of a breakdown are the counts of its categories.
proof fn lemma_total_is_sum(b: Seq<(String, u32)>, cats: Seq<String>)
    requires
        counts_match(b, cats),
    ensures
        total_count(b) == sum_counts(b, cats),
    decreases b.len(),
{
    if b.len() > 0 {
        let c = b.drop_last();
        assert(counts_match(c, cats)) by {
            assert forall|i: int| 0 <= i < c.len() implies #[trigger] c[i].1 == count_in(cats, c[i].0@)
                && c[i].1 > 0 by {
                assert(c[i] == b[i]);
            }
        }
        lemma_total_is_sum(c, cats);
        assert(b[b.len() - 1].1 == count_in(cats, b[b.len() - 1].0@));
    }
}

/// A breakdown accounts for every commit exactly once: its counts add up
/// to the number of commits counted.
pub proof fn law_breakdown_total(b: Seq<(String, u32)>, cats: Seq<String>)
    requires
        is_breakdown(b, cats),
    ensures
        total_count(b) == cats.len(),
{
    lemma_total_is_sum(b, cats);
    lemma_sum_counts_covers(b, cats);
}

/// The insight paragraph of a repository that has an LLM status.
pub open spec fn insight_paragraph(r: RepoStatusRow) -> Seq<char> {
    "### "@ + r.name@ + "\n\n"@ + r.llm_status.unwrap()@ + "\n\n"@
}

/// The line of a category in the report's category table.
pub open spec fn breakdown_line(e: (String, u32)) -> Seq<char> {
    "| "@ + e.0@ + " | "@ + decimal_int(e.1 as int) + " |\n"@
}

/// The insight paragraphs are those of the rows with an LLM status, in order.
proof fn lemma_insights_flat(rows: Seq<RepoStatusRow>)
    ensures
        insight_lines(rows) == rows.filter(|r: RepoStatusRow| r.llm_status is Some).map_values(
            |r: RepoStatusRow| insight_paragraph(r),
        ).flatten(),
    decreases rows.len(),
{
    let p = |r: RepoStatusRow| r.llm_status is Some;
    let f = |r: RepoStatusRow| insight_paragraph(r);
    if rows.len() == 0 {
        assert(rows.filter(p) =~= Seq::<RepoStatusRow>::empty());
        assert(rows.filter(p).map_values(f) =~= Seq::<Seq<char>>::empty());
    } else {
        let d = rows.drop_last();
        let x = rows.last();
        lemma_insights_flat(d);
        assert(rows =~= d.push(x));
        d.lemma_filter_push(x, p);
        let fd = d.filter(p);
        if x.llm_status is Some {
            fd.lemma_push_map_commute(f, x);
            fd.map_values(f).lemma_flatten_push(f(x));
            assert(insight_paragraph(x) =~= "### "@ + x.name@ + "\n\n"@ + x.llm_status.unwrap()@
                + "\n\n"@);
        } else {
            assert(insight_lines(rows) =~= insight_lines(d));
        }
    }
}

/// The category lines are those of the breakdown's entries, in order.
proof fn lemma_breakdown_flat(b: Seq<(String, u32)>)
    ensures
        breakdown_lines(b) == b.map_values(|e: (String, u32)| breakdown_line(e)).flatten(),
    decreases b.len(),
{
    let f = |e: (String, u32)| breakdown_line(e);
    if b.len() == 0 {
        assert(b.map_values(f) =~= Seq::<Seq<char>>::empty());
    } else {
        let d = b.drop_last();
        lemma_breakdown_flat(d);
        assert(b =~= d.push(b.last()));
        d.lemma_push_map_commute(f, b.last());
        d.map_values(f).lemma_flatten_push(f(b.last()));
        assert(breakdown_lines(b) =~= breakdown_lines(d) + breakdown_line(b.last()));
    }
}

/// The report ends with its LLM insights exactly when some repository, any
/// of them, has an LLM status: the "LLM Insights" heading and then one
/// paragraph per repository with a status, in the rows' order. When no
/// repository has one, the report ends with the category table.
pub proof fn law_insights_whenever_any_status(
    rows: Seq<RepoStatusRow>,
    period: Seq<char>,
    breakdown: Seq<(String, u32)>,
    generated: Seq<char>,
)
    ensures
        ({
            let rep = report_markdown(rows, period, breakdown, generated);
            let ins = "\n## LLM Insights\n\n"@ + rows.filter(
                |r: RepoStatusRow| r.llm_status is Some,
            ).map_values(|r: RepoStatusRow| insight_paragraph(r)).flatten();
            (exists|i: int| 0 <= i < rows.len() && (#[trigger] rows[i]).llm_status is Some) ==> {
                &&& ins.len() <= rep.len()
                &&& rep.subrange(rep.len() - ins.len(), rep.len() as int) == ins
            }
        }),
        ({
            let rep = report_markdown(rows, period, breakdown, generated);
            let table = "|----------|---------|\n"@ + breakdown.map_values(
                |e: (String, u32)| breakdown_line(e),
            ).flatten();
            (forall|i: int| 0 <= i < rows.len() ==> (#[trigger] rows[i]).llm_status is None) ==> {
                &&& table.len() <= rep.len()
                &&& rep.subrange(rep.len() - table.len(), rep.len() as int) == table
            }
        }),
{
    lemma_insights_flat(rows);
    lemma_breakdown_flat(breakdown);
    let rep = report_markdown(rows, period, breakdown, generated);
    if exists|i: int| 0 <= i < rows.len() && (#[trigger] rows[i]).llm_status is Some {
        let i = choose|i: int| 0 <= i < rows.len() && (#[trigger] rows[i]).llm_status is Some;
        assert(any_llm_status(rows));
        let ins = "\n## LLM Insights\n\n"@ + insight_lines(rows);
        let pre = rep.take(rep.len() - ins.len());
        assert(rep.subrange(rep.len() - ins.len(), rep.len() as int) =~= ins);
    }
    if forall|i: int| 0 <= i < rows.len() ==> (#[trigger] rows[i]).llm_status is None {
        assert(!any_llm_status(rows));
        let table = "|----------|---------|\n"@ + breakdown_lines(breakdown);
        assert(rep.subrange(rep.len() - table.len(), rep.len() as int) =~= table);
    }
}

} // verus!
