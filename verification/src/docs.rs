//! The Markdown documents exported per repository for LLM analysis:
//! overview, changelog, issues, releases and health.
use vstd::prelude::*;
use crate::dates::{calendar_day, utc_calendar_day};
use crate::health::{label_name, HealthFigures};
use crate::records::{text_or, CommitRow, IssueRow, ReleaseRow, RepoRow};
use crate::text::{chars_of, decimal, decimal_int, opt_text, push_decimal, push_int, same_text, substring};

verus! {

/// The frontmatter that opens every exported document.
pub open spec fn doc_header(now: Seq<char>, repo: Seq<char>, period: Seq<char>) -> Seq<char> {
    "---\ngenerated_at: "@ + now + "\nrepo: "@ + repo + "\nperiod: "@ + period + "\n---\n\n"@
}

/// Appends the frontmatter of an exported document.
fn push_header(out: &mut String, now: &str, repo: &str, period: &str)
    ensures
        final(out)@ == old(out)@ + doc_header(now@, repo@, period@),
{
    out.append("---\ngenerated_at: ");
    out.append(now);
    out.append("\nrepo: ");
    out.append(repo);
    out.append("\nperiod: ");
    out.append(period);
    out.append("\n---\n\n");
    assert(final(out)@ =~= old(out)@ + doc_header(now@, repo@, period@));
}

/// `overview.md`: the repository's owner, language, description, open
/// issues, last push and category, with stand-ins for what is unknown.
pub open spec fn overview_doc(repo: RepoRow, now: Seq<char>) -> Seq<char> {
    doc_header(now, repo.name@, "all"@) + "# "@ + repo.name@ + "\n\n- **Owner:** "@ + repo.owner@
        + "\n- **Language:** "@ + text_or(repo.language, "unknown"@) + "\n- **Description:** "@
        + text_or(repo.description, "N/A"@) + "\n- **Open Issues:** "@ + decimal_int(
        repo.open_issues as int,
    ) + "\n- **Last Push:** "@ + text_or(repo.pushed_at, "never"@) + "\n- **Category:** "@
        + text_or(repo.category, "uncategorized"@) + "\n"@
}

/// Appends the text of `o`, or `default` when it is `None`.
fn push_or(out: &mut String, o: &Option<String>, default: &str)
    ensures
        final(out)@ == old(out)@ + text_or(*o, default@),
{
    match o {
        Some(s) => out.append(s.as_str()),
        None => out.append(default),
    }
}

/// The text of `overview.md` for `repo`, generated at `now`.
pub fn overview_markdown(repo: &RepoRow, now: &str) -> (r: String)
    ensures
        r@ == overview_doc(*repo, now@),
{
    let mut out = String::new();
    push_header(&mut out, now, repo.name.as_str(), "all");
    out.append("# ");
    out.append(repo.name.as_str());
    out.append("\n\n- **Owner:** ");
    out.append(repo.owner.as_str());
    out.append("\n- **Language:** ");
    push_or(&mut out, &repo.language, "unknown");
    out.append("\n- **Description:** ");
    push_or(&mut out, &repo.description, "N/A");
    out.append("\n- **Open Issues:** ");
    push_int(&mut out, repo.open_issues as i64);
    out.append("\n- **Last Push:** ");
    push_or(&mut out, &repo.pushed_at, "never");
    out.append("\n- **Category:** ");
    push_or(&mut out, &repo.category, "uncategorized");
    out.append("\n");
    assert(out@ =~= overview_doc(*repo, now@));
    out
}

/// How many bytes UTF-8 takes for `c`.
pub open spec fn utf8_width(c: char) -> nat {
    if (c as u32) < 0x80 {
        1
    } else if (c as u32) < 0x800 {
        2
    } else if (c as u32) < 0x1_0000 {
        3
    } else {
        4
    }
}

/// Whether byte `n` of the UTF-8 form of `s` lies on a character boundary
/// or past the end, so that the first `n` bytes can be sliced off.
pub open spec fn cut_ok(s: Seq<char>, n: nat) -> bool
    decreases s.len(),
{
    n == 0 || s.len() == 0 || (utf8_width(s[0]) <= n && cut_ok(
        s.drop_first(),
        (n - utf8_width(s[0])) as nat,
    ))
}

/// The characters held whole in the first `n` bytes of `s` (all of `s`
/// when it is shorter): `&s[..n.min(s.len())]` where that slice is allowed.
pub open spec fn byte_prefix(s: Seq<char>, n: nat) -> Seq<char>
    decreases s.len(),
{
    if s.len() == 0 || utf8_width(s[0]) > n {
        Seq::empty()
    } else {
        seq![s[0]] + byte_prefix(s.drop_first(), (n - utf8_width(s[0])) as nat)
    }
}

/// The width of `c` in UTF-8.
fn utf8_width_of(c: char) -> (r: usize)
    ensures
        r == utf8_width(c),
{
    let u = c as u32;
    if u < 0x80 {
        1
    } else if u < 0x800 {
        2
    } else if u < 0x1_0000 {
        3
    } else {
        4
    }
}

/// The characters held whole in the first `n` bytes of `s`.
pub fn byte_prefix_of(s: &str, n: usize) -> (r: String)
    ensures
        r@ == byte_prefix(s@, n as nat),
{
    let v = chars_of(s);
    let len = v.len();
    let mut i: usize = 0;
    let mut budget = n;
    assert(v@.take(0) + byte_prefix(v@.skip(0), n as nat) =~= byte_prefix(v@, n as nat)) by {
        assert(v@.skip(0) =~= v@);
    }
    while i < len && utf8_width_of(v[i]) <= budget
        invariant
            len == v@.len(),
            v@ == s@,
            i <= len,
            byte_prefix(s@, n as nat) == v@.take(i as int) + byte_prefix(
                v@.skip(i as int),
                budget as nat,
            ),
        decreases len - i,
    {
        let w = utf8_width_of(v[i]);
        assert(v@.skip(i as int).drop_first() =~= v@.skip(i + 1));
        assert(v@.skip(i as int)[0] == v@[i as int]);
        assert(v@.take(i + 1) =~= v@.take(i as int) + seq![v@[i as int]]);
        budget = budget - w;
        i = i + 1;
    }
    assert(byte_prefix(v@.skip(i as int), budget as nat) =~= Seq::<char>::empty()) by {
        if i < len {
            assert(v@.skip(i as int)[0] == v@[i as int]);
        }
    }
    assert(v@.take(i as int) =~= v@.subrange(0, i as int));
    substring(s, 0, i)
}

/// The day heading under which a commit is listed: its calendar day, or
/// `unknown` when its timestamp could not be read.
pub open spec fn day_label(day: Option<Seq<char>>) -> Seq<char> {
    match day {
        Some(d) => d,
        None => "unknown"@,
    }
}

/// The changelog line of a commit: its category, the first 7 bytes of its
/// sha, and its message.
pub open spec fn changelog_line(c: CommitRow) -> Seq<char> {
    "- **["@ + c.category@ + "]** `"@ + byte_prefix(c.sha@, 7) + "` "@ + c.message@ + "\n"@
}

/// Appends the changelog line of a commit.
fn push_changelog_line(out: &mut String, c: &CommitRow)
    requires
        cut_ok(c.sha@, 7),
    ensures
        final(out)@ == old(out)@ + changelog_line(*c),
{
    out.append("- **[");
    out.append(c.category.as_str());
    out.append("]** `");
    let sha = byte_prefix_of(c.sha.as_str(), 7);
    out.append(sha.as_str());
    out.append("` ");
    out.append(c.message.as_str());
    out.append("\n");
    assert(final(out)@ =~= old(out)@ + changelog_line(*c));
}

/// The heading of a new day in the changelog.
pub open spec fn day_heading(day: Seq<char>) -> Seq<char> {
    "\n## "@ + day + "\n\n"@
}

/// The day heading of the `n`-th commit, or empty before the first one.
pub open spec fn day_before(days: Seq<Option<Seq<char>>>, n: int) -> Seq<char> {
    if n <= 0 {
        Seq::empty()
    } else {
        day_label(days[n - 1])
    }
}

/// The changelog entries of the first `n` commits: a day heading before each
/// commit whose day differs from that of the commit before it, then the
/// commit's line.
pub open spec fn changelog_entries(commits: Seq<CommitRow>, days: Seq<Option<Seq<char>>>, n: int) -> Seq<
    char,
>
    decreases n,
{
    if n <= 0 {
        Seq::empty()
    } else {
        changelog_entries(commits, days, n - 1) + (if day_label(days[n - 1]) != day_before(
            days,
            n - 1,
        ) {
            day_heading(day_label(days[n - 1]))
        } else {
            Seq::empty()
        }) + changelog_line(commits[n - 1])
    }
}

/// `changelog.md`: the commits in their order, grouped under day headings;
/// `days` holds the calendar day read from each commit's timestamp.
pub open spec fn changelog_doc(
    repo_name: Seq<char>,
    now: Seq<char>,
    commits: Seq<CommitRow>,
    days: Seq<Option<Seq<char>>>,
) -> Seq<char> {
    doc_header(now, repo_name, "all"@) + "# Changelog\n\n"@ + changelog_entries(
        commits,
        days,
        commits.len() as int,
    )
}

/// The text of `changelog.md`, given for each commit the calendar day read
/// from its timestamp (`None` where it could not be read). Each sha must be
/// sliceable at byte 7.
pub fn changelog_with_days(
    repo_name: &str,
    now: &str,
    commits: &Vec<CommitRow>,
    days: &Vec<Option<String>>,
) -> (r: String)
    requires
        days@.len() == commits@.len(),
        forall|i: int| 0 <= i < commits@.len() ==> cut_ok(#[trigger] commits@[i].sha@, 7),
    ensures
        r@ == changelog_doc(repo_name@, now@, commits@, days@.map_values(|d: Option<String>| opt_text(d))),
{
    let ghost ds = days@.map_values(|d: Option<String>| opt_text(d));
    let mut out = String::new();
    push_header(&mut out, now, repo_name, "all");
    out.append("# Changelog\n\n");
    let ghost head = out@;
    let mut current = String::new();
    let n = commits.len();
    let mut i: usize = 0;
    while i < n
        invariant
            n == commits@.len(),
            days@.len() == n,
            i <= n,
            current@ == day_before(ds, i as int),
            ds == days@.map_values(|d: Option<String>| opt_text(d)),
            forall|k: int| 0 <= k < commits@.len() ==> cut_ok(#[trigger] commits@[k].sha@, 7),
            out@ == head + changelog_entries(commits@, ds, i as int),
        decreases n - i,
    {
        let c = &commits[i];
        let day = match &days[i] {
            Some(d) => d.clone(),
            None => "unknown".to_owned(),
        };
        assert(day@ == day_label(ds[i as int]));
        let ghost before = out@;
        let new_day = !same_text(day.as_str(), current.as_str());
        if new_day {
            out.append("\n## ");
            out.append(day.as_str());
            out.append("\n\n");
        }
        let ghost heading = if new_day {
            day_heading(day@)
        } else {
            Seq::<char>::empty()
        };
        assert(out@ =~= before + heading);
        push_changelog_line(&mut out, c);
        assert(changelog_entries(commits@, ds, i + 1) == changelog_entries(commits@, ds, i as int)
            + heading + changelog_line(commits@[i as int]));
        assert(out@ =~= head + changelog_entries(commits@, ds, i + 1));
        current = day;
        i = i + 1;
    }
    assert(out@ =~= changelog_doc(repo_name@, now@, commits@, ds));
    out
}

/// The calendar days chrono reads from the commits' timestamps.
pub open spec fn commit_days(commits: Seq<CommitRow>) -> Seq<Option<Seq<char>>> {
    commits.map_values(|c: CommitRow| utc_calendar_day(c.committed_at@))
}

/// The text of `changelog.md`, with each commit's day read from its
/// timestamp by chrono.
pub fn changelog_markdown(repo_name: &str, now: &str, commits: &Vec<CommitRow>) -> (r: String)
    requires
        forall|i: int| 0 <= i < commits@.len() ==> cut_ok(#[trigger] commits@[i].sha@, 7),
    ensures
        r@ == changelog_doc(repo_name@, now@, commits@, commit_days(commits@)),
{
    let mut days: Vec<Option<String>> = Vec::new();
    let n = commits.len();
    let mut i: usize = 0;
    while i < n
        invariant
            n == commits@.len(),
            i <= n,
            days@.len() == i,
            forall|j: int| 0 <= j < i ==> opt_text(#[trigger] days@[j]) == utc_calendar_day(
                commits@[j].committed_at@,
            ),
        decreases n - i,
    {
        days.push(calendar_day(commits[i].committed_at.as_str()));
        i = i + 1;
    }
    let r = changelog_with_days(repo_name, now, commits, &days);
    assert(days@.map_values(|d: Option<String>| opt_text(d)) =~= commit_days(commits@));
    r
}

/// Whether an issue is open.
pub open spec fn is_open(i: IssueRow) -> bool {
    i.state@ == "open"@
}

/// Whether an issue is closed.
pub open spec fn is_closed(i: IssueRow) -> bool {
    i.state@ == "closed"@
}

/// The test for open issues.
pub open spec fn open_pred() -> spec_fn(IssueRow) -> bool {
    |i: IssueRow| is_open(i)
}

/// The test for closed issues.
pub open spec fn closed_pred() -> spec_fn(IssueRow) -> bool {
    |i: IssueRow| is_closed(i)
}

/// The list lines of `issues`: `- #{number} {title}` each.
pub open spec fn issue_lines(issues: Seq<IssueRow>) -> Seq<char>
    decreases issues.len(),
{
    if issues.len() == 0 {
        Seq::empty()
    } else {
        issue_lines(issues.drop_last()) + "- #"@ + decimal_int(issues.last().number as int) + " "@
            + issues.last().title@ + "\n"@
    }
}

/// The first ten of `s` (all of them when there are fewer).
pub open spec fn first_ten<A>(s: Seq<A>) -> Seq<A> {
    if s.len() <= 10 {
        s
    } else {
        s.take(10)
    }
}

/// `issues.md`: the counts of open and closed issues, the open issues, and
/// the first ten closed issues, each list only when it is not empty.
pub open spec fn issues_doc(repo_name: Seq<char>, now: Seq<char>, issues: Seq<IssueRow>) -> Seq<
    char,
> {
    let open = issues.filter(open_pred());
    let closed = issues.filter(closed_pred());
    doc_header(now, repo_name, "all"@) + "# Issues\n\n"@ + "**Open:** "@ + decimal(open.len())
        + " | **Closed:** "@ + decimal(closed.len()) + "\n\n"@ + (if open.len() > 0 {
        "## Open Issues\n\n"@ + issue_lines(open)
    } else {
        Seq::empty()
    }) + (if closed.len() > 0 {
        "\n## Recently Closed\n\n"@ + issue_lines(first_ten(closed))
    } else {
        Seq::empty()
    })
}

/// Appends the list line of an issue.
fn push_issue_line(out: &mut String, i: &IssueRow)
    ensures
        final(out)@ == old(out)@ + "- #"@ + decimal_int(i.number as int) + " "@ + i.title@
            + "\n"@,
{
    out.append("- #");
    push_int(out, i.number as i64);
    out.append(" ");
    out.append(i.title.as_str());
    out.append("\n");
}

/// The text of `issues.md` for `issues` (see `issues_doc`).
pub fn issues_markdown(repo_name: &str, now: &str, issues: &Vec<IssueRow>) -> (r: String)
    ensures
        r@ == issues_doc(repo_name@, now@, issues@),
{
    let ghost all = issues@;
    let ghost open_p = open_pred();
    let ghost closed_p = closed_pred();
    let n = issues.len();
    let mut n_open: usize = 0;
    let mut n_closed: usize = 0;
    let mut i: usize = 0;
    while i < n
        invariant
            n == all.len(),
            all == issues@,
            open_p == open_pred(),
            closed_p == closed_pred(),
            i <= n,
            n_open == all.take(i as int).filter(open_p).len(),
            n_closed == all.take(i as int).filter(closed_p).len(),
        decreases n - i,
    {
        proof {
            assert(all.take(i + 1) =~= all.take(i as int).push(all[i as int]));
            all.take(i as int).lemma_filter_push(all[i as int], open_p);
            all.take(i as int).lemma_filter_push(all[i as int], closed_p);
        }
        let o = same_text(issues[i].state.as_str(), "open");
        let c = same_text(issues[i].state.as_str(), "closed");
        assert(o == open_p(all[i as int]));
        assert(c == closed_p(all[i as int]));
        if o {
            n_open = n_open + 1;
        }
        if c {
            n_closed = n_closed + 1;
        }
        i = i + 1;
    }
    assert(all.take(n as int) =~= all);
    let mut out = String::new();
    push_header(&mut out, now, repo_name, "all");
    out.append("# Issues\n\n");
    out.append("**Open:** ");
    push_decimal(&mut out, n_open as u64);
    out.append(" | **Closed:** ");
    push_decimal(&mut out, n_closed as u64);
    out.append("\n\n");
    let ghost head = out@;
    if n_open > 0 {
        out.append("## Open Issues\n\n");
        let ghost top = out@;
        let mut j: usize = 0;
        while j < n
            invariant
                n == all.len(),
                all == issues@,
                open_p == open_pred(),
                closed_p == closed_pred(),
                j <= n,
                out@ == top + issue_lines(all.take(j as int).filter(open_p)),
            decreases n - j,
        {
            proof {
                assert(all.take(j + 1) =~= all.take(j as int).push(all[j as int]));
                all.take(j as int).lemma_filter_push(all[j as int], open_p);
                let f = all.take(j as int).filter(open_p);
                assert(f.push(all[j as int]).drop_last() =~= f);
            }
            let o = same_text(issues[j].state.as_str(), "open");
            assert(o == open_p(all[j as int]));
            if o {
                push_issue_line(&mut out, &issues[j]);
            }
            assert(out@ =~= top + issue_lines(all.take(j + 1).filter(open_p)));
            j = j + 1;
        }
    }
    let ghost mid = out@;
    if n_closed > 0 {
        out.append("\n## Recently Closed\n\n");
        let ghost top = out@;
        let mut shown: usize = 0;
        let mut j: usize = 0;
        while j < n
            invariant
                n == all.len(),
                all == issues@,
                open_p == open_pred(),
                closed_p == closed_pred(),
                j <= n,
                shown == first_ten(all.take(j as int).filter(closed_p)).len(),
                out@ == top + issue_lines(first_ten(all.take(j as int).filter(closed_p))),
            decreases n - j,
        {
            proof {
                assert(all.take(j + 1) =~= all.take(j as int).push(all[j as int]));
                all.take(j as int).lemma_filter_push(all[j as int], closed_p);
                let f = all.take(j as int).filter(closed_p);
                let g = f.push(all[j as int]);
                if f.len() < 10 {
                    assert(first_ten(g) =~= first_ten(f).push(all[j as int]));
                    assert(first_ten(g).drop_last() =~= first_ten(f));
                } else {
                    assert(first_ten(g) =~= first_ten(f));
                }
            }
            let c = same_text(issues[j].state.as_str(), "closed");
            assert(c == closed_p(all[j as int]));
            if c && shown < 10 {
                push_issue_line(&mut out, &issues[j]);
                shown = shown + 1;
            }
            assert(out@ =~= top + issue_lines(first_ten(all.take(j + 1).filter(closed_p))));
            j = j + 1;
        }
    }
    assert(out@ =~= issues_doc(repo_name@, now@, issues@));
    out
}

/// The section of one release: its tag and name, when it was published,
/// and its notes.
pub open spec fn release_section(r: ReleaseRow) -> Seq<char> {
    "## "@ + r.tag_name@ + " "@ + text_or(r.name, Seq::empty()) + "\n\nPublished: "@ + text_or(
        r.published_at,
        "unknown"@,
    ) + "\n\n"@ + text_or(r.body, Seq::empty()) + "\n\n"@
}

/// Appends the section of a release.
fn push_release_section(out: &mut String, r: &ReleaseRow)
    ensures
        final(out)@ == old(out)@ + release_section(*r),
{
    proof {
        reveal_strlit("");
    }
    out.append("## ");
    out.append(r.tag_name.as_str());
    out.append(" ");
    push_or(out, &r.name, "");
    out.append("\n\nPublished: ");
    push_or(out, &r.published_at, "unknown");
    out.append("\n\n");
    push_or(out, &r.body, "");
    out.append("\n\n");
    assert(final(out)@ =~= old(out)@ + release_section(*r));
}

/// The sections of `releases`, in their order.
pub open spec fn release_sections(releases: Seq<ReleaseRow>) -> Seq<char>
    decreases releases.len(),
{
    if releases.len() == 0 {
        Seq::empty()
    } else {
        release_sections(releases.drop_last()) + release_section(releases.last())
    }
}

/// `releases.md`: a section per release, or a note that there are none.
pub open spec fn releases_doc(repo_name: Seq<char>, now: Seq<char>, releases: Seq<ReleaseRow>) -> Seq<
    char,
> {
    doc_header(now, repo_name, "all"@) + "# Releases\n\n"@ + if releases.len() == 0 {
        "No releases found.\n"@
    } else {
        release_sections(releases)
    }
}

/// The text of `releases.md` for `releases` (see `releases_doc`).
pub fn releases_markdown(repo_name: &str, now: &str, releases: &Vec<ReleaseRow>) -> (r: String)
    ensures
        r@ == releases_doc(repo_name@, now@, releases@),
{
    let mut out = String::new();
    push_header(&mut out, now, repo_name, "all");
    out.append("# Releases\n\n");
    let ghost head = out@;
    let n = releases.len();
    if n == 0 {
        out.append("No releases found.\n");
    } else {
        let mut i: usize = 0;
        while i < n
            invariant
                n == releases@.len(),
                i <= n,
                out@ == head + release_sections(releases@.take(i as int)),
            decreases n - i,
        {
            assert(releases@.take(i + 1).drop_last() =~= releases@.take(i as int));
            push_release_section(&mut out, &releases[i]);
            assert(out@ =~= head + release_sections(releases@.take(i + 1)));
            i = i + 1;
        }
        assert(releases@.take(n as int) =~= releases@);
    }
    assert(out@ =~= releases_doc(repo_name@, now@, releases@));
    out
}

/// `health.md`: the health score's total and label, and its three parts
/// with their weights, the commits of the last 30 days and the open issues.
pub open spec fn health_doc(
    repo_name: Seq<char>,
    now: Seq<char>,
    h: HealthFigures,
    commits_30d: u32,
    open_issues: i32,
) -> Seq<char> {
    doc_header(now, repo_name, "30d"@) + "# Health Score\n\n- **Total:** "@ + h.total@ + "/100 ("@
        + label_name(h.label) + ")\n- **Recency:** "@ + h.recency@ + "/100 (weight: 40%)\n- **Velocity:** "@
        + h.velocity@ + "/100 (weight: 40%, "@ + decimal_int(commits_30d as int)
        + " commits/30d)\n- **Issues:** "@ + h.issues@ + "/100 (weight: 20%, "@ + decimal_int(
        open_issues as int,
    ) + " open)\n"@
}

/// The text of `health.md` (see `health_doc`).
pub fn health_markdown(
    repo_name: &str,
    now: &str,
    health: &HealthFigures,
    commits_30d: u32,
    open_issues: i32,
) -> (r: String)
    ensures
        r@ == health_doc(repo_name@, now@, *health, commits_30d, open_issues),
{
    let mut out = String::new();
    push_header(&mut out, now, repo_name, "30d");
    out.append("# Health Score\n\n- **Total:** ");
    out.append(health.total.as_str());
    out.append("/100 (");
    out.append(health.label.as_str());
    out.append(")\n- **Recency:** ");
    out.append(health.recency.as_str());
    out.append("/100 (weight: 40%)\n- **Velocity:** ");
    out.append(health.velocity.as_str());
    out.append("/100 (weight: 40%, ");
    push_int(&mut out, commits_30d as i64);
    out.append(" commits/30d)\n- **Issues:** ");
    out.append(health.issues.as_str());
    out.append("/100 (weight: 20%, ");
    push_int(&mut out, open_issues as i64);
    out.append(" open)\n");
    assert(out@ =~= health_doc(repo_name@, now@, *health, commits_30d, open_issues));
    out
}

/// The list line of an issue: `- #{number} {title}`.
pub open spec fn issue_line(i: IssueRow) -> Seq<char> {
    "- #"@ + decimal_int(i.number as int) + " "@ + i.title@ + "\n"@
}

/// The list lines are the issues' lines, in order.
proof fn lemma_issue_lines_flat(s: Seq<IssueRow>)
    ensures
        issue_lines(s) == s.map_values(|i: IssueRow| issue_line(i)).flatten(),
    decreases s.len(),
{
    let f = |i: IssueRow| issue_line(i);
    if s.len() == 0 {
        assert(s.map_values(f) =~= Seq::<Seq<char>>::empty());
    } else {
        let d = s.drop_last();
        lemma_issue_lines_flat(d);
        assert(s =~= d.push(s.last()));
        d.lemma_push_map_commute(f, s.last());
        d.map_values(f).lemma_flatten_push(f(s.last()));
        assert(issue_lines(s) =~= issue_lines(d) + issue_line(s.last()));
    }
}

/// Every open issue is listed in `issues.md`, however many there are: when
/// some issue is open, the document holds the "Open Issues" heading followed
/// by one line per issue whose state is `open`, in the input's order, and
/// after them only the closed list's heading or the end of the document.
pub proof fn law_every_open_issue_listed(
    repo_name: Seq<char>,
    now: Seq<char>,
    issues: Seq<IssueRow>,
)
    ensures
        ({
            let doc = issues_doc(repo_name, now, issues);
            let open = issues.filter(|i: IssueRow| i.state@ == "open"@);
            let list = "## Open Issues\n\n"@ + open.map_values(|i: IssueRow| issue_line(i)).flatten();
            let closing = "\n## Recently Closed\n\n"@;
            open.len() > 0 ==> exists|a: int|
                #![trigger doc.subrange(a, a + list.len())]
                {
                    &&& 0 <= a
                    &&& a + list.len() <= doc.len()
                    &&& doc.subrange(a, a + list.len()) == list
                    &&& (a + list.len() == doc.len() || (a + list.len() + closing.len() <= doc.len()
                        && doc.subrange(a + list.len(), a + list.len() + closing.len())
                        == closing))
                }
        }),
{
    let doc = issues_doc(repo_name, now, issues);
    let op = |i: IssueRow| i.state@ == "open"@;
    assert(open_pred() =~= op);
    let open = issues.filter(op);
    let closed = issues.filter(closed_pred());
    lemma_issue_lines_flat(open);
    let list = "## Open Issues\n\n"@ + issue_lines(open);
    let closing = "\n## Recently Closed\n\n"@;
    if open.len() > 0 {
        let pre = doc_header(now, repo_name, "all"@) + "# Issues\n\n"@ + "**Open:** "@ + decimal(
            open.len(),
        ) + " | **Closed:** "@ + decimal(closed.len()) + "\n\n"@;
        let tail = if closed.len() > 0 {
            closing + issue_lines(first_ten(closed))
        } else {
            Seq::empty()
        };
        assert(doc =~= pre + list + tail);
        let a = pre.len() as int;
        assert(doc.subrange(a, a + list.len()) =~= list);
        if closed.len() > 0 {
            assert(doc.subrange(a + list.len(), a + list.len() + closing.len()) =~= closing);
        }
    }
}

} // verus!
