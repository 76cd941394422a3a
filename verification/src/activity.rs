//! Recent commits as rows of the activity table, newest day first.
use vstd::prelude::*;
use crate::dates::{calendar_day, utc_calendar_day};
use crate::records::CommitRow;
use crate::text::{
    lemma_text_lt_irreflexive, lemma_text_lt_total, lemma_text_lt_transitive, opt_text, substring,
    text_less, text_lt,
};
use vstd::string::StrSliceExecFns;

verus! {

/// One row of the activity table.
#[derive(Debug, Clone)]
pub struct ActivityRow {
    pub date: String,
    pub repo: String,
    pub sha_short: String,
    pub category: String,
    pub message: String,
}

/// The first `n` characters of `s` (all of them when it is shorter).
pub open spec fn first_chars(s: Seq<char>, n: int) -> Seq<char> {
    if s.len() <= n {
        s
    } else {
        s.take(n)
    }
}

/// The first `n` characters of `s`.
pub fn first_chars_of(s: &str, n: usize) -> (r: String)
    ensures
        r@ == first_chars(s@, n as int),
{
    let len = s.unicode_len();
    if len <= n {
        assert(s@.subrange(0, len as int) =~= s@);
        substring(s, 0, len)
    } else {
        substring(s, 0, n)
    }
}

/// The activity row of a commit of repository `repo`, given the calendar
/// day read from the commit's timestamp (`None` when it could not be read,
/// in which case the timestamp text stands for the day): the short sha is
/// the first 7 characters and the message the first 60.
pub fn activity_row(repo: &str, commit: &CommitRow, day: Option<String>) -> (r: ActivityRow)
    ensures
        r.date@ == match day {
            Some(d) => d@,
            None => commit.committed_at@,
        },
        r.repo@ == repo@,
        r.sha_short@ == first_chars(commit.sha@, 7),
        r.category@ == commit.category@,
        r.message@ == first_chars(commit.message@, 60),
{
    let date = match day {
        Some(d) => d,
        None => commit.committed_at.clone(),
    };
    ActivityRow {
        date,
        repo: repo.to_owned(),
        sha_short: first_chars_of(commit.sha.as_str(), 7),
        category: commit.category.clone(),
        message: first_chars_of(commit.message.as_str(), 60),
    }
}

/// The activity row of a commit of repository `repo`, with the day read
/// from the commit's timestamp by chrono.
pub fn activity_row_for(repo: &str, commit: &CommitRow) -> (r: ActivityRow)
    ensures
        r.date@ == match utc_calendar_day(commit.committed_at@) {
            Some(d) => d,
            None => commit.committed_at@,
        },
        r.repo@ == repo@,
        r.sha_short@ == first_chars(commit.sha@, 7),
        r.category@ == commit.category@,
        r.message@ == first_chars(commit.message@, 60),
{
    let day = calendar_day(commit.committed_at.as_str());
    activity_row(repo, commit, day)
}

/// Whether a row's date is `k`.
pub open spec fn date_is(k: Seq<char>) -> spec_fn(ActivityRow) -> bool {
    |x: ActivityRow| x.date@ == k
}

/// The rows of `s` whose date is `k`, in their order.
pub open spec fn with_date(s: Seq<ActivityRow>, k: Seq<char>) -> Seq<ActivityRow> {
    s.filter(date_is(k))
}

/// No row of `s` has a later date than a row before it.
pub open spec fn newest_first(s: Seq<ActivityRow>) -> bool {
    forall|i: int, j: int| 0 <= i < j < s.len() ==> !text_lt(#[trigger] s[i].date@, #[trigger] s[j].date@)
}

/// Sorts rows by date, newest first; rows of the same date keep their order
/// (a stable sort, as `sort_by` is). Together the two clauses fix the result:
/// it is sorted, and for every date it lists that date's rows as the input does.
pub fn sort_newest_first(rows: Vec<ActivityRow>) -> (r: Vec<ActivityRow>)
    ensures
        newest_first(r@),
        forall|k: Seq<char>| #[trigger] with_date(r@, k) == with_date(rows@, k),
        r@.len() == rows@.len(),
{
    let ghost all = rows@;
    let mut out: Vec<ActivityRow> = Vec::new();
    for x in it: rows.into_iter()
        invariant
            it.seq() == all,
            newest_first(out@),
            forall|k: Seq<char>| #[trigger] with_date(out@, k) == with_date(all.take(it.index() as int), k),
            out@.len() == it.index(),
    {
        let ghost idx = it.index();
        let ghost old_out = out@;
        let n = out.len();
        let mut p: usize = 0;
        while p < n && !text_less(out[p].date.as_str(), x.date.as_str())
            invariant
                n == out@.len(),
                p <= n,
                forall|q: int| 0 <= q < p ==> !text_lt(#[trigger] out@[q].date@, x.date@),
            decreases n - p,
        {
            p = p + 1;
        }
        let ghost xd = x.date@;
        out.insert(p, x);
        proof {
            insert_keeps_order(old_out, x, p as int);
            assert(all.take(idx + 1) =~= all.take(idx as int).push(x));
            assert forall|k: Seq<char>| #[trigger] with_date(out@, k) == with_date(all.take(idx + 1), k) by {
                insert_keeps_dates(old_out, x, p as int, k);
                all.take(idx as int).lemma_filter_push(x, date_is(k));
            }
        }
    }
    proof {
        assert(all.take(all.len() as int) =~= all);
    }
    out
}

/// Inserting `x` before the first row older than it keeps the rows newest first.
proof fn insert_keeps_order(s: Seq<ActivityRow>, x: ActivityRow, p: int)
    requires
        newest_first(s),
        0 <= p <= s.len(),
        forall|q: int| 0 <= q < p ==> !text_lt(#[trigger] s[q].date@, x.date@),
        p < s.len() ==> text_lt(s[p].date@, x.date@),
    ensures
        newest_first(s.insert(p, x)),
{
    let t = s.insert(p, x);
    assert forall|i: int, j: int| 0 <= i < j < t.len() implies !text_lt(
        #[trigger] t[i].date@,
        #[trigger] t[j].date@,
    ) by {
        if i < p && j == p {
        } else if i == p {
            let y = s[j - 1];
            if j - 1 > p {
                assert(!text_lt(s[p].date@, y.date@));
            }
            lemma_text_lt_total(y.date@, s[p].date@);
            if y.date@ != s[p].date@ {
                lemma_text_lt_transitive(y.date@, s[p].date@, x.date@);
            }
            lemma_text_lt_total(y.date@, x.date@);
        } else if i < p && j > p {
            assert(!text_lt(s[i].date@, s[j - 1].date@));
        } else if i > p {
            assert(!text_lt(s[i - 1].date@, s[j - 1].date@));
        }
    }
}

/// Inserting `x` before the first row older than it adds `x` to the rows of
/// its own date, at their end, and changes the rows of no other date.
proof fn insert_keeps_dates(s: Seq<ActivityRow>, x: ActivityRow, p: int, k: Seq<char>)
    requires
        newest_first(s),
        0 <= p <= s.len(),
        p < s.len() ==> text_lt(s[p].date@, x.date@),
    ensures
        with_date(s.insert(p, x), k) == if x.date@ == k {
            with_date(s, k).push(x)
        } else {
            with_date(s, k)
        },
{
    let a = s.take(p);
    let b = s.skip(p);
    let f = date_is(k);
    assert(s =~= a + b);
    assert(s.insert(p, x) =~= a + seq![x] + b);
    Seq::filter_distributes_over_add(a, b, f);
    Seq::filter_distributes_over_add(a + seq![x], b, f);
    Seq::filter_distributes_over_add(a, seq![x], f);
    reveal_with_fuel(Seq::<ActivityRow>::filter, 2);
    assert(seq![x].drop_last() =~= Seq::<ActivityRow>::empty());
    if x.date@ == k {
        assert forall|q: int| 0 <= q < b.len() implies !f(#[trigger] b[q]) by {
            if q > 0 {
                assert(!text_lt(s[p].date@, s[p + q].date@));
                lemma_text_lt_total(s[p + q].date@, s[p].date@);
                if s[p + q].date@ != s[p].date@ {
                    lemma_text_lt_transitive(s[p + q].date@, s[p].date@, x.date@);
                }
            }
            lemma_text_lt_irreflexive(x.date@);
        }
        assert(b.all(|y: ActivityRow| !f(y)));
        b.lemma_all_neg_filter_empty(f);
        assert(b.filter(f) =~= Seq::<ActivityRow>::empty());
        assert(a.filter(f) + seq![x].filter(f) + b.filter(f) =~= (a.filter(f) + b.filter(f)).push(x));
    } else {
        assert(seq![x].filter(f) =~= Seq::<ActivityRow>::empty());
        assert(a.filter(f) + seq![x].filter(f) + b.filter(f) =~= a.filter(f) + b.filter(f));
    }
}

} // verus!
