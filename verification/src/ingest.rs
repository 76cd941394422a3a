//! Reading back the analysis an LLM wrote for a repository: the frontmatter
//! block at the head of `llm_summary.md`, the sections of its body, and the
//! record that is stored for it.
use vstd::prelude::*;
use crate::text::{
    chars_of, find, find_char_in, find_from, find_in, is_space, occurs_at, occurs_at_exec, opt_text,
    same_text, starts_with, substring, trim, trim_bounds, trim_end, trim_start,
};

verus! {

/// The three dashes that open and close a frontmatter block.
pub open spec fn dashes() -> Seq<char> {
    seq!['-', '-', '-']
}

/// The marker that ends a section: a newline followed by a level-two heading.
pub open spec fn next_heading() -> Seq<char> {
    seq!['\n', '#', '#', ' ']
}

/// A found position lies inside the searched text and `p` occurs there;
/// no occurrence lies before it.
pub proof fn lemma_find_from(h: Seq<char>, p: Seq<char>, i: int)
    requires
        0 <= i,
    ensures
        find_from(h, p, i) matches Some(k) ==> {
            &&& i <= k
            &&& occurs_at(h, p, k)
            &&& forall|j: int| i <= j < k ==> !occurs_at(h, p, j)
        },
        find_from(h, p, i) is None ==> forall|j: int| i <= j ==> !occurs_at(h, p, j),
    decreases h.len() - i,
{
    if i < 0 || i + p.len() > h.len() {
    } else if occurs_at(h, p, i) {
    } else if i >= h.len() {
    } else {
        lemma_find_from(h, p, i + 1);
    }
}

/// `find` returns the first occurrence, or `None` when there is none.
pub proof fn lemma_find(h: Seq<char>, p: Seq<char>)
    ensures
        find(h, p) matches Some(k) ==> {
            &&& 0 <= k
            &&& k + p.len() <= h.len()
            &&& h.subrange(k, k + p.len()) == p
            &&& forall|j: int| 0 <= j < k ==> !occurs_at(h, p, j)
        },
        find(h, p) is None ==> forall|j: int| !occurs_at(h, p, j),
{
    lemma_find_from(h, p, 0);
}

/// The pieces of `s` between newline characters.
///
/// `str::lines` gives the same pieces, except that it drops a `'\r'` before
/// each newline and gives no empty piece after a final newline; neither
/// difference can change the frontmatter read from them, since every piece
/// is trimmed and an empty piece holds no colon.
pub open spec fn split_lines(s: Seq<char>) -> Seq<Seq<char>>
    decreases s.len(),
{
    match find(s, seq!['\n']) {
        Some(i) => {
            proof {
                lemma_find(s, seq!['\n']);
            }
            seq![s.take(i)] + split_lines(s.skip(i + 1))
        },
        None => seq![s],
    }
}

/// One frontmatter line applied to the map read so far: a line that holds a
/// colon sets the text before its first colon to the text after it, both
/// trimmed; any other line changes nothing.
pub open spec fn apply_line(m: Map<Seq<char>, Seq<char>>, line: Seq<char>) -> Map<
    Seq<char>,
    Seq<char>,
> {
    let t = trim(line);
    match find(t, seq![':']) {
        Some(i) => m.insert(trim(t.take(i)), trim(t.skip(i + 1))),
        None => m,
    }
}

/// The lines applied in order, starting from `m`: a later line wins over an
/// earlier one with the same key.
pub open spec fn apply_lines(m: Map<Seq<char>, Seq<char>>, lines: Seq<Seq<char>>) -> Map<
    Seq<char>,
    Seq<char>,
>
    decreases lines.len(),
{
    if lines.len() == 0 {
        m
    } else {
        apply_lines(apply_line(m, lines[0]), lines.drop_first())
    }
}

/// What a document's frontmatter and body are.
///
/// The document is trimmed. If it then starts with `---` and a second `---`
/// follows, the text between them is the frontmatter block and the trimmed
/// text after the second `---` is the body. Otherwise there is no
/// frontmatter and the body is the whole trimmed document.
pub open spec fn frontmatter_of(content: Seq<char>) -> (Map<Seq<char>, Seq<char>>, Seq<char>) {
    let c = trim(content);
    if !starts_with(c, dashes()) {
        (Map::empty(), c)
    } else {
        let after = c.skip(3);
        match find(after, dashes()) {
            Some(e) => (
                apply_lines(Map::empty(), split_lines(after.take(e))),
                trim(after.skip(e + 3)),
            ),
            None => (Map::empty(), c),
        }
    }
}

/// The text of the section that follows `heading` in `body`: from just after
/// the first occurrence of the heading up to the next line that starts a
/// level-two heading (or the end), trimmed; `None` when the heading does not
/// occur or the section is empty.
pub open spec fn section_of(body: Seq<char>, heading: Seq<char>) -> Option<Seq<char>> {
    match find(body, heading) {
        None => None,
        Some(st) => {
            let after = body.skip(st + heading.len());
            let end = match find(after, next_heading()) {
                Some(e) => e,
                None => after.len() as int,
            };
            let s = trim(after.take(end));
            if s.len() == 0 {
                None
            } else {
                Some(s)
            }
        },
    }
}

/// The key/value pairs read from a frontmatter block, in the order read.
pub struct Frontmatter {
    entries: Vec<(String, String)>,
}

/// The map that a list of pairs gives when each is inserted in turn.
pub open spec fn pairs_map(e: Seq<(String, String)>) -> Map<Seq<char>, Seq<char>>
    decreases e.len(),
{
    if e.len() == 0 {
        Map::empty()
    } else {
        pairs_map(e.drop_last()).insert(e.last().0@, e.last().1@)
    }
}

impl View for Frontmatter {
    type V = Map<Seq<char>, Seq<char>>;

    closed spec fn view(&self) -> Map<Seq<char>, Seq<char>> {
        pairs_map(self.entries@)
    }
}

impl Frontmatter {
    /// The value stored for `key`, if any.
    pub fn get(&self, key: &str) -> (r: Option<&String>)
        ensures
            match r {
                Some(v) => self@.contains_key(key@) && v@ == self@[key@],
                None => !self@.contains_key(key@),
            },
    {
        let n = self.entries.len();
        let mut i = n;
        assert(self.entries@.take(n as int) =~= self.entries@);
        while i > 0
            invariant
                n == self.entries@.len(),
                i <= n,
                pairs_map(self.entries@).contains_key(key@) == pairs_map(
                    self.entries@.take(i as int),
                ).contains_key(key@),
                pairs_map(self.entries@).contains_key(key@) ==> pairs_map(self.entries@)[key@]
                    == pairs_map(self.entries@.take(i as int))[key@],
            decreases i,
        {
            assert(self.entries@.take(i as int).drop_last() =~= self.entries@.take(i - 1));
            if same_text(self.entries[i - 1].0.as_str(), key) {
                return Some(&self.entries[i - 1].1);
            }
            i = i - 1;
        }
        None
    }
}

/// Splits a document into its frontmatter and its body (see `frontmatter_of`).
pub fn parse_frontmatter(content: &str) -> (r: (Frontmatter, String))
    ensures
        r.0@ == frontmatter_of(content@).0,
        r.1@ == frontmatter_of(content@).1,
{
    proof {
        reveal_strlit("---");
    }
    let v = chars_of(content);
    let n = v.len();
    let (a, b) = trim_bounds(&v, 0, n);
    let ghost c = v@.subrange(a as int, b as int);
    assert(v@.subrange(0, n as int) =~= v@);
    assert(c == trim(content@));
    let empty = Frontmatter { entries: Vec::new() };
    assert(empty@ =~= Map::empty());
    let marks = chars_of("---");
    assert(marks@ =~= dashes());
    let opens = b - a >= 3 && occurs_at_exec(&v, a, &marks);
    assert(opens == starts_with(c, dashes())) by {
        if b - a >= 3 {
            assert(c.subrange(0, 3) =~= v@.subrange(a as int, a + 3));
        }
    }
    if !opens {
        return (empty, substring(content, a, b));
    }
    let lo = a + 3;
    let ghost after = c.skip(3);
    assert(after =~= v@.subrange(lo as int, b as int));
    let found = find_in(&v, lo, b, &marks);
    match found {
        None => {
            assert(find(after, dashes()) is None);
            (empty, substring(content, a, b))
        },
        Some(e) => {
            assert(find(after, dashes()) == Some(e as int));
            let hi = lo + e;
            let (ba, bb) = trim_bounds(&v, hi + 3, b);
            assert(after.skip(e + 3) =~= v@.subrange(hi + 3, b as int));
            assert(after.take(e as int) =~= v@.subrange(lo as int, hi as int));
            let body = substring(content, ba, bb);
            assert(body@ == trim(after.skip(e + 3)));
            let fm = read_block(content, &v, lo, hi);
            assert(fm@ == apply_lines(Map::empty(), split_lines(after.take(e as int))));
            (fm, body)
        },
    }
}

/// Reads the frontmatter lines of `v[lo .. hi]`, where `v` holds the characters of `content`.
fn read_block(content: &str, v: &Vec<char>, lo: usize, hi: usize) -> (r: Frontmatter)
    requires
        v@ == content@,
        lo <= hi <= v@.len(),
    ensures
        r@ == apply_lines(Map::empty(), split_lines(v@.subrange(lo as int, hi as int))),
{
    let mut entries: Vec<(String, String)> = Vec::new();
    let mut start = lo;
    let mut done = false;
    assert(pairs_map(entries@) =~= Map::empty());
    while !done
        invariant
            v@ == content@,
            lo <= start <= hi <= v@.len(),
            done ==> apply_lines(Map::empty(), split_lines(v@.subrange(lo as int, hi as int)))
                == pairs_map(entries@),
            !done ==> apply_lines(Map::empty(), split_lines(v@.subrange(lo as int, hi as int)))
                == apply_lines(pairs_map(entries@), split_lines(v@.subrange(start as int, hi as int))),
        decreases 2 * (hi - start) + (if done { 0int } else { 1int }),
    {
        let ghost rest = v@.subrange(start as int, hi as int);
        let ghost before = pairs_map(entries@);
        let nl = find_char_in(v, start, hi, '\n');
        proof {
            lemma_find(rest, seq!['\n']);
        }
        let line_end = match nl {
            Some(k) => start + k,
            None => hi,
        };
        let ghost line = v@.subrange(start as int, line_end as int);
        assert(match nl {
            Some(k) => line == rest.take(k as int),
            None => line == rest,
        }) by {
            if nl is Some {
                assert(line =~= rest.take(nl->0 as int));
            }
        }
        let (t0, t1) = trim_bounds(v, start, line_end);
        let ghost t = v@.subrange(t0 as int, t1 as int);
        assert(t == trim(line));
        let colon = find_char_in(v, t0, t1, ':');
        let ghost old_e = entries@;
        match colon {
            Some(i) => {
                let (k0, k1) = trim_bounds(v, t0, t0 + i);
                let (v0, v1) = trim_bounds(v, t0 + i + 1, t1);
                assert(t.take(i as int) =~= v@.subrange(t0 as int, t0 + i));
                assert(t.skip(i + 1) =~= v@.subrange(t0 + i + 1, t1 as int));
                let key = substring(content, k0, k1);
                let value = substring(content, v0, v1);
                assert(key@ == trim(t.take(i as int)));
                assert(value@ == trim(t.skip(i + 1)));
                entries.push((key, value));
                assert(entries@.drop_last() =~= old_e);
                assert(pairs_map(entries@) == before.insert(key@, value@));
            },
            None => {},
        }
        assert(pairs_map(entries@) == apply_line(before, line));
        match nl {
            Some(k) => {
                let ghost tail = rest.skip(k + 1);
                assert(split_lines(rest) == seq![line] + split_lines(tail));
                assert(tail =~= v@.subrange(start + k + 1, hi as int));
                assert((seq![line] + split_lines(tail)).drop_first() =~= split_lines(tail));
                assert((seq![line] + split_lines(tail))[0] == line);
                assert(apply_lines(before, split_lines(rest)) == apply_lines(
                    apply_line(before, line),
                    split_lines(tail),
                ));
                start = start + k + 1;
            },
            None => {
                assert(split_lines(rest) == seq![line]);
                assert(seq![line].drop_first() =~= Seq::<Seq<char>>::empty());
                assert(apply_lines(before, split_lines(rest)) == apply_lines(
                    apply_line(before, line),
                    Seq::<Seq<char>>::empty(),
                ));
                done = true;
            },
        }
    }
    Frontmatter { entries }
}

/// The text of the section under `heading` in `body` (see `section_of`).
pub fn extract_section(body: &str, heading: &str) -> (r: Option<String>)
    ensures
        opt_text(r) == section_of(body@, heading@),
{
    proof {
        reveal_strlit("\n## ");
    }
    let v = chars_of(body);
    let h = chars_of(heading);
    let n = v.len();
    assert(v@.subrange(0, n as int) =~= v@);
    match find_in(&v, 0, n, &h) {
        None => None,
        Some(st) => {
            let from = st + h.len();
            let ghost after = v@.skip(from as int);
            assert(after =~= v@.subrange(from as int, n as int));
            let marker = chars_of("\n## ");
            assert(marker@ =~= next_heading());
            let end = match find_in(&v, from, n, &marker) {
                Some(e) => e,
                None => n - from,
            };
            let (a, b) = trim_bounds(&v, from, from + end);
            assert(after.take(end as int) =~= v@.subrange(from as int, from + end));
            if a == b {
                None
            } else {
                Some(substring(body, a, b))
            }
        },
    }
}

/// What is stored for one ingested analysis.
pub struct NewLlmSummary {
    pub analyzed_at: String,
    pub model: Option<String>,
    pub status_summary: Option<String>,
    pub risks: Option<String>,
    pub recommendations: Option<String>,
    pub raw_content: String,
}

/// The record stored for an analysis document `content`, read at time `now`:
/// the frontmatter's `analyzed_at` (or `now` when it has none) and `model`,
/// the sections "## Project Status", "## Key Risks" and "## Recommendations"
/// of the body, and the whole document as it was read.
pub fn summary_from_document(content: &str, now: &str) -> (r: NewLlmSummary)
    ensures
        ({
            let (fm, body) = frontmatter_of(content@);
            &&& r.analyzed_at@ == if fm.contains_key("analyzed_at"@) {
                fm["analyzed_at"@]
            } else {
                now@
            }
            &&& opt_text(r.model) == if fm.contains_key("model"@) {
                Some(fm["model"@])
            } else {
                None
            }
            &&& opt_text(r.status_summary) == section_of(body, "## Project Status"@)
            &&& opt_text(r.risks) == section_of(body, "## Key Risks"@)
            &&& opt_text(r.recommendations) == section_of(body, "## Recommendations"@)
            &&& r.raw_content@ == content@
        }),
{
    let (fm, body) = parse_frontmatter(content);
    let analyzed_at = match fm.get("analyzed_at") {
        Some(s) => s.clone(),
        None => now.to_owned(),
    };
    let model = match fm.get("model") {
        Some(s) => Some(s.clone()),
        None => None,
    };
    let status_summary = extract_section(body.as_str(), "## Project Status");
    let risks = extract_section(body.as_str(), "## Key Risks");
    let recommendations = extract_section(body.as_str(), "## Recommendations");
    NewLlmSummary {
        analyzed_at,
        model,
        status_summary,
        risks,
        recommendations,
        raw_content: content.to_owned(),
    }
}

/// What `trim_start` leaves is empty or starts with a non-space.
proof fn lemma_trim_start_shape(s: Seq<char>)
    ensures
        trim_start(s).len() == 0 || !is_space(trim_start(s)[0]),
    decreases s.len(),
{
    if s.len() > 0 && is_space(s[0]) {
        lemma_trim_start_shape(s.drop_first());
    }
}

/// What `trim_end` leaves is a prefix of its input that is empty or ends
/// with a non-space.
proof fn lemma_trim_end_shape(s: Seq<char>)
    ensures
        trim_end(s).len() <= s.len(),
        trim_end(s) == s.take(trim_end(s).len() as int),
        trim_end(s).len() == 0 || !is_space(trim_end(s).last()),
    decreases s.len(),
{
    if s.len() > 0 && is_space(s.last()) {
        lemma_trim_end_shape(s.drop_last());
        assert(s.drop_last().take(trim_end(s).len() as int) =~= s.take(trim_end(s).len() as int));
    } else {
        assert(s.take(s.len() as int) =~= s);
    }
}

/// Trimming twice is trimming once.
pub proof fn lemma_trim_idempotent(s: Seq<char>)
    ensures
        trim(trim(s)) == trim(s),
{
    let t = trim_start(s);
    let u = trim_end(t);
    lemma_trim_start_shape(s);
    lemma_trim_end_shape(t);
    if u.len() > 0 {
        assert(u[0] == t[0]);
        assert(trim_start(u) == u);
        assert(trim_end(u) == u);
    } else {
        assert(trim_start(u) == u);
        assert(trim_end(u) == u);
    }
}

/// What a document is read into has no surrounding whitespace: its body,
/// and every section read from the body, which is never empty.
pub proof fn law_read_text_is_trimmed(content: Seq<char>, heading: Seq<char>)
    ensures
        trim(frontmatter_of(content).1) == frontmatter_of(content).1,
        section_of(frontmatter_of(content).1, heading) matches Some(sec) ==> sec.len() > 0 && trim(
            sec,
        ) == sec,
{
    let c = trim(content);
    lemma_trim_idempotent(content);
    if starts_with(c, dashes()) {
        let after = c.skip(3);
        if let Some(e) = find(after, dashes()) {
            lemma_trim_idempotent(after.skip(e + 3));
        }
    }
    let body = frontmatter_of(content).1;
    if let Some(st) = find(body, heading) {
        let after = body.skip(st + heading.len());
        let end = match find(after, next_heading()) {
            Some(e) => e,
            None => after.len() as int,
        };
        lemma_trim_idempotent(after.take(end));
    }
}

/// `p` occurs at `k` and nowhere before, so `find` answers `k`.
proof fn lemma_find_at(h: Seq<char>, p: Seq<char>, i: int, k: int)
    requires
        0 <= i <= k,
        occurs_at(h, p, k),
        forall|j: int| i <= j < k ==> !occurs_at(h, p, j),
    ensures
        find_from(h, p, i) == Some(k),
    decreases k - i,
{
    if i < k {
        lemma_find_at(h, p, i + 1, k);
    }
}

/// The first `c` in `x + [c] + y`, when `x` holds no `c`, is right after `x`.
proof fn lemma_find_char(x: Seq<char>, c: char, y: Seq<char>)
    requires
        forall|i: int| 0 <= i < x.len() ==> x[i] != c,
    ensures
        find(x + seq![c] + y, seq![c]) == Some(x.len() as int),
{
    let h = x + seq![c] + y;
    assert(h.subrange(x.len() as int, x.len() as int + 1) =~= seq![c]);
    assert forall|j: int| 0 <= j < x.len() implies !occurs_at(h, seq![c], j) by {
        assert(h.subrange(j, j + 1)[0] == x[j]);
    }
    lemma_find_at(h, seq![c], 0, x.len() as int);
}

/// A text without `c` has no first `c`.
proof fn lemma_find_char_none(x: Seq<char>, c: char)
    requires
        forall|i: int| 0 <= i < x.len() ==> x[i] != c,
    ensures
        find(x, seq![c]) is None,
{
    lemma_find(x, seq![c]);
    if let Some(k) = find(x, seq![c]) {
        assert(x.subrange(k, k + 1)[0] == x[k]);
    }
}

/// Trailing whitespace after a text that ends in a non-space belongs to the tail only.
proof fn lemma_trim_end_append(a: Seq<char>, b: Seq<char>)
    requires
        a.len() > 0,
        !is_space(a.last()),
    ensures
        trim_end(a + b) == a + trim_end(b),
    decreases b.len(),
{
    if b.len() == 0 {
        assert(a + b =~= a);
        assert(a + trim_end(b) =~= a);
    } else if is_space(b.last()) {
        assert((a + b).drop_last() =~= a + b.drop_last());
        lemma_trim_end_append(a, b.drop_last());
    } else {
    }
}

/// A text that starts and ends with non-spaces is its own trim.
proof fn lemma_trim_plain(s: Seq<char>)
    requires
        s.len() > 0,
        !is_space(s[0]),
        !is_space(s.last()),
    ensures
        trim(s) == s,
{
}

/// Removing trailing whitespace from a text with one more character in front.
proof fn lemma_trim_end_cons(c: char, y: Seq<char>)
    ensures
        trim_end(seq![c] + y) == if trim_end(y).len() == 0 && is_space(c) {
            Seq::<char>::empty()
        } else {
            seq![c] + trim_end(y)
        },
    decreases y.len(),
{
    let cy = seq![c] + y;
    if y.len() == 0 {
        assert(cy =~= seq![c]);
        assert(cy.last() == c);
        assert(cy.drop_last() =~= Seq::<char>::empty());
        assert(trim_end(Seq::<char>::empty()) == Seq::<char>::empty());
        assert(seq![c] + trim_end(y) =~= seq![c]);
    } else if is_space(y.last()) {
        assert(cy.last() == y.last());
        assert(cy.drop_last() =~= seq![c] + y.drop_last());
        lemma_trim_end_cons(c, y.drop_last());
    } else {
        assert(cy.last() == y.last());
        assert(trim_end(y) == y);
        assert(trim_end(cy) == cy);
    }
}

/// Trimming the front and trimming the back commute.
proof fn lemma_trim_commute(x: Seq<char>)
    ensures
        trim_start(trim_end(x)) == trim_end(trim_start(x)),
    decreases x.len(),
{
    if x.len() == 0 {
    } else if is_space(x[0]) {
        let x1 = x.drop_first();
        lemma_trim_commute(x1);
        assert(x =~= seq![x[0]] + x1);
        lemma_trim_end_cons(x[0], x1);
        if trim_end(x1).len() > 0 {
            assert((seq![x[0]] + trim_end(x1)).drop_first() =~= trim_end(x1));
        }
    } else if is_space(x.last()) {
        let x0 = x.drop_last();
        lemma_trim_commute(x0);
        assert(x0.len() > 0);
        assert(x0[0] == x[0]);
    } else {
    }
}

/// Removing trailing whitespace twice is removing it once.
proof fn lemma_trim_end_idempotent(x: Seq<char>)
    ensures
        trim_end(trim_end(x)) == trim_end(x),
{
    lemma_trim_end_shape(x);
}

/// Whether `s` holds no run of three dashes.
pub open spec fn no_dash_run(s: Seq<char>) -> bool {
    forall|i: int| !occurs_at(s, dashes(), i)
}

/// A text without dashes holds no run of them.
proof fn lemma_no_dash_no_run(s: Seq<char>)
    requires
        forall|i: int| 0 <= i < s.len() ==> s[i] != '-',
    ensures
        no_dash_run(s),
{
    assert forall|i: int| !occurs_at(s, dashes(), i) by {
        if occurs_at(s, dashes(), i) {
            assert(s.subrange(i, i + 3)[0] == s[i]);
        }
    }
}

/// Two texts without runs of three dashes make none when joined, unless
/// dashes meet at the seam.
proof fn lemma_no_dash_run_concat(x: Seq<char>, y: Seq<char>)
    requires
        no_dash_run(x),
        no_dash_run(y),
        x.len() == 0 || y.len() == 0 || x.last() != '-' || y[0] != '-',
    ensures
        no_dash_run(x + y),
{
    let h = x + y;
    assert forall|i: int| !occurs_at(h, dashes(), i) by {
        if occurs_at(h, dashes(), i) {
            let w = h.subrange(i, i + 3);
            if i + 3 <= x.len() {
                assert(x.subrange(i, i + 3) =~= w);
                assert(occurs_at(x, dashes(), i));
            } else if i >= x.len() {
                assert(y.subrange(i - x.len(), i - x.len() + 3) =~= w);
                assert(occurs_at(y, dashes(), i - x.len()));
            } else {
                assert(w[x.len() - 1 - i] == x.last());
                assert(w[x.len() - i] == y[0]);
            }
        }
    }
}

/// A value the tool writes into a frontmatter line reads back unchanged:
/// it has no newline, no run of three dashes, and no surrounding whitespace.
pub open spec fn plain_value(v: Seq<char>) -> bool {
    &&& forall|i: int| 0 <= i < v.len() ==> v[i] != '\n'
    &&& no_dash_run(v)
    &&& (v.len() == 0 || (!is_space(v[0]) && !is_space(v.last())))
}

/// A line `key: value` sets `key` to `value`.
proof fn lemma_apply_entry(m: Map<Seq<char>, Seq<char>>, k: Seq<char>, v: Seq<char>)
    requires
        k.len() > 0,
        !is_space(k[0]),
        !is_space(k.last()),
        forall|i: int| 0 <= i < k.len() ==> k[i] != ':',
        v.len() == 0 || (!is_space(v[0]) && !is_space(v.last())),
    ensures
        apply_line(m, k + seq![':', ' '] + v) == m.insert(k, v),
{
    let line = k + seq![':', ' '] + v;
    let t = trim(line);
    let tail = if v.len() == 0 { Seq::<char>::empty() } else { seq![' '] + v };
    assert(t == k + seq![':'] + tail) by {
        assert(line[0] == k[0]);
        if v.len() > 0 {
            assert(line.last() == v.last());
            lemma_trim_plain(line);
            assert(line =~= k + seq![':'] + tail);
        } else {
            assert(line =~= (k + seq![':']) + seq![' ']);
            lemma_trim_end_append(k + seq![':'], seq![' ']);
            assert(seq![' '].last() == ' ');
            assert(seq![' '].drop_last() =~= Seq::<char>::empty());
            assert(trim_end(Seq::<char>::empty()) == Seq::<char>::empty());
            assert(trim_end(seq![' ']) =~= Seq::<char>::empty());
            assert(k + seq![':'] + tail =~= k + seq![':']);
        }
    }
    lemma_find_char(k, ':', tail);
    assert(t.take(k.len() as int) =~= k);
    assert(t.skip(k.len() as int + 1) =~= tail);
    lemma_trim_plain(k);
    assert(trim(t.take(k.len() as int)) == k);
    if v.len() > 0 {
        assert((seq![' '] + v)[0] == ' ');
        assert((seq![' '] + v).drop_first() =~= v);
        assert(trim_start(seq![' '] + v) == trim_start(v));
        assert(trim_start(v) == v);
        assert(trim_end(v) == v);
    } else {
        assert(trim_start(tail) == tail);
        assert(trim_end(tail) == tail);
    }
    assert(trim(t.skip(k.len() as int + 1)) == v);
}

/// The lines between the two dashed rules of an exported document's header.
pub open spec fn header_block(now: Seq<char>, repo: Seq<char>, period: Seq<char>) -> Seq<char> {
    "\ngenerated_at: "@ + now + "\nrepo: "@ + repo + "\nperiod: "@ + period + "\n"@
}

/// The header block holds no run of three dashes.
proof fn lemma_header_block_no_run(now: Seq<char>, repo: Seq<char>, period: Seq<char>)
    requires
        plain_value(now),
        plain_value(repo),
        plain_value(period),
    ensures
        no_dash_run(header_block(now, repo, period)),
        header_block(now, repo, period).len() > 0,
        header_block(now, repo, period).last() == '\n',
{
    reveal_strlit("\ngenerated_at: ");
    reveal_strlit("\nrepo: ");
    reveal_strlit("\nperiod: ");
    reveal_strlit("\n");
    let a = "\ngenerated_at: "@;
    let b = "\nrepo: "@;
    let c = "\nperiod: "@;
    let d = "\n"@;
    lemma_no_dash_no_run(a);
    lemma_no_dash_no_run(b);
    lemma_no_dash_no_run(c);
    lemma_no_dash_no_run(d);
    lemma_no_dash_run_concat(a, now);
    lemma_no_dash_run_concat(a + now, b);
    lemma_no_dash_run_concat(a + now + b, repo);
    lemma_no_dash_run_concat(a + now + b + repo, c);
    lemma_no_dash_run_concat(a + now + b + repo + c, period);
    lemma_no_dash_run_concat(a + now + b + repo + c + period, d);
}

/// A line `key: value` holds no newline when the value holds none.
proof fn lemma_entry_one_line(k: Seq<char>, v: Seq<char>)
    requires
        forall|i: int| 0 <= i < k.len() ==> k[i] != '\n',
        forall|i: int| 0 <= i < v.len() ==> v[i] != '\n',
    ensures
        forall|i: int| 0 <= i < (k + seq![':', ' '] + v).len() ==> (k + seq![':', ' '] + v)[i] != '\n',
{
    let l = k + seq![':', ' '] + v;
    assert forall|i: int| 0 <= i < l.len() implies l[i] != '\n' by {
        if i >= k.len() + 2 {
            assert(l[i] == v[i - k.len() - 2]);
        } else if i < k.len() {
            assert(l[i] == k[i]);
        }
    }
}

/// The header block splits into its three entry lines, between an empty
/// first and an empty last piece.
proof fn lemma_header_block_lines(now: Seq<char>, repo: Seq<char>, period: Seq<char>)
    requires
        plain_value(now),
        plain_value(repo),
        plain_value(period),
    ensures
        split_lines(header_block(now, repo, period)) == seq![
            Seq::<char>::empty(),
            "generated_at"@ + seq![':', ' '] + now,
            "repo"@ + seq![':', ' '] + repo,
            "period"@ + seq![':', ' '] + period,
            Seq::<char>::empty(),
        ],
{
    reveal_strlit("\ngenerated_at: ");
    reveal_strlit("\nrepo: ");
    reveal_strlit("\nperiod: ");
    reveal_strlit("\n");
    reveal_strlit("generated_at");
    reveal_strlit("repo");
    reveal_strlit("period");
    let nl = seq!['\n'];
    let g = "generated_at"@ + seq![':', ' '] + now;
    let r = "repo"@ + seq![':', ' '] + repo;
    let p = "period"@ + seq![':', ' '] + period;
    let e = Seq::<char>::empty();
    let m = header_block(now, repo, period);
    assert(m =~= e + nl + (g + nl + (r + nl + (p + nl + e))));
    lemma_entry_one_line("generated_at"@, now);
    lemma_entry_one_line("repo"@, repo);
    lemma_entry_one_line("period"@, period);
    let rest2 = p + nl + e;
    let rest1 = r + nl + rest2;
    let rest0 = g + nl + rest1;
    lemma_find_char(e, '\n', rest0);
    lemma_find_char(g, '\n', rest1);
    lemma_find_char(r, '\n', rest2);
    lemma_find_char(p, '\n', e);
    lemma_find_char_none(e, '\n');
    assert(split_lines(e) == seq![e]);
    assert(rest2.take(p.len() as int) =~= p);
    assert(rest2.skip(p.len() as int + 1) =~= e);
    assert(split_lines(rest2) =~= seq![p, e]);
    assert(rest1.take(r.len() as int) =~= r);
    assert(rest1.skip(r.len() as int + 1) =~= rest2);
    assert(split_lines(rest1) =~= seq![r, p, e]);
    assert(rest0.take(g.len() as int) =~= g);
    assert(rest0.skip(g.len() as int + 1) =~= rest1);
    assert(split_lines(rest0) =~= seq![g, r, p, e]);
    assert(m.take(0) =~= e);
    assert(m.skip(1) =~= rest0);
    assert(split_lines(m) =~= seq![e, g, r, p, e]);
}

/// The lines of the header block set its three keys.
proof fn lemma_header_block_reads(now: Seq<char>, repo: Seq<char>, period: Seq<char>)
    requires
        plain_value(now),
        plain_value(repo),
        plain_value(period),
    ensures
        apply_lines(Map::empty(), split_lines(header_block(now, repo, period))) == Map::<
            Seq<char>,
            Seq<char>,
        >::empty().insert("generated_at"@, now).insert("repo"@, repo).insert("period"@, period),
{
    reveal_strlit("generated_at");
    reveal_strlit("repo");
    reveal_strlit("period");
    lemma_header_block_lines(now, repo, period);
    let kg = "generated_at"@;
    let kr = "repo"@;
    let kp = "period"@;
    let sep = seq![':', ' '];
    let g = kg + sep + now;
    let r = kr + sep + repo;
    let p = kp + sep + period;
    let e = Seq::<char>::empty();
    let m0 = Map::<Seq<char>, Seq<char>>::empty();
    assert(trim_start(e) == e);
    assert(trim_end(e) == e);
    lemma_find_char_none(e, ':');
    assert(apply_line(m0, e) == m0);
    lemma_apply_entry(m0, kg, now);
    let m1 = m0.insert(kg, now);
    lemma_apply_entry(m1, kr, repo);
    let m2 = m1.insert(kr, repo);
    lemma_apply_entry(m2, kp, period);
    let m3 = m2.insert(kp, period);
    assert(apply_line(m3, e) == m3);
    let lines = seq![e, g, r, p, e];
    assert(lines.drop_first() =~= seq![g, r, p, e]);
    assert(seq![g, r, p, e].drop_first() =~= seq![r, p, e]);
    assert(seq![r, p, e].drop_first() =~= seq![p, e]);
    assert(seq![p, e].drop_first() =~= seq![e]);
    assert(seq![e].drop_first() =~= Seq::<Seq<char>>::empty());
    assert(apply_lines(m3, seq![e]) == apply_lines(m3, Seq::<Seq<char>>::empty()));
    assert(apply_lines(m2, seq![p, e]) == apply_lines(m3, seq![e]));
    assert(apply_lines(m1, seq![r, p, e]) == apply_lines(m2, seq![p, e]));
    assert(apply_lines(m0, seq![g, r, p, e]) == apply_lines(m1, seq![r, p, e]));
    assert(apply_lines(m0, lines) == apply_lines(m0, seq![g, r, p, e]));
}

/// After a block without runs of three dashes that does not end in a dash,
/// the first run of three dashes is the one that follows the block.
proof fn lemma_closing_rule(m: Seq<char>, rest: Seq<char>)
    requires
        no_dash_run(m),
        m.len() > 0,
        m.last() != '-',
    ensures
        find(m + dashes() + rest, dashes()) == Some(m.len() as int),
{
    let after = m + dashes() + rest;
    assert(occurs_at(after, dashes(), m.len() as int)) by {
        assert(after.subrange(m.len() as int, m.len() as int + 3) =~= dashes());
    }
    assert forall|j: int| 0 <= j < m.len() implies !occurs_at(after, dashes(), j) by {
        if occurs_at(after, dashes(), j) {
            if j + 3 <= m.len() {
                assert(m.subrange(j, j + 3) =~= after.subrange(j, j + 3));
                assert(occurs_at(m, dashes(), j));
            } else {
                assert(after.subrange(j, j + 3)[m.len() - 1 - j] == m.last());
            }
        }
    }
    lemma_find_at(after, dashes(), 0, m.len() as int);
}

/// The blank line after the closing rule is trimmed away with the rest of
/// the body's surrounding whitespace.
proof fn lemma_body_after_rule(body: Seq<char>)
    ensures
        trim(trim_end(seq!['\n', '\n'] + body)) == trim(body),
{
    let b = seq!['\n', '\n'] + body;
    lemma_trim_commute(b);
    lemma_trim_end_idempotent(trim_start(b));
    let b1 = seq!['\n'] + body;
    assert(is_space('\n'));
    assert(b[0] == '\n');
    assert(b.drop_first() =~= b1);
    assert(trim_start(b) == trim_start(b1));
    assert(b1[0] == '\n');
    assert(b1.drop_first() =~= body);
    assert(trim_start(b1) == trim_start(body));
}

/// The frontmatter the tool writes at the head of an exported document reads
/// back as written: its three keys with their values, and the trimmed text
/// after it as the body.
pub proof fn law_exported_header_reads_back(
    now: Seq<char>,
    repo: Seq<char>,
    period: Seq<char>,
    body: Seq<char>,
)
    requires
        plain_value(now),
        plain_value(repo),
        plain_value(period),
    ensures
        frontmatter_of(crate::docs::doc_header(now, repo, period) + body).0 == Map::<
            Seq<char>,
            Seq<char>,
        >::empty().insert("generated_at"@, now).insert("repo"@, repo).insert("period"@, period),
        frontmatter_of(crate::docs::doc_header(now, repo, period) + body).1 == trim(body),
{
    reveal_strlit("---\ngenerated_at: ");
    reveal_strlit("\nrepo: ");
    reveal_strlit("\nperiod: ");
    reveal_strlit("\n---\n\n");
    reveal_strlit("\ngenerated_at: ");
    reveal_strlit("\n");
    let m = header_block(now, repo, period);
    let h0 = dashes() + m + dashes();
    let b = seq!['\n', '\n'] + body;
    let doc = crate::docs::doc_header(now, repo, period) + body;
    assert(doc =~= h0 + b);
    lemma_header_block_no_run(now, repo, period);
    lemma_header_block_reads(now, repo, period);
    // The document starts with a dash, so only its end is trimmed.
    assert(doc[0] == '-');
    assert(trim_start(doc) == doc);
    assert(h0.last() == '-');
    lemma_trim_end_append(h0, b);
    let c = trim(doc);
    assert(c == h0 + trim_end(b));
    assert(c.subrange(0, 3) =~= dashes());
    let after = c.skip(3);
    assert(after =~= m + dashes() + trim_end(b));
    lemma_closing_rule(m, trim_end(b));
    assert(after.take(m.len() as int) =~= m);
    assert(after.skip(m.len() as int + 3) =~= trim_end(b));
    lemma_body_after_rule(body);
}

/// A section runs from its heading to the next line that starts a level-two
/// heading, or to the end of the body, and is read trimmed, whatever blank
/// lines or lower-level headings it holds: for a body made of a text `pre`
/// in which the heading does not start, the heading, a text `m` without a
/// `"\n## "`, and a rest that is empty or starts a new level-two heading, the
/// section is `m` trimmed (`None` when that is empty).
pub proof fn law_section_runs_to_next_heading(
    pre: Seq<char>,
    h: Seq<char>,
    m: Seq<char>,
    rest: Seq<char>,
)
    requires
        forall|j: int| 0 <= j < pre.len() ==> !occurs_at(pre + h + m + rest, h, j),
        forall|j: int| !occurs_at(m, seq!['\n', '#', '#', ' '], j),
        rest.len() == 0 || (rest.len() >= 4 && rest.take(4) == seq!['\n', '#', '#', ' ']),
    ensures
        section_of(pre + h + m + rest, h) == if trim(m).len() == 0 {
            None
        } else {
            Some(trim(m))
        },
{
    let nh = seq!['\n', '#', '#', ' '];
    assert(nh =~= next_heading());
    let body = pre + h + m + rest;
    assert(body.subrange(pre.len() as int, pre.len() as int + h.len()) =~= h);
    lemma_find_at(body, h, 0, pre.len() as int);
    let after = body.skip(pre.len() as int + h.len());
    assert(after =~= m + rest);
    assert forall|j: int| 0 <= j < m.len() implies !occurs_at(after, nh, j) by {
        if occurs_at(after, nh, j) {
            if j + 4 <= m.len() {
                assert(m.subrange(j, j + 4) =~= after.subrange(j, j + 4));
                assert(occurs_at(m, nh, j));
            } else {
                assert(rest.len() > 0);
                assert(rest[0] == rest.take(4)[0]);
                assert(after[m.len() as int] == rest[0]);
                let k = m.len() - j;
                assert(1 <= k < 4);
                assert(after.subrange(j, j + 4)[k] == after[m.len() as int]);
                assert(nh[k] != '\n');
            }
        }
    }
    lemma_find(after, nh);
    if rest.len() == 0 {
        assert(after =~= m);
        if let Some(k) = find(after, nh) {
            assert(occurs_at(after, nh, k));
            assert(k < m.len());
        }
        assert(find(after, nh) is None);
        assert(after.take(after.len() as int) =~= m);
    } else {
        assert(after.subrange(m.len() as int, m.len() as int + 4) =~= rest.take(4));
        assert(occurs_at(after, nh, m.len() as int));
        lemma_find_at(after, nh, 0, m.len() as int);
        assert(after.take(m.len() as int) =~= m);
    }
}

} // verus!
