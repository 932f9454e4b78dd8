//! Status facts: what the reporting layer shows about each watched
//! repository, and the reading of the commit log that finds snapshots.
use vstd::prelude::*;
use crate::database::Timestamp;
use crate::snapshot::{marker_text, snapshot_message};
use crate::text::chars_of;

verus! {

/// The facts known about one watched repository at one moment.
#[derive(Debug)]
pub struct RepoStatus {
    pub path: String,
    pub exists: bool,
    pub is_git_repo: bool,
    pub last_backup: Option<Timestamp>,
    pub uncommitted_changes: bool,
    pub backup_count: usize,
}

// ---------------------------------------------------------------------------
// Reading `git log --format="%H %s"` output.

/// The pieces of `s` between line feeds; always at least one.
pub open spec fn pieces(s: Seq<char>) -> Seq<Seq<char>>
    decreases s.len(),
{
    if s.len() == 0 {
        seq![Seq::empty()]
    } else {
        let p = pieces(s.drop_last());
        if s.last() == '\n' {
            p.push(Seq::empty())
        } else {
            p.update(p.len() - 1, p.last().push(s.last()))
        }
    }
}

/// The lines of `s`: a final line feed ends the last line, it does not start
/// an empty one.
pub open spec fn log_lines(s: Seq<char>) -> Seq<Seq<char>> {
    let p = pieces(s);
    if p.len() > 0 && p.last().len() == 0 {
        p.drop_last()
    } else {
        p
    }
}

pub open spec fn trim_cr(l: Seq<char>) -> Seq<char> {
    if l.len() > 0 && l.last() == '\r' {
        l.drop_last()
    } else {
        l
    }
}

pub open spec fn ends_with(l: Seq<char>, m: Seq<char>) -> bool {
    l.len() >= m.len() && l.subrange(l.len() - m.len(), l.len() as int) == m
}

/// A line of a snapshot commit: its subject ends with the snapshot marker.
pub open spec fn is_backup_line(l: Seq<char>) -> bool {
    ends_with(trim_cr(l), marker_text())
}

/// Unicode white space, as `char::is_whitespace` has it.
pub open spec fn is_ws(c: char) -> bool {
    c == ' ' || ('\t' <= c && c <= '\r') || c == '\u{85}' || c == '\u{a0}' || c == '\u{1680}'
        || ('\u{2000}' <= c && c <= '\u{200a}') || c == '\u{2028}' || c == '\u{2029}' || c
        == '\u{202f}' || c == '\u{205f}' || c == '\u{3000}'
}

fn is_space(c: char) -> (r: bool)
    ensures
        r == is_ws(c),
{
    c == ' ' || ('\t' <= c && c <= '\r') || c == '\u{85}' || c == '\u{a0}' || c == '\u{1680}'
        || ('\u{2000}' <= c && c <= '\u{200a}') || c == '\u{2028}' || c == '\u{2029}' || c
        == '\u{202f}' || c == '\u{205f}' || c == '\u{3000}'
}

/// `l[a..b]` is the first whitespace-separated word of `l` (empty when
/// `l` is blank).
pub open spec fn token_at(l: Seq<char>, a: int, b: int) -> bool {
    &&& 0 <= a <= b <= l.len()
    &&& forall|k: int| 0 <= k < a ==> is_ws(#[trigger] l[k])
    &&& a == l.len() || !is_ws(l[a])
    &&& forall|k: int| a <= k < b ==> !is_ws(#[trigger] l[k])
    &&& b == l.len() || is_ws(l[b])
}

pub open spec fn first_token(l: Seq<char>) -> Seq<char> {
    let (a, b) = choose|a: int, b: int| token_at(l, a, b);
    l.subrange(a, b)
}

pub open spec fn is_hex(c: char) -> bool {
    ('0' <= c && c <= '9') || ('a' <= c && c <= 'f') || ('A' <= c && c <= 'F')
}

/// Text accepted as a (possibly abbreviated) object id: one to forty hex
/// digits.
pub open spec fn object_id_text(s: Seq<char>) -> bool {
    0 < s.len() <= 40 && forall|i: int| 0 <= i < s.len() ==> is_hex(#[trigger] s[i])
}

pub open spec fn backup_count(lines: Seq<Seq<char>>) -> nat
    decreases lines.len(),
{
    if lines.len() == 0 {
        0
    } else {
        backup_count(lines.drop_last()) + if is_backup_line(lines.last()) {
            1nat
        } else {
            0nat
        }
    }
}

/// The commit ids named by the snapshot lines, where they parse as ids.
pub open spec fn backup_ids(lines: Seq<Seq<char>>) -> Seq<Seq<char>>
    decreases lines.len(),
{
    if lines.len() == 0 {
        Seq::empty()
    } else {
        let p = backup_ids(lines.drop_last());
        let l = lines.last();
        if is_backup_line(l) && object_id_text(first_token(trim_cr(l))) {
            p.push(first_token(trim_cr(l)))
        } else {
            p
        }
    }
}

/// Relies on git2::Oid::from_str, which (through libgit2's
/// git_oid_fromstrn) accepts one to forty hex digits and nothing else.
#[verifier::external_body]
fn parses_as_oid(s: &str) -> (r: bool)
    ensures
        r == object_id_text(s@),
{
    git2::Oid::from_str(s).is_ok()
}

/// Relies on collecting chars into a String (std's FromIterator<char>).
#[verifier::external_body]
fn string_from_chars(cs: &[char]) -> (r: String)
    ensures
        r@ == cs@,
{
    cs.iter().collect()
}

/// The snapshot commits found in a log listing.
pub struct BackupLog {
    /// How many lines carry the snapshot marker.
    pub count: usize,
    /// The ids those lines start with, in order, where they parse as ids.
    pub candidates: Vec<String>,
}

proof fn lemma_token_unique(l: Seq<char>, a: int, b: int, a2: int, b2: int)
    requires
        token_at(l, a, b),
        token_at(l, a2, b2),
    ensures
        a == a2 && b == b2,
{
    if a < a2 {
        assert(is_ws(l[a]));
    } else if a2 < a {
        assert(is_ws(l[a2]));
    }
    if b < b2 {
        assert(!is_ws(l[b]));
    } else if b2 < b {
        assert(!is_ws(l[b2]));
    }
}

/// Reads one line, `cs[start..end]`, into the running tally.
fn scan_line(
    cs: &Vec<char>,
    start: usize,
    end: usize,
    marker: &Vec<char>,
    count: &mut usize,
    cands: &mut Vec<String>,
)
    requires
        start <= end <= cs@.len(),
        marker@ == marker_text(),
        *old(count) < usize::MAX,
    ensures
        *final(count) == *old(count) + if is_backup_line(cs@.subrange(start as int, end as int)) {
            1int
        } else {
            0int
        },
        ({
            let l = cs@.subrange(start as int, end as int);
            final(cands)@.map_values(|s: String| s@) == if is_backup_line(l) && object_id_text(
                first_token(trim_cr(l)),
            ) {
                old(cands)@.map_values(|s: String| s@).push(first_token(trim_cr(l)))
            } else {
                old(cands)@.map_values(|s: String| s@)
            }
        }),
{
    let ghost l = cs@.subrange(start as int, end as int);
    let mut e = end;
    if e > start && cs[e - 1] == '\r' {
        e = e - 1;
    }
    let ghost t = cs@.subrange(start as int, e as int);
    assert(t =~= trim_cr(l));
    // Does the trimmed line end with the marker?
    let m = marker.len();
    let mut hit = e - start >= m;
    if hit {
        let base = e - m;
        let mut k: usize = 0;
        while k < m
            invariant
                base + m == e,
                start <= base,
                e <= cs@.len(),
                m == marker@.len(),
                k <= m,
                hit == forall|j: int| 0 <= j < k ==> cs@[base + j] == marker@[j],
            decreases m - k,
        {
            if cs[base + k] != marker[k] {
                hit = false;
            }
            k = k + 1;
        }
        assert(hit == (t.subrange(t.len() - m, t.len() as int) =~= marker@));
    }
    assert(hit == is_backup_line(l));
    if !hit {
        return;
    }
    *count = *count + 1;
    // The first word of the trimmed line.
    let mut a = start;
    while a < e && is_space(cs[a])
        invariant
            start <= a <= e,
            e <= cs@.len(),
            forall|k: int| start <= k < a ==> is_ws(#[trigger] cs@[k]),
        decreases e - a,
    {
        a = a + 1;
    }
    let mut b = a;
    let mut word: Vec<char> = Vec::new();
    while b < e && !is_space(cs[b])
        invariant
            start <= a <= b <= e,
            e <= cs@.len(),
            forall|k: int| a <= k < b ==> !is_ws(#[trigger] cs@[k]),
            word@ == cs@.subrange(a as int, b as int),
        decreases e - b,
    {
        word.push(cs[b]);
        b = b + 1;
        assert(word@ =~= cs@.subrange(a as int, b as int));
    }
    proof {
        let (a0, b0) = (a - start, b - start);
        assert(token_at(t, a0 as int, b0 as int)) by {
            assert forall|k: int| 0 <= k < a0 implies is_ws(#[trigger] t[k]) by {
                assert(t[k] == cs@[start + k]);
            }
            assert forall|k: int| a0 <= k < b0 implies !is_ws(#[trigger] t[k]) by {
                assert(t[k] == cs@[start + k]);
            }
        }
        let (a1, b1) = choose|a1: int, b1: int| token_at(t, a1, b1);
        lemma_token_unique(t, a1, b1, a0 as int, b0 as int);
        assert(first_token(t) =~= word@);
    }
    let s = string_from_chars(word.as_slice());
    if parses_as_oid(s.as_str()) {
        cands.push(s);
        assert(final(cands)@.map_values(|s: String| s@) =~= old(cands)@.map_values(
            |s: String| s@,
        ).push(first_token(trim_cr(l))));
    }
}

/// Reads the output of `git log --all --format="%H %s"`: counts the lines
/// whose subject ends with the snapshot marker and collects the ids they
/// start with.
pub fn scan_backup_log(log: &str) -> (r: BackupLog)
    ensures
        r.count == backup_count(log_lines(log@)),
        r.candidates@.map_values(|s: String| s@) == backup_ids(log_lines(log@)),
{
    let cs = chars_of(log);
    let mchars = chars_of(snapshot_message());
    let n = cs.len();
    let mut count: usize = 0;
    let mut cands: Vec<String> = Vec::new();
    let mut start: usize = 0;
    let mut i: usize = 0;
    let ghost mut done: Seq<Seq<char>> = Seq::empty();
    assert(cs@.take(0) =~= Seq::<char>::empty());
    assert(cs@.subrange(0, 0) =~= Seq::<char>::empty());
    while i < n
        invariant
            n == cs@.len(),
            cs@ == log@,
            mchars@ == marker_text(),
            0 <= start <= i <= n,
            done.len() <= start,
            pieces(cs@.take(i as int)) == done.push(cs@.subrange(start as int, i as int)),
            count == backup_count(done),
            count <= done.len(),
            cands@.map_values(|s: String| s@) == backup_ids(done),
        decreases n - i,
    {
        let ghost pre = cs@.take(i as int);
        assert(cs@.take(i + 1).drop_last() =~= pre);
        if cs[i] == '\n' {
            scan_line(&cs, start, i, &mchars, &mut count, &mut cands);
            proof {
                let l = cs@.subrange(start as int, i as int);
                let d2 = done.push(l);
                assert(d2.drop_last() =~= done);
                done = d2;
                assert(cs@.subrange(i + 1, i + 1) =~= Seq::<char>::empty());
            }
            start = i + 1;
        } else {
            proof {
                let p = done.push(cs@.subrange(start as int, i as int));
                assert(p.last() == cs@.subrange(start as int, i as int));
                assert(cs@.subrange(start as int, i as int).push(cs@[i as int]) =~= cs@.subrange(
                    start as int,
                    i + 1,
                ));
                assert(p.update(p.len() - 1, p.last().push(cs@[i as int])) =~= done.push(
                    cs@.subrange(start as int, i + 1),
                ));
            }
        }
        i = i + 1;
    }
    assert(cs@.take(n as int) =~= cs@);
    if start < n {
        scan_line(&cs, start, n, &mchars, &mut count, &mut cands);
        proof {
            let l = cs@.subrange(start as int, n as int);
            assert(log_lines(cs@) == done.push(l));
            assert(done.push(l).drop_last() =~= done);
        }
    } else {
        assert(log_lines(cs@) =~= done);
    }
    BackupLog { count, candidates: cands }
}

// ---------------------------------------------------------------------------
// The latest snapshot.

/// The index of the latest snapshot among commit times read for the
/// candidates (`None` where a commit could not be read): the first strictly
/// greatest positive time.
pub open spec fn latest_spec(ts: Seq<Option<i64>>) -> Option<int>
    decreases ts.len(),
{
    if ts.len() == 0 {
        None
    } else {
        let p = latest_spec(ts.drop_last());
        let best: int = match p {
            Some(i) => match ts[i] {
                Some(t) => t as int,
                None => 0,
            },
            None => 0,
        };
        match ts.last() {
            Some(t) if t > best => Some(ts.len() - 1),
            _ => p,
        }
    }
}

proof fn lemma_latest_in_range(ts: Seq<Option<i64>>)
    ensures
        latest_spec(ts) matches Some(i) ==> 0 <= i < ts.len() && ts[i] is Some && ts[i]->0 > 0,
    decreases ts.len(),
{
    if ts.len() > 0 {
        lemma_latest_in_range(ts.drop_last());
    }
}

/// N more snapshot lines in a log add exactly N to the backup count.
pub proof fn lemma_backup_count_grows(old_lines: Seq<Seq<char>>, new_lines: Seq<Seq<char>>)
    requires
        forall|k: int| 0 <= k < new_lines.len() ==> is_backup_line(#[trigger] new_lines[k]),
    ensures
        backup_count(old_lines + new_lines) == backup_count(old_lines) + new_lines.len(),
    decreases new_lines.len(),
{
    if new_lines.len() == 0 {
        assert(old_lines + new_lines =~= old_lines);
    } else {
        let d = new_lines.drop_last();
        assert forall|k: int| 0 <= k < d.len() implies is_backup_line(#[trigger] d[k]) by {
            assert(d[k] == new_lines[k]);
        }
        lemma_backup_count_grows(old_lines, d);
        assert((old_lines + new_lines).drop_last() =~= old_lines + d);
        assert((old_lines + new_lines).last() == new_lines[new_lines.len() - 1]);
    }
}

/// A commit whose positive time is strictly later than every other one read
/// is the one picked as the latest snapshot.
pub proof fn lemma_latest_is_newest(ts: Seq<Option<i64>>, j: int, t: i64)
    requires
        0 <= j < ts.len(),
        ts[j] == Some(t),
        t > 0,
        forall|i: int| 0 <= i < ts.len() && i != j ==> (#[trigger] ts[i] matches Some(u) ==> u < t),
    ensures
        latest_spec(ts) == Some(j),
    decreases ts.len(),
{
    let n = ts.len() - 1;
    let d = ts.drop_last();
    lemma_latest_in_range(d);
    if j < n {
        assert forall|i: int| 0 <= i < d.len() && i != j implies (#[trigger] d[i] matches Some(u)
            ==> u < t) by {
            assert(d[i] == ts[i]);
        }
        lemma_latest_is_newest(d, j, t);
        assert(d[j] == ts[j]);
        assert(ts[n] matches Some(u) ==> u < t);
    } else {
        match latest_spec(d) {
            Some(i) => {
                assert(d[i] == ts[i]);
            },
            None => {},
        }
    }
}

pub fn latest_backup(times: &Vec<Option<i64>>) -> (r: Option<usize>)
    ensures
        match r {
            Some(i) => latest_spec(times@) == Some(i as int),
            None => latest_spec(times@) is None,
        },
{
    let mut best: Option<usize> = None;
    let mut best_time: i64 = 0;
    let mut i: usize = 0;
    while i < times.len()
        invariant
            i <= times@.len(),
            match best {
                Some(j) => latest_spec(times@.take(i as int)) == Some(j as int) && j < i
                    && times@[j as int] == Some(best_time),
                None => latest_spec(times@.take(i as int)) is None && best_time == 0,
            },
        decreases times@.len() - i,
    {
        let ghost pre = times@.take(i as int);
        assert(times@.take(i + 1).drop_last() =~= pre);
        proof {
            lemma_latest_in_range(pre);
        }
        match times[i] {
            Some(t) => {
                if t > best_time {
                    best = Some(i);
                    best_time = t;
                }
            },
            None => {},
        }
        i = i + 1;
    }
    assert(times@.take(times@.len() as int) =~= times@);
    best
}

// ---------------------------------------------------------------------------
// Working-tree changes and the overall summary.

/// The status bit (libgit2's `git_status_t`) of an ignored file.
pub const IGNORED_BIT: u32 = 16384;

/// Whether a status entry is an uncommitted change: any difference in the
/// index or the working tree (new, modified, deleted, renamed, type change,
/// conflict, untracked), but not a file that is merely ignored.
pub fn is_change(bits: u32) -> (r: bool)
    ensures
        r == (bits & !IGNORED_BIT != 0),
{
    bits & !IGNORED_BIT != 0
}

/// Totals over a set of repository facts.
#[derive(PartialEq, Eq, Structural, Debug, Clone, Copy)]
pub struct StatusSummary {
    pub total: usize,
    pub accessible: usize,
    pub with_changes: usize,
    /// The sum of the backup counts, saturated at `usize::MAX`.
    pub total_backups: usize,
}

pub open spec fn accessible_count(s: Seq<RepoStatus>) -> nat
    decreases s.len(),
{
    if s.len() == 0 {
        0
    } else {
        accessible_count(s.drop_last()) + if s.last().exists && s.last().is_git_repo {
            1nat
        } else {
            0nat
        }
    }
}

pub open spec fn changed_count(s: Seq<RepoStatus>) -> nat
    decreases s.len(),
{
    if s.len() == 0 {
        0
    } else {
        changed_count(s.drop_last()) + if s.last().exists && s.last().is_git_repo
            && s.last().uncommitted_changes {
            1nat
        } else {
            0nat
        }
    }
}

pub open spec fn backups_sum(s: Seq<RepoStatus>) -> nat
    decreases s.len(),
{
    if s.len() == 0 {
        0
    } else {
        backups_sum(s.drop_last()) + if s.last().exists && s.last().is_git_repo {
            s.last().backup_count as nat
        } else {
            0nat
        }
    }
}

pub open spec fn saturate(n: nat) -> usize {
    if n > usize::MAX {
        usize::MAX
    } else {
        n as usize
    }
}

/// Totals for the summary: repositories, those that exist and open, those
/// with uncommitted changes, and their snapshots.
pub fn summarize(facts: &Vec<RepoStatus>) -> (r: StatusSummary)
    ensures
        r.total == facts@.len(),
        r.accessible == accessible_count(facts@),
        r.with_changes == changed_count(facts@),
        r.total_backups == saturate(backups_sum(facts@)),
{
    let mut accessible: usize = 0;
    let mut with_changes: usize = 0;
    let mut total_backups: usize = 0;
    let mut i: usize = 0;
    while i < facts.len()
        invariant
            i <= facts@.len(),
            accessible == accessible_count(facts@.take(i as int)),
            with_changes == changed_count(facts@.take(i as int)),
            total_backups == saturate(backups_sum(facts@.take(i as int))),
            accessible <= i,
            with_changes <= i,
        decreases facts@.len() - i,
    {
        assert(facts@.take(i + 1).drop_last() =~= facts@.take(i as int));
        let f = &facts[i];
        if f.exists && f.is_git_repo {
            accessible = accessible + 1;
            if f.uncommitted_changes {
                with_changes = with_changes + 1;
            }
            if total_backups <= usize::MAX - f.backup_count {
                total_backups = total_backups + f.backup_count;
            } else {
                total_backups = usize::MAX;
            }
        }
        i = i + 1;
    }
    assert(facts@.take(facts@.len() as int) =~= facts@);
    StatusSummary { total: facts.len(), accessible, with_changes, total_backups }
}

} // verus!
