//! The snapshot engine's decisions: whether a freshly built tree deserves a
//! commit, what that commit's parent and identity are, and where it is
//! recorded. Building the tree and writing objects is done by the caller,
//! which hands the object ids in as hex strings.
use vstd::prelude::*;
use crate::config::Config;

verus! {

/// A commit and the tree it records, as hex object ids.
pub struct CommitRef {
    pub commit: String,
    pub tree: String,
}

/// The mathematical content of a `CommitRef`.
pub struct Point {
    pub commit: Seq<char>,
    pub tree: Seq<char>,
}

impl View for CommitRef {
    type V = Point;

    open spec fn view(&self) -> Point {
        Point { commit: self.commit@, tree: self.tree@ }
    }
}

pub open spec fn opt_view(p: Option<CommitRef>) -> Option<Point> {
    match p {
        Some(c) => Some(c@),
        None => None,
    }
}

/// What one snapshot cycle should do.
pub enum SnapshotPlan {
    /// The tree equals the one last recorded: nothing is written.
    Unchanged,
    /// Write a commit of `tree` with the given parent and advance the backup
    /// reference to it.
    Commit { parent: Option<String>, tree: String },
}

pub enum PlanView {
    Unchanged,
    Commit { parent: Option<Seq<char>>, tree: Seq<char> },
}

impl View for SnapshotPlan {
    type V = PlanView;

    open spec fn view(&self) -> PlanView {
        match self {
            SnapshotPlan::Unchanged => PlanView::Unchanged,
            SnapshotPlan::Commit { parent, tree } => PlanView::Commit {
                parent: match parent {
                    Some(p) => Some(p@),
                    None => None,
                },
                tree: tree@,
            },
        }
    }
}

/// The commit a new snapshot is compared with and chained to: the tip of the
/// backup line, or the checked-out commit when the line is still empty.
pub open spec fn base_of(tip: Option<Point>, head: Option<Point>) -> Option<Point> {
    if tip is Some {
        tip
    } else {
        head
    }
}

pub open spec fn plan_spec(tip: Option<Point>, head: Option<Point>, tree: Seq<char>) -> PlanView {
    match base_of(tip, head) {
        Some(b) => if b.tree == tree {
            PlanView::Unchanged
        } else {
            PlanView::Commit { parent: Some(b.commit), tree }
        },
        None => PlanView::Commit { parent: None, tree },
    }
}

/// Decides what a cycle does with the tree `tree` built from the working
/// directory, given the backup line's tip and the checked-out commit.
pub fn plan_snapshot(tip: &Option<CommitRef>, head: &Option<CommitRef>, tree: &String) -> (r:
    SnapshotPlan)
    ensures
        r@ == plan_spec(opt_view(*tip), opt_view(*head), tree@),
{
    let base: Option<&CommitRef> = match tip {
        Some(t) => Some(t),
        None => match head {
            Some(h) => Some(h),
            None => None,
        },
    };
    match base {
        Some(b) => {
            if b.tree == *tree {
                SnapshotPlan::Unchanged
            } else {
                SnapshotPlan::Commit { parent: Some(b.commit.clone()), tree: tree.clone() }
            }
        },
        None => SnapshotPlan::Commit { parent: None, tree: tree.clone() },
    }
}

pub open spec fn marker_text() -> Seq<char> {
    "dura auto-backup"@
}

/// The message of every snapshot commit; it is how snapshots are told apart
/// from ordinary history.
pub fn snapshot_message() -> (r: &'static str)
    ensures
        r@ == marker_text(),
{
    "dura auto-backup"
}

pub open spec fn backup_prefix() -> Seq<char> {
    "refs/dura/"@
}

/// The reference that holds the backup line of snapshots taken while the
/// commit `head_commit` is checked out.
pub fn backup_ref_name(head_commit: &String) -> (r: String)
    ensures
        r@ == backup_prefix() + head_commit@,
{
    let mut r = String::from_str("refs/dura/");
    r.append(head_commit.as_str());
    r
}

/// A backup reference is never the symbolic HEAD nor a branch, so advancing
/// it leaves the checked-out branch alone.
pub proof fn lemma_backup_ref_reserved(head_commit: Seq<char>, branch: Seq<char>)
    ensures
        backup_prefix() + head_commit != "HEAD"@,
        backup_prefix() + head_commit != "refs/heads/"@ + branch,
{
    reveal_strlit("refs/dura/");
    reveal_strlit("HEAD");
    reveal_strlit("refs/heads/");
    assert((backup_prefix() + head_commit)[0] == 'r');
    assert(("HEAD"@)[0] == 'H');
    assert((backup_prefix() + head_commit)[5] == 'd');
    assert(("refs/heads/"@ + branch)[5] == 'h');
}

/// The name and e-mail that sign snapshot commits.
pub struct Identity {
    pub name: String,
    pub email: String,
}

pub open spec fn default_name() -> Seq<char> {
    "dura"@
}

pub open spec fn default_email() -> Seq<char> {
    "dura@github.io"@
}

/// One field of the identity: the configured override, else the repository's
/// own setting unless that is excluded, else the fallback.
pub open spec fn pick(
    over: Option<String>,
    exclude_repo: bool,
    from_repo: Option<String>,
    fallback: Seq<char>,
) -> Seq<char> {
    match over {
        Some(v) => v@,
        None => match from_repo {
            Some(v) if !exclude_repo => v@,
            _ => fallback,
        },
    }
}

fn pick_field(over: &Option<String>, exclude_repo: bool, from_repo: Option<String>, fallback: &str) -> (r:
    String)
    ensures
        r@ == pick(*over, exclude_repo, from_repo, fallback@),
{
    match over {
        Some(v) => v.clone(),
        None => match from_repo {
            Some(v) if !exclude_repo => v,
            _ => String::from_str(fallback),
        },
    }
}

/// Chooses the identity of a snapshot commit: the configured author and
/// e-mail win; otherwise the repository's `user.name` / `user.email`, which
/// the caller read, are used unless the configuration excludes them; otherwise
/// a fixed identity.
pub fn commit_identity(cfg: &Config, repo_name: Option<String>, repo_email: Option<String>) -> (r:
    Identity)
    ensures
        r.name@ == pick(cfg.commit_author, cfg.commit_exclude_git_config, repo_name, default_name()),
        r.email@ == pick(
            cfg.commit_email,
            cfg.commit_exclude_git_config,
            repo_email,
            default_email(),
        ),
{
    let name = pick_field(&cfg.commit_author, cfg.commit_exclude_git_config, repo_name, "dura");
    let email = pick_field(
        &cfg.commit_email,
        cfg.commit_exclude_git_config,
        repo_email,
        "dura@github.io",
    );
    Identity { name, email }
}

// ---------------------------------------------------------------------------
// A model of a repository under repeated snapshot cycles.

/// One commit on the backup line.
pub struct Record {
    pub id: Seq<char>,
    pub parent: Option<Seq<char>>,
    pub tree: Seq<char>,
    pub time: int,
}

/// What a cycle may touch, and what it must not: the symbolic HEAD, the
/// checked-out commit and the index.
pub struct RepoModel {
    pub head_ref: Seq<char>,
    pub head: Option<Point>,
    pub index: Seq<u8>,
    pub line: Seq<Record>,
}

pub open spec fn tip_of(line: Seq<Record>) -> Option<Point> {
    if line.len() == 0 {
        None
    } else {
        Some(Point { commit: line.last().id, tree: line.last().tree })
    }
}

/// One cycle: the plan is computed and, when it asks for a commit, the commit
/// `id` made at `time` is appended to the backup line.
pub open spec fn cycle(m: RepoModel, tree: Seq<char>, id: Seq<char>, time: int) -> RepoModel {
    match plan_spec(tip_of(m.line), m.head, tree) {
        PlanView::Unchanged => m,
        PlanView::Commit { parent, tree } => RepoModel {
            line: m.line.push(Record { id, parent, tree, time }),
            ..m
        },
    }
}

/// `trees.len()` cycles in a row; cycle `k` builds `trees[k]` and would name
/// its commit `ids[k]`, made at `times[k]`.
pub open spec fn cycles(m: RepoModel, trees: Seq<Seq<char>>, ids: Seq<Seq<char>>, times: Seq<int>) -> RepoModel
    decreases trees.len(),
{
    if trees.len() == 0 {
        m
    } else {
        let n = (trees.len() - 1) as int;
        cycle(cycles(m, trees.take(n), ids, times), trees[n], ids[n], times[n])
    }
}

/// Running a cycle twice on an unchanged working tree commits at most once:
/// the second run changes nothing, and the first adds exactly one commit
/// unless the tree was already recorded.
pub proof fn lemma_snapshot_idempotent(
    m: RepoModel,
    tree: Seq<char>,
    id1: Seq<char>,
    t1: int,
    id2: Seq<char>,
    t2: int,
)
    ensures
        cycle(cycle(m, tree, id1, t1), tree, id2, t2) == cycle(m, tree, id1, t1),
        cycle(m, tree, id1, t1).line.len() == m.line.len() + (if base_of(tip_of(m.line), m.head)
            matches Some(b) && b.tree == tree {
            0int
        } else {
            1int
        }),
{
}

/// However many cycles run, HEAD, the checked-out commit and the index stay
/// exactly as they were.
pub proof fn lemma_non_disturbance(
    m: RepoModel,
    trees: Seq<Seq<char>>,
    ids: Seq<Seq<char>>,
    times: Seq<int>,
)
    ensures
        cycles(m, trees, ids, times).head_ref == m.head_ref,
        cycles(m, trees, ids, times).head == m.head,
        cycles(m, trees, ids, times).index == m.index,
        cycles(m, trees, ids, times).line.len() >= m.line.len(),
        cycles(m, trees, ids, times).line.take(m.line.len() as int) == m.line,
    decreases trees.len(),
{
    if trees.len() > 0 {
        let n = (trees.len() - 1) as int;
        lemma_non_disturbance(m, trees.take(n), ids, times);
        let p = cycles(m, trees.take(n), ids, times);
        let q = cycles(m, trees, ids, times);
        assert(q == cycle(p, trees[n], ids[n], times[n]));
        if q.line.len() > p.line.len() {
            assert(q.line == p.line.push(q.line.last()));
            assert(q.line.take(m.line.len() as int) =~= p.line.take(m.line.len() as int));
        }
    }
}

/// Distinct consecutive trees give one commit per cycle, each chained to the
/// one before it (the first to the previous base) and stamped with its
/// cycle's time, so the commits' times are in the order the clock gave.
pub proof fn lemma_history_chain(
    m: RepoModel,
    trees: Seq<Seq<char>>,
    ids: Seq<Seq<char>>,
    times: Seq<int>,
)
    requires
        ids.len() == trees.len(),
        times.len() == trees.len(),
        trees.len() > 0 ==> !(base_of(tip_of(m.line), m.head) matches Some(b) && b.tree
            == trees[0]),
        forall|k: int| 0 < k < trees.len() ==> #[trigger] trees[k] != trees[k - 1],
    ensures
        ({
            let r = cycles(m, trees, ids, times).line;
            let n0 = m.line.len() as int;
            &&& r.len() == n0 + trees.len()
            &&& r.take(n0) == m.line
            &&& forall|k: int|
                0 <= k < trees.len() ==> #[trigger] r[n0 + k].id == ids[k] && r[n0 + k].tree
                    == trees[k] && r[n0 + k].time == times[k]
            &&& forall|k: int| 0 < k < trees.len() ==> #[trigger] r[n0 + k].parent == Some(r[n0 + k - 1].id)
            &&& trees.len() > 0 ==> r[n0].parent == match base_of(tip_of(m.line), m.head) {
                Some(b) => Some(b.commit),
                None => None,
            }
            &&& forall|k: int|
                0 < k < trees.len() ==> (times[k - 1] < times[k] ==> #[trigger] r[n0 + k - 1].time
                    < r[n0 + k].time)
        }),
    decreases trees.len(),
{
    let n0 = m.line.len() as int;
    if trees.len() > 0 {
        let n = (trees.len() - 1) as int;
        let tt = trees.take(n);
        let it = ids.take(n);
        let mt = times.take(n);
        assert forall|k: int| 0 < k < tt.len() implies #[trigger] tt[k] != tt[k - 1] by {
            assert(tt[k] == trees[k] && tt[k - 1] == trees[k - 1]);
        }
        lemma_history_chain(m, tt, it, mt);
        lemma_cycles_extra(m, tt, ids, times, it, mt);
        let p = cycles(m, tt, ids, times);
        let q = cycles(m, trees, ids, times);
        assert(q == cycle(p, trees[n], ids[n], times[n]));
        if n > 0 {
            let j = n - 1;
            assert(p.line[n0 + j].id == it[j] && p.line[n0 + j].tree == tt[j]);
            assert(p.line.last() == p.line[n0 + j]);
            assert(tip_of(p.line) == Some(Point { commit: ids[n - 1], tree: trees[n - 1] }));
        }
        assert(q.line == p.line.push(Record {
            id: ids[n],
            parent: q.line.last().parent,
            tree: trees[n],
            time: times[n],
        }));
        assert(q.line.take(n0) =~= p.line.take(n0));
        assert forall|k: int| 0 <= k < trees.len() implies #[trigger] q.line[n0 + k].id == ids[k]
            && q.line[n0 + k].tree == trees[k] && q.line[n0 + k].time == times[k] by {
            if k < n {
                assert(q.line[n0 + k] == p.line[n0 + k]);
                assert(it[k] == ids[k] && tt[k] == trees[k] && mt[k] == times[k]);
                assert(p.line[n0 + k].id == it[k]);
            } else {
                assert(p.line.len() == n0 + n);
                assert(q.line[n0 + k] == q.line[p.line.len() as int]);
            }
        }
        assert forall|k: int| 0 < k < trees.len() implies #[trigger] q.line[n0 + k].parent == Some(
            q.line[n0 + k - 1].id,
        ) by {
            if k < n {
                assert(q.line[n0 + k] == p.line[n0 + k]);
                assert(q.line[n0 + k - 1] == p.line[n0 + k - 1]);
            }
        }
        assert forall|k: int| 0 < k < trees.len() implies (times[k - 1] < times[k]
            ==> #[trigger] q.line[n0 + k - 1].time < q.line[n0 + k].time) by {
            let j = k - 1;
            assert(q.line[n0 + j].id == ids[j]);
            assert(q.line[n0 + k].id == ids[k]);
            assert(n0 + j == n0 + k - 1);
        }
        if n > 0 {
            assert(q.line[n0] == p.line[n0]);
        }
    }
}

/// No two consecutive snapshots on the backup line record the same tree.
pub open spec fn no_repeats(line: Seq<Record>) -> bool {
    forall|k: int| 0 < k < line.len() ==> #[trigger] line[k].tree != line[k - 1].tree
}

/// Cycles never commit a tree equal to the one last recorded: a line without
/// such repeats keeps having none.
pub proof fn lemma_no_noop_commits(
    m: RepoModel,
    trees: Seq<Seq<char>>,
    ids: Seq<Seq<char>>,
    times: Seq<int>,
)
    requires
        no_repeats(m.line),
    ensures
        no_repeats(cycles(m, trees, ids, times).line),
    decreases trees.len(),
{
    if trees.len() > 0 {
        let n = (trees.len() - 1) as int;
        lemma_no_noop_commits(m, trees.take(n), ids, times);
        let p = cycles(m, trees.take(n), ids, times);
        let q = cycles(m, trees, ids, times);
        assert(q == cycle(p, trees[n], ids[n], times[n]));
        if q.line.len() > p.line.len() {
            assert forall|k: int| 0 < k < q.line.len() implies #[trigger] q.line[k].tree
                != q.line[k - 1].tree by {
                if k < p.line.len() {
                    assert(q.line[k] == p.line[k] && q.line[k - 1] == p.line[k - 1]);
                } else {
                    assert(q.line[k - 1] == p.line.last());
                }
            }
        }
    }
}

/// Cycles read only the first `trees.len()` ids and times.
proof fn lemma_cycles_extra(
    m: RepoModel,
    trees: Seq<Seq<char>>,
    ids: Seq<Seq<char>>,
    times: Seq<int>,
    ids2: Seq<Seq<char>>,
    times2: Seq<int>,
)
    requires
        ids2.len() >= trees.len(),
        times2.len() >= trees.len(),
        ids.len() >= trees.len(),
        times.len() >= trees.len(),
        forall|k: int| 0 <= k < trees.len() ==> ids[k] == ids2[k] && times[k] == times2[k],
    ensures
        cycles(m, trees, ids, times) == cycles(m, trees, ids2, times2),
    decreases trees.len(),
{
    if trees.len() > 0 {
        let n = (trees.len() - 1) as int;
        lemma_cycles_extra(m, trees.take(n), ids, times, ids2, times2);
    }
}

} // verus!
