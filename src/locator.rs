//! The repository locator: which directories under each watched root are
//! repositories to watch. The caller walks the file system; this module
//! decides, per directory, whether to watch it, descend into it or skip it,
//! and keeps the work list of directories still to look at.
use vstd::prelude::*;
use crate::config::{strings_view, Config, WatchConfig};
use crate::text::chars_of;

verus! {

/// Glob matching on a relative path: `*` matches any run of characters
/// within one path component, `?` one character other than `/`, and every
/// other character itself.
pub open spec fn glob(p: Seq<char>, s: Seq<char>) -> bool
    decreases p.len() + s.len(),
{
    if p.len() == 0 {
        s.len() == 0
    } else if p[0] == '*' {
        glob(p.drop_first(), s) || (s.len() > 0 && s[0] != '/' && glob(p, s.drop_first()))
    } else if s.len() == 0 {
        false
    } else if p[0] == '?' {
        s[0] != '/' && glob(p.drop_first(), s.drop_first())
    } else {
        p[0] == s[0] && glob(p.drop_first(), s.drop_first())
    }
}

fn glob_from(p: &Vec<char>, s: &Vec<char>, i: usize, j: usize) -> (r: bool)
    requires
        i <= p@.len(),
        j <= s@.len(),
    ensures
        r == glob(p@.subrange(i as int, p@.len() as int), s@.subrange(j as int, s@.len() as int)),
    decreases p@.len() - i + s@.len() - j,
{
    let ghost ps = p@.subrange(i as int, p@.len() as int);
    let ghost ss = s@.subrange(j as int, s@.len() as int);
    if i < p.len() {
        assert(ps.drop_first() =~= p@.subrange(i + 1, p@.len() as int));
    }
    if j < s.len() {
        assert(ss.drop_first() =~= s@.subrange(j + 1, s@.len() as int));
    }
    if i == p.len() {
        j == s.len()
    } else if p[i] == '*' {
        if glob_from(p, s, i + 1, j) {
            true
        } else {
            j < s.len() && s[j] != '/' && glob_from(p, s, i, j + 1)
        }
    } else if j == s.len() {
        false
    } else if p[i] == '?' {
        s[j] != '/' && glob_from(p, s, i + 1, j + 1)
    } else {
        p[i] == s[j] && glob_from(p, s, i + 1, j + 1)
    }
}

/// Whether the glob `pattern` matches the relative path `path`.
pub fn glob_match(pattern: &str, path: &str) -> (r: bool)
    ensures
        r == glob(pattern@, path@),
{
    let p = chars_of(pattern);
    let s = chars_of(path);
    assert(p@.subrange(0, p@.len() as int) =~= p@);
    assert(s@.subrange(0, s@.len() as int) =~= s@);
    glob_from(&p, &s, 0, 0)
}

pub open spec fn any_glob(pats: Seq<String>, s: Seq<char>) -> bool {
    exists|i: int| 0 <= i < pats.len() && glob(#[trigger] pats[i]@, s)
}

fn matches_any(pats: &Vec<String>, path: &str) -> (r: bool)
    ensures
        r == any_glob(pats@, path@),
{
    let mut i: usize = 0;
    while i < pats.len()
        invariant
            i <= pats@.len(),
            forall|k: int| 0 <= k < i ==> !glob(#[trigger] pats@[k]@, path@),
        decreases pats@.len() - i,
    {
        if glob_match(pats[i].as_str(), path) {
            return true;
        }
        i = i + 1;
    }
    false
}

/// What to do with a directory found below a watched root.
#[derive(PartialEq, Eq, Structural, Debug, Clone, Copy)]
pub enum DirAction {
    /// It is a repository to watch; its insides are not searched.
    Watch,
    /// Look for repositories inside it.
    Descend,
    /// Neither; nothing below it is searched.
    Skip,
}

/// What a watched root itself turned out to be.
#[derive(PartialEq, Eq, Structural, Debug, Clone, Copy)]
pub enum RootAction {
    /// Missing, or not a directory: skipped for now.
    Inaccessible,
    Watch,
    /// Not a repository, but repositories are looked for below it.
    Descend,
    NotARepository,
}

/// The decision for a directory at relative path `rel`, `depth` levels below
/// its root: excluded directories are pruned first; a repository that the
/// include filters admit (all do when there are none) is watched; anything
/// else is searched while the depth limit allows.
pub open spec fn dir_action_spec(cfg: WatchConfig, rel: Seq<char>, depth: int, is_repo: bool) -> DirAction {
    if any_glob(cfg.excludes@, rel) {
        DirAction::Skip
    } else if is_repo && (cfg.includes@.len() == 0 || any_glob(cfg.includes@, rel)) {
        DirAction::Watch
    } else if depth < cfg.max_depth {
        DirAction::Descend
    } else {
        DirAction::Skip
    }
}

pub open spec fn root_action_spec(cfg: WatchConfig, is_dir: bool, is_repo: bool) -> RootAction {
    if !is_dir {
        RootAction::Inaccessible
    } else if is_repo {
        RootAction::Watch
    } else if cfg.max_depth > 0 {
        RootAction::Descend
    } else {
        RootAction::NotARepository
    }
}

pub fn dir_action(cfg: &WatchConfig, rel: &str, depth: usize, is_repo: bool) -> (r: DirAction)
    ensures
        r == dir_action_spec(*cfg, rel@, depth as int, is_repo),
{
    if matches_any(&cfg.excludes, rel) {
        DirAction::Skip
    } else if is_repo && (cfg.includes.len() == 0 || matches_any(&cfg.includes, rel)) {
        DirAction::Watch
    } else if depth < cfg.max_depth as usize {
        DirAction::Descend
    } else {
        DirAction::Skip
    }
}

pub fn root_action(cfg: &WatchConfig, is_dir: bool, is_repo: bool) -> (r: RootAction)
    ensures
        r == root_action_spec(*cfg, is_dir, is_repo),
{
    if !is_dir {
        RootAction::Inaccessible
    } else if is_repo {
        RootAction::Watch
    } else if cfg.max_depth > 0 {
        RootAction::Descend
    } else {
        RootAction::NotARepository
    }
}

/// Whether a path relative to a repository's root lies in its internal
/// storage directory, which snapshots and change detection leave out.
pub open spec fn internal_spec(rel: Seq<char>) -> bool {
    (rel.len() >= 4 && rel.take(4) == seq!['.', 'g', 'i', 't']) && (rel.len() == 4 || rel[4] == '/')
}

pub fn is_internal(rel: &str) -> (r: bool)
    ensures
        r == internal_spec(rel@),
{
    let cs = chars_of(rel);
    let n = cs.len();
    if n < 4 {
        return false;
    }
    let head = cs[0] == '.' && cs[1] == 'g' && cs[2] == 'i' && cs[3] == 't';
    assert(head == (cs@.take(4) =~= seq!['.', 'g', 'i', 't']));
    head && (n == 4 || cs[4] == '/')
}

/// Whether the include filters admit the file at `rel`: there are none, or
/// one matches the file's path or the path of a directory it lies in.
pub open spec fn included_spec(pats: Seq<String>, rel: Seq<char>) -> bool {
    pats.len() == 0 || exists|k: int|
        0 < k <= rel.len() && (k == rel.len() || rel[k] == '/') && #[trigger] any_glob(
            pats,
            rel.take(k),
        )
}

fn included(pats: &Vec<String>, rel: &str) -> (r: bool)
    ensures
        r == included_spec(pats@, rel@),
{
    if pats.len() == 0 {
        return true;
    }
    let cs = chars_of(rel);
    let n = cs.len();
    let mut k: usize = 1;
    while k < n
        invariant
            n == rel@.len(),
            cs@ == rel@,
            1 <= k,
            pats@.len() > 0,
            forall|j: int|
                0 < j < k && j < n && rel@[j] == '/' ==> !#[trigger] any_glob(
                    pats@,
                    rel@.take(j),
                ),
        decreases n - k,
    {
        if cs[k] == '/' {
            let prefix = rel.substring_char(0, k);
            assert(prefix@ =~= rel@.take(k as int));
            if matches_any(pats, prefix) {
                return true;
            }
        }
        k = k + 1;
    }
    if n == 0 {
        return false;
    }
    assert(rel@.take(n as int) =~= rel@);
    matches_any(pats, rel)
}

/// Whether a file at `rel` (relative to the repository root) goes into a
/// snapshot: not internal storage, not matched by an exclude filter, and
/// admitted by the include filters.
pub fn in_snapshot(cfg: &WatchConfig, rel: &str) -> (r: bool)
    ensures
        r == (!internal_spec(rel@) && !any_glob(cfg.excludes@, rel@) && included_spec(
            cfg.includes@,
            rel@,
        )),
{
    !is_internal(rel) && !matches_any(&cfg.excludes, rel) && included(&cfg.includes, rel)
}

/// Whether the snapshot looks inside the directory at `rel`: not internal
/// storage and not excluded, so nothing below an excluded directory is taken.
pub fn snapshot_enters(cfg: &WatchConfig, rel: &str) -> (r: bool)
    ensures
        r == (!internal_spec(rel@) && !any_glob(cfg.excludes@, rel@)),
{
    !is_internal(rel) && !matches_any(&cfg.excludes, rel)
}

// ---------------------------------------------------------------------------
// The traversal.

/// A directory still to look at: the index of its watched root in the
/// configuration, its path below that root as components, and its depth.
pub struct ScanTask {
    pub root: usize,
    pub rel: Vec<String>,
    pub depth: usize,
}

/// The components joined with `/`.
pub open spec fn join(c: Seq<Seq<char>>) -> Seq<char>
    decreases c.len(),
{
    if c.len() == 0 {
        Seq::empty()
    } else if c.len() == 1 {
        c[0]
    } else {
        join(c.drop_last()) + seq!['/'] + c.last()
    }
}

/// A copy of `rel` with `name` added at the end.
fn extended(rel: &Vec<String>, name: &String) -> (r: Vec<String>)
    ensures
        strings_view(r@) == strings_view(rel@).push(name@),
{
    let mut out: Vec<String> = Vec::new();
    let mut i: usize = 0;
    while i < rel.len()
        invariant
            i <= rel@.len(),
            out@.len() == i,
            forall|j: int| 0 <= j < i ==> #[trigger] out@[j]@ == rel@[j]@,
        decreases rel@.len() - i,
    {
        out.push(rel[i].clone());
        i = i + 1;
    }
    out.push(name.clone());
    assert(strings_view(out@) =~= strings_view(rel@).push(name@));
    out
}

impl ScanTask {
    pub open spec fn rel_view(&self) -> Seq<Seq<char>> {
        strings_view(self.rel@)
    }

    /// The relative path, components joined with `/`.
    pub fn rel_path(&self) -> (r: String)
        ensures
            r@ == join(self.rel_view()),
    {
        let mut r = String::new();
        let mut i: usize = 0;
        while i < self.rel.len()
            invariant
                i <= self.rel@.len(),
                r@ == join(self.rel_view().take(i as int)),
            decreases self.rel@.len() - i,
        {
            assert(self.rel_view().take(i + 1).drop_last() =~= self.rel_view().take(i as int));
            if i > 0 {
                r.append("/");
                proof {
                    reveal_strlit("/");
                }
            }
            r.append(self.rel[i].as_str());
            i = i + 1;
        }
        assert(self.rel_view().take(self.rel@.len() as int) =~= self.rel_view());
        r
    }
}

/// A restartable walk over the watched roots of a configuration, depth
/// first. The caller takes a task, inspects the directory, asks for the
/// decision and, when told to descend, hands back the subdirectory names.
pub struct GitRepoIter<'a> {
    pub config: &'a Config,
    pub next_root: usize,
    pub stack: Vec<ScanTask>,
}

impl<'a> GitRepoIter<'a> {
    pub open spec fn wf(&self) -> bool {
        &&& self.next_root <= self.config.repos@.len()
        &&& forall|k: int|
            0 <= k < self.stack@.len() ==> (#[trigger] self.stack@[k]).root
                < self.config.repos@.len() && self.stack@[k].depth <= 255
    }

    /// The next directory to look at: the most recently found subdirectory,
    /// else the next watched root. `None` when the walk is over.
    pub fn next_task(&mut self) -> (r: Option<ScanTask>)
        requires
            old(self).wf(),
        ensures
            final(self).wf(),
            final(self).config == old(self).config,
            old(self).stack@.len() > 0 ==> r == Some(old(self).stack@.last()) && final(self).stack@
                == old(self).stack@.drop_last() && final(self).next_root == old(self).next_root,
            old(self).stack@.len() == 0 && old(self).next_root < old(self).config.repos@.len() ==> (
            r matches Some(t) && t.root == old(self).next_root && t.rel@.len() == 0 && t.depth == 0)
                && final(self).stack@.len() == 0 && final(self).next_root == old(self).next_root
                + 1,
            old(self).stack@.len() == 0 && old(self).next_root == old(self).config.repos@.len()
                ==> r is None && final(self).stack@ == old(self).stack@ && final(self).next_root
                == old(self).next_root,
            r matches Some(t) ==> t.root < final(self).config.repos@.len() && t.depth <= 255,
    {
        match self.stack.pop() {
            Some(t) => {
                assert(old(self).stack@[old(self).stack@.len() - 1] == t);
                Some(t)
            },
            None => {
                if self.next_root < self.config.repos.len() {
                    let t = ScanTask { root: self.next_root, rel: Vec::new(), depth: 0 };
                    self.next_root = self.next_root + 1;
                    Some(t)
                } else {
                    None
                }
            },
        }
    }

    /// The decision for the directory of `task`, given what the file system
    /// said of it.
    pub fn classify(&self, task: &ScanTask, is_dir: bool, is_repo: bool) -> (r: DirAction)
        requires
            task.root < self.config.repos@.len(),
        ensures
            task.depth == 0 ==> r == match root_action_spec(
                self.config.repos@[task.root as int].1,
                is_dir,
                is_repo,
            ) {
                RootAction::Watch => DirAction::Watch,
                RootAction::Descend => DirAction::Descend,
                _ => DirAction::Skip,
            },
            task.depth > 0 ==> r == if is_dir {
                dir_action_spec(
                    self.config.repos@[task.root as int].1,
                    join(task.rel_view()),
                    task.depth as int,
                    is_repo,
                )
            } else {
                DirAction::Skip
            },
    {
        let cfg = &self.config.repos[task.root].1;
        if task.depth == 0 {
            match root_action(cfg, is_dir, is_repo) {
                RootAction::Watch => DirAction::Watch,
                RootAction::Descend => DirAction::Descend,
                _ => DirAction::Skip,
            }
        } else if !is_dir {
            DirAction::Skip
        } else {
            let rel = task.rel_path();
            dir_action(cfg, rel.as_str(), task.depth, is_repo)
        }
    }

    /// Queues the subdirectories `names` of the directory of `task`, so that
    /// they come out in the order given, before anything queued earlier.
    /// Nothing is queued at the depth limit.
    pub fn push_children(&mut self, task: &ScanTask, names: Vec<String>)
        requires
            old(self).wf(),
            task.root < old(self).config.repos@.len(),
            task.depth <= 255,
        ensures
            final(self).wf(),
            final(self).config == old(self).config,
            final(self).next_root == old(self).next_root,
            task.depth >= old(self).config.repos@[task.root as int].1.max_depth ==> final(self).stack@
                == old(self).stack@,
            task.depth < old(self).config.repos@[task.root as int].1.max_depth ==> {
                &&& final(self).stack@.len() == old(self).stack@.len() + names@.len()
                &&& final(self).stack@.take(old(self).stack@.len() as int) == old(self).stack@
                &&& forall|k: int|
                    0 <= k < names@.len() ==> {
                        let t = #[trigger] final(self).stack@[final(self).stack@.len() - 1 - k];
                        &&& t.root == task.root
                        &&& t.depth == task.depth + 1
                        &&& t.rel_view() == task.rel_view().push(names@[k]@)
                    }
            },
    {
        let max = self.config.repos[task.root].1.max_depth as usize;
        if task.depth >= max {
            return;
        }
        let ghost before = self.stack@;
        let mut k: usize = names.len();
        while k > 0
            invariant
                k <= names@.len(),
                task.depth < max,
                max <= 255,
                task.root < self.config.repos@.len(),
                self.config == old(self).config,
                self.next_root == old(self).next_root,
                self.wf(),
                self.stack@.len() == before.len() + (names@.len() - k),
                self.stack@.take(before.len() as int) == before,
                forall|j: int|
                    k <= j < names@.len() ==> {
                        let t = #[trigger] self.stack@[self.stack@.len() - 1 - (j - k)];
                        &&& t.root == task.root
                        &&& t.depth == task.depth + 1
                        &&& t.rel_view() == task.rel_view().push(names@[j]@)
                    },
            decreases k,
        {
            k = k - 1;
            let rel = extended(&task.rel, &names[k]);
            let ghost prev = self.stack@;
            self.stack.push(ScanTask { root: task.root, rel, depth: task.depth + 1 });
            assert forall|j: int| 0 <= j < self.stack@.len() implies (#[trigger] self.stack@[j]).root
                < self.config.repos@.len() && self.stack@[j].depth <= 255 by {
                if j < prev.len() {
                    assert(self.stack@[j] == prev[j]);
                    assert(prev[j].root < self.config.repos@.len());
                } else {
                    assert(self.stack@[j].root == task.root);
                    assert(self.stack@[j].depth == task.depth + 1);
                }
            }
            assert(self.stack@.take(before.len() as int) =~= prev.take(before.len() as int));
            assert forall|j: int| k <= j < names@.len() implies {
                let t = #[trigger] self.stack@[self.stack@.len() - 1 - (j - k)];
                &&& t.root == task.root
                &&& t.depth == task.depth + 1
                &&& t.rel_view() == task.rel_view().push(names@[j]@)
            } by {
                if j > k {
                    assert(self.stack@[self.stack@.len() - 1 - (j - k)] == prev[prev.len() - 1 - (j
                        - (k + 1))]);
                }
            }
        }
        assert forall|j: int| 0 <= j < names@.len() implies {
            let t = #[trigger] self.stack@[self.stack@.len() - 1 - j];
            &&& t.root == task.root
            &&& t.depth == task.depth + 1
            &&& t.rel_view() == task.rel_view().push(names@[j]@)
        } by {
            assert(self.stack@.len() - 1 - (j - 0) == self.stack@.len() - 1 - j);
        }
    }
}

impl Config {
    /// A fresh walk over the watched roots, in the order the configuration
    /// holds them.
    pub fn git_repos(&self) -> (r: GitRepoIter<'_>)
        ensures
            r.config == self,
            r.next_root == 0,
            r.stack@.len() == 0,
            r.wf(),
    {
        GitRepoIter { config: self, next_root: 0, stack: Vec::new() }
    }
}

} // verus!
