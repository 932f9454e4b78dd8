use vstd::prelude::*;
use crate::text::{lemma_text_lt_irreflexive, lemma_text_lt_total, lemma_text_lt_transitive, text_less, text_lt};

verus! {

/// Settings of one watched directory: glob filters on subdirectories and how
/// deep below the watched root repositories are looked for.
#[derive(Debug, Clone, PartialEq, Eq)]
pub struct WatchConfig {
    pub includes: Vec<String>,
    pub excludes: Vec<String>,
    pub max_depth: u8,
}

impl WatchConfig {
    /// No filters and the deepest search the setting allows.
    pub fn new() -> (r: Self)
        ensures
            r.includes@.len() == 0,
            r.excludes@.len() == 0,
            r.max_depth == 255,
    {
        WatchConfig { includes: Vec::new(), excludes: Vec::new(), max_depth: 255 }
    }
}

impl Default for WatchConfig {
    fn default() -> (r: Self)
        ensures
            r.includes@.len() == 0,
            r.excludes@.len() == 0,
            r.max_depth == 255,
    {
        WatchConfig::new()
    }
}

/// The daemon's configuration: the identity used for snapshot commits and the
/// watched directories, keyed by their canonical absolute path.
#[derive(Debug, PartialEq, Eq)]
pub struct Config {
    /// When set, the repository's own identity settings are never consulted.
    pub commit_exclude_git_config: bool,
    pub commit_author: Option<String>,
    pub commit_email: Option<String>,
    pub repos: Vec<(String, WatchConfig)>,
}

pub open spec fn strings_view(v: Seq<String>) -> Seq<Seq<char>> {
    v.map_values(|s: String| s@)
}

/// Where a file of the daemon lives, as path components: the override
/// directory when it is set and not empty, else `dura` under the platform
/// directory.
pub open spec fn location_spec(
    env_home: Option<Seq<char>>,
    platform_dir: Option<Seq<char>>,
    file: Seq<char>,
) -> Option<Seq<Seq<char>>> {
    match env_home {
        Some(h) if h.len() > 0 => Some(seq![h, file]),
        _ => match platform_dir {
            Some(d) => Some(seq![d, "dura"@, file]),
            None => None,
        },
    }
}

pub(crate) fn location(env_home: Option<String>, platform_dir: Option<String>, file: &str) -> (r:
    Option<Vec<String>>)
    ensures
        match r {
            Some(v) => Some(strings_view(v@)),
            None => None,
        } == location_spec(
            match env_home {
                Some(h) => Some(h@),
                None => None,
            },
            match platform_dir {
                Some(d) => Some(d@),
                None => None,
            },
            file@,
        ),
{
    let mut out: Vec<String> = Vec::new();
    match env_home {
        Some(h) => {
            if h.as_str().unicode_len() > 0 {
                out.push(h);
                out.push(String::from_str(file));
                assert(strings_view(out@) =~= seq![out@[0]@, out@[1]@]);
                return Some(out);
            }
        },
        None => {},
    }
    match platform_dir {
        Some(d) => {
            out.push(d);
            out.push(String::from_str("dura"));
            out.push(String::from_str(file));
            assert(strings_view(out@) =~= seq![out@[0]@, out@[1]@, out@[2]@]);
            Some(out)
        },
        None => None,
    }
}

pub open spec fn config_file() -> Seq<char> {
    "config.toml"@
}

/// What `Config::set_watch` did.
#[derive(PartialEq, Eq, Structural, Debug, Clone, Copy)]
pub enum WatchOutcome {
    Started,
    AlreadyWatched,
}

/// What `Config::set_unwatch` did.
#[derive(PartialEq, Eq, Structural, Debug, Clone, Copy)]
pub enum UnwatchOutcome {
    Stopped,
    NotWatched,
}

impl Config {
    pub open spec fn watches(&self, path: Seq<char>) -> bool {
        exists|i: int| 0 <= i < self.repos@.len() && #[trigger] self.repos@[i].0@ == path
    }

    /// Each path is watched at most once.
    /// The paths are held in ascending order, each at most once.
    pub open spec fn wf(&self) -> bool {
        forall|i: int, j: int|
            0 <= i < j < self.repos@.len() ==> text_lt(
                #[trigger] self.repos@[i].0@,
                #[trigger] self.repos@[j].0@,
            )
    }

    pub fn empty() -> (r: Self)
        ensures
            !r.commit_exclude_git_config,
            r.commit_author is None,
            r.commit_email is None,
            r.repos@.len() == 0,
            r.wf(),
    {
        Config {
            commit_exclude_git_config: false,
            commit_author: None,
            commit_email: None,
            repos: Vec::new(),
        }
    }

    /// Where the configuration is kept, as path components to join in
    /// order: the override directory when it is set and not empty, else
    /// `dura` under the platform's configuration directory. `None` when
    /// neither is known.
    pub fn default_path(env_home: Option<String>, config_dir: Option<String>) -> (r: Option<
        Vec<String>,
    >)
        ensures
            match r {
                Some(v) => Some(strings_view(v@)),
                None => None,
            } == location_spec(
                match env_home {
                    Some(h) => Some(h@),
                    None => None,
                },
                match config_dir {
                    Some(d) => Some(d@),
                    None => None,
                },
                config_file(),
            ),
    {
        location(env_home, config_dir, "config.toml")
    }

    /// The configuration as read from disk, or the empty one when it could
    /// not be read or parsed.
    pub fn load(stored: Option<Config>) -> (r: Self)
        ensures
            match stored {
                Some(c) => r == c,
                None => !r.commit_exclude_git_config && r.commit_author is None
                    && r.commit_email is None && r.repos@.len() == 0,
            },
    {
        match stored {
            Some(c) => c,
            None => Config::empty(),
        }
    }

    /// Position of the first entry for `path`, if any.
    fn position_of(&self, path: &String) -> (r: Option<usize>)
        ensures
            match r {
                Some(i) => i < self.repos@.len() && self.repos@[i as int].0@ == path@
                    && forall|j: int| 0 <= j < i ==> #[trigger] self.repos@[j].0@ != path@,
                None => !self.watches(path@),
            },
    {
        let mut i: usize = 0;
        while i < self.repos.len()
            invariant
                i <= self.repos@.len(),
                forall|j: int| 0 <= j < i ==> #[trigger] self.repos@[j].0@ != path@,
            decreases self.repos@.len() - i,
        {
            if self.repos[i].0 == *path {
                return Some(i);
            }
            i = i + 1;
        }
        None
    }

    /// Starts watching the canonical path `path` with `cfg`, at its place in
    /// the order, unless it is watched already, in which case nothing
    /// changes.
    pub fn set_watch(&mut self, path: String, cfg: WatchConfig) -> (r: WatchOutcome)
        requires
            old(self).wf(),
        ensures
            (r == WatchOutcome::AlreadyWatched) == old(self).watches(path@),
            r == WatchOutcome::AlreadyWatched ==> *final(self) == *old(self),
            r == WatchOutcome::Started ==> exists|p: int|
                0 <= p <= old(self).repos@.len() && final(self).repos@ == old(self).repos@.insert(
                    p,
                    (path, cfg),
                ),
            final(self).commit_exclude_git_config == old(self).commit_exclude_git_config,
            final(self).commit_author == old(self).commit_author,
            final(self).commit_email == old(self).commit_email,
            final(self).wf(),
    {
        let n = self.repos.len();
        let mut p: usize = 0;
        while p < n && text_less(self.repos[p].0.as_str(), path.as_str())
            invariant
                n == self.repos@.len(),
                p <= n,
                forall|j: int| 0 <= j < p ==> text_lt(#[trigger] self.repos@[j].0@, path@),
            decreases n - p,
        {
            p = p + 1;
        }
        // Everything before `p` is smaller than `path`; everything from `p` on
        // is not, hence equal at `p` or larger.
        if p < n && self.repos[p].0 == path {
            return WatchOutcome::AlreadyWatched;
        }
        proof {
            assert forall|j: int| 0 <= j < n implies #[trigger] self.repos@[j].0@ != path@ by {
                if j < p {
                    lemma_text_lt_irreflexive(path@);
                } else {
                    lemma_text_lt_total(self.repos@[p as int].0@, path@);
                    if j > p {
                        assert(text_lt(self.repos@[p as int].0@, self.repos@[j].0@));
                        lemma_text_lt_transitive(path@, self.repos@[p as int].0@, self.repos@[j].0@);
                        lemma_text_lt_irreflexive(path@);
                    }
                }
            }
        }
        let ghost before = self.repos@;
        self.repos.insert(p, (path, cfg));
        proof {
            assert forall|a: int, b: int|
                0 <= a < b < self.repos@.len() implies text_lt(
                #[trigger] self.repos@[a].0@,
                #[trigger] self.repos@[b].0@,
            ) by {
                let pp = p as int;
                if b < pp {
                    assert(self.repos@[a] == before[a] && self.repos@[b] == before[b]);
                } else if b == pp {
                    assert(self.repos@[a] == before[a]);
                } else if a == pp {
                    assert(self.repos@[b] == before[b - 1]);
                    lemma_text_lt_total(before[pp].0@, path@);
                    if b - 1 > pp {
                        assert(text_lt(before[pp].0@, before[b - 1].0@));
                        lemma_text_lt_transitive(path@, before[pp].0@, before[b - 1].0@);
                    }
                } else if a < pp {
                    assert(self.repos@[a] == before[a] && self.repos@[b] == before[b - 1]);
                } else {
                    assert(self.repos@[a] == before[a - 1] && self.repos@[b] == before[b - 1]);
                }
            }
        }
        WatchOutcome::Started
    }

    /// Stops watching the canonical path `path`; nothing changes when it was
    /// not watched.
    pub fn set_unwatch(&mut self, path: &String) -> (r: UnwatchOutcome)
        ensures
            (r == UnwatchOutcome::Stopped) == old(self).watches(path@),
            r == UnwatchOutcome::NotWatched ==> *final(self) == *old(self),
            r == UnwatchOutcome::Stopped ==> exists|i: int|
                0 <= i < old(self).repos@.len() && old(self).repos@[i].0@ == path@
                    && final(self).repos@ == old(self).repos@.remove(i),
            final(self).commit_exclude_git_config == old(self).commit_exclude_git_config,
            final(self).commit_author == old(self).commit_author,
            final(self).commit_email == old(self).commit_email,
            old(self).wf() ==> final(self).wf() && !final(self).watches(path@),
    {
        match self.position_of(path) {
            Some(i) => {
                let ghost before = self.repos@;
                self.repos.remove(i);
                proof {
                    if old(self).wf() {
                        assert forall|a: int, b: int|
                            0 <= a < b < self.repos@.len() implies text_lt(
                            #[trigger] self.repos@[a].0@,
                            #[trigger] self.repos@[b].0@,
                        ) by {
                            let a2 = if a < i { a } else { a + 1 };
                            let b2 = if b < i { b } else { b + 1 };
                            assert(self.repos@[a] == before[a2]);
                            assert(self.repos@[b] == before[b2]);
                            assert(text_lt(before[a2].0@, before[b2].0@));
                        }
                        if self.watches(path@) {
                            let k = choose|k: int|
                                0 <= k < self.repos@.len() && #[trigger] self.repos@[k].0@
                                    == path@;
                            let k2 = if k < i { k } else { k + 1 };
                            assert(self.repos@[k] == before[k2]);
                            assert(before[k2].0@ == before[i as int].0@);
                            if k2 < i {
                                assert(text_lt(before[k2].0@, before[i as int].0@));
                            } else {
                                assert(text_lt(before[i as int].0@, before[k2].0@));
                            }
                            lemma_text_lt_irreflexive(path@);
                        }
                    }
                }
                UnwatchOutcome::Stopped
            },
            None => UnwatchOutcome::NotWatched,
        }
    }
}

} // verus!
