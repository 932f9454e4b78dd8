use dura::config::{Config, WatchConfig};
use dura::display::{choose_style, SymbolStyle, Terminal};
use dura::locator::{
    dir_action, glob_match, in_snapshot, is_internal, root_action, snapshot_enters, DirAction,
    RootAction,
};

#[test]
fn glob_matching() {
    assert!(glob_match("src", "src"));
    assert!(!glob_match("src", "src2"));
    assert!(glob_match("*", "anything"));
    assert!(!glob_match("*", "a/b"));
    assert!(glob_match("*/target", "crate/target"));
    assert!(glob_match("pro?", "proj"));
    assert!(!glob_match("pro?", "pro/"));
    assert!(glob_match("a*b*c", "axxbyyc"));
    assert!(glob_match("", ""));
    assert!(!glob_match("", "x"));
}

fn cfg(includes: &[&str], excludes: &[&str], max_depth: u8) -> WatchConfig {
    WatchConfig {
        includes: includes.iter().map(|s| s.to_string()).collect(),
        excludes: excludes.iter().map(|s| s.to_string()).collect(),
        max_depth,
    }
}

#[test]
fn exclude_prunes_before_include() {
    let c = cfg(&["vendor"], &["vendor"], 5);
    assert_eq!(dir_action(&c, "vendor", 1, true), DirAction::Skip);
    let c = cfg(&["work*"], &["node_modules"], 2);
    assert_eq!(dir_action(&c, "work1", 1, true), DirAction::Watch);
    assert_eq!(dir_action(&c, "other", 1, true), DirAction::Descend);
    assert_eq!(dir_action(&c, "other", 2, false), DirAction::Skip);
    assert_eq!(dir_action(&c, "node_modules", 1, false), DirAction::Skip);
    let c = cfg(&[], &[], 1);
    assert_eq!(dir_action(&c, "any", 1, true), DirAction::Watch);
}

#[test]
fn deleted_root_is_inaccessible() {
    let c = cfg(&[], &[], 255);
    assert_eq!(root_action(&c, false, false), RootAction::Inaccessible);
    assert_eq!(root_action(&c, true, true), RootAction::Watch);
    assert_eq!(root_action(&c, true, false), RootAction::Descend);
    assert_eq!(root_action(&cfg(&[], &[], 0), true, false), RootAction::NotARepository);
}

#[test]
fn internal_storage_is_left_out() {
    assert!(is_internal(".git"));
    assert!(is_internal(".git/objects/ab"));
    assert!(!is_internal(".github/workflows"));
    assert!(!is_internal("src/.git"));
    let c = cfg(&[], &["*.log"], 255);
    assert!(!in_snapshot(&c, ".git/HEAD"));
    assert!(!in_snapshot(&c, "run.log"));
    assert!(in_snapshot(&c, "src/main.rs"));
}

#[test]
fn snapshot_honours_include_filters() {
    let c = cfg(&["src", "*.toml"], &["src/gen"], 255);
    assert!(in_snapshot(&c, "src/main.rs"));
    assert!(in_snapshot(&c, "src/a/b.rs"));
    assert!(in_snapshot(&c, "Cargo.toml"));
    assert!(!in_snapshot(&c, "README.md"));
    assert!(!in_snapshot(&c, "srcx/a.rs"));
    assert!(!in_snapshot(&c, "src/gen"));
    assert!(snapshot_enters(&c, "docs"));
    assert!(!snapshot_enters(&c, "src/gen"));
    assert!(!snapshot_enters(&c, ".git"));
}

#[test]
fn walk_visits_roots_and_children_depth_first() {
    let mut config = Config::empty();
    config.set_watch("/w".to_string(), cfg(&[], &["skip"], 2));
    config.set_watch("/x".to_string(), cfg(&[], &[], 0));
    let mut it = config.git_repos();
    let root = it.next_task().expect("first root");
    assert_eq!((root.root, root.depth), (0, 0));
    assert_eq!(it.classify(&root, true, false), DirAction::Descend);
    it.push_children(&root, vec!["a".to_string(), "skip".to_string()]);
    let a = it.next_task().expect("a");
    assert_eq!(a.rel_path(), "a");
    assert_eq!(it.classify(&a, true, false), DirAction::Descend);
    it.push_children(&a, vec!["repo".to_string()]);
    let repo = it.next_task().expect("a/repo");
    assert_eq!((repo.rel_path().as_str(), repo.depth), ("a/repo", 2));
    assert_eq!(it.classify(&repo, true, true), DirAction::Watch);
    let skip = it.next_task().expect("skip");
    assert_eq!(it.classify(&skip, true, true), DirAction::Skip);
    let second = it.next_task().expect("second root");
    assert_eq!(second.root, 1);
    assert_eq!(it.classify(&second, false, false), DirAction::Skip);
    assert!(it.next_task().is_none());
}

fn term(t: Option<&str>) -> Terminal {
    Terminal {
        force_plain: false,
        force_fancy: false,
        is_terminal: true,
        no_color: false,
        term: t.map(|s| s.to_string()),
    }
}

#[test]
fn symbol_style_choice() {
    assert_eq!(choose_style(&term(Some("xterm-256color"))), SymbolStyle::Fancy);
    assert_eq!(choose_style(&term(Some("Linux"))), SymbolStyle::Plain);
    assert_eq!(choose_style(&term(Some("DUMB"))), SymbolStyle::Plain);
    assert_eq!(choose_style(&term(None)), SymbolStyle::Fancy);
    let mut t = term(Some("xterm"));
    t.is_terminal = false;
    assert_eq!(choose_style(&t), SymbolStyle::Plain);
    t.force_fancy = true;
    assert_eq!(choose_style(&t), SymbolStyle::Fancy);
    t.force_plain = true;
    assert_eq!(choose_style(&t), SymbolStyle::Plain);
}
