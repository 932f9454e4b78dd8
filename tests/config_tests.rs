use dura::config::{Config, UnwatchOutcome, WatchConfig, WatchOutcome};

#[test]
fn watch_config_new_has_no_filters_and_full_depth() {
    let w = WatchConfig::new();
    assert!(w.includes.is_empty());
    assert!(w.excludes.is_empty());
    assert_eq!(w.max_depth, 255);
    let d = WatchConfig::default();
    assert_eq!(d.max_depth, 255);
}

#[test]
fn empty_config_watches_nothing() {
    let c = Config::empty();
    assert!(!c.commit_exclude_git_config);
    assert!(c.commit_author.is_none());
    assert!(c.commit_email.is_none());
    assert!(c.repos.is_empty());
}

#[test]
fn set_watch_adds_once() {
    let mut c = Config::empty();
    assert_eq!(c.set_watch("/a".to_string(), WatchConfig::new()), WatchOutcome::Started);
    assert_eq!(c.set_watch("/b".to_string(), WatchConfig::new()), WatchOutcome::Started);
    let mut w = WatchConfig::new();
    w.max_depth = 3;
    assert_eq!(c.set_watch("/a".to_string(), w), WatchOutcome::AlreadyWatched);
    assert_eq!(c.repos.len(), 2);
    assert_eq!(c.repos[0].0, "/a");
    assert_eq!(c.repos[0].1.max_depth, 255);
    assert_eq!(c.repos[1].0, "/b");
}

#[test]
fn watched_paths_are_kept_in_order() {
    let mut c = Config::empty();
    for p in ["/c", "/a", "/b", "/a/x", "/"] {
        assert_eq!(c.set_watch(p.to_string(), WatchConfig::new()), WatchOutcome::Started);
    }
    assert_eq!(c.set_watch("/b".to_string(), WatchConfig::new()), WatchOutcome::AlreadyWatched);
    let keys: Vec<&str> = c.repos.iter().map(|e| e.0.as_str()).collect();
    assert_eq!(keys, vec!["/", "/a", "/a/x", "/b", "/c"]);
}

#[test]
fn set_unwatch_removes_only_that_path() {
    let mut c = Config::empty();
    c.set_watch("/a".to_string(), WatchConfig::new());
    c.set_watch("/b".to_string(), WatchConfig::new());
    c.set_watch("/c".to_string(), WatchConfig::new());
    assert_eq!(c.set_unwatch(&"/b".to_string()), UnwatchOutcome::Stopped);
    assert_eq!(c.set_unwatch(&"/b".to_string()), UnwatchOutcome::NotWatched);
    let keys: Vec<&str> = c.repos.iter().map(|e| e.0.as_str()).collect();
    assert_eq!(keys, vec!["/a", "/c"]);
}

#[test]
fn config_default_path_prefers_non_empty_override() {
    let p = Config::default_path(Some("/tmp/x".to_string()), Some("/home/u/.config".to_string()));
    assert_eq!(p, Some(vec!["/tmp/x".to_string(), "config.toml".to_string()]));
    let p = Config::default_path(Some(String::new()), Some("/home/u/.config".to_string()));
    assert_eq!(
        p,
        Some(vec!["/home/u/.config".to_string(), "dura".to_string(), "config.toml".to_string()])
    );
    assert_eq!(Config::default_path(None, None), None);
}

#[test]
fn config_load_falls_back_to_empty() {
    let c = Config::load(None);
    assert!(c.repos.is_empty());
    let mut stored = Config::empty();
    stored.commit_author = Some("me".to_string());
    let c = Config::load(Some(stored));
    assert_eq!(c.commit_author.as_deref(), Some("me"));
}
