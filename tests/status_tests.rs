use dura::status::{is_change, latest_backup, scan_backup_log, summarize, RepoStatus};

const A: &str = "0123456789abcdef0123456789abcdef01234567";
const B: &str = "89abcdef0123456789abcdef0123456789ABCDEF";

#[test]
fn log_scan_counts_marker_lines() {
    let log = format!(
        "{A} dura auto-backup\n1111111111111111111111111111111111111111 fix parser\r\n{B} dura auto-backup\r\nnothex dura auto-backup\n"
    );
    let r = scan_backup_log(&log);
    assert_eq!(r.count, 3);
    assert_eq!(r.candidates, vec![A.to_string(), B.to_string()]);
}

#[test]
fn log_scan_of_empty_and_unterminated_logs() {
    let r = scan_backup_log("");
    assert_eq!(r.count, 0);
    assert!(r.candidates.is_empty());
    let r = scan_backup_log(&format!("  {A} dura auto-backup"));
    assert_eq!(r.count, 1);
    assert_eq!(r.candidates, vec![A.to_string()]);
}

#[test]
fn log_scan_rejects_overlong_ids() {
    let long = format!("{A}0");
    let r = scan_backup_log(&format!("{long} dura auto-backup\n"));
    assert_eq!(r.count, 1);
    assert!(r.candidates.is_empty());
}

#[test]
fn latest_backup_takes_first_greatest_positive_time() {
    assert_eq!(latest_backup(&vec![]), None);
    assert_eq!(latest_backup(&vec![None, Some(0), Some(-5)]), None);
    assert_eq!(latest_backup(&vec![Some(10), None, Some(30), Some(30), Some(20)]), Some(2));
}

#[test]
fn change_bits() {
    assert!(!is_change(0));
    assert!(is_change(1 << 7));
    assert!(is_change(1 << 2));
    assert!(!is_change(1 << 14));
    assert!(is_change(1 << 10));
    assert!(is_change(1 << 3));
    assert!(is_change(1 << 11));
    assert!(is_change(1 << 15));
    assert!(is_change((1 << 14) | (1 << 8)));
}

#[test]
fn log_scan_splits_on_unicode_white_space() {
    let r = scan_backup_log(&format!("\u{a0}{A}\u{2003}dura auto-backup\n"));
    assert_eq!(r.count, 1);
    assert_eq!(r.candidates, vec![A.to_string()]);
}

fn fact(exists: bool, repo: bool, dirty: bool, backups: usize) -> RepoStatus {
    RepoStatus {
        path: "/p".to_string(),
        exists,
        is_git_repo: repo,
        last_backup: None,
        uncommitted_changes: dirty,
        backup_count: backups,
    }
}

#[test]
fn summary_totals() {
    let facts = vec![
        fact(true, true, true, 3),
        fact(true, true, false, 4),
        fact(false, false, false, 0),
        fact(true, false, false, 0),
    ];
    let s = summarize(&facts);
    assert_eq!(s.total, 4);
    assert_eq!(s.accessible, 2);
    assert_eq!(s.with_changes, 1);
    assert_eq!(s.total_backups, 7);
    let big = vec![fact(true, true, false, usize::MAX), fact(true, true, false, 1)];
    assert_eq!(summarize(&big).total_backups, usize::MAX);
}
