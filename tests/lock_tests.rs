use dura::database::{uptime_parts, AlreadyRunning, DaemonStatus, RuntimeLock, Timestamp, Uptime};

fn ts(secs: u64, nanos: u32) -> Timestamp {
    Timestamp { secs, nanos }
}

#[test]
fn live_lock_refuses_start() {
    let lock = RuntimeLock { pid: Some(42), start_time: Some(ts(100, 0)) };
    assert_eq!(lock.acquire(true, 7, ts(200, 0)), Err(AlreadyRunning { pid: 42 }));
    assert_eq!(lock, RuntimeLock { pid: Some(42), start_time: Some(ts(100, 0)) });
}

#[test]
fn stale_or_absent_lock_is_reclaimed() {
    let stale = RuntimeLock { pid: Some(42), start_time: Some(ts(100, 0)) };
    let fresh = RuntimeLock { pid: Some(7), start_time: Some(ts(200, 5)) };
    assert_eq!(stale.acquire(false, 7, ts(200, 5)), Ok(fresh));
    assert_eq!(RuntimeLock::empty().acquire(false, 7, ts(200, 5)), Ok(fresh));
}

#[test]
fn status_reports_uptime_of_live_daemon_only() {
    let lock = RuntimeLock { pid: Some(42), start_time: Some(ts(100, 500)) };
    assert_eq!(
        lock.status(true, ts(3700, 499)),
        DaemonStatus::Running { pid: 42, uptime: Some(3599) }
    );
    assert_eq!(
        lock.status(true, ts(3700, 500)),
        DaemonStatus::Running { pid: 42, uptime: Some(3600) }
    );
    assert_eq!(lock.status(true, ts(50, 0)), DaemonStatus::Running { pid: 42, uptime: None });
    assert_eq!(lock.status(false, ts(3700, 0)), DaemonStatus::NotRunning);
    assert_eq!(RuntimeLock::empty().status(true, ts(1, 0)), DaemonStatus::NotRunning);
}

#[test]
fn uptime_is_split_into_leading_units() {
    assert_eq!(uptime_parts(59), Uptime::Minutes { minutes: 0 });
    assert_eq!(uptime_parts(3 * 60 + 5), Uptime::Minutes { minutes: 3 });
    assert_eq!(uptime_parts(2 * 3600 + 7 * 60), Uptime::Hours { hours: 2, minutes: 7 });
    assert_eq!(uptime_parts(86400 * 3 + 3600 * 4 + 60), Uptime::Days { days: 3, hours: 4 });
}

#[test]
fn lock_paths_and_load() {
    assert_eq!(
        RuntimeLock::default_path(None, Some("/c".to_string())),
        Some(vec!["/c".to_string(), "dura".to_string(), "runtime.db".to_string()])
    );
    assert_eq!(
        RuntimeLock::default_path(Some("/d".to_string()), None),
        Some(vec!["/d".to_string(), "runtime.db".to_string()])
    );
    assert_eq!(RuntimeLock::load(None), RuntimeLock::empty());
    let l = RuntimeLock { pid: Some(1), start_time: None };
    assert_eq!(RuntimeLock::load(Some(l)), l);
}
