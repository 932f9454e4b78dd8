//! The runtime lock: which process runs the daemon and since when. It keeps
//! a single daemon per machine; a lock whose process is gone is stale and
//! counts as absent.
use vstd::prelude::*;
use crate::config::{location, location_spec, strings_view};

verus! {

/// A point in time: whole seconds and nanoseconds since the Unix epoch.
#[derive(PartialEq, Eq, Structural, Debug, Clone, Copy)]
pub struct Timestamp {
    pub secs: u64,
    pub nanos: u32,
}

pub open spec fn before(a: Timestamp, b: Timestamp) -> bool {
    a.secs < b.secs || (a.secs == b.secs && a.nanos < b.nanos)
}

/// Whole seconds from `start` to `now`, or `None` when `now` is earlier.
pub open spec fn elapsed_secs(start: Timestamp, now: Timestamp) -> Option<int> {
    if before(now, start) {
        None
    } else if now.nanos >= start.nanos {
        Some(now.secs - start.secs)
    } else {
        Some(now.secs - start.secs - 1)
    }
}

/// The persisted lock record; both fields are empty when no daemon runs.
#[derive(PartialEq, Eq, Structural, Debug, Clone, Copy)]
pub struct RuntimeLock {
    pub pid: Option<u32>,
    pub start_time: Option<Timestamp>,
}

#[derive(PartialEq, Eq, Structural, Debug, Clone, Copy)]
pub enum LockState {
    Absent,
    Held,
    Stale,
}

/// Why a daemon did not start: another one, `pid`, is alive.
#[derive(PartialEq, Eq, Structural, Debug, Clone, Copy)]
pub struct AlreadyRunning {
    pub pid: u32,
}

/// What a status query reports.
#[derive(PartialEq, Eq, Structural, Debug, Clone, Copy)]
pub enum DaemonStatus {
    NotRunning,
    /// `uptime` is in whole seconds; `None` when the start time is unknown
    /// or later than now.
    Running { pid: u32, uptime: Option<u64> },
}

pub open spec fn lock_state(lock: RuntimeLock, holder_alive: bool) -> LockState {
    match lock.pid {
        None => LockState::Absent,
        Some(_) => if holder_alive {
            LockState::Held
        } else {
            LockState::Stale
        },
    }
}

pub open spec fn start_spec(lock: RuntimeLock, holder_alive: bool, pid: u32, now: Timestamp) -> Result<
    RuntimeLock,
    AlreadyRunning,
> {
    match lock.pid {
        Some(p) if holder_alive => Err(AlreadyRunning { pid: p }),
        _ => Ok(RuntimeLock { pid: Some(pid), start_time: Some(now) }),
    }
}

/// The lock on disk after a start attempt: the new record on success, the
/// old one untouched on refusal.
pub open spec fn persisted_after_start(
    lock: RuntimeLock,
    holder_alive: bool,
    pid: u32,
    now: Timestamp,
) -> RuntimeLock {
    match start_spec(lock, holder_alive, pid, now) {
        Ok(l) => l,
        Err(_) => lock,
    }
}

pub open spec fn status_spec(lock: RuntimeLock, holder_alive: bool, now: Timestamp) -> DaemonStatus {
    match lock.pid {
        Some(p) if holder_alive => DaemonStatus::Running {
            pid: p,
            uptime: match lock.start_time {
                Some(s) => match elapsed_secs(s, now) {
                    Some(e) => Some(e as u64),
                    None => None,
                },
                None => None,
            },
        },
        _ => DaemonStatus::NotRunning,
    }
}

pub open spec fn cache_file() -> Seq<char> {
    "runtime.db"@
}

impl RuntimeLock {
    pub fn empty() -> (r: Self)
        ensures
            r.pid is None,
            r.start_time is None,
    {
        RuntimeLock { pid: None, start_time: None }
    }

    /// Where the lock is kept, as path components to join in order: the
    /// override directory when it is set and not empty, else `dura` under the
    /// platform's cache directory. `None` when neither is known.
    pub fn default_path(env_home: Option<String>, cache_dir: Option<String>) -> (r: Option<
        Vec<String>,
    >)
        ensures
            match r {
                Some(v) => Some(strings_view(v@)),
                None => None,
            } == location_spec(
                match env_home {
                    Some(h) => Some(h@),
                    None => None,
                },
                match cache_dir {
                    Some(d) => Some(d@),
                    None => None,
                },
                cache_file(),
            ),
    {
        location(env_home, cache_dir, "runtime.db")
    }

    /// The lock as read from disk, or the empty lock when it could not be
    /// read or parsed.
    pub fn load(stored: Option<RuntimeLock>) -> (r: Self)
        ensures
            r == match stored {
                Some(l) => l,
                None => RuntimeLock { pid: None, start_time: None },
            },
    {
        match stored {
            Some(l) => l,
            None => RuntimeLock::empty(),
        }
    }

    /// Starting a daemon as process `pid` at `now`, given whether the process
    /// this lock names is alive: refused when the lock is held, otherwise the
    /// record to persist.
    pub fn acquire(&self, holder_alive: bool, pid: u32, now: Timestamp) -> (r: Result<
        RuntimeLock,
        AlreadyRunning,
    >)
        ensures
            r == start_spec(*self, holder_alive, pid, now),
    {
        match self.pid {
            Some(p) => {
                if holder_alive {
                    return Err(AlreadyRunning { pid: p });
                }
            },
            None => {},
        }
        Ok(RuntimeLock { pid: Some(pid), start_time: Some(now) })
    }

    /// What a status query reports at `now`; it never changes the lock.
    pub fn status(&self, holder_alive: bool, now: Timestamp) -> (r: DaemonStatus)
        ensures
            r == status_spec(*self, holder_alive, now),
    {
        match self.pid {
            Some(p) => {
                if !holder_alive {
                    return DaemonStatus::NotRunning;
                }
                let uptime = match self.start_time {
                    Some(s) => elapsed(s, now),
                    None => None,
                };
                DaemonStatus::Running { pid: p, uptime }
            },
            None => DaemonStatus::NotRunning,
        }
    }
}

/// Whole seconds from `start` to `now`.
pub fn elapsed(start: Timestamp, now: Timestamp) -> (r: Option<u64>)
    ensures
        r == match elapsed_secs(start, now) {
            Some(e) => Some(e as u64),
            None => None,
        },
        r matches Some(e) ==> elapsed_secs(start, now) == Some(e as int),
{
    if now.secs < start.secs || (now.secs == start.secs && now.nanos < start.nanos) {
        None
    } else if now.nanos >= start.nanos {
        Some(now.secs - start.secs)
    } else {
        Some(now.secs - start.secs - 1)
    }
}

/// A duration as it is shown to people: days and hours, hours and minutes,
/// or minutes alone, whichever leading unit is not zero.
#[derive(PartialEq, Eq, Structural, Debug, Clone, Copy)]
pub enum Uptime {
    Days { days: u64, hours: u64 },
    Hours { hours: u64, minutes: u64 },
    Minutes { minutes: u64 },
}

pub open spec fn uptime_spec(secs: u64) -> Uptime {
    let days = secs / 86400;
    let hours = (secs % 86400) / 3600;
    let minutes = (secs % 3600) / 60;
    if days > 0 {
        Uptime::Days { days: days as u64, hours: hours as u64 }
    } else if hours > 0 {
        Uptime::Hours { hours: hours as u64, minutes: minutes as u64 }
    } else {
        Uptime::Minutes { minutes: minutes as u64 }
    }
}

pub fn uptime_parts(secs: u64) -> (r: Uptime)
    ensures
        r == uptime_spec(secs),
{
    let days = secs / 86400;
    let hours = (secs % 86400) / 3600;
    let minutes = (secs % 3600) / 60;
    if days > 0 {
        Uptime::Days { days, hours }
    } else if hours > 0 {
        Uptime::Hours { hours, minutes }
    } else {
        Uptime::Minutes { minutes }
    }
}

/// Starting while a live daemon holds the lock is refused and leaves the
/// lock as it was; starting over a stale or absent lock succeeds and records
/// the new process and start time.
pub proof fn lemma_singleton(lock: RuntimeLock, holder_alive: bool, pid: u32, now: Timestamp)
    ensures
        lock_state(lock, holder_alive) == LockState::Held ==> start_spec(
            lock,
            holder_alive,
            pid,
            now,
        ) is Err && persisted_after_start(lock, holder_alive, pid, now) == lock,
        lock_state(lock, holder_alive) != LockState::Held ==> start_spec(
            lock,
            holder_alive,
            pid,
            now,
        ) is Ok && persisted_after_start(lock, holder_alive, pid, now) == (RuntimeLock {
            pid: Some(pid),
            start_time: Some(now),
        }),
{
}

} // verus!
