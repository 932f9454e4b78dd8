//! Per-repository debouncing: bursts of activity become one "snapshot due"
//! signal after a quiet settle window, or at the latest after a ceiling, and
//! no new cycle starts while a snapshot is in flight.
use vstd::prelude::*;

verus! {

/// The first and last activity of a stretch of activity.
#[derive(PartialEq, Eq, Structural, Debug, Clone, Copy)]
pub struct Window {
    pub first: u64,
    pub last: u64,
}

/// Where one repository stands. Times are milliseconds of a monotonic clock.
#[derive(PartialEq, Eq, Structural, Debug, Clone, Copy)]
pub enum Phase {
    /// No activity since the last snapshot.
    Idle,
    /// Activity seen, first at `first` and last at `last`; no snapshot yet.
    Settling { first: u64, last: u64 },
    /// A snapshot is being taken; `pending` holds the first and last activity
    /// seen meanwhile.
    InFlight { pending: Option<Window> },
}

/// The scheduler of one repository.
#[derive(PartialEq, Eq, Structural, Debug, Clone, Copy)]
pub struct Debouncer {
    /// Quiet time after the last activity before a snapshot is due.
    pub settle: u64,
    /// Longest time after the first activity before a snapshot is due.
    pub ceiling: u64,
    pub phase: Phase,
}

pub open spec fn on_activity(p: Phase, now: u64) -> Phase {
    match p {
        Phase::Idle => Phase::Settling { first: now, last: now },
        Phase::Settling { first, last } => Phase::Settling { first, last: now },
        Phase::InFlight { pending: None } => Phase::InFlight { pending: Some(Window { first: now, last: now }) },
        Phase::InFlight { pending: Some(Window { first: f, last: l }) } => Phase::InFlight { pending: Some(Window { first: f, last: now }) },
    }
}

pub open spec fn is_due(settle: u64, ceiling: u64, p: Phase, now: u64) -> bool {
    match p {
        Phase::Settling { first, last } => now >= last + settle || now >= first + ceiling,
        _ => false,
    }
}

pub open spec fn on_finish(p: Phase) -> Phase {
    match p {
        Phase::InFlight { pending: None } => Phase::Idle,
        Phase::InFlight { pending: Some(Window { first: f, last: l }) } => Phase::Settling { first: f, last: l },
        _ => p,
    }
}

/// The phase after activity at each time of `ts`, in order.
pub open spec fn after_activities(p: Phase, ts: Seq<u64>) -> Phase
    decreases ts.len(),
{
    if ts.len() == 0 {
        p
    } else {
        on_activity(after_activities(p, ts.drop_last()), ts.last())
    }
}

impl Debouncer {
    pub fn new(settle: u64, ceiling: u64) -> (r: Self)
        ensures
            r == (Debouncer { settle, ceiling, phase: Phase::Idle }),
    {
        Debouncer { settle, ceiling, phase: Phase::Idle }
    }

    /// Records activity observed at `now`.
    pub fn activity(&mut self, now: u64)
        ensures
            *final(self) == (Debouncer { phase: on_activity(old(self).phase, now), ..*old(self) }),
    {
        self.phase = match self.phase {
            Phase::Idle => Phase::Settling { first: now, last: now },
            Phase::Settling { first, last } => Phase::Settling { first, last: now },
            Phase::InFlight { pending: None } => Phase::InFlight { pending: Some(Window { first: now, last: now }) },
            Phase::InFlight { pending: Some(Window { first: f, last: l }) } => Phase::InFlight { pending: Some(Window { first: f, last: now }) },
        };
    }

    /// Asks at `now` whether a snapshot is due. When it is, the repository
    /// enters the in-flight phase and `true` is returned exactly this once.
    pub fn poll(&mut self, now: u64) -> (r: bool)
        ensures
            r == is_due(old(self).settle, old(self).ceiling, old(self).phase, now),
            r ==> *final(self) == (Debouncer { phase: Phase::InFlight { pending: None }, ..*old(self) }),
            !r ==> *final(self) == *old(self),
    {
        let due = match self.phase {
            Phase::Settling { first, last } => (now >= last && now - last >= self.settle) || (now
                >= first && now - first >= self.ceiling),
            _ => false,
        };
        if due {
            self.phase = Phase::InFlight { pending: None };
        }
        due
    }

    /// Reports that the in-flight snapshot has been handled, successfully or
    /// not. Activity seen meanwhile starts the next cycle.
    pub fn finish(&mut self)
        ensures
            *final(self) == (Debouncer { phase: on_finish(old(self).phase), ..*old(self) }),
    {
        self.phase = match self.phase {
            Phase::InFlight { pending: None } => Phase::Idle,
            Phase::InFlight { pending: Some(Window { first: f, last: l }) } => Phase::Settling { first: f, last: l },
            p => p,
        };
    }
}

/// A cheap summary of a working tree: number of files, their total size and
/// the newest modification time. Any change to it counts as activity.
#[derive(PartialEq, Eq, Structural, Debug, Clone, Copy)]
pub struct Fingerprint {
    pub files: u64,
    pub bytes: u64,
    pub newest: u128,
}

/// Change detection and debouncing for one repository, driven by periodic
/// fingerprints of its working tree.
#[derive(PartialEq, Eq, Structural, Debug, Clone, Copy)]
pub struct RepoWatch {
    pub last: Option<Fingerprint>,
    pub debouncer: Debouncer,
}

pub open spec fn observed(last: Option<Fingerprint>, fp: Fingerprint) -> bool {
    last matches Some(l) && l != fp
}

impl RepoWatch {
    pub fn new(settle: u64, ceiling: u64) -> (r: Self)
        ensures
            r == (RepoWatch { last: None, debouncer: Debouncer { settle, ceiling, phase: Phase::Idle } }),
    {
        RepoWatch { last: None, debouncer: Debouncer::new(settle, ceiling) }
    }

    /// One tick at `now` with the working tree's current fingerprint: a
    /// fingerprint that differs from the previous one is activity (the first
    /// one only sets the baseline); the result says whether a snapshot is due.
    pub fn tick(&mut self, fp: Fingerprint, now: u64) -> (r: bool)
        ensures
            ({
                let next_phase = if observed(old(self).last, fp) {
                    on_activity(old(self).debouncer.phase, now)
                } else {
                    old(self).debouncer.phase
                };
                &&& r == is_due(old(self).debouncer.settle, old(self).debouncer.ceiling, next_phase, now)
                &&& final(self).last == Some(fp)
                &&& final(self).debouncer.settle == old(self).debouncer.settle
                &&& final(self).debouncer.ceiling == old(self).debouncer.ceiling
                &&& final(self).debouncer.phase == if r {
                    Phase::InFlight { pending: None }
                } else {
                    next_phase
                }
            }),
    {
        let changed = match self.last {
            Some(l) => l != fp,
            None => false,
        };
        if changed {
            self.debouncer.activity(now);
        }
        self.last = Some(fp);
        self.debouncer.poll(now)
    }

    /// The snapshot asked for by `tick` has been handled.
    pub fn finish(&mut self)
        ensures
            final(self).last == old(self).last,
            final(self).debouncer == (Debouncer {
                phase: on_finish(old(self).debouncer.phase),
                ..old(self).debouncer
            }),
    {
        self.debouncer.finish();
    }
}

/// A burst of activity from idle collapses into one cycle: it spans the whole
/// burst; a poll between two of its signals that are under `settle` apart
/// fires nothing while the ceiling is not reached; the first poll once the
/// burst has been quiet for `settle` fires; and nothing fires again before the
/// snapshot is finished.
pub proof fn lemma_burst_coalesces(
    settle: u64,
    ceiling: u64,
    ts: Seq<u64>,
    quiet: u64,
    later: u64,
)
    requires
        ts.len() > 0,
        forall|k: int| 0 < k < ts.len() ==> #[trigger] ts[k] >= ts[k - 1],
        quiet >= ts.last() + settle,
    ensures
        after_activities(Phase::Idle, ts) == (Phase::Settling { first: ts[0], last: ts.last() }),
        forall|k: int, p: u64|
            0 <= k < ts.len() - 1 && ts[k] <= p < ts[k + 1] && ts[k + 1] < ts[k] + settle && p
                < ts[0] + ceiling ==> !#[trigger] is_due(
                settle,
                ceiling,
                after_activities(Phase::Idle, ts.take(k + 1)),
                p,
            ),
        is_due(settle, ceiling, after_activities(Phase::Idle, ts), quiet),
        !is_due(settle, ceiling, Phase::InFlight { pending: None }, later),
{
    lemma_burst_span(ts);
    assert forall|k: int, p: u64|
        0 <= k < ts.len() - 1 && ts[k] <= p < ts[k + 1] && ts[k + 1] < ts[k] + settle && p < ts[0]
            + ceiling implies !#[trigger] is_due(
        settle,
        ceiling,
        after_activities(Phase::Idle, ts.take(k + 1)),
        p,
    ) by {
        let pre = ts.take(k + 1);
        assert forall|j: int| 0 < j < pre.len() implies #[trigger] pre[j] >= pre[j - 1] by {
            assert(pre[j] == ts[j] && pre[j - 1] == ts[j - 1]);
        }
        lemma_burst_span(pre);
        assert(pre.last() == ts[k]);
        assert(pre[0] == ts[0]);
    }
}

/// Activity from idle spans from the first to the last signal.
proof fn lemma_burst_span(ts: Seq<u64>)
    requires
        ts.len() > 0,
    ensures
        after_activities(Phase::Idle, ts) == (Phase::Settling { first: ts[0], last: ts.last() }),
    decreases ts.len(),
{
    if ts.len() > 1 {
        let d = ts.drop_last();
        lemma_burst_span(d);
        assert(d[0] == ts[0]);
    } else {
        assert(ts.drop_last().len() == 0);
        assert(after_activities(Phase::Idle, ts.drop_last()) == Phase::Idle);
    }
}

/// Under continuous activity a snapshot is due no later than `ceiling` after
/// the first signal of the cycle, whatever arrives in between.
pub proof fn lemma_ceiling_bounds_delay(
    settle: u64,
    ceiling: u64,
    first: u64,
    last: u64,
    ts: Seq<u64>,
    now: u64,
)
    requires
        now >= first + ceiling,
    ensures
        is_due(
            settle,
            ceiling,
            after_activities(Phase::Settling { first, last }, ts),
            now,
        ),
    decreases ts.len(),
{
    if ts.len() > 0 {
        lemma_ceiling_bounds_delay(settle, ceiling, first, last, ts.drop_last(), now);
        lemma_keeps_first(first, last, ts.drop_last());
    }
}

proof fn lemma_keeps_first(first: u64, last: u64, ts: Seq<u64>)
    ensures
        after_activities(Phase::Settling { first, last }, ts) matches Phase::Settling { first: f, .. } && f == first,
    decreases ts.len(),
{
    if ts.len() > 0 {
        lemma_keeps_first(first, last, ts.drop_last());
    }
}

} // verus!
