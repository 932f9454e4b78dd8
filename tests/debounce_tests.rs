use dura::debounce::{Debouncer, Fingerprint, Phase, RepoWatch};

#[test]
fn burst_gives_one_due_signal() {
    let mut d = Debouncer::new(2000, 30000);
    let mut fired = 0;
    for t in [0u64, 500, 1200, 2500, 4000] {
        d.activity(t);
        if d.poll(t + 100) {
            fired += 1;
        }
    }
    assert_eq!(fired, 0);
    assert!(!d.poll(5999));
    assert!(d.poll(6000));
    assert!(!d.poll(6001));
    assert!(!d.poll(100000));
    d.finish();
    assert_eq!(d.phase, Phase::Idle);
}

#[test]
fn continuous_activity_hits_the_ceiling() {
    let mut d = Debouncer::new(2000, 10000);
    let mut due_at = Vec::new();
    let mut t = 0u64;
    while t <= 25000 {
        d.activity(t);
        if d.poll(t) {
            due_at.push(t);
            d.finish();
        }
        t += 1000;
    }
    assert_eq!(due_at, vec![10000, 21000]);
}

#[test]
fn activity_during_snapshot_starts_next_cycle() {
    let mut d = Debouncer::new(100, 1000);
    d.activity(0);
    assert!(d.poll(100));
    d.activity(150);
    assert!(!d.poll(10000));
    d.finish();
    assert_eq!(d.phase, Phase::Settling { first: 150, last: 150 });
    assert!(d.poll(250));
}

#[test]
fn fingerprint_changes_drive_snapshots() {
    let fp = |n: u64| Fingerprint { files: n, bytes: 10 * n, newest: n as u128 };
    let mut w = RepoWatch::new(100, 1000);
    assert!(!w.tick(fp(1), 0));
    assert!(!w.tick(fp(1), 500));
    assert_eq!(w.debouncer.phase, Phase::Idle);
    assert!(!w.tick(fp(2), 600));
    assert!(!w.tick(fp(2), 650));
    assert!(w.tick(fp(2), 700));
    assert!(!w.tick(fp(2), 800));
    w.finish();
    assert_eq!(w.debouncer.phase, Phase::Idle);
    assert_eq!(w.last, Some(fp(2)));
}
