use earthwyrm::pool::{
    AcquireDecision, PoolConfig, PoolState, needs_health_check, past_deadline, release,
    try_acquire,
};

fn cfg_one() -> PoolConfig {
    PoolConfig { max_size: 1, timeout_ms: 250, idle_check_ms: 10_000 }
}

/// Pool exhaustion scenario: with max size 1 and two requests, the
/// second is refused while the first holds the connection, succeeds
/// right after release, and gives up at its deadline instead of waiting
/// forever.
#[test]
fn pool_of_one_excludes_and_recovers() {
    let cfg = cfg_one();
    let empty = PoolState { in_use: 0, idle: 0 };
    // First request opens the single connection.
    let (d1, s1) = try_acquire(&cfg, &empty);
    assert_eq!(d1, AcquireDecision::Create);
    assert_eq!(s1.in_use, 1);
    // Second request finds the pool exhausted, unchanged.
    let (d2, s2) = try_acquire(&cfg, &s1);
    assert_eq!(d2, AcquireDecision::Exhausted);
    assert_eq!(s2, s1);
    // The deadline decision is what keeps it from waiting forever.
    assert!(!past_deadline(249, &cfg));
    assert!(past_deadline(250, &cfg));
    // Once the first request releases, the second is granted at once.
    let s3 = release(&cfg, &s2);
    assert_eq!(s3.in_use, 0);
    assert_eq!(s3.idle, 1);
    let (d4, s4) = try_acquire(&cfg, &s3);
    assert_eq!(d4, AcquireDecision::Reuse);
    assert_eq!(s4.in_use, 1);
    assert_eq!(s4.idle, 0);
}

#[test]
fn pool_grows_to_capacity_then_refuses() {
    let cfg = PoolConfig { max_size: 3, timeout_ms: 100, idle_check_ms: 1000 };
    let mut s = PoolState { in_use: 0, idle: 0 };
    for expected in 1..=3u32 {
        let (d, next) = try_acquire(&cfg, &s);
        assert_eq!(d, AcquireDecision::Create);
        s = next;
        assert_eq!(s.in_use, expected);
    }
    let (d, _) = try_acquire(&cfg, &s);
    assert_eq!(d, AcquireDecision::Exhausted);
}

#[test]
fn idle_connections_are_health_checked_after_threshold() {
    let cfg = cfg_one();
    assert!(!needs_health_check(10_000, &cfg));
    assert!(needs_health_check(10_001, &cfg));
}
