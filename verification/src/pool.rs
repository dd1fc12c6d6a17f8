//! Connection pool bookkeeping: a pure model of the counts a bounded
//! pool keeps.  The application owns the real connections, the clock and
//! the lock; it holds this state under its lock, asks the model what to
//! do, and performs the action outside the lock.  Acquisition is
//! exclusive: a granted connection is in use until released.

use vstd::prelude::*;

verus! {

/// Static pool configuration, supplied externally.
#[derive(Debug, Clone, Copy, PartialEq, Eq, Structural)]
pub struct PoolConfig {
    /// Largest number of live connections, in use and idle together.
    pub max_size: u32,
    /// How long one acquisition may wait before failing, in milliseconds.
    pub timeout_ms: u64,
    /// Idle time after which a connection is health-checked before use,
    /// in milliseconds.
    pub idle_check_ms: u64,
}

impl PoolConfig {
    pub open spec fn wf(self) -> bool {
        self.max_size >= 1
    }
}

/// The pool's bookkeeping counts.
#[derive(Debug, Clone, Copy, PartialEq, Eq, Structural)]
pub struct PoolState {
    /// Connections currently checked out.
    pub in_use: u32,
    /// Connections sitting idle, ready for reuse.
    pub idle: u32,
}

impl PoolState {
    /// The counts never exceed the configured capacity.
    pub open spec fn wf(self, cfg: PoolConfig) -> bool {
        self.in_use + self.idle <= cfg.max_size
    }
}

/// What one acquisition attempt should do.
#[derive(Debug, Clone, Copy, PartialEq, Eq, Structural)]
pub enum AcquireDecision {
    /// Hand out an idle connection.
    Reuse,
    /// Open a fresh connection; the pool is below capacity.
    Create,
    /// At capacity with nothing idle: the caller must wait or give up.
    Exhausted,
}

/// Decision of one acquisition attempt on a given state.
pub open spec fn acquire_decision(cfg: PoolConfig, s: PoolState) -> AcquireDecision {
    if s.idle > 0 {
        AcquireDecision::Reuse
    } else if s.in_use < cfg.max_size {
        AcquireDecision::Create
    } else {
        AcquireDecision::Exhausted
    }
}

/// State after an acquisition attempt.
pub open spec fn acquire_next(cfg: PoolConfig, s: PoolState) -> PoolState {
    match acquire_decision(cfg, s) {
        AcquireDecision::Reuse => PoolState { in_use: (s.in_use + 1) as u32, idle: (s.idle - 1) as u32 },
        AcquireDecision::Create => PoolState { in_use: (s.in_use + 1) as u32, idle: s.idle },
        AcquireDecision::Exhausted => s,
    }
}

/// One acquisition attempt: reuses an idle connection, grows the pool if
/// below capacity, or reports exhaustion leaving the state unchanged.
pub fn try_acquire(cfg: &PoolConfig, s: &PoolState) -> (r: (AcquireDecision, PoolState))
    requires
        cfg.wf(),
        s.wf(*cfg),
    ensures
        r.0 == acquire_decision(*cfg, *s),
        r.1 == acquire_next(*cfg, *s),
        r.1.wf(*cfg),
        r.0 is Exhausted <==> s.idle == 0 && s.in_use == cfg.max_size,
{
    if s.idle > 0 {
        (AcquireDecision::Reuse, PoolState { in_use: s.in_use + 1, idle: s.idle - 1 })
    } else if s.in_use < cfg.max_size {
        (AcquireDecision::Create, PoolState { in_use: s.in_use + 1, idle: s.idle })
    } else {
        (AcquireDecision::Exhausted, *s)
    }
}

/// State after a connection comes back to the pool.
pub open spec fn release_next(s: PoolState) -> PoolState {
    PoolState { in_use: (s.in_use - 1) as u32, idle: (s.idle + 1) as u32 }
}

/// Returns a connection to the idle list.  Called on every exit path of
/// a query, success or failure.
pub fn release(cfg: &PoolConfig, s: &PoolState) -> (r: PoolState)
    requires
        cfg.wf(),
        s.wf(*cfg),
        s.in_use >= 1,
    ensures
        r == release_next(*s),
        r.wf(*cfg),
{
    PoolState { in_use: s.in_use - 1, idle: s.idle + 1 }
}

/// Drops a connection that failed its health check; capacity frees up
/// and a later acquisition will open a replacement.
pub fn discard(cfg: &PoolConfig, s: &PoolState) -> (r: PoolState)
    requires
        cfg.wf(),
        s.wf(*cfg),
        s.in_use >= 1,
    ensures
        r == (PoolState { in_use: (s.in_use - 1) as u32, idle: s.idle }),
        r.wf(*cfg),
{
    PoolState { in_use: s.in_use - 1, idle: s.idle }
}

/// Whether a connection has sat idle long enough to need a liveness
/// check before being handed out.
pub fn needs_health_check(idle_ms: u64, cfg: &PoolConfig) -> (r: bool)
    ensures
        r == (idle_ms > cfg.idle_check_ms),
{
    idle_ms > cfg.idle_check_ms
}

/// Whether an acquisition attempt has waited out its timeout and must
/// fail with `PoolTimeout` instead of waiting longer.
pub fn past_deadline(elapsed_ms: u64, cfg: &PoolConfig) -> (r: bool)
    ensures
        r == (elapsed_ms >= cfg.timeout_ms),
{
    elapsed_ms >= cfg.timeout_ms
}

/// Exclusion law for a pool of one connection: while one request holds
/// the connection, every other acquisition attempt is refused; as soon
/// as the holder releases, the next attempt is granted.  A waiting
/// request therefore either succeeds after a release or gives up at its
/// deadline; it never deadlocks against a free pool.
pub proof fn lemma_pool_exclusive(cfg: PoolConfig, s: PoolState)
    requires
        cfg.wf(),
        cfg.max_size == 1,
        s.wf(cfg),
        s.in_use == 1,
    ensures
        acquire_decision(cfg, s) is Exhausted,
        acquire_next(cfg, s) == s,
        acquire_decision(cfg, release_next(s)) is Reuse,
        acquire_next(cfg, release_next(s)).in_use == 1,
{
}

} // verus!
