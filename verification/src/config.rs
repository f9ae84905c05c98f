//! Settings.
use vstd::prelude::*;

verus! {

/// What happens to a frame for a client whose queue is full.
#[derive(Clone, Copy, Debug, PartialEq, Eq, Structural)]
pub enum DropPolicy {
    /// It waits for room.
    Block,
    /// It is dropped.
    DropNewest,
    /// The oldest frame in the queue is dropped for it.
    DropOldestKeepLatest,
}

/// Settings of the tunnel.
#[derive(Clone, Copy, Debug)]
pub struct Config {
    pub heartbeat_interval_secs: u64,
    pub heartbeat_missed_limit: u64,
    pub heartbeat_timeout_grace_secs: u64,
    pub health_interval_secs: u64,
    pub enable_probe: bool,
    pub probe_port: u16,
    pub restart_backoff_initial_secs: u64,
    pub restart_backoff_max_secs: u64,
    pub restart_backoff_jitter_ms: u64,
    pub restart_backoff_reset_after_secs: u64,
    pub handshake_timeout_secs: u64,
    pub realm_ready_timeout_secs: u64,
    pub max_pending_realm_setups: usize,
    pub reset_burst_warn_threshold_per_minute: u64,
    pub channel_capacity: usize,
    pub drop_policy: DropPolicy,
    pub jitter_buffer_ms: u64,
}

/// `n`, or the largest `u64` where that is less.
pub open spec fn saturated(n: int) -> u64 {
    if n <= u64::MAX {
        n as u64
    } else {
        u64::MAX
    }
}

/// `a * b`, or the largest `u64` where that is less.
pub fn saturating_product(a: u64, b: u64) -> (n: u64)
    ensures
        n == saturated(a * b),
{
    match a.checked_mul(b) {
        Some(n) => n,
        None => u64::MAX,
    }
}

/// How long nothing may come from the camera before the tunnel is restarted, in seconds: the
/// heartbeats that may be missed, and the grace period.
pub open spec fn inactivity_timeout(c: Config) -> u64 {
    saturated(
        saturated(c.heartbeat_interval_secs * c.heartbeat_missed_limit)
            + c.heartbeat_timeout_grace_secs,
    )
}

impl Config {
    /// How long nothing may come from the camera before the tunnel is restarted, in seconds.
    pub fn ptcp_inactivity_timeout_secs(&self) -> (n: u64)
        ensures
            n == inactivity_timeout(*self),
    {
        saturating_product(self.heartbeat_interval_secs, self.heartbeat_missed_limit).saturating_add(
            self.heartbeat_timeout_grace_secs,
        )
    }
}

impl Default for Config {
    fn default() -> (c: Config)
        ensures
            c == (Config {
                heartbeat_interval_secs: 10,
                heartbeat_missed_limit: 1,
                heartbeat_timeout_grace_secs: 0,
                health_interval_secs: 60,
                enable_probe: false,
                probe_port: 8080,
                restart_backoff_initial_secs: 1,
                restart_backoff_max_secs: 30,
                restart_backoff_jitter_ms: 500,
                restart_backoff_reset_after_secs: 60,
                handshake_timeout_secs: 15,
                realm_ready_timeout_secs: 10,
                max_pending_realm_setups: 128,
                reset_burst_warn_threshold_per_minute: 20,
                channel_capacity: 128,
                drop_policy: DropPolicy::Block,
                jitter_buffer_ms: 0,
            }),
    {
        Config {
            heartbeat_interval_secs: 10,
            heartbeat_missed_limit: 1,
            heartbeat_timeout_grace_secs: 0,
            health_interval_secs: 60,
            enable_probe: false,
            probe_port: 8080,
            restart_backoff_initial_secs: 1,
            restart_backoff_max_secs: 30,
            restart_backoff_jitter_ms: 500,
            restart_backoff_reset_after_secs: 60,
            handshake_timeout_secs: 15,
            realm_ready_timeout_secs: 10,
            max_pending_realm_setups: 128,
            reset_burst_warn_threshold_per_minute: 20,
            channel_capacity: 128,
            drop_policy: DropPolicy::Block,
            jitter_buffer_ms: 0,
        }
    }
}

/// The time without activity that is tolerated is at least the grace period, and at least one
/// heartbeat interval where one heartbeat may be missed.
pub proof fn law_timeout_covers_heartbeats(c: Config)
    ensures
        inactivity_timeout(c) >= c.heartbeat_timeout_grace_secs,
        c.heartbeat_missed_limit >= 1 ==> inactivity_timeout(c) >= c.heartbeat_interval_secs,
{
    if c.heartbeat_missed_limit >= 1 {
        assert(c.heartbeat_interval_secs * c.heartbeat_missed_limit >= c.heartbeat_interval_secs)
            by (nonlinear_arith)
            requires
                c.heartbeat_missed_limit >= 1,
        ;
    }
    assert(c.heartbeat_interval_secs * c.heartbeat_missed_limit >= 0) by (nonlinear_arith);
}

} // verus!
