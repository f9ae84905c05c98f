//! When a run of the tunnel is followed by another, and after how long.
use vstd::prelude::*;

use crate::config::{inactivity_timeout, saturated, saturating_product, Config};
use crate::random::random_up_to;
use crate::shutdown::ShutdownReason;
use crate::time::{Duration, MAX_NANOS, NANOS_PER_MILLI, NANOS_PER_SEC};

verus! {

/// How long is waited before the next restart, in seconds, not counting the random part.
#[derive(Clone, Copy, Debug, PartialEq, Eq, Structural)]
pub struct Backoff {
    pub secs: u64,
}

/// What follows a run.
pub enum Next {
    /// The run was to be the last.
    Stop,
    /// Another run, after a pause.
    Restart(Duration),
}

/// The wait before the restart that follows a run of so many nanoseconds: a run that was long enough
/// counts as healthy and sets the wait back.
pub open spec fn wait_secs(b: Backoff, config: Config, ran: nat) -> u64 {
    if ran >= config.restart_backoff_reset_after_secs * NANOS_PER_SEC {
        config.restart_backoff_initial_secs
    } else {
        b.secs
    }
}

/// The wait before the restart after that: twice as long, up to the most that is set.
pub open spec fn doubled(secs: u64, config: Config) -> u64 {
    let twice = saturated(secs * 2);
    if twice <= config.restart_backoff_max_secs {
        twice
    } else {
        config.restart_backoff_max_secs
    }
}

/// A pause of so many seconds and milliseconds, in nanoseconds.
pub open spec fn pause(secs: u64, millis: u64) -> nat {
    (secs * NANOS_PER_SEC + millis * NANOS_PER_MILLI) as nat
}

impl Backoff {
    /// The wait before the first restart.
    pub fn new(config: &Config) -> (b: Backoff)
        ensures
            b.secs == config.restart_backoff_initial_secs,
    {
        Backoff { secs: config.restart_backoff_initial_secs }
    }

    /// Whether the pause after a run of `ran`, with a random part of `jitter_ms`, is a span of time
    /// at all.
    pub fn can_pause(&self, ran: Duration, config: &Config, jitter_ms: u64) -> (b: bool)
        ensures
            b == (pause(wait_secs(*self, *config, ran.nanos()), jitter_ms) <= MAX_NANOS),
    {
        let secs: u64 = if ran.at_least(
            Duration::from_secs(config.restart_backoff_reset_after_secs),
        ) {
            config.restart_backoff_initial_secs
        } else {
            self.secs
        };
        Duration::from_secs(secs).checked_add(Duration::from_millis(jitter_ms)).is_some()
    }

    /// What follows a run that ended for `reason` after `ran`, where the random part of the pause
    /// is `jitter_ms`.
    pub fn after_run_with(
        &mut self,
        reason: ShutdownReason,
        ran: Duration,
        config: &Config,
        jitter_ms: u64,
    ) -> (next: Next)
        requires
            reason != ShutdownReason::Stop ==> pause(
                wait_secs(*old(self), *config, ran.nanos()),
                jitter_ms,
            ) <= MAX_NANOS,
        ensures
            next is Stop <==> reason == ShutdownReason::Stop,
            next is Stop ==> *final(self) == *old(self),
            next matches Next::Restart(d) ==> {
                let secs = wait_secs(*old(self), *config, ran.nanos());
                d.nanos() == pause(secs, jitter_ms) && final(self).secs == doubled(secs, *config)
            },
    {
        if !reason.is_restart() {
            return Next::Stop;
        }
        if ran.at_least(Duration::from_secs(config.restart_backoff_reset_after_secs)) {
            self.secs = config.restart_backoff_initial_secs;
        }
        let jitter = Duration::from_millis(jitter_ms);
        let wait = Duration::from_secs(self.secs);
        let sleep = match wait.checked_add(jitter) {
            Some(d) => d,
            None => wait,
        };
        let twice: u64 = saturating_product(self.secs, 2);
        self.secs = if twice <= config.restart_backoff_max_secs {
            twice
        } else {
            config.restart_backoff_max_secs
        };
        Next::Restart(sleep)
    }

    /// What follows a run that ended for `reason` after `ran`. The pause before a restart has a
    /// random part, up to what is set.
    pub fn after_run(&mut self, reason: ShutdownReason, ran: Duration, config: &Config) -> (next:
        Next)
        requires
            reason != ShutdownReason::Stop ==> pause(
                wait_secs(*old(self), *config, ran.nanos()),
                config.restart_backoff_jitter_ms,
            ) <= MAX_NANOS,
        ensures
            next is Stop <==> reason == ShutdownReason::Stop,
            next is Stop ==> *final(self) == *old(self),
            next matches Next::Restart(d) ==> {
                let secs = wait_secs(*old(self), *config, ran.nanos());
                &&& final(self).secs == doubled(secs, *config)
                &&& exists|jitter: u64|
                    jitter <= config.restart_backoff_jitter_ms && d.nanos() == #[trigger] pause(
                        secs,
                        jitter,
                    )
            },
    {
        let jitter_ms: u64 = random_up_to(config.restart_backoff_jitter_ms);
        self.after_run_with(reason, ran, config, jitter_ms)
    }
}

/// Whether nothing has come from the camera for so long that the tunnel is to be restarted.
pub fn is_inactive(config: &Config, since_last: Duration) -> (b: bool)
    ensures
        b == (since_last.nanos() >= inactivity_timeout(*config) * NANOS_PER_SEC),
{
    since_last.at_least(Duration::from_secs(config.ptcp_inactivity_timeout_secs()))
}

/// The wait after `n` restarts in a row, none of which came after a healthy run.
pub open spec fn waited(config: Config, n: nat) -> u64
    decreases n,
{
    if n == 0 {
        config.restart_backoff_initial_secs
    } else {
        doubled(waited(config, (n - 1) as nat), config)
    }
}

/// With settings that leave room for it the wait grows from restart to restart, never beyond the
/// most that is set, and it stays there once it has reached it.
pub proof fn law_wait_grows_up_to_the_most(config: Config, n: nat)
    requires
        config.restart_backoff_initial_secs <= config.restart_backoff_max_secs,
    ensures
        waited(config, n) <= waited(config, n + 1) <= config.restart_backoff_max_secs,
        waited(config, n) == config.restart_backoff_max_secs ==> waited(config, n + 1)
            == config.restart_backoff_max_secs,
    decreases n,
{
    if n > 0 {
        law_wait_grows_up_to_the_most(config, (n - 1) as nat);
    }
}

/// A healthy run sets the wait back, however long it had grown.
pub proof fn law_healthy_run_resets(b: Backoff, config: Config, ran: nat)
    requires
        ran >= config.restart_backoff_reset_after_secs * NANOS_PER_SEC,
    ensures
        wait_secs(b, config, ran) == config.restart_backoff_initial_secs,
{
}

} // verus!
