//! How long and how often a relay server is asked.
use vstd::prelude::*;
use vstd::string::StringExecFns;

use crate::error::{invalid, invalid_data, Error, ErrorKind, Failure};
use crate::text::{dec, push_dec};
use crate::time::{Duration, MAX_NANOS, NANOS_PER_MILLI, NANOS_PER_SEC};
use crate::transport::response::DHResponse;

verus! {

/// How long a relay server is given to take back a session, in seconds.
pub const RELAY_STOP_TIMEOUT_SECS: u64 = 2;

/// How long connecting and sending may take, in seconds.
pub const RELAY_SETUP_STEP_TIMEOUT_SECS: u64 = 2;

/// How long the first answer of a relay server is waited for, in milliseconds.
pub const RELAY_SETUP_INITIAL_WAIT_MILLIS: u64 = 500;

/// How long the first confirmation of a relay channel is waited for, in seconds.
pub const RELAY_CHANNEL_INITIAL_WAIT_SECS: u64 = 2;

/// How long a relay server is asked altogether, in seconds.
pub const RELAY_SETUP_TOTAL_TIMEOUT_SECS: u64 = 10;

/// How often a refused authentication is tried again.
pub const RELAY_AUTH_RETRY_LIMIT: u8 = 3;

/// How long a relay server is asked altogether, in nanoseconds.
pub open spec fn total_nanos() -> nat {
    (RELAY_SETUP_TOTAL_TIMEOUT_SECS * NANOS_PER_SEC) as nat
}

/// The wait after one of `wait` nanoseconds: twice as long, up to the total.
pub open spec fn next_wait(wait: nat) -> nat {
    if 2 * wait <= total_nanos() {
        2 * wait
    } else {
        total_nanos()
    }
}

/// How long the first answer of a relay server is waited for.
pub fn relay_setup_initial_wait() -> (d: Duration)
    ensures
        d.nanos() == RELAY_SETUP_INITIAL_WAIT_MILLIS * NANOS_PER_MILLI,
{
    Duration::from_millis(RELAY_SETUP_INITIAL_WAIT_MILLIS)
}

/// How long a relay server is asked altogether.
pub fn relay_setup_total_timeout() -> (d: Duration)
    ensures
        d.nanos() == total_nanos(),
{
    Duration::from_secs(RELAY_SETUP_TOTAL_TIMEOUT_SECS)
}

/// The wait after one of `wait`: twice as long, up to the total.
pub fn next_relay_wait(wait: Duration) -> (d: Duration)
    ensures
        d.nanos() == next_wait(wait.nanos()),
{
    let total = relay_setup_total_timeout();
    match wait.checked_mul(2) {
        Some(d) => d.min(total),
        None => total,
    }
}

/// What a relay server is asked for.
#[derive(Clone, Copy, Debug, PartialEq, Eq, Structural)]
pub enum RelayStage {
    /// The address of a relay.
    Lookup,
    /// An agent of the relay, and a token for it.
    Agent,
    /// That the agent starts.
    Start,
    /// That the agent confirms the channel to the camera.
    Channel,
}

/// What a stage is called where it fails.
pub open spec fn stage_name(stage: RelayStage) -> Seq<char> {
    match stage {
        RelayStage::Lookup => "online relay"@,
        RelayStage::Agent => "relay agent"@,
        RelayStage::Start => "relay start"@,
        RelayStage::Channel => "relay channel"@,
    }
}

impl RelayStage {
    /// What the stage is called where it fails.
    pub fn name(self) -> (s: &'static str)
        ensures
            s@ == stage_name(self),
    {
        match self {
            RelayStage::Lookup => "online relay",
            RelayStage::Agent => "relay agent",
            RelayStage::Start => "relay start",
            RelayStage::Channel => "relay channel",
        }
    }
}

/// The failure of a stage that took too long.
pub open spec fn expired_failure(stage: RelayStage) -> Failure {
    Failure {
        kind: ErrorKind::TimedOut,
        message: if stage == RelayStage::Channel {
            "Relay channel confirmation timed out"@
        } else {
            stage_name(stage) + " timed out after 10s"@
        },
    }
}

/// The failure of a stage whose authentication was refused once too often.
pub open spec fn auth_failure(stage: RelayStage) -> Failure {
    Failure {
        kind: ErrorKind::PermissionDenied,
        message: stage_name(stage) + " failed authentication after 3 retries"@,
    }
}

/// The failure of a stage that was answered with an error code.
pub open spec fn code_failure(stage: RelayStage, status: Seq<char>, code: u16) -> Failure {
    invalid(
        (if stage == RelayStage::Channel {
            "Relay channel"@
        } else {
            stage_name(stage)
        }) + " error response: "@ + status + " ("@ + dec(code as nat) + ")"@,
    )
}

/// The failure of connecting or sending that took too long.
pub open spec fn step_failure(action: Seq<char>) -> Failure {
    Failure {
        kind: ErrorKind::TimedOut,
        message: "timed out "@ + action + " after 2s"@,
    }
}

/// The failure of connecting or sending that took too long.
pub fn step_timeout(action: &str) -> (e: Error)
    ensures
        e@ == step_failure(action@),
{
    let mut m = String::new();
    m.append("timed out ");
    m.append(action);
    m.append(" after 2s");
    Error { kind: ErrorKind::TimedOut, message: m }
}

/// The failure of a stage that took too long.
pub fn expired_error(stage: RelayStage) -> (e: Error)
    ensures
        e@ == expired_failure(stage),
{
    let mut m = String::new();
    match stage {
        RelayStage::Channel => m.append("Relay channel confirmation timed out"),
        _ => {
            m.append(stage.name());
            m.append(" timed out after 10s");
        },
    }
    Error { kind: ErrorKind::TimedOut, message: m }
}

/// How asking a relay server stands: when it began, how long the next answer is waited for, and how
/// often the authentication was refused.
#[derive(Clone, Copy, Debug)]
pub struct RelayRetry {
    pub started: u128,
    pub wait: Duration,
    pub auth_failures: u8,
}

/// How asking stands, as contracts speak of it.
pub struct Retry {
    pub started: nat,
    pub wait: nat,
    pub auth_failures: nat,
}

impl View for RelayRetry {
    type V = Retry;

    open spec fn view(&self) -> Retry {
        Retry {
            started: self.started as nat,
            wait: self.wait.nanos(),
            auth_failures: self.auth_failures as nat,
        }
    }
}

/// The first wait of a stage, in nanoseconds.
pub open spec fn first_wait(stage: RelayStage) -> nat {
    if stage == RelayStage::Channel {
        (RELAY_CHANNEL_INITIAL_WAIT_SECS * NANOS_PER_SEC) as nat
    } else {
        (RELAY_SETUP_INITIAL_WAIT_MILLIS * NANOS_PER_MILLI) as nat
    }
}

/// Asking that begins now.
pub open spec fn begun(stage: RelayStage, now: nat) -> Retry {
    Retry { started: now, wait: first_wait(stage), auth_failures: 0 }
}

/// How long has been asked.
pub open spec fn elapsed(r: Retry, now: nat) -> nat {
    if now >= r.started {
        (now - r.started) as nat
    } else {
        0
    }
}

/// Whether the time for asking is over.
pub open spec fn expired(r: Retry, now: nat) -> bool {
    elapsed(r, now) >= total_nanos()
}

/// How long the next answer is waited for: no longer than what is left of the total.
pub open spec fn read_wait(r: Retry, now: nat) -> nat {
    let left = if elapsed(r, now) <= total_nanos() {
        (total_nanos() - elapsed(r, now)) as nat
    } else {
        0
    };
    if left < r.wait {
        left
    } else {
        r.wait
    }
}

/// After an attempt without a usable answer.
pub open spec fn slower(r: Retry) -> Retry {
    Retry { wait: next_wait(r.wait), ..r }
}

/// What comes of an answer.
pub enum Judgement {
    Accept,
    Again,
    Fail(Failure),
}

/// What comes of an answer with this code: below 300 it is accepted; a refused authentication is
/// tried again, up to the limit; anything else is a failure.
pub open spec fn judged(r: Retry, stage: RelayStage, status: Seq<char>, code: u16) -> (
    Retry,
    Judgement,
) {
    if code < 300 {
        (r, Judgement::Accept)
    } else if code == 401 {
        let refused = Retry { auth_failures: r.auth_failures + 1, ..r };
        if refused.auth_failures > RELAY_AUTH_RETRY_LIMIT {
            (refused, Judgement::Fail(auth_failure(stage)))
        } else {
            (slower(refused), Judgement::Again)
        }
    } else {
        (r, Judgement::Fail(code_failure(stage, status, code)))
    }
}

/// What comes of an answer.
pub enum Verdict {
    Accept,
    Again,
    Fail(Error),
}

impl View for Verdict {
    type V = Judgement;

    open spec fn view(&self) -> Judgement {
        match *self {
            Verdict::Accept => Judgement::Accept,
            Verdict::Again => Judgement::Again,
            Verdict::Fail(e) => Judgement::Fail(e@),
        }
    }
}

impl RelayRetry {
    /// Asking that begins now.
    pub fn begin(stage: RelayStage, now: u128) -> (r: RelayRetry)
        ensures
            r@ == begun(stage, now as nat),
    {
        let wait = match stage {
            RelayStage::Channel => Duration::from_secs(RELAY_CHANNEL_INITIAL_WAIT_SECS),
            _ => relay_setup_initial_wait(),
        };
        RelayRetry { started: now, wait, auth_failures: 0 }
    }

    /// How long has been asked.
    fn elapsed(&self, now: u128) -> (d: Duration)
        ensures
            d.nanos() == if elapsed(self@, now as nat) <= MAX_NANOS {
                elapsed(self@, now as nat)
            } else {
                MAX_NANOS as nat
            },
    {
        if now >= self.started {
            Duration::from_nanos_saturating(now - self.started)
        } else {
            Duration::from_secs(0)
        }
    }

    /// Whether the time for asking is over.
    pub fn expired(&self, now: u128) -> (b: bool)
        ensures
            b == expired(self@, now as nat),
    {
        self.elapsed(now).at_least(relay_setup_total_timeout())
    }

    /// How long the next answer is waited for.
    pub fn read_wait(&self, now: u128) -> (d: Duration)
        ensures
            d.nanos() == read_wait(self@, now as nat),
    {
        let left = relay_setup_total_timeout().saturating_sub(self.elapsed(now));
        self.wait.min(left)
    }

    /// After an attempt without a usable answer, the next one is waited for longer.
    pub fn slow_down(&mut self)
        ensures
            final(self)@ == slower(old(self)@),
    {
        self.wait = next_relay_wait(self.wait);
    }

    /// What comes of an answer.
    pub fn judge(&mut self, stage: RelayStage, res: &DHResponse) -> (v: Verdict)
        requires
            old(self).auth_failures <= RELAY_AUTH_RETRY_LIMIT,
        ensures
            (final(self)@, v@) == judged(old(self)@, stage, res.status@, res.code),
            v is Again ==> final(self).auth_failures <= RELAY_AUTH_RETRY_LIMIT,
    {
        if res.code < 300 {
            return Verdict::Accept;
        }
        let mut m = String::new();
        if res.code == 401 {
            self.auth_failures = self.auth_failures + 1;
            if self.auth_failures > RELAY_AUTH_RETRY_LIMIT {
                m.append(stage.name());
                m.append(" failed authentication after 3 retries");
                return Verdict::Fail(Error { kind: ErrorKind::PermissionDenied, message: m });
            }
            self.slow_down();
            return Verdict::Again;
        }
        match stage {
            RelayStage::Channel => m.append("Relay channel"),
            _ => m.append(stage.name()),
        }
        m.append(" error response: ");
        m.append(res.status.as_str());
        m.append(" (");
        push_dec(&mut m, res.code as u64);
        m.append(")");
        Verdict::Fail(invalid_data(m))
    }
}

/// The wait after `n` attempts without a usable answer.
pub open spec fn wait_after(wait: nat, n: nat) -> nat
    decreases n,
{
    if n == 0 {
        wait
    } else {
        next_wait(wait_after(wait, (n - 1) as nat))
    }
}

/// Every wait is at least as long as the one before and none is longer than the total; each is
/// twice the one before until the total is reached, and then it stays there.
pub proof fn law_waits_double_up_to_the_total(wait: nat, n: nat)
    requires
        wait <= total_nanos(),
    ensures
        wait_after(wait, n) <= wait_after(wait, n + 1) <= total_nanos(),
        wait_after(wait, n + 1) == 2 * wait_after(wait, n) || wait_after(wait, n + 1)
            == total_nanos(),
        wait_after(wait, n) == total_nanos() ==> wait_after(wait, n + 1) == total_nanos(),
    decreases n,
{
    if n > 0 {
        law_waits_double_up_to_the_total(wait, (n - 1) as nat);
    }
}

/// A refused authentication is tried again three times; the fourth refusal is a failure.
pub proof fn law_authentication_is_retried_three_times(
    r: Retry,
    stage: RelayStage,
    status: Seq<char>,
)
    requires
        r.auth_failures <= 3,
    ensures
        ({
            let (after, j) = judged(r, stage, status, 401);
            &&& after.auth_failures == r.auth_failures + 1
            &&& r.auth_failures < 3 ==> j is Again
            &&& r.auth_failures == 3 ==> j == Judgement::Fail(auth_failure(stage))
        }),
{
}

/// No answer is waited for beyond the total.
pub proof fn law_no_wait_beyond_the_total(r: Retry, now: nat)
    requires
        !expired(r, now),
    ensures
        elapsed(r, now) + read_wait(r, now) <= total_nanos(),
        read_wait(r, now) <= r.wait,
{
}

} // verus!
