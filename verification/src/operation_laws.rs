//! How clients come and go, and how a run of the tunnel begins and ends.
use vstd::prelude::*;

use crate::accept::{settle_client, AcceptLimits, SetupEvent};
use crate::channel::{ClientChannel, Received};
use crate::clients::{connection_ended, process_reader, ClientInput, Report, StopReason};
use crate::config::Config;
use crate::error::ErrorKind;
use crate::health::{recent, HealthCounters, ResetBurstTracker};
use crate::probe::ProbeState;
use crate::realms::{first_unused, is_used, ForwardNext, Forwarded, Patience, RealmTable, Table};
use crate::routing_laws::{law_the_first_unused_is_taken, one_more};
use crate::run::{
    admission, after_start, awaits_signal, enter, events, farewell, farewells, heard, let_in_with,
    release_via, watch, Admission, ReleaseVia, StartOutcome, FD_REPORT_SECS,
    REALM_ID_ALLOCATION_MAX_ATTEMPTS, TICK_MILLIS,
};
use crate::shutdown::ShutdownReason;
use crate::supervisor::{Backoff, Next};
use crate::time::Duration;
use crate::transport::ptcp::{Event, PTCPEvent};
use crate::transport::retry::{RELAY_SETUP_STEP_TIMEOUT_SECS, RELAY_STOP_TIMEOUT_SECS};

verus! {

/// What a client sends goes to its realm as it is, and it is read further. A client that is done or
/// that failed is disconnected and no longer read; at the end of a run clients are no longer read and
/// nothing is said of them.
pub proof fn law_clients_are_read(
    realm: u32,
    input: ClientInput,
    r: (Option<PTCPEvent>, Option<StopReason>),
)
    requires
        call_ensures(process_reader, (realm, input), r),
    ensures
        input matches ClientInput::Data(d) ==> if d@.len() > 0 {
            &&& r.0 matches Some(PTCPEvent::Data(to, data)) && to == realm && data@ == d@
            &&& r.1 is None
        } else {
            &&& r.0 == Some(PTCPEvent::Disconnect(realm))
            &&& r.1 == Some(StopReason::PeerClosed)
        },
        input is Failed ==> r.0 == Some(PTCPEvent::Disconnect(realm)) && r.1 == Some(
            StopReason::ReadError,
        ),
        input is Shutdown ==> r.0 is None && r.1 == Some(StopReason::Shutdown),
{
}

/// How many of some moments are less than `window` before `now`.
pub open spec fn how_many_recent(times: Seq<u128>, now: u128, window: nat) -> nat
    decreases times.len(),
{
    if times.len() == 0 {
        0
    } else {
        how_many_recent(times.drop_last(), now, window) + (if times.last() + window > now {
            1nat
        } else {
            0
        })
    }
}

proof fn lemma_recent(times: Seq<u128>, now: u128, window: nat)
    ensures
        recent(times, now, window).len() == how_many_recent(times, now, window),
        forall|i: int|
            0 <= i < recent(times, now, window).len() ==> (#[trigger] recent(times, now, window)[i])
                + window > now && times.contains(recent(times, now, window)[i]),
    decreases times.len(),
{
    if times.len() > 0 {
        let rest = times.drop_last();
        lemma_recent(rest, now, window);
        let all = recent(times, now, window);
        assert forall|i: int| 0 <= i < all.len() implies (#[trigger] all[i]) + window > now
            && times.contains(all[i]) by {
            let before = recent(rest, now, window);
            if i < before.len() {
                assert(all[i] == before[i]);
                let k = choose|k: int| 0 <= k < rest.len() && rest[k] == before[i];
                assert(times[k] == all[i]);
            } else {
                assert(all[i] == times[times.len() - 1]);
            }
        }
    }
}

/// The end of a client's connection. One without a failure, and one that the client reset, are
/// expected and counted; too many resets within the window are a burst, unless the threshold is zero.
/// Any other failure is reported as one and not counted.
pub proof fn law_ends_of_connections_are_told_apart(
    kind: Option<ErrorKind>,
    now: u128,
    resets: &mut ResetBurstTracker,
    health: &mut HealthCounters,
    r: Report,
)
    requires
        call_ensures(connection_ended, (kind, now, resets, health), r),
    ensures
        ({
            let reset = kind == Some(ErrorKind::ConnectionReset) || kind == Some(
                ErrorKind::BrokenPipe,
            ) || kind == Some(ErrorKind::ConnectionAborted);
            let count = how_many_recent(old(resets)@.times, now, old(resets)@.window) + 1;
            let burst = reset && old(resets)@.threshold > 0 && count > old(resets)@.threshold;
            &&& r is Failure <==> kind is Some && !reset
            &&& r is Burst <==> burst
            &&& burst && count <= usize::MAX ==> r == Report::Burst(count as usize)
            &&& r is Failure ==> *final(health) == *old(health)
            &&& !(r is Failure) ==> {
                &&& final(health).tcp_peer_disconnects == one_more(
                    old(health).tcp_peer_disconnects,
                )
                &&& final(health).tcp_peer_resets == if reset {
                    one_more(old(health).tcp_peer_resets)
                } else {
                    old(health).tcp_peer_resets as int
                }
                &&& final(health).tcp_peer_reset_bursts == if burst {
                    one_more(old(health).tcp_peer_reset_bursts)
                } else {
                    old(health).tcp_peer_reset_bursts as int
                }
                &&& *final(health) == (HealthCounters {
                    tcp_peer_disconnects: final(health).tcp_peer_disconnects,
                    tcp_peer_resets: final(health).tcp_peer_resets,
                    tcp_peer_reset_bursts: final(health).tcp_peer_reset_bursts,
                    ..*old(health)
                })
            }
            &&& final(resets)@.window == old(resets)@.window
            &&& final(resets)@.threshold == old(resets)@.threshold
            &&& reset ==> final(resets)@.times.len() == count && final(resets)@.times.last() == now
            &&& !reset ==> final(resets)@.times == old(resets)@.times
        }),
{
    lemma_recent(old(resets)@.times, now, old(resets)@.window);
}

/// No more clients wait for the camera than are allowed to, at least one, and each that is let in has
/// to be released for another one.
pub proof fn law_room_for_waiting_clients(
    most: usize,
    fresh: AcceptLimits,
    limits: &mut AcceptLimits,
    granted: bool,
    others: &mut AcceptLimits,
)
    requires
        call_ensures(AcceptLimits::new, (most,), fresh),
        call_ensures(AcceptLimits::try_acquire, (limits,), granted),
        call_ensures(AcceptLimits::release, (others,), ()),
    ensures
        fresh.pending() == 0,
        fresh.limit() >= 1,
        most >= 1 ==> fresh.limit() == most,
        most == 0 ==> fresh.limit() == 1,
        granted <==> old(limits).pending() < old(limits).limit(),
        granted ==> final(limits).pending() == old(limits).pending() + 1,
        !granted ==> final(limits).pending() == old(limits).pending(),
        final(limits).limit() == old(limits).limit(),
        final(others).pending() == old(others).pending() - 1,
        final(others).limit() == old(others).limit(),
{
}

/// A client is let in where a number was found for its realm and not too many wait; it takes a place
/// then, and only then.
pub proof fn law_clients_are_let_in(
    limits: &mut AcceptLimits,
    realm: Option<u32>,
    a: Admission,
)
    requires
        call_ensures(let_in_with, (limits, realm), a),
    ensures
        realm is None ==> a == Admission::NoRealm,
        realm matches Some(r) ==> if old(limits).pending() < old(limits).limit() {
            a == Admission::Admitted(r)
        } else {
            a == Admission::TooMany
        },
        a is Admitted ==> final(limits).pending() == old(limits).pending() + 1,
        !(a is Admitted) ==> final(limits).pending() == old(limits).pending(),
{
}

/// A client that is let in has an empty lane of its own, and the camera is asked to connect its
/// realm.
pub proof fn law_clients_are_entered<W>(
    table: &mut RealmTable<W>,
    realm: u32,
    waiter: W,
    r: (u64, PTCPEvent),
)
    requires
        call_ensures(enter::<W>, (table, realm, waiter), r),
        old(table).wf(),
        old(table)@.next < u64::MAX,
    ensures
        r.1 == PTCPEvent::Connect(realm),
        final(table)@.open.contains_key(realm),
        final(table)@.open[realm] == r.0,
        !old(table)@.lanes.contains_key(r.0),
        final(table)@.lanes[r.0].channel.queue.len() == 0,
        !final(table)@.lanes[r.0].channel.closed,
        final(table)@.waiters.contains_key(realm),
        final(table)@.waiters[realm] == waiter,
{
}

/// A client whose realm the camera confirmed is served, and nothing changes; any other is not, and
/// its realm is free again.
pub proof fn law_only_confirmed_clients_are_served<W>(
    table: &mut RealmTable<W>,
    realm: u32,
    lane: u64,
    event: SetupEvent,
    r: (bool, Option<&'static str>),
)
    requires
        call_ensures(settle_client::<W>, (table, realm, lane, event), r),
        old(table).wf(),
    ensures
        r.0 <==> event == SetupEvent::Ready,
        event == SetupEvent::Ready ==> final(table)@ == old(table)@ && r.1 is Some && r.1->0@
            == "realm_ready"@,
        event == SetupEvent::Lost ==> r.1 is Some && r.1->0@ == "realm_ready_failed"@,
        event == SetupEvent::TimedOut ==> r.1 is Some && r.1->0@ == "realm_ready_timeout"@,
        event == SetupEvent::NotEnqueued ==> r.1 is None,
        event != SetupEvent::Ready ==> !final(table)@.open.contains_key(realm)
            && !final(table)@.waiters.contains_key(realm),
{
}

/// Frames leave a channel in the order in which they came, also after it is closed; a closed channel
/// ends only when nothing is left in it.
pub proof fn law_channels_give_in_order(c: &mut ClientChannel, r: Received)
    requires
        call_ensures(ClientChannel::recv, (c,), r),
    ensures
        old(c)@.queue.len() > 0 ==> {
            &&& r matches Received::Data(d) && d@ == old(c)@.queue[0]
            &&& final(c)@.queue.len() == old(c)@.queue.len() - 1
            &&& forall|i: int|
                0 < i < old(c)@.queue.len() ==> final(c)@.queue[i - 1] == #[trigger] old(
                    c,
                )@.queue[i]
        },
        old(c)@.queue.len() == 0 && old(c)@.closed ==> r is Closed,
        old(c)@.queue.len() == 0 && !old(c)@.closed ==> r is Empty,
        final(c)@.closed == old(c)@.closed,
{
}

/// A frame that is kept out of its channel is given up after five seconds, counted from the first
/// attempt that found no room; until then it is tried again, and any success starts over.
pub proof fn law_patience_is_five_seconds(
    p: &mut Patience,
    f: Forwarded,
    now: u128,
    next: ForwardNext,
)
    requires
        call_ensures(Patience::after_forward, (p, f, now), next),
    ensures
        f == Forwarded::Moved ==> next is Again,
        f == Forwarded::Idle ==> next is Wait,
        f == Forwarded::Closed ==> next is End,
        f != Forwarded::Blocked ==> final(p).since is None,
        f == Forwarded::Blocked ==> match old(p).since {
            None => {
                &&& next matches ForwardNext::WaitFor(left) && left.nanos() == 5_000_000_000
                &&& final(p).since == Some(now)
            },
            Some(since) => if now >= since + 5_000_000_000 {
                next is GiveUp && final(p).since is None
            } else {
                &&& final(p).since == Some(since)
                &&& now >= since ==> (next matches ForwardNext::WaitFor(left) && now + left.nanos()
                    == since + 5_000_000_000)
            },
        },
{
}

/// A run that could not be started ends at once, to be restarted; one that could is ready, and so
/// says the probe.
pub proof fn law_runs_start_ready(
    outcome: StartOutcome,
    probe: &mut ProbeState,
    r: (Option<&'static str>, Option<ShutdownReason>),
)
    requires
        call_ensures(after_start, (outcome, probe), r),
    ensures
        outcome == StartOutcome::Ready ==> r.1 is None && final(probe).handshake_ready
            && final(probe).heartbeat_ok && r.0 is Some && r.0->0@ == "handshake_success"@,
        outcome != StartOutcome::Ready ==> r.1 == Some(ShutdownReason::Restart)
            && !final(probe).handshake_ready && !final(probe).heartbeat_ok,
        outcome == StartOutcome::HandshakeFailed ==> r.0 is Some && r.0->0@ == "handshake_fail"@,
        outcome == StartOutcome::HandshakeTimedOut ==> r.0 is Some && r.0->0@
            == "handshake_timeout"@,
        outcome == StartOutcome::NoSocket ==> r.0 is None,
{
}

/// The tunnel is restarted when nothing has come from the camera for as long as the heartbeats that
/// may be missed and the grace period take together; the probe says so then, and says otherwise as
/// soon as something comes.
pub proof fn law_silence_restarts_the_tunnel(
    probe: &mut ProbeState,
    config: &Config,
    since_last: Duration,
    r: Option<ShutdownReason>,
    other: &mut ProbeState,
)
    requires
        call_ensures(watch, (probe, config, since_last), r),
        call_ensures(heard, (other,), ()),
        config.heartbeat_interval_secs * config.heartbeat_missed_limit
            + config.heartbeat_timeout_grace_secs <= u64::MAX,
    ensures
        r is Some <==> since_last.nanos() >= (config.heartbeat_interval_secs
            * config.heartbeat_missed_limit + config.heartbeat_timeout_grace_secs) * 1_000_000_000,
        r is Some ==> r == Some(ShutdownReason::Restart) && !final(probe).heartbeat_ok,
        r is None ==> *final(probe) == *old(probe),
        final(probe).handshake_ready == old(probe).handshake_ready,
        final(other).heartbeat_ok,
        final(other).handshake_ready == old(other).handshake_ready,
{
    assert(config.heartbeat_interval_secs * config.heartbeat_missed_limit >= 0)
        by (nonlinear_arith);
}

/// A probe for readiness is answered with 200 where the tunnel stands and the camera has been heard,
/// and otherwise with 503; a probe for life always with 200.
pub proof fn law_probes_are_answered(p: &ProbeState, ready: bool, code: u16, live: u16)
    requires
        call_ensures(ProbeState::is_ready, (p,), ready),
        call_ensures(ProbeState::ready_status, (p,), code),
        call_ensures(ProbeState::live_status, (p,), live),
    ensures
        ready <==> p.handshake_ready && p.heartbeat_ok,
        ready ==> code == 200,
        !ready ==> code == 503,
        live == 200,
{
}

/// After a run the tunnel stops or is restarted: it stops only where it was to. A restart comes after
/// the current wait, or the initial one where the run was long enough, and the random part; and the
/// next wait is twice as long, but no longer than the longest.
pub proof fn law_restarts_back_off(
    b: &mut Backoff,
    reason: ShutdownReason,
    ran: Duration,
    config: &Config,
    jitter_ms: u64,
    next: Next,
)
    requires
        call_ensures(Backoff::after_run_with, (b, reason, ran, config, jitter_ms), next),
    ensures
        next is Stop <==> reason == ShutdownReason::Stop,
        next is Stop ==> *final(b) == *old(b),
        next matches Next::Restart(d) ==> {
            let wait = if ran.nanos() >= config.restart_backoff_reset_after_secs * 1_000_000_000 {
                config.restart_backoff_initial_secs
            } else {
                old(b).secs
            };
            &&& d.nanos() == wait * 1_000_000_000 + jitter_ms * 1_000_000
            &&& final(b).secs <= config.restart_backoff_max_secs
            &&& 2 * wait <= config.restart_backoff_max_secs ==> final(b).secs == 2 * wait
            &&& 2 * wait > config.restart_backoff_max_secs ==> final(b).secs
                == config.restart_backoff_max_secs
        },
{
}

/// The first wait is the initial one.
pub proof fn law_the_first_wait(config: &Config, b: Backoff)
    requires
        call_ensures(Backoff::new, (config,), b),
    ensures
        b.secs == config.restart_backoff_initial_secs,
{
}

/// A relay session is given back where there is one: on the socket of the tunnel where that went
/// through the relay, and otherwise on a new one. The task that listens for signals is waited for
/// unless the tunnel is restarted. Everything but a stop is a restart.
pub proof fn law_runs_end(
    relay: bool,
    has_lease: bool,
    v: ReleaseVia,
    reason: ShutdownReason,
    waits: bool,
    restarts: bool,
    refused: bool,
)
    requires
        call_ensures(release_via, (relay, has_lease), v),
        call_ensures(awaits_signal, (reason,), waits),
        call_ensures(ShutdownReason::is_restart, (reason,), restarts),
        call_ensures(ShutdownReason::is_ptcp_send_refused, (reason,), refused),
    ensures
        !has_lease <==> v == ReleaseVia::Nothing,
        has_lease && relay ==> v == ReleaseVia::SameSocket,
        has_lease && !relay ==> v == ReleaseVia::NewSocket,
        waits <==> reason != ShutdownReason::Restart,
        restarts <==> reason != ShutdownReason::Stop,
        refused <==> reason == ShutdownReason::RestartPtcpSendRefused,
{
}

/// At the end the camera is told of every realm that is open, once, and of no other; and no realm is
/// left.
pub proof fn law_farewell_is_said_to_all<W>(table: &mut RealmTable<W>, v: Vec<PTCPEvent>)
    requires
        call_ensures(farewell::<W>, (table,), v),
    ensures
        forall|i: int|
            0 <= i < v@.len() ==> ((#[trigger] v@[i])@ matches Event::Disconnect(realm)
                && old(table)@.open.contains_key(realm)),
        forall|realm: u32| #[trigger]
            old(table)@.open.contains_key(realm) ==> exists|i: int|
                0 <= i < v@.len() && (#[trigger] v@[i])@ == Event::Disconnect(realm),
        forall|i: int, j: int| 0 <= i < j < v@.len() ==> (#[trigger] v@[i])@ != (#[trigger] v@[j])@,
        forall|realm: u32| !(#[trigger] final(table)@.open.contains_key(realm)),
        forall|realm: u32| !(#[trigger] final(table)@.waiters.contains_key(realm)),
{
    let t = old(table)@;
    let realms = choose|realms: Seq<u32>|
        realms.to_set() == t.open.dom() && realms.no_duplicates() && events(v@)
            == #[trigger] farewells(realms);
    let es = events(v@);
    assert(es.len() == v@.len() && es.len() == realms.len());
    assert forall|i: int| 0 <= i < v@.len() implies (#[trigger] v@[i])@ == Event::Disconnect(
        realms[i],
    ) && t.open.contains_key(realms[i]) by {
        assert(es[i] == v@[i]@);
        assert(es[i] == farewells(realms)[i]);
        assert(realms.to_set().contains(realms[i]));
    }
    assert forall|realm: u32| #[trigger] t.open.contains_key(realm) implies exists|i: int|
        0 <= i < v@.len() && (#[trigger] v@[i])@ == Event::Disconnect(realm) by {
        assert(realms.to_set().contains(realm));
        let i = choose|i: int| 0 <= i < realms.len() && realms[i] == realm;
        assert(v@[i]@ == Event::Disconnect(realm));
    }
    assert forall|i: int, j: int| 0 <= i < j < v@.len() implies (#[trigger] v@[i])@ != (
    #[trigger] v@[j])@ by {
        assert(realms[i] != realms[j]);
    }
}

/// The random part of the pause before a restart is at most what is set.
pub proof fn law_pauses_are_random_within_bounds(
    b: &mut Backoff,
    reason: ShutdownReason,
    ran: Duration,
    config: &Config,
    next: Next,
)
    requires
        call_ensures(Backoff::after_run, (b, reason, ran, config), next),
    ensures
        next is Stop <==> reason == ShutdownReason::Stop,
        next matches Next::Restart(d) ==> {
            let wait = if ran.nanos() >= config.restart_backoff_reset_after_secs * 1_000_000_000 {
                config.restart_backoff_initial_secs
            } else {
                old(b).secs
            };
            &&& wait * 1_000_000_000 <= d.nanos()
            &&& d.nanos() <= wait * 1_000_000_000 + config.restart_backoff_jitter_ms * 1_000_000
            &&& final(b).secs <= config.restart_backoff_max_secs
        },
{
}

/// Spans of time: seconds and milliseconds in nanoseconds, and what is made of two spans.
pub proof fn law_spans(
    secs: u64,
    s: Duration,
    millis: u64,
    m: Duration,
    least: Duration,
    left: Duration,
    sum: Option<Duration>,
    longer: bool,
    whole_secs: u64,
    whole_millis: u128,
)
    requires
        call_ensures(Duration::from_secs, (secs,), s),
        call_ensures(Duration::from_millis, (millis,), m),
        call_ensures(Duration::min, (&s, m), least),
        call_ensures(Duration::saturating_sub, (&s, m), left),
        call_ensures(Duration::checked_add, (&s, m), sum),
        call_ensures(Duration::at_least, (&s, m), longer),
        call_ensures(Duration::as_secs, (&s,), whole_secs),
        call_ensures(Duration::as_millis, (&m,), whole_millis),
    ensures
        s.nanos() == secs * 1_000_000_000,
        m.nanos() == millis * 1_000_000,
        least.nanos() <= s.nanos() && least.nanos() <= m.nanos(),
        least.nanos() == s.nanos() || least.nanos() == m.nanos(),
        s.nanos() >= m.nanos() ==> left.nanos() + m.nanos() == s.nanos(),
        s.nanos() < m.nanos() ==> left.nanos() == 0,
        sum matches Some(d) ==> d.nanos() == s.nanos() + m.nanos(),
        longer <==> s.nanos() >= m.nanos(),
        whole_secs == secs,
        whole_millis == millis,
{
}

/// Whatever numbers are drawn for it, a client that is let in gets a realm that is neither open nor
/// waited for, and only where there is a place among those that wait. It is turned away for want of a
/// realm only where every number that was drawn is in use.
pub proof fn law_nobody_is_displaced<W>(
    t: Table<W>,
    drawn: Seq<u32>,
    pending: nat,
    limit: nat,
)
    ensures
        match admission(first_unused(t, drawn), pending, limit) {
            Admission::Admitted(realm) => {
                &&& drawn.contains(realm)
                &&& !t.open.contains_key(realm)
                &&& !t.waiters.contains_key(realm)
                &&& pending < limit
            },
            Admission::TooMany => pending >= limit,
            Admission::NoRealm => forall|i: int|
                0 <= i < drawn.len() ==> t.open.contains_key(#[trigger] drawn[i])
                    || t.waiters.contains_key(drawn[i]),
        },
{
    law_the_first_unused_is_taken(t, drawn);
    match first_unused(t, drawn) {
        Some(realm) => {
            let k = choose|k: int|
                #![trigger drawn[k]]
                0 <= k < drawn.len() && drawn[k] == realm && !is_used(t, realm) && forall|i: int|
                    0 <= i < k ==> is_used(t, #[trigger] drawn[i]);
            assert(drawn.contains(drawn[k]));
        },
        None => {
            assert forall|i: int| 0 <= i < drawn.len() implies t.open.contains_key(
                #[trigger] drawn[i],
            ) || t.waiters.contains_key(drawn[i]) by {
                assert(is_used(t, drawn[i]));
            }
        },
    }
}

/// Under which names clients that are turned away are counted.
pub proof fn law_turning_away_is_counted(a: Admission, name: Option<&'static str>)
    requires
        call_ensures(Admission::metric, (a,), name),
    ensures
        a is Admitted <==> name is None,
        a == Admission::NoRealm ==> name->0@ == "realm_id_allocation_failed"@,
        a == Admission::TooMany ==> name->0@ == "realm_setup_rejected"@,
{
}

/// How often a number is drawn for a new realm, how often the jitter buffer and the file descriptors
/// are looked at, and how long a relay server is given to be reached and to take a session back.
pub proof fn law_fixed_times_and_limits()
    ensures
        REALM_ID_ALLOCATION_MAX_ATTEMPTS == 64,
        TICK_MILLIS == 10,
        FD_REPORT_SECS == 30,
        RELAY_SETUP_STEP_TIMEOUT_SECS == 2,
        RELAY_STOP_TIMEOUT_SECS == 2,
{
}

} // verus!
