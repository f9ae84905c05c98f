//! One run of the tunnel, from its start to its end.
use vstd::prelude::*;

use crate::accept::AcceptLimits;
use crate::config::{inactivity_timeout, Config};
use crate::probe::ProbeState;
use crate::realms::{first_unused, is_used, registered, RealmTable, Table};
use crate::shutdown::ShutdownReason;
use crate::supervisor::is_inactive;
use crate::time::{Duration, NANOS_PER_SEC};
use crate::transport::ptcp::{Event, PTCPEvent};

verus! {

/// How often a number for a new realm is drawn before a client is turned away.
pub const REALM_ID_ALLOCATION_MAX_ATTEMPTS: usize = 64;

/// How often the open file descriptors are reported, in seconds.
pub const FD_REPORT_SECS: u64 = 30;

/// How often the jitter buffer is asked for frames that are due, in milliseconds.
pub const TICK_MILLIS: u64 = 10;

/// How the start of a run came out.
#[derive(Clone, Copy, Debug, PartialEq, Eq, Structural)]
pub enum StartOutcome {
    /// There is no socket to reach the camera with.
    NoSocket,
    HandshakeFailed,
    HandshakeTimedOut,
    Ready,
}

/// The name under which an outcome is counted.
pub open spec fn start_metric(outcome: StartOutcome) -> Option<Seq<char>> {
    match outcome {
        StartOutcome::NoSocket => None,
        StartOutcome::HandshakeFailed => Some("handshake_fail"@),
        StartOutcome::HandshakeTimedOut => Some("handshake_timeout"@),
        StartOutcome::Ready => Some("handshake_success"@),
    }
}

/// The state of the probe before the handshake and after the run: not ready.
pub fn not_ready() -> (p: ProbeState)
    ensures
        p == (ProbeState { handshake_ready: false, heartbeat_ok: false }),
{
    ProbeState { handshake_ready: false, heartbeat_ok: false }
}

/// What follows the start of a run: unless it is ready it ends at once, to be restarted. Tells the
/// name under which the outcome is counted, and why the run ends if it does.
pub fn after_start(outcome: StartOutcome, probe: &mut ProbeState) -> (r: (
    Option<&'static str>,
    Option<ShutdownReason>,
))
    ensures
        *final(probe) == (ProbeState {
            handshake_ready: outcome == StartOutcome::Ready,
            heartbeat_ok: outcome == StartOutcome::Ready,
        }),
        match r.0 {
            Some(name) => start_metric(outcome) == Some(name@),
            None => start_metric(outcome) is None,
        },
        r.1 == if outcome == StartOutcome::Ready {
            None::<ShutdownReason>
        } else {
            Some(ShutdownReason::Restart)
        },
{
    *probe = not_ready();
    match outcome {
        StartOutcome::NoSocket => (None, Some(ShutdownReason::Restart)),
        StartOutcome::HandshakeFailed => (Some("handshake_fail"), Some(ShutdownReason::Restart)),
        StartOutcome::HandshakeTimedOut => (
            Some("handshake_timeout"),
            Some(ShutdownReason::Restart),
        ),
        StartOutcome::Ready => {
            probe.handshake_ready = true;
            probe.heartbeat_ok = true;
            (Some("handshake_success"), None)
        },
    }
}

/// Looks whether the camera has been heard of late. Where it has not, the probe says so and the run
/// ends, to be restarted.
pub fn watch(probe: &mut ProbeState, config: &Config, since_last: Duration) -> (r: Option<
    ShutdownReason,
>)
    ensures
        if since_last.nanos() >= inactivity_timeout(*config) * NANOS_PER_SEC {
            &&& r == Some(ShutdownReason::Restart)
            &&& *final(probe) == (ProbeState { heartbeat_ok: false, ..*old(probe) })
        } else {
            &&& r is None
            &&& *final(probe) == *old(probe)
        },
{
    if is_inactive(config, since_last) {
        probe.heartbeat_ok = false;
        Some(ShutdownReason::Restart)
    } else {
        None
    }
}

/// Something came from the camera.
pub fn heard(probe: &mut ProbeState)
    ensures
        *final(probe) == (ProbeState { heartbeat_ok: true, ..*old(probe) }),
{
    probe.heartbeat_ok = true;
}

/// What becomes of a client that has connected.
#[derive(Clone, Copy, Debug, PartialEq, Eq, Structural)]
pub enum Admission {
    /// It is set up with this realm.
    Admitted(u32),
    /// No number was found for its realm.
    NoRealm,
    /// Too many wait already.
    TooMany,
}

impl Admission {
    /// The name under which a client that is turned away is counted.
    pub fn metric(self) -> (name: Option<&'static str>)
        ensures
            match name {
                Some(n) => match self {
                    Admission::NoRealm => n@ == "realm_id_allocation_failed"@,
                    Admission::TooMany => n@ == "realm_setup_rejected"@,
                    Admission::Admitted(_) => false,
                },
                None => self is Admitted,
            },
    {
        match self {
            Admission::Admitted(_) => None,
            Admission::NoRealm => Some("realm_id_allocation_failed"),
            Admission::TooMany => Some("realm_setup_rejected"),
        }
    }
}

/// What becomes of a client that has connected, where this number was found for its realm and so
/// many of at most `limit` clients wait.
pub open spec fn admission(found: Option<u32>, pending: nat, limit: nat) -> Admission {
    match found {
        None => Admission::NoRealm,
        Some(realm) => if pending < limit {
            Admission::Admitted(realm)
        } else {
            Admission::TooMany
        },
    }
}

/// What becomes of a client that has connected, where this number was found for its realm.
pub fn let_in_with(limits: &mut AcceptLimits, realm: Option<u32>) -> (a: Admission)
    requires
        old(limits).wf(),
    ensures
        final(limits).wf(),
        final(limits).limit() == old(limits).limit(),
        a == admission(realm, old(limits).pending(), old(limits).limit()),
        final(limits).pending() == old(limits).pending() + (if a is Admitted {
            1int
        } else {
            0
        }),
{
    match realm {
        None => Admission::NoRealm,
        Some(r) => {
            if limits.try_acquire() {
                Admission::Admitted(r)
            } else {
                Admission::TooMany
            }
        },
    }
}

/// What becomes of a client that has connected. It is given a realm that nobody has.
pub fn let_in<W>(table: &RealmTable<W>, limits: &mut AcceptLimits) -> (a: Admission)
    requires
        old(limits).wf(),
    ensures
        final(limits).wf(),
        final(limits).limit() == old(limits).limit(),
        a matches Admission::Admitted(realm) ==> !is_used(table@, realm)
            && old(limits).pending() < old(limits).limit() && final(limits).pending()
            == old(limits).pending() + 1,
        !(a is Admitted) ==> final(limits).pending() == old(limits).pending(),
        a == Admission::TooMany ==> old(limits).pending() == old(limits).limit(),
        a == Admission::NoRealm ==> exists|realm: u32| #[trigger] is_used(table@, realm),
        exists|drawn: Seq<u32>|
            drawn.len() == REALM_ID_ALLOCATION_MAX_ATTEMPTS && a == admission(
                #[trigger] first_unused(table@, drawn),
                old(limits).pending(),
                old(limits).limit(),
            ),
{
    proof {
        limits.law_pending_is_limited();
    }
    let realm = table.allocate_unique_realm_id(REALM_ID_ALLOCATION_MAX_ATTEMPTS);
    let_in_with(limits, realm)
}

/// Enters a client that was admitted, and tells the number of its lane and what goes to the camera.
pub fn enter<W>(table: &mut RealmTable<W>, realm: u32, waiter: W) -> (r: (u64, PTCPEvent))
    requires
        old(table).wf(),
        old(table)@.next < u64::MAX,
    ensures
        final(table).wf(),
        final(table)@ == registered(old(table)@, realm, waiter),
        r.0 == old(table)@.next,
        r.1@ == Event::Connect(realm),
{
    let id: u64 = table.register(realm, waiter);
    (id, PTCPEvent::Connect(realm))
}

/// What became of a client that has connected.
pub enum Entry<W> {
    /// It is entered: its realm, the number of its lane, and what goes to the camera.
    Entered(u32, u64, PTCPEvent),
    /// It is turned away.
    TurnedAway(Admission, W),
}

/// Lets a client in that has connected, if there is room. Nobody's place is taken.
pub fn accept_client<W>(table: &mut RealmTable<W>, limits: &mut AcceptLimits, waiter: W) -> (e:
    Entry<W>)
    requires
        old(table).wf(),
        old(table)@.next < u64::MAX,
        old(limits).wf(),
    ensures
        final(table).wf(),
        final(limits).wf(),
        final(limits).limit() == old(limits).limit(),
        match e {
            Entry::Entered(realm, lane, event) => {
                &&& !is_used(old(table)@, realm)
                &&& final(table)@ == registered(old(table)@, realm, waiter)
                &&& lane == old(table)@.next
                &&& event@ == Event::Connect(realm)
                &&& old(limits).pending() < old(limits).limit()
                &&& final(limits).pending() == old(limits).pending() + 1
            },
            Entry::TurnedAway(a, w) => {
                &&& !(a is Admitted)
                &&& w == waiter
                &&& final(table)@ == old(table)@
                &&& final(limits).pending() == old(limits).pending()
                &&& a == Admission::TooMany ==> old(limits).pending() == old(limits).limit()
                &&& a == Admission::NoRealm ==> exists|realm: u32| #[trigger]
                    is_used(old(table)@, realm)
            },
        },
        exists|drawn: Seq<u32>|
            drawn.len() == REALM_ID_ALLOCATION_MAX_ATTEMPTS && admission(
                #[trigger] first_unused(old(table)@, drawn),
                old(limits).pending(),
                old(limits).limit(),
            ) == match e {
                Entry::Entered(realm, _, _) => Admission::Admitted(realm),
                Entry::TurnedAway(a, _) => a,
            },
{
    match let_in(table, limits) {
        Admission::Admitted(realm) => {
            let (lane, event) = enter(table, realm, waiter);
            Entry::Entered(realm, lane, event)
        },
        a => Entry::TurnedAway(a, waiter),
    }
}

/// What the camera is told at the end: that every realm is over.
pub open spec fn farewells(realms: Seq<u32>) -> Seq<Event> {
    realms.map_values(|r: u32| Event::Disconnect(r))
}

/// What some events are.
pub open spec fn events(v: Seq<PTCPEvent>) -> Seq<Event> {
    v.map_values(|e: PTCPEvent| e@)
}

/// Tells the camera that every realm is over, and forgets them and everyone who waits.
pub fn farewell<W>(table: &mut RealmTable<W>) -> (v: Vec<PTCPEvent>)
    requires
        old(table).wf(),
    ensures
        final(table).wf(),
        final(table)@ == (Table {
            open: Map::<u32, u64>::empty(),
            waiters: Map::<u32, W>::empty(),
            ..old(table)@
        }),
        exists|realms: Seq<u32>|
            realms.to_set() == old(table)@.open.dom() && realms.no_duplicates() && events(v@)
                == #[trigger] farewells(realms),
{
    let realms = table.realms();
    let mut v: Vec<PTCPEvent> = Vec::new();
    let mut i: usize = 0;
    while i < realms.len()
        invariant
            i <= realms.len(),
            events(v@) == farewells(realms@.take(i as int)),
        decreases realms.len() - i,
    {
        let ghost before = v@;
        v.push(PTCPEvent::Disconnect(realms[i]));
        assert(events(v@) =~= events(before).push(Event::Disconnect(realms@[i as int])));
        assert(farewells(realms@.take(i + 1)) =~= farewells(realms@.take(i as int)).push(
            Event::Disconnect(realms@[i as int]),
        ));
        i = i + 1;
    }
    assert(realms@.take(i as int) =~= realms@);
    table.clear();
    v
}

/// How the relay session is given back at the end of a run.
#[derive(Clone, Copy, Debug, PartialEq, Eq, Structural)]
pub enum ReleaseVia {
    /// There is none.
    Nothing,
    /// On the socket that the tunnel used.
    SameSocket,
    /// On a new socket.
    NewSocket,
}

/// How the relay session is given back: where the tunnel went through the relay, on its socket.
pub fn release_via(relay: bool, has_lease: bool) -> (v: ReleaseVia)
    ensures
        v == if !has_lease {
            ReleaseVia::Nothing
        } else if relay {
            ReleaseVia::SameSocket
        } else {
            ReleaseVia::NewSocket
        },
{
    if !has_lease {
        ReleaseVia::Nothing
    } else if relay {
        ReleaseVia::SameSocket
    } else {
        ReleaseVia::NewSocket
    }
}

/// Whether the run waits for the task that listens for a signal to stop. After `Restart` that task is
/// put an end to. The other reasons to restart are treated like a stop; no run of this tunnel ends for
/// one of them.
pub fn awaits_signal(reason: ShutdownReason) -> (b: bool)
    ensures
        b == (reason != ShutdownReason::Restart),
{
    reason != ShutdownReason::Restart
}

/// Whatever some realms are, the camera is told once of each, and of no other.
pub proof fn law_everyone_is_told_once(realms: Seq<u32>, i: int, j: int)
    requires
        realms.no_duplicates(),
        0 <= i < realms.len(),
        0 <= j < realms.len(),
    ensures
        farewells(realms).len() == realms.len(),
        farewells(realms)[i] == Event::Disconnect(realms[i]),
        farewells(realms)[i] == farewells(realms)[j] ==> i == j,
{
}

} // verus!
