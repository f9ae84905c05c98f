//! What a client's connection does to the tunnel.
use vstd::prelude::*;

use crate::error::ErrorKind;
use crate::health::{is_burst, resets_now, wrapped, HealthCounters, ResetBurstTracker, Resets};
use crate::transport::ptcp::{Event, PTCPEvent};

verus! {

/// What came from a client.
pub enum ClientInput {
    /// Some bytes. None of them means that the client is done.
    Data(Vec<u8>),
    /// Reading failed.
    Failed(ErrorKind),
    /// The tunnel is shut down.
    Shutdown,
}

/// Why a client is no longer read.
#[derive(Clone, Copy, Debug, PartialEq, Eq, Structural)]
pub enum StopReason {
    PeerClosed,
    ReadError,
    Shutdown,
}

impl StopReason {
    /// The reason for the log.
    pub fn name(self) -> (s: &'static str)
        ensures
            s@ == match self {
                StopReason::PeerClosed => "peer_closed"@,
                StopReason::ReadError => "read_error"@,
                StopReason::Shutdown => "shutdown_signal"@,
            },
    {
        match self {
            StopReason::PeerClosed => "peer_closed",
            StopReason::ReadError => "read_error",
            StopReason::Shutdown => "shutdown_signal",
        }
    }
}

/// What is passed on of a client's input, and whether the client is read further. A client that is
/// done or that failed is disconnected.
pub fn process_reader(realm: u32, input: ClientInput) -> (r: (
    Option<PTCPEvent>,
    Option<StopReason>,
))
    ensures
        match input {
            ClientInput::Data(d) => if d@.len() == 0 {
                r.0 is Some && r.0->0@ == Event::Disconnect(realm) && r.1 == Some(
                    StopReason::PeerClosed,
                )
            } else {
                r.0 is Some && r.0->0@ == Event::Data(realm, d@) && r.1 is None
            },
            ClientInput::Failed(_) => r.0 is Some && r.0->0@ == Event::Disconnect(realm) && r.1
                == Some(StopReason::ReadError),
            ClientInput::Shutdown => r.0 is None && r.1 == Some(StopReason::Shutdown),
        },
{
    match input {
        ClientInput::Data(d) => {
            if d.len() == 0 {
                (Some(PTCPEvent::Disconnect(realm)), Some(StopReason::PeerClosed))
            } else {
                (Some(PTCPEvent::Data(realm, d)), None)
            }
        },
        ClientInput::Failed(_) => (
            Some(PTCPEvent::Disconnect(realm)),
            Some(StopReason::ReadError),
        ),
        ClientInput::Shutdown => (None, Some(StopReason::Shutdown)),
    }
}

/// Whether a failure only says that the client went away.
pub open spec fn is_reset(kind: ErrorKind) -> bool {
    kind == ErrorKind::ConnectionReset || kind == ErrorKind::BrokenPipe || kind
        == ErrorKind::ConnectionAborted
}

/// How loudly the end of a client's connection is reported.
#[derive(Clone, Copy, Debug, PartialEq, Eq, Structural)]
pub enum Report {
    /// Clients come and go.
    Expected,
    /// So many have gone away within the last minute that something is wrong.
    Burst(usize),
    /// Something else failed.
    Failure,
}

/// The counters after a client's connection has ended with a failure, or without one.
pub open spec fn counted_end(h: HealthCounters, kind: Option<ErrorKind>, burst: bool) -> HealthCounters {
    match kind {
        None => HealthCounters { tcp_peer_disconnects: wrapped(h.tcp_peer_disconnects, 1), ..h },
        Some(k) => if is_reset(k) {
            HealthCounters {
                tcp_peer_disconnects: wrapped(h.tcp_peer_disconnects, 1),
                tcp_peer_resets: wrapped(h.tcp_peer_resets, 1),
                tcp_peer_reset_bursts: if burst {
                    wrapped(h.tcp_peer_reset_bursts, 1)
                } else {
                    h.tcp_peer_reset_bursts
                },
                ..h
            }
        } else {
            h
        },
    }
}

/// Counts the end of a client's connection, and tells how loudly it is reported: a reset is what
/// clients do, unless there are too many of them.
pub fn connection_ended(
    kind: Option<ErrorKind>,
    now: u128,
    resets: &mut ResetBurstTracker,
    health: &mut HealthCounters,
) -> (r: Report)
    ensures
        match kind {
            Some(k) => if is_reset(k) {
                let seen = resets_now(old(resets)@, now);
                let burst = is_burst(old(resets)@, seen.len());
                &&& final(resets)@ == (Resets { times: seen, ..old(resets)@ })
                &&& *final(health) == counted_end(*old(health), kind, burst)
                &&& r == if burst {
                    Report::Burst(seen.len() as usize)
                } else {
                    Report::Expected
                }
            } else {
                &&& r == Report::Failure
                &&& final(resets)@ == old(resets)@
                &&& *final(health) == *old(health)
            },
            None => {
                &&& r == Report::Expected
                &&& final(resets)@ == old(resets)@
                &&& *final(health) == counted_end(*old(health), kind, false)
            },
        },
{
    match kind {
        None => {
            health.tcp_peer_disconnects = health.tcp_peer_disconnects.wrapping_add(1);
            Report::Expected
        },
        Some(k) => {
            if k == ErrorKind::ConnectionReset || k == ErrorKind::BrokenPipe || k
                == ErrorKind::ConnectionAborted {
                health.tcp_peer_disconnects = health.tcp_peer_disconnects.wrapping_add(1);
                health.tcp_peer_resets = health.tcp_peer_resets.wrapping_add(1);
                let (count, burst) = resets.record(now);
                if burst {
                    health.tcp_peer_reset_bursts = health.tcp_peer_reset_bursts.wrapping_add(1);
                    Report::Burst(count)
                } else {
                    Report::Expected
                }
            } else {
                Report::Failure
            }
        },
    }
}

} // verus!
