//! What a probe of the tunnel is answered.
use vstd::prelude::*;

verus! {

/// Whether the tunnel stands, and whether the camera has been heard of late.
#[derive(Clone, Copy, Debug, Default, PartialEq, Eq, Structural)]
pub struct ProbeState {
    pub handshake_ready: bool,
    pub heartbeat_ok: bool,
}

impl ProbeState {
    /// Whether clients can be served.
    pub fn is_ready(&self) -> (b: bool)
        ensures
            b == (self.handshake_ready && self.heartbeat_ok),
    {
        self.handshake_ready && self.heartbeat_ok
    }

    /// The HTTP status that a probe for readiness is answered with.
    pub fn ready_status(&self) -> (code: u16)
        ensures
            code == if self.handshake_ready && self.heartbeat_ok {
                200u16
            } else {
                503u16
            },
    {
        if self.is_ready() {
            200
        } else {
            503
        }
    }

    /// The HTTP status that a probe for life is answered with.
    pub fn live_status(&self) -> (code: u16)
        ensures
            code == 200,
    {
        200
    }
}

} // verus!
