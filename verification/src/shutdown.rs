//! Why a run of the tunnel ends.
use vstd::prelude::*;

verus! {

/// Why a run ends.
#[derive(Clone, Copy, Debug, PartialEq, Eq, Structural)]
pub enum ShutdownReason {
    Stop,
    Restart,
    RestartWatchdog,
    RestartPtcpSendRefused,
    RestartPtcpReadFatal,
}

impl ShutdownReason {
    /// Whether another run is to follow: after anything but a stop.
    pub fn is_restart(self) -> (b: bool)
        ensures
            b == (self != ShutdownReason::Stop),
    {
        match self {
            ShutdownReason::Stop => false,
            _ => true,
        }
    }

    /// Whether the run ended because the camera refused what was sent.
    pub fn is_ptcp_send_refused(self) -> (b: bool)
        ensures
            b == (self == ShutdownReason::RestartPtcpSendRefused),
    {
        self == ShutdownReason::RestartPtcpSendRefused
    }
}

} // verus!
