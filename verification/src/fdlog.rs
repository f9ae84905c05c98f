//! What is said of open file descriptors.
use vstd::prelude::*;
use vstd::string::StringExecFns;

use crate::text::{dec, push_dec};

verus! {

/// A snapshot of open file descriptors and channels, for the log.
pub open spec fn fd_text(
    label: Seq<char>,
    open_fds: Result<nat, Seq<char>>,
    channels: nat,
    conn_channels: nat,
) -> Seq<char> {
    "FD usage ["@ + label + "]: open_fds="@ + (match open_fds {
        Ok(n) => dec(n),
        Err(e) => "unavailable ("@ + e + ")"@,
    }) + ", channels="@ + dec(channels) + ", conn_channels="@ + dec(conn_channels)
}

/// A snapshot of open file descriptors, or of why they could not be counted, along with how many
/// channels there are.
pub fn log_fd_snapshot(
    label: &str,
    open_fds: Result<usize, &str>,
    channels_len: usize,
    conn_channels_len: usize,
) -> (s: String)
    ensures
        s@ == fd_text(
            label@,
            match open_fds {
                Ok(n) => Ok(n as nat),
                Err(e) => Err(e@),
            },
            channels_len as nat,
            conn_channels_len as nat,
        ),
{
    let mut s = String::new();
    s.append("FD usage [");
    s.append(label);
    s.append("]: open_fds=");
    match open_fds {
        Ok(n) => push_dec(&mut s, n as u64),
        Err(e) => {
            let mut why = String::new();
            why.append("unavailable (");
            why.append(e);
            why.append(")");
            s.append(why.as_str());
        },
    }
    s.append(", channels=");
    push_dec(&mut s, channels_len as u64);
    s.append(", conn_channels=");
    push_dec(&mut s, conn_channels_len as u64);
    s
}

} // verus!
