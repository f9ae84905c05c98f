//! The command line: what its words mean, and what is said in return.
use vstd::prelude::*;
use vstd::string::StringExecFns;

use crate::config::{Config, DropPolicy};
use crate::text::{
    copy, dec, int_error_str, int_error_text, parse_u16, parse_uint, push_dec, same, split,
    split_at_char, texts, to_chars, IntError,
};

verus! {

/// Where clients connect and which port of the camera they reach.
pub struct PortSpec {
    pub bind_address: String,
    pub bind_port: u16,
    pub remote_port: u16,
}

/// Why a port specification was refused.
#[derive(Clone, Copy, Debug, PartialEq, Eq, Structural)]
pub enum PortSpecError {
    /// It has not two or three parts.
    Shape,
    /// A port is no number of the right size.
    Number(IntError),
}

/// The specification that is used where none is given.
pub const DEFAULT_PORT_SPEC: &'static str = "127.0.0.1:1554:554";

/// The address to which clients connect where none is given.
pub const DEFAULT_BIND_ADDRESS: &'static str = "127.0.0.1";

/// What a port specification means: `[bind_address:]port:remote_port`.
pub open spec fn port_spec_of(text: Seq<char>) -> Result<(Seq<char>, u16, u16), PortSpecError> {
    let parts = split(text, ':');
    if parts.len() != 2 && parts.len() != 3 {
        Err(PortSpecError::Shape)
    } else {
        let n = parts.len() as int;
        let address = if n == 2 {
            DEFAULT_BIND_ADDRESS@
        } else {
            parts[0]
        };
        match parse_uint(parts[n - 2], 0xffff) {
            Err(e) => Err(PortSpecError::Number(e)),
            Ok(bind) => match parse_uint(parts[n - 1], 0xffff) {
                Err(e) => Err(PortSpecError::Number(e)),
                Ok(remote) => Ok((address, bind as u16, remote as u16)),
            },
        }
    }
}

/// Reads a port specification.
pub fn parse_port_spec(text: &str) -> (r: Result<PortSpec, PortSpecError>)
    ensures
        match r {
            Ok(p) => port_spec_of(text@) == Ok::<(Seq<char>, u16, u16), PortSpecError>(
                (p.bind_address@, p.bind_port, p.remote_port),
            ),
            Err(e) => port_spec_of(text@) == Err::<(Seq<char>, u16, u16), PortSpecError>(e),
        },
{
    let chars = to_chars(text);
    let parts = split_at_char(chars.as_slice(), ':');
    let ghost ps = split(text@, ':');
    assert(texts(parts@).len() == parts@.len());
    let n: usize = parts.len();
    if n != 2 && n != 3 {
        return Err(PortSpecError::Shape);
    }
    assert(ps[n - 2] == parts@[n - 2]@ && ps[n - 1] == parts@[n - 1]@ && ps[0] == parts@[0]@);
    let bind = to_chars(parts[n - 2].as_str());
    let remote = to_chars(parts[n - 1].as_str());
    let bind_port: u16 = match parse_u16(bind.as_slice()) {
        Ok(p) => p,
        Err(e) => {
            return Err(PortSpecError::Number(e));
        },
    };
    let remote_port: u16 = match parse_u16(remote.as_slice()) {
        Ok(p) => p,
        Err(e) => {
            return Err(PortSpecError::Number(e));
        },
    };
    let bind_address = if n == 2 {
        copy(DEFAULT_BIND_ADDRESS)
    } else {
        copy(parts[0].as_str())
    };
    Ok(PortSpec { bind_address, bind_port, remote_port })
}

impl PortSpecError {
    /// What is said of a refused specification.
    pub fn describe(self) -> (s: &'static str)
        ensures
            s@ == match self {
                PortSpecError::Shape => "Invalid port specification"@,
                PortSpecError::Number(e) => int_error_text(e),
            },
    {
        match self {
            PortSpecError::Shape => "Invalid port specification",
            PortSpecError::Number(e) => int_error_str(e),
        }
    }
}

/// The policy of a name.
pub open spec fn drop_policy_of(name: Seq<char>) -> Option<DropPolicy> {
    if name == "block"@ {
        Some(DropPolicy::Block)
    } else if name == "drop_newest"@ {
        Some(DropPolicy::DropNewest)
    } else if name == "keep_latest"@ {
        Some(DropPolicy::DropOldestKeepLatest)
    } else {
        None
    }
}

/// The policy of a name.
pub fn parse_drop_policy(name: &str) -> (r: Option<DropPolicy>)
    ensures
        r == drop_policy_of(name@),
{
    if same(name, "block") {
        Some(DropPolicy::Block)
    } else if same(name, "drop_newest") {
        Some(DropPolicy::DropNewest)
    } else if same(name, "keep_latest") {
        Some(DropPolicy::DropOldestKeepLatest)
    } else {
        None
    }
}

/// What is set on the command line.
#[derive(Clone, Copy, Debug)]
pub struct Options {
    pub buffer_ms: u64,
    pub drop_policy: DropPolicy,
    pub health_interval_secs: u64,
    pub heartbeat_interval_secs: u64,
    pub heartbeat_missed_limit: u64,
    pub heartbeat_timeout_grace_secs: u64,
    pub enable_probe: bool,
    pub probe_port: u16,
    pub max_pending_realm_setups: usize,
    pub reset_burst_warn_threshold_per_minute: u64,
}

/// `n`, but at least one.
pub open spec fn at_least_one(n: u64) -> u64 {
    if n == 0 {
        1
    } else {
        n
    }
}

/// The settings that the command line asks for. An interval, a limit and the room for waiting
/// clients are at least one; what cannot be set there is as by default.
pub open spec fn configured(o: Options, by_default: Config) -> Config {
    Config {
        jitter_buffer_ms: o.buffer_ms,
        health_interval_secs: o.health_interval_secs,
        heartbeat_interval_secs: at_least_one(o.heartbeat_interval_secs),
        heartbeat_missed_limit: at_least_one(o.heartbeat_missed_limit),
        heartbeat_timeout_grace_secs: o.heartbeat_timeout_grace_secs,
        enable_probe: o.enable_probe,
        probe_port: o.probe_port,
        max_pending_realm_setups: if o.max_pending_realm_setups == 0 {
            1
        } else {
            o.max_pending_realm_setups
        },
        reset_burst_warn_threshold_per_minute: o.reset_burst_warn_threshold_per_minute,
        drop_policy: o.drop_policy,
        ..by_default
    }
}

fn raise(n: u64) -> (r: u64)
    ensures
        r == at_least_one(n),
{
    if n == 0 {
        1
    } else {
        n
    }
}

impl Options {
    /// The settings that the command line asks for.
    pub fn apply(&self, by_default: Config) -> (c: Config)
        ensures
            c == configured(*self, by_default),
    {
        let mut c = by_default;
        c.jitter_buffer_ms = self.buffer_ms;
        c.health_interval_secs = self.health_interval_secs;
        c.heartbeat_interval_secs = raise(self.heartbeat_interval_secs);
        c.heartbeat_missed_limit = raise(self.heartbeat_missed_limit);
        c.heartbeat_timeout_grace_secs = self.heartbeat_timeout_grace_secs;
        c.enable_probe = self.enable_probe;
        c.probe_port = self.probe_port;
        c.max_pending_realm_setups = if self.max_pending_realm_setups == 0 {
            1
        } else {
            self.max_pending_realm_setups
        };
        c.reset_burst_warn_threshold_per_minute = self.reset_burst_warn_threshold_per_minute;
        c.drop_policy = self.drop_policy;
        c
    }
}

/// How much is logged.
#[derive(Clone, Copy, Debug, PartialEq, Eq, Structural)]
pub enum Verbosity {
    Info,
    Debug,
    Trace,
}

/// How much is logged where verbosity was asked for so many times.
pub fn verbosity(asked: u8) -> (v: Verbosity)
    ensures
        v == if asked == 0 {
            Verbosity::Info
        } else if asked == 1 {
            Verbosity::Debug
        } else {
            Verbosity::Trace
        },
{
    match asked {
        0 => Verbosity::Info,
        1 => Verbosity::Debug,
        _ => Verbosity::Trace,
    }
}

/// An address and a port.
pub fn address_text(address: &str, port: u16) -> (s: String)
    ensures
        s@ == address@ + ":"@ + dec(port as nat),
{
    let mut s = String::new();
    s.append(address);
    s.append(":");
    push_dec(&mut s, port as u64);
    s
}

/// Where the camera's picture is, once the tunnel leads to its RTSP port. The standard port is left
/// out.
pub open spec fn rtsp_url(bind_port: u16) -> Seq<char> {
    "rtsp://127.0.0.1"@ + (if bind_port != 554 {
        ":"@ + dec(bind_port as nat)
    } else {
        Seq::empty()
    }) + "/cam/realmonitor?channel=1&subtype=0"@
}

/// Where the camera's picture is, if the tunnel leads to its RTSP port.
pub fn rtsp_hint(bind_port: u16, remote_port: u16) -> (r: Option<String>)
    ensures
        match r {
            Some(url) => remote_port == 554 && url@ == rtsp_url(bind_port),
            None => remote_port != 554,
        },
{
    if remote_port != 554 {
        return None;
    }
    let mut s = String::new();
    s.append("rtsp://127.0.0.1");
    let mut port = String::new();
    if bind_port != 554 {
        port.append(":");
        push_dec(&mut port, bind_port as u64);
    }
    s.append(port.as_str());
    s.append("/cam/realmonitor?channel=1&subtype=0");
    Some(s)
}

/// Whatever is asked for, the heartbeat interval, the limit of missed heartbeats and the room for
/// waiting clients are not zero.
pub proof fn law_settings_are_usable(o: Options, by_default: Config)
    ensures
        configured(o, by_default).heartbeat_interval_secs > 0,
        configured(o, by_default).heartbeat_missed_limit > 0,
        configured(o, by_default).max_pending_realm_setups > 0,
{
}

} // verus!
