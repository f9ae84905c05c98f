//! How a tunnel to a camera is set up: what is asked of whom, in which order, and when to give up.
//!
//! The handshake does no input or output. It says what to do next and is told what came of it.
use vstd::prelude::*;
use vstd::slice::slice_subrange;
use vstd::string::StringExecFns;

use crate::bytes::push_bytes;
use crate::error::{invalid, invalid_data, Error, ErrorKind, Failure};
use crate::random::{
    is_utc_text, random_12, random_4, random_8, random_u32, utc_seconds,
};
use crate::text::{copy, dec, push_dec};
use crate::time::{Duration, NANOS_PER_SEC};
use crate::transport::direct::{
    addr_wire, bad_addr_text, command, command_tail, command_wire, confirm_datagram, confirm_wire,
    hello_datagram, hello_wire, ip_to_bytes, socket_addr_of, tail_of,
};
use crate::transport::ptcp::{
    after_recv, after_send, datagram_of, next_packet, packet_wire, recv_timeout, text_of, Body,
    PTCPBody, PTCPPacket, PTCPReadError, PTCPSession, RECV_TIMEOUT_SECS,
};
use crate::transport::request::{
    build_request, content_of, format_number, format_signed, online_path,
    p2p_channel_body, p2p_channel_fields, p2p_channel_path, probe_path, relay_agent_body,
    relay_channel_body, relay_channel_fields, relay_channel_path, relay_start_body,
    relay_start_path, request_text, signed_dec, Stamp, Stamped, MAIN_SERVER,
};
use crate::transport::response::{
    body_field, check_response, error_response_text, response_body_field, response_of, DHResponse,
    Response,
};
use crate::transport::retry::{
    begun, expired, expired_error, expired_failure, judged, read_wait, slower, stage_name,
    step_failure, step_timeout, Judgement, RelayRetry, RelayStage, Retry, Verdict,
    RELAY_AUTH_RETRY_LIMIT,
};
use crate::transport::xml::body_xml;

verus! {

/// A relay session that is to be given back.
#[derive(Clone, Debug)]
pub struct RelayLease {
    pub token: String,
    pub relay: String,
    pub agent: String,
}

/// A lease, as contracts speak of it.
pub struct Lease {
    pub token: Seq<char>,
    pub relay: Seq<char>,
    pub agent: Seq<char>,
}

impl View for RelayLease {
    type V = Lease;

    open spec fn view(&self) -> Lease {
        Lease { token: self.token@, relay: self.relay@, agent: self.agent@ }
    }
}

/// The two sockets of a handshake: the one that leads to the camera in the end, and the one that
/// leads to the relay.
#[derive(Clone, Copy, Debug, PartialEq, Eq, Structural)]
pub enum Link {
    Camera,
    Relay,
}

/// What to do next.
pub enum Action {
    /// Open the socket that leads to the relay.
    Bind,
    /// Tell the address of a socket.
    LocalAddr(Link),
    /// Connect a socket to an address. Where it is `limited`, it may take two seconds.
    Connect { link: Link, addr: String, limited: bool },
    /// Send a request. Where it is `limited`, it may take two seconds.
    Request { link: Link, text: String, limited: bool },
    /// Send a datagram.
    Send { link: Link, data: Vec<u8> },
    /// Wait for a datagram, no longer than the limit.
    Read { link: Link, limit: Option<Duration> },
    /// Give a relay session back.
    Release(RelayLease),
    /// The tunnel stands: use this socket.
    Finish(Link),
    /// There will be no tunnel.
    Fail(Error),
}

/// What to do next, as contracts speak of it.
pub enum Act {
    Bind,
    LocalAddr(Link),
    Connect { link: Link, addr: Seq<char>, limited: bool },
    Request { link: Link, text: Seq<char>, limited: bool },
    Send { link: Link, data: Seq<u8> },
    Read { link: Link, limit: Option<nat> },
    Release(Lease),
    Finish(Link),
    Fail(Failure),
}

impl View for Action {
    type V = Act;

    open spec fn view(&self) -> Act {
        match *self {
            Action::Bind => Act::Bind,
            Action::LocalAddr(link) => Act::LocalAddr(link),
            Action::Connect { link, addr, limited } => Act::Connect { link, addr: addr@, limited },
            Action::Request { link, text, limited } => Act::Request { link, text: text@, limited },
            Action::Send { link, data } => Act::Send { link, data: data@ },
            Action::Read { link, limit } => Act::Read {
                link,
                limit: match limit {
                    Some(d) => Some(d.nanos()),
                    None => None,
                },
            },
            Action::Release(lease) => Act::Release(lease@),
            Action::Finish(link) => Act::Finish(link),
            Action::Fail(e) => Act::Fail(e@),
        }
    }
}

/// What came of an action.
pub enum Event {
    Done,
    /// The address of the socket, and the port in it.
    Address(String, u16),
    Data(Vec<u8>),
    TimedOut,
    Failed(Error),
}

/// What came of an action, as contracts speak of it.
pub enum Came {
    Done,
    Address(Seq<char>, u16),
    Data(Seq<u8>),
    TimedOut,
    Failed(Failure),
}

impl View for Event {
    type V = Came;

    open spec fn view(&self) -> Came {
        match *self {
            Event::Done => Came::Done,
            Event::Address(addr, port) => Came::Address(addr@, port),
            Event::Data(d) => Came::Data(d@),
            Event::TimedOut => Came::TimedOut,
            Event::Failed(e) => Came::Failed(e@),
        }
    }
}

/// What is drawn or read off the clock for one step.
pub struct Draw {
    pub stamp: Stamp,
    pub channel_nonce: u32,
    pub timestamp: i64,
    pub cid: [u8; 8],
    pub cookie: [u8; 4],
    pub trans_id: [u8; 12],
}

/// What is drawn, as contracts speak of it.
pub struct Drawn {
    pub stamp: Stamped,
    pub channel_nonce: u32,
    pub timestamp: i64,
    pub cid: Seq<u8>,
    pub cookie: Seq<u8>,
    pub trans_id: Seq<u8>,
}

impl View for Draw {
    type V = Drawn;

    open spec fn view(&self) -> Drawn {
        Drawn {
            stamp: self.stamp@,
            channel_nonce: self.channel_nonce,
            timestamp: self.timestamp,
            cid: self.cid@,
            cookie: self.cookie@,
            trans_id: self.trans_id@,
        }
    }
}

impl Draw {
    /// What a step that is taken now needs: its stamp says when, and the rest is drawn.
    pub fn now() -> (d: Draw)
        ensures
            is_utc_text(d.stamp.created@),
    {
        Draw {
            stamp: Stamp::now(),
            channel_nonce: random_u32(),
            timestamp: utc_seconds(),
            cid: random_8(),
            cookie: random_4(),
            trans_id: random_12(),
        }
    }
}

/// The parts of one attempt to get an answer from a relay server.
#[derive(Clone, Copy, Debug, PartialEq, Eq, Structural)]
pub enum Phase {
    Connect,
    Send,
    /// Back to the agent, which confirms what the main server was asked for.
    Return,
    Read,
}

/// What the handshake is waiting for.
#[derive(Clone, Copy, Debug, PartialEq, Eq, Structural)]
pub enum Stage {
    ConnectMain,
    SendProbe,
    ReadProbe,
    SendOnline,
    ReadOnline,
    Bind,
    ConnectServer,
    SendDeviceProbe,
    ReadDeviceProbe,
    AskLocal,
    SendChannelRequest,
    AskRelayLocal,
    Exchange(RelayStage, Phase),
    ReadDevice,
    ReadDeviceFinal,
    ConnectDevice,
    SendSync,
    ReadSync,
    SendSign,
    ReadSign,
    SendHello,
    ReadHello,
    SendConfirm,
    /// One of the datagrams that the camera sends before it listens.
    Drain(u8),
    SendDirectSync,
    ReadDirectSync,
    SendDirectSign,
    ReadDirectSign,
    SendDirectConfirm,
    ReadDirectConfirm,
    Releasing,
    Finished,
    Failed,
}

/// How many datagrams the camera sends before it listens.
pub const DRAINED: u8 = 5;

/// How long the camera's answer is waited for, in seconds.
pub const DEVICE_TIMEOUT_SECS: u64 = 5;

/// A handshake: what it is waiting for and what it has learned.
pub struct Handshake {
    pub stage: Stage,
    pub serial: String,
    pub relay_mode: bool,
    pub cseq: u32,
    pub server: String,
    pub relay: String,
    pub token: String,
    pub agent: String,
    pub local: String,
    pub device: String,
    pub device_laddr: String,
    pub cid: [u8; 8],
    pub cookie: [u8; 4],
    pub sign: Vec<u8>,
    pub session: PTCPSession,
    pub retry: RelayRetry,
    pub failure: Option<Error>,
}

/// A handshake, as contracts speak of it.
pub struct Progress {
    pub stage: Stage,
    pub serial: Seq<char>,
    pub relay_mode: bool,
    pub cseq: u32,
    pub server: Seq<char>,
    pub relay: Seq<char>,
    pub token: Seq<char>,
    pub agent: Seq<char>,
    pub local: Seq<char>,
    pub device: Seq<char>,
    pub device_laddr: Seq<char>,
    pub cid: Seq<u8>,
    pub cookie: Seq<u8>,
    pub sign: Seq<u8>,
    pub session: PTCPSession,
    pub retry: Retry,
    pub failure: Option<Failure>,
}

impl View for Handshake {
    type V = Progress;

    open spec fn view(&self) -> Progress {
        Progress {
            stage: self.stage,
            serial: self.serial@,
            relay_mode: self.relay_mode,
            cseq: self.cseq,
            server: self.server@,
            relay: self.relay@,
            token: self.token@,
            agent: self.agent@,
            local: self.local@,
            device: self.device@,
            device_laddr: self.device_laddr@,
            cid: self.cid@,
            cookie: self.cookie@,
            sign: self.sign@,
            session: self.session,
            retry: self.retry@,
            failure: match self.failure {
                Some(e) => Some(e@),
                None => None,
            },
        }
    }
}

/// Whether a relay session has been started in this stage and is still to be given back.
pub open spec fn has_lease(stage: Stage) -> bool {
    match stage {
        Stage::ConnectMain | Stage::SendProbe | Stage::ReadProbe | Stage::SendOnline
        | Stage::ReadOnline | Stage::Bind | Stage::ConnectServer | Stage::SendDeviceProbe
        | Stage::ReadDeviceProbe | Stage::AskLocal | Stage::SendChannelRequest
        | Stage::AskRelayLocal | Stage::Releasing | Stage::Failed => false,
        Stage::Exchange(ex, _) => ex == RelayStage::Channel,
        _ => true,
    }
}

/// The handshake in a stage.
pub open spec fn at(p: Progress, stage: Stage) -> Progress {
    Progress { stage, ..p }
}

pub open spec fn lease_of(p: Progress) -> Lease {
    Lease { token: p.token, relay: p.relay, agent: p.agent }
}

/// Gives up. A relay session that has been started is given back first.
pub open spec fn fail(p: Progress, f: Failure) -> (Progress, Act) {
    if has_lease(p.stage) {
        (Progress { stage: Stage::Releasing, failure: Some(f), ..p }, Act::Release(lease_of(p)))
    } else {
        (at(p, Stage::Failed), Act::Fail(f))
    }
}

/// Connects in a stage.
pub open spec fn connect(p: Progress, stage: Stage, link: Link, addr: Seq<char>, limited: bool) -> (
    Progress,
    Act,
) {
    (at(p, stage), Act::Connect { link, addr, limited })
}

/// Sends the next request in a stage.
pub open spec fn request(
    p: Progress,
    stage: Stage,
    link: Link,
    path: Seq<char>,
    body: Option<Seq<char>>,
    limited: bool,
    stamp: Stamped,
) -> (Progress, Act) {
    let cseq = (p.cseq + 1) as u32;
    (
        Progress { stage, cseq, ..p },
        Act::Request { link, text: request_text(path, body, stamp, cseq), limited },
    )
}

/// Waits for a datagram in a stage.
pub open spec fn read(p: Progress, stage: Stage, link: Link, limit: Option<nat>) -> (
    Progress,
    Act,
) {
    (at(p, stage), Act::Read { link, limit })
}

/// Sends a packet of the session in a stage.
pub open spec fn send_packet(p: Progress, stage: Stage, link: Link, body: Body) -> (Progress, Act) {
    (
        Progress { stage, session: after_send(p.session, body), ..p },
        Act::Send { link, data: packet_wire(next_packet(p.session, body)) },
    )
}

/// Waits for a packet of the session in a stage.
pub open spec fn read_packet(p: Progress, stage: Stage, link: Link) -> (Progress, Act) {
    read(p, stage, link, Some((RECV_TIMEOUT_SECS * NANOS_PER_SEC) as nat))
}

/// The socket on which a relay server is asked.
pub open spec fn exchange_link(ex: RelayStage) -> Link {
    if ex == RelayStage::Lookup {
        Link::Camera
    } else {
        Link::Relay
    }
}

/// The server that is asked.
pub open spec fn exchange_addr(p: Progress, ex: RelayStage) -> Seq<char> {
    match ex {
        RelayStage::Agent => p.relay,
        RelayStage::Start => p.agent,
        _ => MAIN_SERVER@,
    }
}

pub open spec fn exchange_path(p: Progress, ex: RelayStage) -> Seq<char> {
    match ex {
        RelayStage::Lookup => "/online/relay"@,
        RelayStage::Agent => "/relay/agent"@,
        RelayStage::Start => "/relay/start/"@ + p.token,
        RelayStage::Channel => "/device/"@ + p.serial + "/relay-channel"@,
    }
}

pub open spec fn exchange_body(p: Progress, ex: RelayStage, draw: Drawn) -> Option<Seq<char>> {
    match ex {
        RelayStage::Lookup => None,
        RelayStage::Agent => Some(body_xml(seq![("Dev"@, p.serial)])),
        RelayStage::Start => Some(body_xml(seq![("Client"@, p.local), ("Dev"@, p.serial)])),
        RelayStage::Channel => Some(
            body_xml(
                relay_channel_fields(
                    signed_dec(draw.timestamp as int),
                    dec(draw.channel_nonce as nat),
                    p.agent,
                ),
            ),
        ),
    }
}

/// Sends what a relay server is asked.
pub open spec fn send_exchange(p: Progress, ex: RelayStage, draw: Drawn) -> (Progress, Act) {
    request(
        p,
        Stage::Exchange(ex, Phase::Send),
        exchange_link(ex),
        exchange_path(p, ex),
        exchange_body(p, ex, draw),
        true,
        draw.stamp,
    )
}

/// Waits for the answer of a relay server.
pub open spec fn read_exchange(p: Progress, ex: RelayStage, now: nat) -> (Progress, Act) {
    read(p, Stage::Exchange(ex, Phase::Read), exchange_link(ex), Some(read_wait(p.retry, now)))
}

/// Asks a relay server once more, unless the time for it is over.
pub open spec fn attempt(p: Progress, ex: RelayStage, now: nat, draw: Drawn) -> (Progress, Act) {
    if expired(p.retry, now) {
        fail(p, expired_failure(ex))
    } else if ex == RelayStage::Lookup {
        send_exchange(p, ex, draw)
    } else {
        connect(
            p,
            Stage::Exchange(ex, Phase::Connect),
            Link::Relay,
            exchange_addr(p, ex),
            true,
        )
    }
}

/// Begins to ask a relay server.
pub open spec fn begin(p: Progress, ex: RelayStage, now: nat, draw: Drawn) -> (Progress, Act) {
    attempt(
        Progress {
            stage: Stage::Exchange(ex, Phase::Connect),
            retry: begun(ex, now),
            ..p
        },
        ex,
        now,
        draw,
    )
}

/// What a relay server answered is of use.
pub open spec fn accept(
    p: Progress,
    ex: RelayStage,
    res: Response,
) -> (Progress, Act) {
    match ex {
        RelayStage::Lookup => match body_field(res, "body/Address"@) {
            Ok(relay) => (Progress { relay, stage: Stage::Bind, ..p }, Act::Bind),
            Err(e) => fail(p, invalid(e)),
        },
        RelayStage::Agent => match body_field(res, "body/Token"@) {
            Ok(token) => match body_field(res, "body/Agent"@) {
                Ok(agent) => (
                    Progress { token, agent, stage: Stage::AskRelayLocal, ..p },
                    Act::LocalAddr(Link::Relay),
                ),
                Err(e) => fail(p, invalid(e)),
            },
            Err(e) => fail(p, invalid(e)),
        },
        RelayStage::Start => read(p, Stage::ReadDevice, Link::Camera, None),
        RelayStage::Channel => send_packet(
            Progress {
                session: PTCPSession { sent: 0, recv: 0, count: 0, id: 0, rmid: 0 },
                ..p
            },
            Stage::SendSync,
            Link::Relay,
            Body::Sync,
        ),
    }
}

/// What is said of connecting or sending that took too long.
pub open spec fn exchange_action(p: Progress, ex: RelayStage, phase: Phase) -> Seq<char> {
    match phase {
        Phase::Connect => if ex == RelayStage::Channel {
            "connecting to main server for relay channel "@ + MAIN_SERVER@
        } else {
            "connecting to "@ + exchange_addr(p, ex) + " for "@ + stage_name(ex)
        },
        Phase::Return => "connecting to relay agent "@ + p.agent + " for channel confirmation"@,
        _ => if ex == RelayStage::Channel {
            "sending relay channel request"@
        } else {
            "sending "@ + exchange_path(p, ex) + " ("@ + stage_name(ex) + ")"@
        },
    }
}

/// What comes of the answer of a relay server, or of its silence.
pub open spec fn answered(
    p: Progress,
    ex: RelayStage,
    came: Came,
    now: nat,
    draw: Drawn,
) -> (Progress, Act) {
    let again = attempt(Progress { retry: slower(p.retry), ..p }, ex, now, draw);
    match came {
        Came::Data(d) => match response_of(text_of(d)) {
            Ok(res) => {
                let (retry, judgement) = judged(p.retry, ex, res.status, res.code);
                let q = Progress { retry, ..p };
                match judgement {
                    Judgement::Accept => accept(q, ex, res),
                    Judgement::Again => attempt(q, ex, now, draw),
                    Judgement::Fail(f) => fail(q, f),
                }
            },
            Err(_) => again,
        },
        _ => again,
    }
}

/// One step of asking a relay server.
pub open spec fn exchanged(
    p: Progress,
    ex: RelayStage,
    phase: Phase,
    came: Came,
    now: nat,
    draw: Drawn,
) -> (Progress, Act) {
    if phase == Phase::Read {
        answered(p, ex, came, now, draw)
    } else {
        match came {
            Came::Failed(f) => fail(p, f),
            Came::TimedOut => fail(p, step_failure(exchange_action(p, ex, phase))),
            _ => match phase {
                Phase::Connect => send_exchange(p, ex, draw),
                Phase::Send => if ex == RelayStage::Channel {
                    connect(
                        p,
                        Stage::Exchange(ex, Phase::Return),
                        Link::Relay,
                        p.agent,
                        true,
                    )
                } else {
                    read_exchange(p, ex, now)
                },
                _ => read_exchange(p, ex, now),
            },
        }
    }
}

/// A response with a code below 300, or what is wrong.
pub open spec fn good_response(d: Seq<u8>) -> Result<Response, Seq<char>> {
    match response_of(text_of(d)) {
        Ok(res) => if res.code < 300 {
            Ok(res)
        } else {
            Err(error_response_text(res.status, res.code))
        },
        Err(e) => Err(e),
    }
}

/// What comes of the camera's answer to the request for a channel.
pub open spec fn device_answered(p: Progress, res: Response) -> (Progress, Act) {
    if res.code >= 400 {
        fail(p, Failure { kind: ErrorKind::Other, message: res.status })
    } else {
        match body_field(res, "body/LocalAddr"@) {
            Ok(device_laddr) => match body_field(res, "body/PubAddr"@) {
                Ok(device) => connect(
                    Progress { device, device_laddr, ..p },
                    Stage::ConnectDevice,
                    Link::Camera,
                    device,
                    false,
                ),
                Err(e) => fail(p, invalid(e)),
            },
            Err(e) => fail(p, invalid(e)),
        }
    }
}

/// Opens the direct path to the camera.
pub open spec fn say_hello(p: Progress, draw: Drawn) -> (Progress, Act) {
    let q = Progress { cookie: draw.cookie, ..p };
    match socket_addr_of(p.device) {
        Some(a) => (
            at(q, Stage::SendHello),
            Act::Send {
                link: Link::Camera,
                data: hello_wire(draw.cookie, draw.trans_id, p.cid, addr_wire(a.0, a.1)),
            },
        ),
        None => fail(q, invalid(bad_addr_text(p.device))),
    }
}

/// What comes of the camera's answer on the direct path.
pub open spec fn hello_answered(p: Progress, d: Seq<u8>) -> (Progress, Act) {
    if d.len() < 20 {
        fail(
            p,
            invalid(
                "device response too short: expected at least 20 bytes, got "@ + dec(d.len()),
            ),
        )
    } else {
        match socket_addr_of(p.device_laddr) {
            Some(a) => (
                at(p, Stage::SendConfirm),
                Act::Send {
                    link: Link::Camera,
                    data: confirm_wire(p.cookie, d.subrange(8, 20), p.cid, addr_wire(a.0, a.1)),
                },
            ),
            None => fail(p, invalid(bad_addr_text(p.device_laddr))),
        }
    }
}

/// What comes of a packet of the session, which has been taken note of.
pub open spec fn packet_came(p: Progress, body: Body, draw: Drawn) -> (Progress, Act) {
    match p.stage {
        Stage::ReadSync => if p.relay_mode {
            (at(p, Stage::Finished), Act::Finish(Link::Relay))
        } else {
            send_packet(
                p,
                Stage::SendSign,
                Link::Relay,
                Body::Command(command_wire(0x17, Seq::empty())),
            )
        },
        Stage::ReadSign => if body is Empty {
            read_packet(p, Stage::ReadSign, Link::Relay)
        } else {
            match tail_of(body, 12, "relay sign"@) {
                Ok(sign) => say_hello(Progress { sign, ..p }, draw),
                Err(e) => fail(p, invalid(e)),
            }
        },
        Stage::ReadDirectSync => if body is Sync {
            send_packet(
                p,
                Stage::SendDirectSign,
                Link::Camera,
                Body::Command(command_wire(0x19, p.sign)),
            )
        } else {
            fail(p, invalid("invalid direct sync response body"@))
        },
        Stage::ReadDirectSign => match body {
            Body::Empty => read_packet(p, Stage::ReadDirectSign, Link::Camera),
            Body::Command(c) => if c.len() > 0 && c[0] == 0x1a {
                send_packet(
                    p,
                    Stage::SendDirectConfirm,
                    Link::Camera,
                    Body::Command(command_wire(0x1b, Seq::empty())),
                )
            } else {
                fail(p, invalid("unexpected direct sign response command"@))
            },
            _ => fail(p, invalid("invalid direct sign response body"@)),
        },
        _ => if body is Empty {
            (at(p, Stage::Finished), Act::Finish(Link::Camera))
        } else {
            fail(p, invalid("invalid final direct handshake response body"@))
        },
    }
}

/// What comes of a datagram.
pub open spec fn data_came(p: Progress, d: Seq<u8>, now: nat, draw: Drawn) -> (Progress, Act) {
    match p.stage {
        Stage::ReadProbe => match good_response(d) {
            Ok(_) => request(
                p,
                Stage::SendOnline,
                Link::Camera,
                "/online/p2psrv/"@ + p.serial,
                None,
                false,
                draw.stamp,
            ),
            Err(e) => fail(p, invalid(e)),
        },
        Stage::ReadOnline => match good_response(d) {
            Ok(res) => match body_field(res, "body/Address"@) {
                Ok(server) => begin(Progress { server, ..p }, RelayStage::Lookup, now, draw),
                Err(e) => fail(p, invalid(e)),
            },
            Err(e) => fail(p, invalid(e)),
        },
        Stage::ReadDeviceProbe => match good_response(d) {
            Ok(_) => (
                Progress { cid: draw.cid, stage: Stage::AskLocal, ..p },
                Act::LocalAddr(Link::Camera),
            ),
            Err(e) => fail(p, invalid(e)),
        },
        Stage::ReadDevice => match response_of(text_of(d)) {
            Ok(res) => if res.code == 100 {
                read(p, Stage::ReadDeviceFinal, Link::Camera, None)
            } else {
                device_answered(p, res)
            },
            Err(e) => fail(p, invalid(e)),
        },
        Stage::ReadDeviceFinal => match response_of(text_of(d)) {
            Ok(res) => device_answered(p, res),
            Err(e) => fail(p, invalid(e)),
        },
        Stage::ReadHello => hello_answered(p, d),
        Stage::Drain(k) => if k + 1 < DRAINED {
            read(p, Stage::Drain((k + 1) as u8), Link::Camera, None)
        } else {
            send_packet(
                Progress {
                    session: PTCPSession { sent: 0, recv: 0, count: 0, id: 0, rmid: 0 },
                    ..p
                },
                Stage::SendDirectSync,
                Link::Camera,
                Body::Sync,
            )
        },
        _ => match datagram_of(d) {
            Ok(packet) => packet_came(
                Progress { session: after_recv(p.session, packet), ..p },
                packet.body,
                draw,
            ),
            Err(e) => fail(p, invalid(e)),
        },
    }
}

/// What comes after something has been done.
pub open spec fn done(p: Progress, now: nat, draw: Drawn) -> (Progress, Act) {
    match p.stage {
        Stage::ConnectMain => request(
            p,
            Stage::SendProbe,
            Link::Camera,
            "/probe/p2psrv"@,
            None,
            false,
            draw.stamp,
        ),
        Stage::SendProbe => read(p, Stage::ReadProbe, Link::Camera, None),
        Stage::SendOnline => read(p, Stage::ReadOnline, Link::Camera, None),
        Stage::Bind => connect(p, Stage::ConnectServer, Link::Relay, p.server, false),
        Stage::ConnectServer => request(
            p,
            Stage::SendDeviceProbe,
            Link::Relay,
            "/probe/device/"@ + p.serial,
            None,
            false,
            draw.stamp,
        ),
        Stage::SendDeviceProbe => read(p, Stage::ReadDeviceProbe, Link::Relay, None),
        Stage::SendChannelRequest => begin(p, RelayStage::Agent, now, draw),
        Stage::ConnectDevice => begin(p, RelayStage::Channel, now, draw),
        Stage::SendSync => read_packet(p, Stage::ReadSync, Link::Relay),
        Stage::SendSign => read_packet(p, Stage::ReadSign, Link::Relay),
        Stage::SendHello => read(
            p,
            Stage::ReadHello,
            Link::Camera,
            Some((DEVICE_TIMEOUT_SECS * NANOS_PER_SEC) as nat),
        ),
        Stage::SendConfirm => read(p, Stage::Drain(0), Link::Camera, None),
        Stage::SendDirectSync => read_packet(p, Stage::ReadDirectSync, Link::Camera),
        Stage::SendDirectSign => read_packet(p, Stage::ReadDirectSign, Link::Camera),
        Stage::SendDirectConfirm => read_packet(p, Stage::ReadDirectConfirm, Link::Camera),
        _ => (at(p, Stage::Failed), Act::Fail(p.failure->0)),
    }
}

/// What comes of the address of a socket.
pub open spec fn address_came(
    p: Progress,
    addr: Seq<char>,
    port: u16,
    now: nat,
    draw: Drawn,
) -> (Progress, Act) {
    if p.stage == Stage::AskLocal {
        request(
            p,
            Stage::SendChannelRequest,
            Link::Camera,
            "/device/"@ + p.serial + "/p2p-channel"@,
            Some(body_xml(p2p_channel_fields(p.cid, port, addr))),
            false,
            draw.stamp,
        )
    } else {
        begin(Progress { local: addr, ..p }, RelayStage::Start, now, draw)
    }
}

/// Where the handshake goes and what is to be done next.
pub open spec fn advanced(p: Progress, came: Came, now: nat, draw: Drawn) -> (Progress, Act) {
    match p.stage {
        Stage::Exchange(ex, phase) => exchanged(p, ex, phase, came, now, draw),
        _ => match came {
            Came::Failed(f) => fail(p, f),
            Came::TimedOut => fail(
                p,
                if p.stage == Stage::ReadHello {
                    Failure { kind: ErrorKind::TimedOut, message: "Device response timeout"@ }
                } else {
                    recv_timeout()
                },
            ),
            Came::Done => done(p, now, draw),
            Came::Address(addr, port) => address_came(p, addr, port, now, draw),
            Came::Data(d) => data_came(p, d, now, draw),
        },
    }
}

/// Whether a stage waits for a datagram.
pub open spec fn is_reading(stage: Stage) -> bool {
    match stage {
        Stage::ReadProbe | Stage::ReadOnline | Stage::ReadDeviceProbe | Stage::ReadDevice
        | Stage::ReadDeviceFinal | Stage::ReadSync | Stage::ReadSign | Stage::ReadHello
        | Stage::Drain(_) | Stage::ReadDirectSync | Stage::ReadDirectSign
        | Stage::ReadDirectConfirm => true,
        Stage::Exchange(_, phase) => phase == Phase::Read,
        _ => false,
    }
}

/// Whether what a stage waits for may run out of time.
pub open spec fn is_limited(stage: Stage) -> bool {
    match stage {
        Stage::ReadSync | Stage::ReadSign | Stage::ReadHello | Stage::ReadDirectSync
        | Stage::ReadDirectSign | Stage::ReadDirectConfirm | Stage::Exchange(_, _) => true,
        _ => false,
    }
}

/// Whether the handshake has come to its end.
pub open spec fn is_over(stage: Stage) -> bool {
    stage == Stage::Finished || stage == Stage::Failed
}

/// Whether this can come of what the stage has asked for.
pub open spec fn fits(stage: Stage, came: Came) -> bool {
    &&& !is_over(stage)
    &&& match came {
        Came::Done => !is_reading(stage) && stage != Stage::AskLocal && stage
            != Stage::AskRelayLocal,
        Came::Address(_, _) => stage == Stage::AskLocal || stage == Stage::AskRelayLocal,
        Came::Data(_) => is_reading(stage),
        Came::TimedOut => is_limited(stage),
        Came::Failed(_) => stage != Stage::Releasing,
    }
}

/// What holds of every handshake: the count of refused authentications is within its limit, the
/// drained datagrams are within theirs, and a failure is at hand while a session is given back.
pub open spec fn sound(p: Progress) -> bool {
    &&& p.stage is Exchange ==> p.retry.auth_failures <= RELAY_AUTH_RETRY_LIMIT
    &&& p.stage matches Stage::Drain(k) ==> k < DRAINED
    &&& p.stage == Stage::Releasing ==> p.failure is Some
}

/// A handshake at its beginning.
pub open spec fn at_first(p: Progress, serial: Seq<char>, relay_mode: bool) -> bool {
    &&& p.stage == Stage::ConnectMain
    &&& p.serial == serial
    &&& p.relay_mode == relay_mode
    &&& p.cseq == 0
}

impl Stage {
    /// Whether a relay session has been started in this stage and is still to be given back.
    pub fn has_lease(self) -> (b: bool)
        ensures
            b == has_lease(self),
    {
        match self {
            Stage::ConnectMain | Stage::SendProbe | Stage::ReadProbe | Stage::SendOnline
            | Stage::ReadOnline | Stage::Bind | Stage::ConnectServer | Stage::SendDeviceProbe
            | Stage::ReadDeviceProbe | Stage::AskLocal | Stage::SendChannelRequest
            | Stage::AskRelayLocal | Stage::Releasing | Stage::Failed => false,
            Stage::Exchange(ex, _) => ex == RelayStage::Channel,
            _ => true,
        }
    }

    fn is_reading(self) -> (b: bool)
        ensures
            b == is_reading(self),
    {
        match self {
            Stage::ReadProbe | Stage::ReadOnline | Stage::ReadDeviceProbe | Stage::ReadDevice
            | Stage::ReadDeviceFinal | Stage::ReadSync | Stage::ReadSign | Stage::ReadHello
            | Stage::Drain(_) | Stage::ReadDirectSync | Stage::ReadDirectSign
            | Stage::ReadDirectConfirm => true,
            Stage::Exchange(_, phase) => phase == Phase::Read,
            _ => false,
        }
    }

    fn is_limited(self) -> (b: bool)
        ensures
            b == is_limited(self),
    {
        match self {
            Stage::ReadSync | Stage::ReadSign | Stage::ReadHello | Stage::ReadDirectSync
            | Stage::ReadDirectSign | Stage::ReadDirectConfirm | Stage::Exchange(_, _) => true,
            _ => false,
        }
    }

    /// Whether the handshake has come to its end.
    pub fn is_over(self) -> (b: bool)
        ensures
            b == is_over(self),
    {
        self == Stage::Finished || self == Stage::Failed
    }

    /// Whether this can come of what the stage has asked for.
    pub fn accepts(self, event: &Event) -> (b: bool)
        ensures
            b == fits(self, event@),
    {
        if self.is_over() {
            return false;
        }
        match event {
            Event::Done => !self.is_reading() && self != Stage::AskLocal && self
                != Stage::AskRelayLocal,
            Event::Address(_, _) => self == Stage::AskLocal || self == Stage::AskRelayLocal,
            Event::Data(_) => self.is_reading(),
            Event::TimedOut => self.is_limited(),
            Event::Failed(_) => self != Stage::Releasing,
        }
    }
}

fn timed_out(message: &str) -> (e: Error)
    ensures
        e@ == (Failure { kind: ErrorKind::TimedOut, message: message@ }),
{
    Error { kind: ErrorKind::TimedOut, message: copy(message) }
}

fn complaint(message: &str) -> (e: Error)
    ensures
        e@ == invalid(message@),
{
    invalid_data(copy(message))
}

/// A response with a code below 300.
fn parse_good(data: &[u8]) -> (r: Result<DHResponse, Error>)
    ensures
        match r {
            Ok(res) => good_response(data@) == Ok::<Response, Seq<char>>(res@),
            Err(e) => good_response(data@) is Err && e@ == invalid(good_response(data@)->Err_0),
        },
{
    match DHResponse::parse_datagram(data) {
        Ok(res) => check_response(res),
        Err(e) => Err(e),
    }
}

/// The text at `key` in the body of a response.
fn field(res: &DHResponse, key: &str) -> (r: Result<String, Error>)
    ensures
        match r {
            Ok(v) => body_field(res@, key@) == Ok::<Seq<char>, Seq<char>>(v@),
            Err(e) => body_field(res@, key@) is Err && e@ == invalid(body_field(res@, key@)->Err_0),
        },
{
    match response_body_field(res, key) {
        Ok(v) => Ok(copy(v)),
        Err(e) => Err(e),
    }
}

impl Handshake {
    /// A handshake with the camera of this serial number, at its beginning, and what to do first.
    pub fn start(serial: String, relay_mode: bool) -> (r: (Handshake, Action))
        ensures
            at_first(r.0@, serial@, relay_mode),
            sound(r.0@),
            r.1@ == (Act::Connect { link: Link::Camera, addr: MAIN_SERVER@, limited: false }),
    {
        let h = Handshake {
            stage: Stage::ConnectMain,
            serial,
            relay_mode,
            cseq: 0,
            server: String::new(),
            relay: String::new(),
            token: String::new(),
            agent: String::new(),
            local: String::new(),
            device: String::new(),
            device_laddr: String::new(),
            cid: [0u8;8],
            cookie: [0u8;4],
            sign: Vec::new(),
            session: PTCPSession::new(),
            retry: RelayRetry::begin(RelayStage::Lookup, 0),
            failure: None,
        };
        (h, Action::Connect { link: Link::Camera, addr: copy(MAIN_SERVER), limited: false })
    }

    /// The relay session that has been started.
    pub fn lease(&self) -> (l: RelayLease)
        ensures
            l@ == lease_of(self@),
    {
        RelayLease {
            token: copy(self.token.as_str()),
            relay: copy(self.relay.as_str()),
            agent: copy(self.agent.as_str()),
        }
    }

    fn fail(&mut self, e: Error) -> (a: Action)
        ensures
            (final(self)@, a@) == fail(old(self)@, e@),
            sound(final(self)@),
    {
        if self.stage.has_lease() {
            let lease = self.lease();
            self.stage = Stage::Releasing;
            self.failure = Some(e);
            Action::Release(lease)
        } else {
            self.stage = Stage::Failed;
            Action::Fail(e)
        }
    }

    fn connect(&mut self, stage: Stage, link: Link, addr: &str, limited: bool) -> (a: Action)
        ensures
            (final(self)@, a@) == connect(old(self)@, stage, link, addr@, limited),
    {
        self.stage = stage;
        Action::Connect { link, addr: copy(addr), limited }
    }

    fn request(
        &mut self,
        stage: Stage,
        link: Link,
        path: &str,
        body: Option<&str>,
        limited: bool,
        stamp: &Stamp,
    ) -> (a: Action)
        requires
            old(self).cseq < u32::MAX,
        ensures
            (final(self)@, a@) == request(
                old(self)@,
                stage,
                link,
                path@,
                content_of(body),
                limited,
                stamp@,
            ),
    {
        self.cseq = self.cseq + 1;
        self.stage = stage;
        Action::Request { link, text: build_request(path, body, stamp, self.cseq), limited }
    }

    fn read(&mut self, stage: Stage, link: Link) -> (a: Action)
        ensures
            (final(self)@, a@) == read(old(self)@, stage, link, None),
    {
        self.stage = stage;
        Action::Read { link, limit: None }
    }

    fn read_within(&mut self, stage: Stage, link: Link, limit: Duration) -> (a: Action)
        ensures
            (final(self)@, a@) == read(old(self)@, stage, link, Some(limit.nanos())),
    {
        self.stage = stage;
        Action::Read { link, limit: Some(limit) }
    }

    fn send_packet(&mut self, stage: Stage, link: Link, body: PTCPBody) -> (a: Action)
        ensures
            (final(self)@, a@) == send_packet(old(self)@, stage, link, body@),
    {
        self.stage = stage;
        let packet = self.session.send(body);
        Action::Send { link, data: packet.serialize() }
    }

    fn read_packet(&mut self, stage: Stage, link: Link) -> (a: Action)
        ensures
            (final(self)@, a@) == read_packet(old(self)@, stage, link),
    {
        self.read_within(stage, link, Duration::from_secs(RECV_TIMEOUT_SECS))
    }

    fn exchange_path(&self, ex: RelayStage) -> (s: String)
        ensures
            s@ == exchange_path(self@, ex),
    {
        match ex {
            RelayStage::Lookup => copy("/online/relay"),
            RelayStage::Agent => copy("/relay/agent"),
            RelayStage::Start => relay_start_path(self.token.as_str()),
            RelayStage::Channel => relay_channel_path(self.serial.as_str()),
        }
    }

    fn exchange_addr(&self, ex: RelayStage) -> (s: String)
        ensures
            s@ == exchange_addr(self@, ex),
    {
        match ex {
            RelayStage::Agent => copy(self.relay.as_str()),
            RelayStage::Start => copy(self.agent.as_str()),
            _ => copy(MAIN_SERVER),
        }
    }

    fn send_exchange(&mut self, ex: RelayStage, draw: &Draw) -> (a: Action)
        requires
            old(self).cseq < u32::MAX,
        ensures
            (final(self)@, a@) == send_exchange(old(self)@, ex, draw@),
    {
        let path = self.exchange_path(ex);
        let stage = Stage::Exchange(ex, Phase::Send);
        match ex {
            RelayStage::Lookup => self.request(
                stage,
                Link::Camera,
                path.as_str(),
                None,
                true,
                &draw.stamp,
            ),
            RelayStage::Agent => {
                let body = relay_agent_body(self.serial.as_str());
                self.request(
                    stage,
                    Link::Relay,
                    path.as_str(),
                    Some(body.as_str()),
                    true,
                    &draw.stamp,
                )
            },
            RelayStage::Start => {
                let body = relay_start_body(self.local.as_str(), self.serial.as_str());
                self.request(
                    stage,
                    Link::Relay,
                    path.as_str(),
                    Some(body.as_str()),
                    true,
                    &draw.stamp,
                )
            },
            RelayStage::Channel => {
                let date = format_signed(draw.timestamp);
                let nonce = format_number(draw.channel_nonce);
                let body = relay_channel_body(
                    date.as_str(),
                    nonce.as_str(),
                    self.agent.as_str(),
                );
                self.request(
                    stage,
                    Link::Relay,
                    path.as_str(),
                    Some(body.as_str()),
                    true,
                    &draw.stamp,
                )
            },
        }
    }

    fn read_exchange(&mut self, ex: RelayStage, now: u128) -> (a: Action)
        ensures
            (final(self)@, a@) == read_exchange(old(self)@, ex, now as nat),
    {
        let limit = self.retry.read_wait(now);
        let link = match ex {
            RelayStage::Lookup => Link::Camera,
            _ => Link::Relay,
        };
        self.read_within(Stage::Exchange(ex, Phase::Read), link, limit)
    }

    fn attempt(&mut self, ex: RelayStage, now: u128, draw: &Draw) -> (a: Action)
        requires
            old(self).cseq < u32::MAX,
            old(self).retry.auth_failures <= RELAY_AUTH_RETRY_LIMIT,
        ensures
            (final(self)@, a@) == attempt(old(self)@, ex, now as nat, draw@),
            sound(final(self)@),
    {
        if self.retry.expired(now) {
            return self.fail(expired_error(ex));
        }
        if ex == RelayStage::Lookup {
            self.send_exchange(ex, draw)
        } else {
            let addr = self.exchange_addr(ex);
            self.connect(Stage::Exchange(ex, Phase::Connect), Link::Relay, addr.as_str(), true)
        }
    }

    fn begin(&mut self, ex: RelayStage, now: u128, draw: &Draw) -> (a: Action)
        requires
            old(self).cseq < u32::MAX,
        ensures
            (final(self)@, a@) == begin(old(self)@, ex, now as nat, draw@),
            sound(final(self)@),
    {
        self.stage = Stage::Exchange(ex, Phase::Connect);
        self.retry = RelayRetry::begin(ex, now);
        self.attempt(ex, now, draw)
    }

    fn accept(&mut self, ex: RelayStage, res: &DHResponse) -> (a: Action)
        ensures
            (final(self)@, a@) == accept(old(self)@, ex, res@),
            sound(final(self)@),
    {
        match ex {
            RelayStage::Lookup => match field(res, "body/Address") {
                Ok(relay) => {
                    self.relay = relay;
                    self.stage = Stage::Bind;
                    Action::Bind
                },
                Err(e) => self.fail(e),
            },
            RelayStage::Agent => match field(res, "body/Token") {
                Ok(token) => match field(res, "body/Agent") {
                    Ok(agent) => {
                        self.token = token;
                        self.agent = agent;
                        self.stage = Stage::AskRelayLocal;
                        Action::LocalAddr(Link::Relay)
                    },
                    Err(e) => self.fail(e),
                },
                Err(e) => self.fail(e),
            },
            RelayStage::Start => self.read(Stage::ReadDevice, Link::Camera),
            RelayStage::Channel => {
                self.session = PTCPSession::new();
                self.send_packet(Stage::SendSync, Link::Relay, PTCPBody::Sync)
            },
        }
    }

    fn exchange_action(&self, ex: RelayStage, phase: Phase) -> (s: String)
        ensures
            s@ == exchange_action(self@, ex, phase),
    {
        let mut s = String::new();
        match phase {
            Phase::Connect => match ex {
                RelayStage::Channel => {
                    s.append("connecting to main server for relay channel ");
                    s.append(MAIN_SERVER);
                },
                _ => {
                    s.append("connecting to ");
                    s.append(self.exchange_addr(ex).as_str());
                    s.append(" for ");
                    s.append(ex.name());
                },
            },
            Phase::Return => {
                s.append("connecting to relay agent ");
                s.append(self.agent.as_str());
                s.append(" for channel confirmation");
            },
            _ => match ex {
                RelayStage::Channel => s.append("sending relay channel request"),
                _ => {
                    s.append("sending ");
                    s.append(self.exchange_path(ex).as_str());
                    s.append(" (");
                    s.append(ex.name());
                    s.append(")");
                },
            },
        }
        assert(s@ =~= exchange_action(self@, ex, phase));
        s
    }

    fn answered(&mut self, ex: RelayStage, event: Event, now: u128, draw: &Draw) -> (a: Action)
        requires
            old(self).cseq < u32::MAX,
            old(self).retry.auth_failures <= RELAY_AUTH_RETRY_LIMIT,
        ensures
            (final(self)@, a@) == answered(old(self)@, ex, event@, now as nat, draw@),
            sound(final(self)@),
    {
        if let Event::Data(d) = event {
            if let Ok(res) = DHResponse::parse_datagram(d.as_slice()) {
                return match self.retry.judge(ex, &res) {
                    Verdict::Accept => self.accept(ex, &res),
                    Verdict::Again => self.attempt(ex, now, draw),
                    Verdict::Fail(e) => self.fail(e),
                };
            }
        }
        self.retry.slow_down();
        self.attempt(ex, now, draw)
    }

    fn exchanged(
        &mut self,
        ex: RelayStage,
        phase: Phase,
        event: Event,
        now: u128,
        draw: &Draw,
    ) -> (a: Action)
        requires
            old(self).cseq < u32::MAX,
            old(self).retry.auth_failures <= RELAY_AUTH_RETRY_LIMIT,
        ensures
            (final(self)@, a@) == exchanged(old(self)@, ex, phase, event@, now as nat, draw@),
            sound(final(self)@),
    {
        if phase == Phase::Read {
            return self.answered(ex, event, now, draw);
        }
        match event {
            Event::Failed(e) => self.fail(e),
            Event::TimedOut => {
                let action = self.exchange_action(ex, phase);
                self.fail(step_timeout(action.as_str()))
            },
            _ => match phase {
                Phase::Connect => self.send_exchange(ex, draw),
                Phase::Send => {
                    if ex == RelayStage::Channel {
                        let agent = copy(self.agent.as_str());
                        self.connect(
                            Stage::Exchange(ex, Phase::Return),
                            Link::Relay,
                            agent.as_str(),
                            true,
                        )
                    } else {
                        self.read_exchange(ex, now)
                    }
                },
                _ => self.read_exchange(ex, now),
            },
        }
    }

    fn device_answered(&mut self, res: DHResponse) -> (a: Action)
        ensures
            (final(self)@, a@) == device_answered(old(self)@, res@),
            sound(final(self)@),
    {
        if res.code >= 400 {
            return self.fail(Error { kind: ErrorKind::Other, message: res.status });
        }
        let device_laddr = match field(&res, "body/LocalAddr") {
            Ok(v) => v,
            Err(e) => {
                return self.fail(e);
            },
        };
        let device = match field(&res, "body/PubAddr") {
            Ok(v) => v,
            Err(e) => {
                return self.fail(e);
            },
        };
        let addr = copy(device.as_str());
        self.device = device;
        self.device_laddr = device_laddr;
        self.connect(Stage::ConnectDevice, Link::Camera, addr.as_str(), false)
    }

    fn say_hello(&mut self, draw: &Draw) -> (a: Action)
        ensures
            (final(self)@, a@) == say_hello(old(self)@, draw@),
            sound(final(self)@),
    {
        self.cookie = draw.cookie;
        match ip_to_bytes(self.device.as_str()) {
            Ok(addr) => {
                self.stage = Stage::SendHello;
                Action::Send {
                    link: Link::Camera,
                    data: hello_datagram(
                        draw.cookie.as_slice(),
                        draw.trans_id.as_slice(),
                        self.cid.as_slice(),
                        addr.as_slice(),
                    ),
                }
            },
            Err(e) => self.fail(e),
        }
    }

    fn hello_answered(&mut self, d: &[u8]) -> (a: Action)
        ensures
            (final(self)@, a@) == hello_answered(old(self)@, d@),
            sound(final(self)@),
    {
        if d.len() < 20 {
            let mut m = copy("device response too short: expected at least 20 bytes, got ");
            push_dec(&mut m, d.len() as u64);
            return self.fail(invalid_data(m));
        }
        match ip_to_bytes(self.device_laddr.as_str()) {
            Ok(addr) => {
                self.stage = Stage::SendConfirm;
                Action::Send {
                    link: Link::Camera,
                    data: confirm_datagram(
                        self.cookie.as_slice(),
                        slice_subrange(d, 8, 20),
                        self.cid.as_slice(),
                        addr.as_slice(),
                    ),
                }
            },
            Err(e) => self.fail(e),
        }
    }

    fn packet_came(&mut self, body: PTCPBody, draw: &Draw) -> (a: Action)
        ensures
            (final(self)@, a@) == packet_came(old(self)@, body@, draw@),
            sound(final(self)@),
    {
        let none: [u8; 0] = [];
        assert(none@ =~= Seq::empty());
        match self.stage {
            Stage::ReadSync => {
                if self.relay_mode {
                    self.stage = Stage::Finished;
                    Action::Finish(Link::Relay)
                } else {
                    self.send_packet(Stage::SendSign, Link::Relay, command(0x17, none.as_slice()))
                }
            },
            Stage::ReadSign => {
                if let PTCPBody::Empty = body {
                    return self.read_packet(Stage::ReadSign, Link::Relay);
                }
                match command_tail(&body, 12, "relay sign") {
                    Ok(tail) => {
                        let mut sign: Vec<u8> = Vec::new();
                        push_bytes(&mut sign, tail);
                        assert(sign@ =~= tail@);
                        self.sign = sign;
                        self.say_hello(draw)
                    },
                    Err(e) => self.fail(e),
                }
            },
            Stage::ReadDirectSync => match body {
                PTCPBody::Sync => {
                    let signed = command(0x19, self.sign.as_slice());
                    self.send_packet(Stage::SendDirectSign, Link::Camera, signed)
                },
                _ => self.fail(complaint("invalid direct sync response body")),
            },
            Stage::ReadDirectSign => match body {
                PTCPBody::Empty => self.read_packet(Stage::ReadDirectSign, Link::Camera),
                PTCPBody::Command(c) => {
                    if c.len() > 0 && c[0] == 0x1a {
                        self.send_packet(
                            Stage::SendDirectConfirm,
                            Link::Camera,
                            command(0x1b, none.as_slice()),
                        )
                    } else {
                        self.fail(complaint("unexpected direct sign response command"))
                    }
                },
                _ => self.fail(complaint("invalid direct sign response body")),
            },
            _ => match body {
                PTCPBody::Empty => {
                    self.stage = Stage::Finished;
                    Action::Finish(Link::Camera)
                },
                _ => self.fail(complaint("invalid final direct handshake response body")),
            },
        }
    }

    fn data_came(&mut self, d: &[u8], now: u128, draw: &Draw) -> (a: Action)
        requires
            old(self).cseq < u32::MAX,
            sound(old(self)@),
            !(old(self).stage is Exchange),
        ensures
            (final(self)@, a@) == data_came(old(self)@, d@, now as nat, draw@),
            sound(final(self)@),
    {
        match self.stage {
            Stage::ReadProbe => match parse_good(d) {
                Ok(_) => {
                    let path = online_path(self.serial.as_str());
                    self.request(
                        Stage::SendOnline,
                        Link::Camera,
                        path.as_str(),
                        None,
                        false,
                        &draw.stamp,
                    )
                },
                Err(e) => self.fail(e),
            },
            Stage::ReadOnline => match parse_good(d) {
                Ok(res) => match field(&res, "body/Address") {
                    Ok(server) => {
                        self.server = server;
                        self.begin(RelayStage::Lookup, now, draw)
                    },
                    Err(e) => self.fail(e),
                },
                Err(e) => self.fail(e),
            },
            Stage::ReadDeviceProbe => match parse_good(d) {
                Ok(_) => {
                    self.cid = draw.cid;
                    self.stage = Stage::AskLocal;
                    Action::LocalAddr(Link::Camera)
                },
                Err(e) => self.fail(e),
            },
            Stage::ReadDevice => match DHResponse::parse_datagram(d) {
                Ok(res) => {
                    if res.code == 100 {
                        self.read(Stage::ReadDeviceFinal, Link::Camera)
                    } else {
                        self.device_answered(res)
                    }
                },
                Err(e) => self.fail(e),
            },
            Stage::ReadDeviceFinal => match DHResponse::parse_datagram(d) {
                Ok(res) => self.device_answered(res),
                Err(e) => self.fail(e),
            },
            Stage::ReadHello => self.hello_answered(d),
            Stage::Drain(k) => {
                if k + 1 < DRAINED {
                    self.read(Stage::Drain(k + 1), Link::Camera)
                } else {
                    self.session = PTCPSession::new();
                    self.send_packet(Stage::SendDirectSync, Link::Camera, PTCPBody::Sync)
                }
            },
            _ => match PTCPPacket::from_datagram(d) {
                Ok(packet) => {
                    let packet = self.session.recv(packet);
                    self.packet_came(packet.body, draw)
                },
                Err(e) => self.fail(e.into_error()),
            },
        }
    }

    fn done(&mut self, now: u128, draw: &Draw) -> (a: Action)
        requires
            old(self).cseq < u32::MAX,
            fits(old(self).stage, Came::Done),
            sound(old(self)@),
            !(old(self).stage is Exchange),
        ensures
            (final(self)@, a@) == done(old(self)@, now as nat, draw@),
            sound(final(self)@),
    {
        match self.stage {
            Stage::ConnectMain => self.request(
                Stage::SendProbe,
                Link::Camera,
                "/probe/p2psrv",
                None,
                false,
                &draw.stamp,
            ),
            Stage::SendProbe => self.read(Stage::ReadProbe, Link::Camera),
            Stage::SendOnline => self.read(Stage::ReadOnline, Link::Camera),
            Stage::Bind => {
                let server = copy(self.server.as_str());
                self.connect(Stage::ConnectServer, Link::Relay, server.as_str(), false)
            },
            Stage::ConnectServer => {
                let path = probe_path(self.serial.as_str());
                self.request(
                    Stage::SendDeviceProbe,
                    Link::Relay,
                    path.as_str(),
                    None,
                    false,
                    &draw.stamp,
                )
            },
            Stage::SendDeviceProbe => self.read(Stage::ReadDeviceProbe, Link::Relay),
            Stage::SendChannelRequest => self.begin(RelayStage::Agent, now, draw),
            Stage::ConnectDevice => self.begin(RelayStage::Channel, now, draw),
            Stage::SendSync => self.read_packet(Stage::ReadSync, Link::Relay),
            Stage::SendSign => self.read_packet(Stage::ReadSign, Link::Relay),
            Stage::SendHello => self.read_within(
                Stage::ReadHello,
                Link::Camera,
                Duration::from_secs(DEVICE_TIMEOUT_SECS),
            ),
            Stage::SendConfirm => self.read(Stage::Drain(0), Link::Camera),
            Stage::SendDirectSync => self.read_packet(Stage::ReadDirectSync, Link::Camera),
            Stage::SendDirectSign => self.read_packet(Stage::ReadDirectSign, Link::Camera),
            Stage::SendDirectConfirm => self.read_packet(Stage::ReadDirectConfirm, Link::Camera),
            _ => {
                self.stage = Stage::Failed;
                match &self.failure {
                    Some(e) => Action::Fail(
                        Error { kind: e.kind, message: copy(e.message.as_str()) },
                    ),
                    None => Action::Fail(timed_out("")),
                }
            },
        }
    }

    fn address_came(&mut self, addr: String, port: u16, now: u128, draw: &Draw) -> (a: Action)
        requires
            old(self).cseq < u32::MAX,
        ensures
            (final(self)@, a@) == address_came(old(self)@, addr@, port, now as nat, draw@),
            sound(final(self)@),
    {
        if self.stage == Stage::AskLocal {
            let path = p2p_channel_path(self.serial.as_str());
            let body = p2p_channel_body(&self.cid, port, addr.as_str());
            self.request(
                Stage::SendChannelRequest,
                Link::Camera,
                path.as_str(),
                Some(body.as_str()),
                false,
                &draw.stamp,
            )
        } else {
            self.local = addr;
            self.begin(RelayStage::Start, now, draw)
        }
    }

    /// Takes note of what came of the last action, and says what to do next. `now` is the time in
    /// nanoseconds from any fixed moment on.
    pub fn advance(&mut self, event: Event, now: u128, draw: &Draw) -> (a: Action)
        requires
            sound(old(self)@),
            fits(old(self).stage, event@),
            old(self).cseq < u32::MAX,
        ensures
            (final(self)@, a@) == advanced(old(self)@, event@, now as nat, draw@),
            sound(final(self)@),
    {
        match self.stage {
            Stage::Exchange(ex, phase) => self.exchanged(ex, phase, event, now, draw),
            _ => match event {
                Event::Failed(e) => self.fail(e),
                Event::TimedOut => {
                    if self.stage == Stage::ReadHello {
                        self.fail(timed_out("Device response timeout"))
                    } else {
                        self.fail(PTCPReadError::timed_out().into_error())
                    }
                },
                Event::Done => self.done(now, draw),
                Event::Address(addr, port) => self.address_came(addr, port, now, draw),
                Event::Data(d) => self.data_came(d.as_slice(), now, draw),
            },
        }
    }
}

} // verus!
