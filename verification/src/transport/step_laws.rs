//! What each answer leads to in a handshake, and what is sent on the direct path.
use vstd::prelude::*;

use crate::error::{ErrorKind, Failure};
use crate::fields::lookup;
use crate::text::dec;
use crate::time::Duration;
use crate::transport::course_laws::{lemma_posts, posts, told};
use crate::transport::direct::{addr_wire, command_wire, confirm_wire, hello_wire, socket_addr_of};
use crate::transport::handshake::{
    address_came, advanced, answered, data_came, done, exchange_action, exchanged, fits, is_limited,
    sound, Act, Action, Came, Draw, Drawn, Event, Handshake, Lease, Link, Phase, Progress,
    RelayLease, Stage,
};
use crate::transport::message_laws::{has_line, law_requests_are_signed};
use crate::transport::ptcp::{
    after_recv, body_wire, datagram_of, next_packet, packet_wire, text_of, Body, PTCPSession,
};
use crate::transport::ptcp_laws::law_wire_length;
use crate::transport::request::{client_id_text, request_text};
use crate::transport::response::{response_of, Response};
use crate::transport::retry::{
    auth_failure, code_failure, expired_failure, next_relay_wait, relay_setup_initial_wait,
    relay_setup_total_timeout, step_failure, RelayStage,
};
use crate::transport::wire_laws::{law_packet_layout, spells, stands_at, word_at, zero_between};
use crate::transport::xml::body_xml;

verus! {

/// The answer of the camera to the request for a channel. Where it names both its addresses, the
/// camera's socket is connected to the public one. An interim answer is waited out. A refusal, and an
/// answer without an address, end the handshake, and the relay session is given back.
pub proof fn law_the_camera_is_reached_at_its_public_address(
    p: Progress,
    d: Seq<u8>,
    now: nat,
    draw: Drawn,
    res: Response,
)
    requires
        p.stage == Stage::ReadDevice || p.stage == Stage::ReadDeviceFinal,
        response_of(text_of(d)) == Ok::<Response, Seq<char>>(res),
    ensures
        ({
            let (q, act) = advanced(p, Came::Data(d), now, draw);
            let public = told(res, "body/PubAddr"@);
            let local = told(res, "body/LocalAddr"@);
            if res.code == 100 && p.stage == Stage::ReadDevice {
                &&& act == Act::Read { link: Link::Camera, limit: None }
                &&& q.stage == Stage::ReadDeviceFinal
            } else if res.code < 400 && public is Some && local is Some {
                &&& act == Act::Connect { link: Link::Camera, addr: public->0, limited: false }
                &&& q.device == public->0
                &&& q.device_laddr == local->0
                &&& q.stage == Stage::ConnectDevice
            } else {
                &&& act == Act::Release(
                    Lease { token: p.token, relay: p.relay, agent: p.agent },
                )
                &&& q.failure is Some
                &&& res.code >= 400 ==> q.failure == Some(
                    Failure { kind: ErrorKind::Other, message: res.status },
                )
                &&& res.code < 400 ==> q.failure->0.kind == ErrorKind::InvalidData
            }
        }),
{
}

/// The answers of the main server and of the camera's server: with a code below 300, and the
/// address where one is asked for, the next question is asked; otherwise the handshake fails.
pub proof fn law_first_answers_lead_on(
    p: Progress,
    d: Seq<u8>,
    now: nat,
    draw: Drawn,
)
    requires
        p.stage == Stage::ReadProbe || p.stage == Stage::ReadOnline || p.stage
            == Stage::ReadDeviceProbe,
    ensures
        ({
            let (q, act) = advanced(p, Came::Data(d), now, draw);
            match response_of(text_of(d)) {
                Ok(res) => if res.code < 300 && (p.stage == Stage::ReadOnline ==> told(
                    res,
                    "body/Address"@,
                ) is Some) {
                    &&& p.stage == Stage::ReadProbe ==> q.stage == Stage::SendOnline
                    &&& p.stage == Stage::ReadOnline ==> q.stage == Stage::Exchange(
                        RelayStage::Lookup,
                        Phase::Send,
                    ) && q.server == told(res, "body/Address"@)->0 && q.retry.started == now
                        && q.retry.wait == 500_000_000 && q.retry.auth_failures == 0
                    &&& p.stage == Stage::ReadDeviceProbe ==> q.stage == Stage::AskLocal && q.cid
                        == draw.cid
                    &&& act is Request || act == Act::LocalAddr(Link::Camera)
                } else {
                    act is Fail && act->Fail_0.kind == ErrorKind::InvalidData
                },
                Err(_) => act is Fail && act->Fail_0.kind == ErrorKind::InvalidData,
            }
        }),
{
}

/// How long a relay server has been asked, in nanoseconds.
pub open spec fn asked_for(p: Progress, now: nat) -> int {
    if now >= p.retry.started {
        now - p.retry.started
    } else {
        0
    }
}

/// The answer of a relay server. With a code below 300, and the texts that are asked for, the
/// handshake goes on. A refused authentication is tried again, three times. Any other code ends the
/// handshake.
pub proof fn law_relay_answers_lead_on(
    p: Progress,
    ex: RelayStage,
    d: Seq<u8>,
    now: nat,
    draw: Drawn,
    res: Response,
)
    requires
        p.stage == Stage::Exchange(ex, Phase::Read),
        response_of(text_of(d)) == Ok::<Response, Seq<char>>(res),
    ensures
        ({
            let (q, act) = advanced(p, Came::Data(d), now, draw);
            let address = told(res, "body/Address"@);
            let token = told(res, "body/Token"@);
            let agent = told(res, "body/Agent"@);
            if res.code < 300 {
                match ex {
                    RelayStage::Lookup => if address is Some {
                        act == Act::Bind && q.stage == Stage::Bind && q.relay == address->0
                    } else {
                        act is Fail && act->Fail_0.kind == ErrorKind::InvalidData
                    },
                    RelayStage::Agent => if token is Some && agent is Some {
                        act == Act::LocalAddr(Link::Relay) && q.stage == Stage::AskRelayLocal
                            && q.token == token->0 && q.agent == agent->0
                    } else {
                        act is Fail && act->Fail_0.kind == ErrorKind::InvalidData
                    },
                    RelayStage::Start => act == (Act::Read { link: Link::Camera, limit: None })
                        && q.stage == Stage::ReadDevice,
                    RelayStage::Channel => act is Send && act->Send_link == Link::Relay && q.stage
                        == Stage::SendSync,
                }
            } else if res.code == 401 && p.retry.auth_failures < 3 {
                if asked_for(p, now) < 10_000_000_000 {
                    &&& q.stage matches Stage::Exchange(e, _) && e == ex
                    &&& q.retry.auth_failures == p.retry.auth_failures + 1
                } else {
                    has_failed(q, act, ErrorKind::TimedOut)
                }
            } else if res.code == 401 {
                has_failed(q, act, ErrorKind::PermissionDenied)
            } else {
                has_failed(q, act, ErrorKind::InvalidData)
            }
        }),
{
}

/// The handshake fails, or fails once the relay session has been given back.
pub open spec fn has_failed(q: Progress, act: Act, kind: ErrorKind) -> bool {
    ||| act is Fail && act->Fail_0.kind == kind
    ||| act is Release && q.failure is Some && q.failure->0.kind == kind
}

/// When a relay server does not answer, or not with a response, it is asked again: for ten seconds
/// altogether from the first time, each answer being waited for twice as long as the one before but
/// never beyond the ten seconds.
pub proof fn law_relay_is_asked_again(
    p: Progress,
    ex: RelayStage,
    came: Came,
    now: nat,
    draw: Drawn,
)
    requires
        p.stage == Stage::Exchange(ex, Phase::Read),
        came matches Came::Data(d) ==> response_of(text_of(d)) is Err,
        p.cseq < u32::MAX,
    ensures
        ({
            let (q, act) = advanced(p, came, now, draw);
            if asked_for(p, now) < 10_000_000_000 {
                &&& q.stage == Stage::Exchange(
                    ex,
                    if ex == RelayStage::Lookup {
                        Phase::Send
                    } else {
                        Phase::Connect
                    },
                )
                &&& q.retry.started == p.retry.started
                &&& q.retry.auth_failures == p.retry.auth_failures
                &&& q.retry.wait == if 2 * p.retry.wait <= 10_000_000_000 {
                    2 * p.retry.wait
                } else {
                    10_000_000_000
                }
            } else {
                has_failed(q, act, ErrorKind::TimedOut)
            }
        }),
{
}

/// An answer is waited for no longer than the current wait, and no longer than what is left of the
/// ten seconds. The first wait is half a second, for the confirmation of a channel two seconds.
pub proof fn law_answers_are_waited_for(
    p: Progress,
    ex: RelayStage,
    phase: Phase,
    now: nat,
    draw: Drawn,
)
    requires
        p.stage == Stage::Exchange(ex, phase),
        phase == if ex == RelayStage::Channel {
            Phase::Return
        } else {
            Phase::Send
        },
    ensures
        ({
            let (q, act) = advanced(p, Came::Done, now, draw);
            let left = 10_000_000_000 - asked_for(p, now);
            &&& q.stage == Stage::Exchange(ex, Phase::Read)
            &&& act matches Act::Read { link, limit } && link == (if ex == RelayStage::Lookup {
                Link::Camera
            } else {
                Link::Relay
            }) && limit is Some && limit->0 == (if left <= 0 {
                0
            } else if left < p.retry.wait {
                left
            } else {
                p.retry.wait as int
            })
        }),
{
}

/// Asking begins anew with each question: the time starts, and nothing has been refused.
pub proof fn law_asking_begins(p: Progress, came: Came, now: nat, draw: Drawn)
    requires
        p.stage == Stage::SendChannelRequest && came is Done || p.stage == Stage::AskRelayLocal
            && came is Address || p.stage == Stage::ConnectDevice && came is Done,
    ensures
        ({
            let (q, act) = advanced(p, came, now, draw);
            &&& q.retry.started == now
            &&& q.retry.auth_failures == 0
            &&& q.retry.wait == if p.stage == Stage::ConnectDevice {
                2_000_000_000nat
            } else {
                500_000_000
            }
            &&& act matches Act::Connect { link, limited, .. } && link == Link::Relay && limited
            &&& came matches Came::Address(addr, _) ==> q.local == addr
        }),
{
}

/// A step of the set-up that fails, or takes too long, ends the handshake; a relay session that has
/// been started is given back before.
pub proof fn law_failures_end_the_handshake(p: Progress, f: Failure, now: nat, draw: Drawn)
    requires
        p.stage != Stage::Releasing,
        !(p.stage matches Stage::Exchange(_, phase) && phase == Phase::Read),
    ensures
        ({
            let (q, act) = advanced(p, Came::Failed(f), now, draw);
            ||| act == Act::Fail(f)
            ||| act is Release && q.failure == Some(f)
        }),
        ({
            let (q, act) = advanced(p, Came::TimedOut, now, draw);
            has_failed(q, act, ErrorKind::TimedOut)
        }),
        p.failure is Some ==> advanced(
            Progress { stage: Stage::Releasing, ..p },
            Came::Done,
            now,
            draw,
        ).1 == Act::Fail(p.failure->0),
{
}

/// From `p` to `q` nothing changes that is not learned in the stage of `p`.
#[verifier::opaque]
pub open spec fn only_learns(p: Progress, q: Progress) -> bool {
    &&& q.serial == p.serial
    &&& q.relay_mode == p.relay_mode
    &&& p.stage != Stage::ReadOnline ==> q.server == p.server
    &&& p.stage != Stage::Exchange(RelayStage::Lookup, Phase::Read) ==> q.relay == p.relay
    &&& p.stage != Stage::Exchange(RelayStage::Agent, Phase::Read) ==> q.token == p.token && q.agent
        == p.agent
    &&& p.stage != Stage::AskRelayLocal ==> q.local == p.local
    &&& p.stage != Stage::ReadDevice && p.stage != Stage::ReadDeviceFinal ==> q.device == p.device
        && q.device_laddr == p.device_laddr
    &&& p.stage != Stage::ReadDeviceProbe ==> q.cid == p.cid
    &&& p.stage != Stage::ReadSign ==> q.sign == p.sign && q.cookie == p.cookie
}

/// What has been learned stays as it is: a step changes only what it learns.
pub proof fn law_what_is_learned_stays(p: Progress, came: Came, now: nat, draw: Drawn)
    requires
        fits(p.stage, came),
    ensures
        only_learns(p, advanced(p, came, now, draw).0),
{
    match p.stage {
        Stage::Exchange(ex, phase) => {
            if phase == Phase::Read {
                lemma_answer_learns(p, ex, came, now, draw);
            } else {
                lemma_exchange_learns(p, ex, phase, came, now, draw);
            }
        },
        _ => match came {
            Came::Data(d) => lemma_data_learns(p, d, now, draw),
            _ => lemma_other_learns(p, came, now, draw),
        },
    }
}

#[verifier::rlimit(40)]
proof fn lemma_other_learns(p: Progress, came: Came, now: nat, draw: Drawn)
    requires
        !(p.stage is Exchange),
        !(came is Data),
        fits(p.stage, came),
    ensures
        only_learns(p, advanced(p, came, now, draw).0),
{
    reveal(only_learns);
    match came {
        Came::Done => {
            assert(only_learns(p, done(p, now, draw).0));
        },
        Came::Address(addr, port) => {
            assert(only_learns(p, address_came(p, addr, port, now, draw).0));
        },
        _ => {},
    }
}

proof fn lemma_exchange_learns(
    p: Progress,
    ex: RelayStage,
    phase: Phase,
    came: Came,
    now: nat,
    draw: Drawn,
)
    requires
        p.stage == Stage::Exchange(ex, phase),
        phase != Phase::Read,
    ensures
        only_learns(p, exchanged(p, ex, phase, came, now, draw).0),
{
    reveal(only_learns);
}

#[verifier::rlimit(40)]
proof fn lemma_answer_learns(p: Progress, ex: RelayStage, came: Came, now: nat, draw: Drawn)
    requires
        p.stage == Stage::Exchange(ex, Phase::Read),
    ensures
        only_learns(p, answered(p, ex, came, now, draw).0),
{
    reveal(only_learns);
}

#[verifier::rlimit(40)]
proof fn lemma_data_learns(p: Progress, d: Seq<u8>, now: nat, draw: Drawn)
    requires
        !(p.stage is Exchange),
    ensures
        only_learns(p, data_came(p, d, now, draw).0),
{
    match p.stage {
        Stage::ReadProbe | Stage::ReadOnline | Stage::ReadDeviceProbe => {
            reveal(only_learns);
        },
        Stage::ReadDevice | Stage::ReadDeviceFinal => {
            reveal(only_learns);
        },
        Stage::ReadHello | Stage::Drain(_) => {
            reveal(only_learns);
        },
        _ => match datagram_of(d) {
            Ok(packet) => {
                reveal(only_learns);
            },
            Err(_) => {
                reveal(only_learns);
            },
        },
    }
}

/// A datagram is a packet of the session that carries a command: its code, eleven zeros and a tail.
pub open spec fn carries_command(
    data: Seq<u8>,
    s: PTCPSession,
    code: u8,
    tail: Seq<u8>,
) -> bool {
    &&& data.len() == 36 + tail.len()
    &&& spells(data, 0, 'P', 'T', 'C', 'P')
    &&& word_at(data, 4, s.sent as int)
    &&& word_at(data, 8, s.recv as int)
    &&& word_at(data, 12, 0xFFFF - s.count % 0x1_0000)
    &&& word_at(data, 16, s.id as int)
    &&& word_at(data, 20, s.rmid as int)
    &&& data[24] == code
    &&& zero_between(data, 25, 36)
    &&& stands_at(data, 36, tail)
}

/// A datagram is the first packet of a new session: it synchronises.
pub open spec fn synchronises(data: Seq<u8>) -> bool {
    &&& data.len() == 28
    &&& spells(data, 0, 'P', 'T', 'C', 'P')
    &&& zero_between(data, 4, 12)
    &&& word_at(data, 12, 0x0002_FFFF)
    &&& zero_between(data, 16, 24)
    &&& data[24] == 0
    &&& data[25] == 3
    &&& data[26] == 1
    &&& data[27] == 0
}

proof fn lemma_command(s: PTCPSession, code: u8, tail: Seq<u8>)
    ensures
        carries_command(
            packet_wire(
                next_packet(
                    s,
                    Body::Command(command_wire(code, tail)),
                ),
            ),
            s,
            code,
            tail,
        ),
{
    let c = command_wire(code, tail);
    let p = next_packet(s, Body::Command(c));
    let w = packet_wire(p);
    law_packet_layout(p);
    assert(c.len() == 12 + tail.len());
    assert(body_wire(p.body) == c);
    assert forall|k: int| 0 <= k < c.len() implies w[24 + k] == #[trigger] c[k] by {}
    assert(w[24] == c[0]);
    assert forall|k: int| 25 <= k < 36 implies #[trigger] w[k] == 0 by {
        assert(w[24 + (k - 24)] == c[k - 24]);
    }
    assert forall|k: int| 0 <= k < tail.len() implies #[trigger] tail[k] == w[36 + k] by {
        assert(w[24 + (k + 12)] == c[k + 12]);
    }
}

proof fn lemma_synchronises()
    ensures
        synchronises(
            packet_wire(
                next_packet(
                    PTCPSession { sent: 0, recv: 0, count: 0, id: 0, rmid: 0 },
                    Body::Sync,
                ),
            ),
        ),
{
    let p = next_packet(PTCPSession { sent: 0, recv: 0, count: 0, id: 0, rmid: 0 }, Body::Sync);
    let w = packet_wire(p);
    law_packet_layout(p);
    let b = seq![0x00u8, 0x03, 0x01, 0x00];
    assert(body_wire(p.body) == b);
    assert forall|k: int| 0 <= k < 4 implies #[trigger] b[k] == w[24 + k] by {}
    assert(b[0] == 0 && b[1] == 3 && b[2] == 1 && b[3] == 0);
    assert(w[24] == b[0] && w[25] == b[1] && w[26] == b[2] && w[27] == b[3]);
}

/// Both ways to the camera begin with a packet that synchronises a new session: the one through the
/// relay once the channel is confirmed, the direct one once the camera has sent its five datagrams.
pub proof fn law_sessions_begin_with_synchronisation(
    p: Progress,
    d: Seq<u8>,
    now: nat,
    draw: Drawn,
)
    requires
        ({
            ||| p.stage == Stage::Exchange(RelayStage::Channel, Phase::Read) && (response_of(
                text_of(d),
            ) matches Ok(res) && res.code < 300)
            ||| p.stage matches Stage::Drain(k) && k == 4
        }),
    ensures
        ({
            let (q, act) = advanced(p, Came::Data(d), now, draw);
            &&& act matches Act::Send { link, data } && link == (if p.stage is Exchange {
                Link::Relay
            } else {
                Link::Camera
            }) && synchronises(data)
            &&& q.session.sent == 4
            &&& q.session.id == 1
            &&& q.session.count == 0
            &&& q.stage == if p.stage is Exchange {
                Stage::SendSync
            } else {
                Stage::SendDirectSync
            }
        }),
{
    lemma_synchronises();
}

/// The camera sends five datagrams on the direct path before it listens; they are waited for without
/// a limit.
pub proof fn law_five_datagrams_are_drained(p: Progress, d: Seq<u8>, now: nat, draw: Drawn)
    ensures
        p.stage == Stage::SendConfirm ==> ({
            let (q, act) = advanced(p, Came::Done, now, draw);
            q.stage == Stage::Drain(0) && act == Act::Read { link: Link::Camera, limit: None }
        }),
        forall|k: u8|
            k < 4 && p.stage == #[trigger] draining(k) ==> ({
                let (q, act) = advanced(p, Came::Data(d), now, draw);
                q.stage == Stage::Drain((k + 1) as u8) && act == Act::Read {
                    link: Link::Camera,
                    limit: None,
                }
            }),
{
}

/// The stage in which so many datagrams have come.
pub open spec fn draining(k: u8) -> Stage {
    Stage::Drain(k)
}

/// How the packets of the session lead to a tunnel. Through the relay the session stands once it is
/// synchronised. For the direct path the relay is asked for a signature, which is what follows the
/// first twelve bytes of its answer; on the direct path the camera is shown that signature, and when
/// it has acknowledged it and the confirmation the tunnel stands. Empty packets in place of a
/// signature are waited out.
#[verifier::rlimit(40)]
pub proof fn law_signing(
    p: Progress,
    d: Seq<u8>,
    now: nat,
    draw: Drawn,
)
    requires
        datagram_of(d) is Ok,
    ensures
        ({
            let (q, act) = advanced(p, Came::Data(d), now, draw);
            let packet = datagram_of(d)->Ok_0;
            let s = after_recv(p.session, packet);
            let body = packet.body;
            &&& p.stage == Stage::ReadSync && p.relay_mode ==> act == Act::Finish(Link::Relay)
            &&& p.stage == Stage::ReadSync && !p.relay_mode ==> {
                &&& act matches Act::Send { link, data } && link == Link::Relay && carries_command(
                    data,
                    s,
                    0x17,
                    Seq::empty(),
                )
                &&& q.stage == Stage::SendSign
            }
            &&& p.stage == Stage::ReadSign && body is Empty ==> {
                &&& act == Act::Read { link: Link::Relay, limit: Some(30_000_000_000) }
                &&& q.stage == Stage::ReadSign
            }
            &&& p.stage == Stage::ReadSign ==> (body matches Body::Command(c) ==> {
                &&& c.len() >= 12 ==> q.sign.len() == c.len() - 12 && stands_at(c, 12, q.sign)
                    && q.cookie == draw.cookie && (act is Send || socket_addr_of(p.device) is None)
                &&& c.len() < 12 ==> has_failed(q, act, ErrorKind::InvalidData)
            })
            &&& p.stage == Stage::ReadSign && !(body is Empty) && !(body is Command) ==> has_failed(
                q,
                act,
                ErrorKind::InvalidData,
            )
            &&& p.stage == Stage::ReadDirectSync && body is Sync ==> {
                &&& act matches Act::Send { link, data } && link == Link::Camera && carries_command(
                    data,
                    s,
                    0x19,
                    p.sign,
                )
                &&& q.stage == Stage::SendDirectSign
            }
            &&& p.stage == Stage::ReadDirectSync && !(body is Sync) ==> has_failed(
                q,
                act,
                ErrorKind::InvalidData,
            )
            &&& p.stage == Stage::ReadDirectSign && body is Empty ==> {
                &&& act == Act::Read { link: Link::Camera, limit: Some(30_000_000_000) }
                &&& q.stage == Stage::ReadDirectSign
            }
            &&& p.stage == Stage::ReadDirectSign ==> (body matches Body::Command(c) ==> {
                if c.len() > 0 && c[0] == 0x1a {
                    &&& act matches Act::Send { link, data } && link == Link::Camera
                        && carries_command(data, s, 0x1b, Seq::empty())
                    &&& q.stage == Stage::SendDirectConfirm
                } else {
                    has_failed(q, act, ErrorKind::InvalidData)
                }
            })
            &&& p.stage == Stage::ReadDirectSign && !(body is Empty) && !(body is Command)
                ==> has_failed(q, act, ErrorKind::InvalidData)
            &&& p.stage == Stage::ReadDirectConfirm ==> if body is Empty {
                act == Act::Finish(Link::Camera)
            } else {
                has_failed(q, act, ErrorKind::InvalidData)
            }
        }),
{
    let s = after_recv(p.session, datagram_of(d)->Ok_0);
    lemma_command(s, 0x17, Seq::empty());
    lemma_command(s, 0x19, p.sign);
    lemma_command(s, 0x1b, Seq::empty());
}

/// The packets of the session are waited for on the socket on which they are due, for thirty
/// seconds; the camera's answer to the first datagram on the direct path for five.
pub proof fn law_packets_are_waited_for(p: Progress, now: nat, draw: Drawn)
    ensures
        ({
            let (q, act) = advanced(p, Came::Done, now, draw);
            let relay = Act::Read { link: Link::Relay, limit: Some(30_000_000_000nat) };
            let camera = Act::Read { link: Link::Camera, limit: Some(30_000_000_000nat) };
            &&& p.stage == Stage::SendSync ==> act == relay && q.stage == Stage::ReadSync
            &&& p.stage == Stage::SendSign ==> act == relay && q.stage == Stage::ReadSign
            &&& p.stage == Stage::SendDirectSync ==> act == camera && q.stage
                == Stage::ReadDirectSync
            &&& p.stage == Stage::SendDirectSign ==> act == camera && q.stage
                == Stage::ReadDirectSign
            &&& p.stage == Stage::SendDirectConfirm ==> act == camera && q.stage
                == Stage::ReadDirectConfirm
            &&& p.stage == Stage::SendHello ==> act == (Act::Read {
                link: Link::Camera,
                limit: Some(5_000_000_000),
            }) && q.stage == Stage::ReadHello
            &&& p.stage == Stage::SendProbe ==> q.stage == Stage::ReadProbe
            &&& p.stage == Stage::SendOnline ==> q.stage == Stage::ReadOnline
            &&& p.stage == Stage::SendDeviceProbe ==> q.stage == Stage::ReadDeviceProbe
        }),
{
}

/// A byte has every bit inverted.
pub open spec fn is_inverse(a: u8, b: u8) -> bool {
    a + b == 255
}

/// A datagram of the direct path: a word that tells its kind, a cookie, a transaction number, the
/// client's identifier and an address, the port first. Identifier and address have every bit
/// inverted.
pub open spec fn is_direct_datagram(
    data: Seq<u8>,
    kind: u8,
    cookie: Seq<u8>,
    trans_id: Seq<u8>,
    tag: u8,
    cid: Seq<u8>,
    ip: Seq<u8>,
    port: u16,
) -> bool {
    &&& data.len() == 44
    &&& data[0] == kind
    &&& data[1] == 0xfe
    &&& data[2] == 0xff
    &&& data[3] == 0xe7
    &&& stands_at(data, 4, cookie)
    &&& stands_at(data, 8, trans_id)
    &&& data[20] == 0x7f
    &&& data[21] == tag
    &&& data[22] == 0xff
    &&& data[23] == 0xf7
    &&& forall|i: int| 0 <= i < 8 ==> is_inverse(data[24 + i], #[trigger] cid[i])
    &&& data[32] == 0xff
    &&& data[33] == 0xfb
    &&& data[34] == 0xff
    &&& data[35] == 0xf7
    &&& data[36] == 0xff
    &&& data[37] == 0xfe
    &&& (255 - data[38]) * 256 + (255 - data[39]) == port
    &&& forall|i: int| 0 <= i < 4 ==> is_inverse(data[40 + i], #[trigger] ip[i])
}

proof fn lemma_direct_datagram(
    cookie: Seq<u8>,
    trans_id: Seq<u8>,
    cid: Seq<u8>,
    ip: Seq<u8>,
    port: u16,
)
    requires
        cookie.len() == 4,
        trans_id.len() == 12,
        cid.len() == 8,
        ip.len() == 4,
    ensures
        is_direct_datagram(
            hello_wire(cookie, trans_id, cid, addr_wire(ip, port)),
            0xff,
            cookie,
            trans_id,
            0xd5,
            cid,
            ip,
            port,
        ),
        is_direct_datagram(
            confirm_wire(cookie, trans_id, cid, addr_wire(ip, port)),
            0xfe,
            cookie,
            trans_id,
            0xd6,
            cid,
            ip,
            port,
        ),
{
    let a = addr_wire(ip, port);
    let h = hello_wire(cookie, trans_id, cid, a);
    let c = confirm_wire(cookie, trans_id, cid, a);
    assert(a.len() == 6);
    assert forall|i: int| 0 <= i < 4 implies is_inverse(h[40 + i], #[trigger] ip[i]) && is_inverse(
        c[40 + i],
        ip[i],
    ) by {
        assert(h[40 + i] == a[2 + i] && c[40 + i] == a[2 + i]);
    }
    assert forall|i: int| 0 <= i < 8 implies is_inverse(h[24 + i], #[trigger] cid[i])
        && is_inverse(c[24 + i], cid[i]) by {}
    assert(h[38] == a[0] && h[39] == a[1] && c[38] == a[0] && c[39] == a[1]);
}

/// The first datagram on the direct path carries what is drawn for it, the client's identifier and
/// the camera's public address. The second carries the same cookie, the transaction number of the
/// camera's answer and the camera's local address.
#[verifier::rlimit(40)]
pub proof fn law_direct_datagrams(p: Progress, d: Seq<u8>, now: nat, draw: Drawn)
    requires
        p.cid.len() == 8,
        p.cookie.len() == 4,
        draw.cookie.len() == 4,
        draw.trans_id.len() == 12,
    ensures
        ({
            let (q, act) = advanced(p, Came::Data(d), now, draw);
            let signs = datagram_of(d) matches Ok(packet) && (packet.body matches Body::Command(c)
                && c.len() >= 12);
            &&& p.stage == Stage::ReadSign && signs ==> match socket_addr_of(p.device) {
                Some(a) => {
                    &&& q.stage == Stage::SendHello
                    &&& act matches Act::Send { link, data } && link == Link::Camera
                        && is_direct_datagram(
                        data,
                        0xff,
                        draw.cookie,
                        draw.trans_id,
                        0xd5,
                        p.cid,
                        a.0,
                        a.1,
                    )
                },
                None => has_failed(q, act, ErrorKind::InvalidData),
            }
            &&& p.stage == Stage::ReadHello && d.len() >= 20 ==> match socket_addr_of(
                p.device_laddr,
            ) {
                Some(a) => {
                    &&& q.stage == Stage::SendConfirm
                    &&& act matches Act::Send { link, data } && link == Link::Camera
                        && is_direct_datagram(
                        data,
                        0xfe,
                        p.cookie,
                        d.subrange(8, 20),
                        0xd6,
                        p.cid,
                        a.0,
                        a.1,
                    )
                },
                None => has_failed(q, act, ErrorKind::InvalidData),
            }
            &&& p.stage == Stage::ReadHello && d.len() < 20 ==> has_failed(
                q,
                act,
                ErrorKind::InvalidData,
            )
        }),
{
    if p.stage == Stage::ReadSign {
        if let Some(a) = socket_addr_of(p.device) {
            lemma_direct_datagram(draw.cookie, draw.trans_id, p.cid, a.0, a.1);
        }
    }
    if p.stage == Stage::ReadHello && d.len() >= 20 {
        if let Some(a) = socket_addr_of(p.device_laddr) {
            lemma_direct_datagram(p.cookie, d.subrange(8, 20), p.cid, a.0, a.1);
        }
    }
}

/// A handshake begins with connecting the camera's socket to the main server, for the camera and in
/// the mode that are asked for.
pub proof fn law_a_handshake_begins(serial: String, relay_mode: bool, r: (Handshake, Action))
    requires
        call_ensures(Handshake::start, (serial, relay_mode), r),
    ensures
        r.0.stage == Stage::ConnectMain,
        r.0.serial@ == serial@,
        r.0.relay_mode == relay_mode,
        r.0.cseq == 0,
        r.1@ == (Act::Connect {
            link: Link::Camera,
            addr: "www.easy4ipcloud.com:8800"@,
            limited: false,
        }),
{
}

/// When the camera's answer to the request for a channel names its public address, the socket is
/// connected to exactly that.
pub proof fn law_advancing_connects_to_the_camera(
    h: &mut Handshake,
    event: Event,
    now: u128,
    draw: &Draw,
    a: Action,
    d: Seq<u8>,
    res: Response,
    public: Seq<char>,
    local: Seq<char>,
)
    requires
        call_ensures(Handshake::advance, (h, event, now, draw), a),
        event@ == Came::Data(d),
        old(h).stage == Stage::ReadDeviceFinal || (old(h).stage == Stage::ReadDevice && res.code
            != 100),
        response_of(text_of(d)) == Ok::<Response, Seq<char>>(res),
        res.code < 400,
        res.body is Some,
        lookup(res.body->0, "body/PubAddr"@) == Some(public),
        lookup(res.body->0, "body/LocalAddr"@) == Some(local),
    ensures
        a@ == (Act::Connect { link: Link::Camera, addr: public, limited: false }),
        final(h).stage == Stage::ConnectDevice,
        final(h).device@ == public,
        final(h).device_laddr@ == local,
        final(h).serial@ == old(h).serial@,
        final(h).token@ == old(h).token@,
        final(h).agent@ == old(h).agent@,
        final(h).relay@ == old(h).relay@,
{
    law_the_camera_is_reached_at_its_public_address(old(h)@, d, now as nat, draw@, res);
    assert(final(h)@.stage == final(h).stage);
}

/// The request for a channel names the client by the identifier that opens the direct path later, and
/// the two addresses of its socket: the port on this machine, and what the socket itself tells.
pub proof fn law_the_channel_request_names_the_client(
    p: Progress,
    addr: Seq<char>,
    port: u16,
    now: nat,
    draw: Drawn,
)
    requires
        p.stage == Stage::AskLocal,
        p.cseq < u32::MAX,
    ensures
        ({
            let (q, act) = advanced(p, Came::Address(addr, port), now, draw);
            &&& act matches Act::Request { link, text, limited } && link == Link::Camera && !limited
                && posts(
                text,
                "/device/"@ + p.serial + "/p2p-channel"@,
                seq![
                    ("Identify"@, client_id_text(p.cid)),
                    ("IpEncrpt"@, "true"@),
                    ("LocalAddr"@, "127.0.0.1:"@ + dec(port as nat)),
                    ("PubAddr"@, addr),
                    ("version"@, "5.0.0"@),
                ],
            ) && has_line(text, "CSeq: "@ + dec((p.cseq + 1) as nat))
            &&& q.cseq == p.cseq + 1
            &&& q.cid == p.cid
        }),
{
    let (q, act) = advanced(p, Came::Address(addr, port), now, draw);
    let fields = seq![
        ("Identify"@, client_id_text(p.cid)),
        ("IpEncrpt"@, "true"@),
        ("LocalAddr"@, "127.0.0.1:"@ + dec(port as nat)),
        ("PubAddr"@, addr),
        ("version"@, "5.0.0"@),
    ];
    let path = "/device/"@ + p.serial + "/p2p-channel"@;
    lemma_posts(path, fields, draw.stamp, q.cseq);
    law_requests_are_signed(path, Some(body_xml(fields)), draw.stamp, q.cseq);
    assert(act == Act::Request {
        link: Link::Camera,
        text: request_text(path, Some(body_xml(fields)), draw.stamp, q.cseq),
        limited: false,
    });
}

/// What is wanted next can come: what is done can be done, what is read can be read, what is asked
/// can be told, and all of it can fail or, where there is a limit, take too long. Only the end of a
/// handshake wants nothing.
#[verifier::opaque]
pub open spec fn can_be_answered(q: Progress, act: Act) -> bool {
    &&& act is Finish || act is Fail <==> q.stage == Stage::Finished || q.stage == Stage::Failed
    &&& act is Bind || act is Connect || act is Request || act is Send || act is Release ==> fits(
        q.stage,
        Came::Done,
    )
    &&& act is Read ==> forall|d: Seq<u8>| #[trigger] fits(q.stage, Came::Data(d))
    &&& act is LocalAddr ==> forall|addr: Seq<char>, port: u16| #[trigger]
        fits(q.stage, Came::Address(addr, port))
    &&& !(act is Finish) && !(act is Fail) && !(act is Release) ==> forall|f: Failure| #[trigger]
        fits(q.stage, Came::Failed(f))
    &&& (act matches Act::Read { limit, .. } && limit is Some) || (act matches Act::Connect {
        limited,
        ..
    } && limited) || (act matches Act::Request { limited, .. } && limited) ==> fits(
        q.stage,
        Came::TimedOut,
    )
}

/// Whatever a handshake wants done next can come about.
pub proof fn law_what_is_wanted_can_come(p: Progress, came: Came, now: nat, draw: Drawn)
    requires
        fits(p.stage, came),
        sound(p),
    ensures
        ({
            let (q, act) = advanced(p, came, now, draw);
            can_be_answered(q, act)
        }),
{
    match p.stage {
        Stage::Exchange(ex, phase) => {
            if phase == Phase::Read {
                lemma_answer_goes_on(p, ex, came, now, draw);
            } else {
                lemma_exchange_goes_on(p, ex, phase, came, now, draw);
            }
        },
        _ => match came {
            Came::Data(d) => lemma_data_goes_on(p, d, now, draw),
            _ => lemma_other_goes_on(p, came, now, draw),
        },
    }
}

proof fn lemma_exchange_goes_on(
    p: Progress,
    ex: RelayStage,
    phase: Phase,
    came: Came,
    now: nat,
    draw: Drawn,
)
    requires
        p.stage == Stage::Exchange(ex, phase),
        phase != Phase::Read,
        fits(p.stage, came),
    ensures
        ({
            let (q, act) = exchanged(p, ex, phase, came, now, draw);
            can_be_answered(q, act)
        }),
{
    reveal(can_be_answered);
}

#[verifier::rlimit(40)]
proof fn lemma_answer_goes_on(p: Progress, ex: RelayStage, came: Came, now: nat, draw: Drawn)
    requires
        p.stage == Stage::Exchange(ex, Phase::Read),
    ensures
        ({
            let (q, act) = answered(p, ex, came, now, draw);
            can_be_answered(q, act)
        }),
{
    reveal(can_be_answered);
}

#[verifier::rlimit(40)]
proof fn lemma_data_goes_on(p: Progress, d: Seq<u8>, now: nat, draw: Drawn)
    requires
        !(p.stage is Exchange),
        fits(p.stage, Came::Data(d)),
        sound(p),
    ensures
        ({
            let (q, act) = data_came(p, d, now, draw);
            can_be_answered(q, act)
        }),
{
    match p.stage {
        Stage::ReadProbe | Stage::ReadOnline | Stage::ReadDeviceProbe => {
            reveal(can_be_answered);
        },
        Stage::ReadDevice | Stage::ReadDeviceFinal => {
            reveal(can_be_answered);
        },
        Stage::ReadHello | Stage::Drain(_) => {
            reveal(can_be_answered);
        },
        _ => match datagram_of(d) {
            Ok(packet) => {
                reveal(can_be_answered);
            },
            Err(_) => {
                reveal(can_be_answered);
            },
        },
    }
}

#[verifier::rlimit(40)]
proof fn lemma_other_goes_on(p: Progress, came: Came, now: nat, draw: Drawn)
    requires
        !(p.stage is Exchange),
        !(came is Data),
        fits(p.stage, came),
    ensures
        ({
            let (q, act) = advanced(p, came, now, draw);
            can_be_answered(q, act)
        }),
{
    reveal(can_be_answered);
    match came {
        Came::Done => {
            let (q, act) = done(p, now, draw);
            assert(can_be_answered(q, act));
        },
        Came::Address(addr, port) => {
            let (q, act) = address_came(p, addr, port, now, draw);
            assert(can_be_answered(q, act));
        },
        _ => {},
    }
}

/// What is said when the camera or the network is silent for too long.
pub proof fn law_what_is_said_of_silence(p: Progress, now: nat, draw: Drawn)
    requires
        is_limited(p.stage),
        !(p.stage is Exchange),
    ensures
        ({
            let (q, act) = advanced(p, Came::TimedOut, now, draw);
            &&& act is Release
            &&& q.failure == Some(
                Failure {
                    kind: ErrorKind::TimedOut,
                    message: if p.stage == Stage::ReadHello {
                        "Device response timeout"@
                    } else {
                        "UDP recv timeout after 30s"@
                    },
                },
            )
        }),
{
}

/// What is said when a relay server is silent for too long, refuses too often, or answers with an
/// error.
pub proof fn law_what_is_said_of_a_relay(status: Seq<char>, code: u16, action: Seq<char>)
    ensures
        expired_failure(RelayStage::Lookup).message == "online relay"@ + " timed out after 10s"@,
        expired_failure(RelayStage::Agent).message == "relay agent"@ + " timed out after 10s"@,
        expired_failure(RelayStage::Start).message == "relay start"@ + " timed out after 10s"@,
        expired_failure(RelayStage::Channel).message == "Relay channel confirmation timed out"@,
        auth_failure(RelayStage::Lookup).message == "online relay"@
            + " failed authentication after 3 retries"@,
        auth_failure(RelayStage::Agent).message == "relay agent"@
            + " failed authentication after 3 retries"@,
        auth_failure(RelayStage::Start).message == "relay start"@
            + " failed authentication after 3 retries"@,
        auth_failure(RelayStage::Channel).message == "relay channel"@
            + " failed authentication after 3 retries"@,
        code_failure(RelayStage::Lookup, status, code).message == "online relay"@
            + " error response: "@ + status + " ("@ + dec(code as nat) + ")"@,
        code_failure(RelayStage::Agent, status, code).message == "relay agent"@
            + " error response: "@ + status + " ("@ + dec(code as nat) + ")"@,
        code_failure(RelayStage::Start, status, code).message == "relay start"@
            + " error response: "@ + status + " ("@ + dec(code as nat) + ")"@,
        code_failure(RelayStage::Channel, status, code).message == "Relay channel"@
            + " error response: "@ + status + " ("@ + dec(code as nat) + ")"@,
        step_failure(action).message == "timed out "@ + action + " after 2s"@,
{
}

/// The waits for a relay server: half a second at first, then twice as long each time, ten seconds at
/// most and altogether.
pub proof fn law_waits_for_a_relay(first: Duration, total: Duration, wait: Duration, next: Duration)
    requires
        call_ensures(relay_setup_initial_wait, (), first),
        call_ensures(relay_setup_total_timeout, (), total),
        call_ensures(next_relay_wait, (wait,), next),
    ensures
        first.nanos() == 500_000_000,
        total.nanos() == 10_000_000_000,
        2 * wait.nanos() <= 10_000_000_000 ==> next.nanos() == 2 * wait.nanos(),
        2 * wait.nanos() > 10_000_000_000 ==> next.nanos() == 10_000_000_000,
{
}

/// What is said when connecting to a relay server, or sending to it, takes too long: which server, or
/// which question, and what for.
pub proof fn law_what_is_said_of_a_step(p: Progress)
    ensures
        exchange_action(p, RelayStage::Agent, Phase::Connect) == "connecting to "@ + p.relay
            + " for "@ + "relay agent"@,
        exchange_action(p, RelayStage::Start, Phase::Connect) == "connecting to "@ + p.agent
            + " for "@ + "relay start"@,
        exchange_action(p, RelayStage::Channel, Phase::Connect)
            == "connecting to main server for relay channel "@ + "www.easy4ipcloud.com:8800"@,
        exchange_action(p, RelayStage::Channel, Phase::Return) == "connecting to relay agent "@
            + p.agent + " for channel confirmation"@,
        exchange_action(p, RelayStage::Lookup, Phase::Send) == "sending "@ + "/online/relay"@ + " ("@
            + "online relay"@ + ")"@,
        exchange_action(p, RelayStage::Agent, Phase::Send) == "sending "@ + "/relay/agent"@ + " ("@
            + "relay agent"@ + ")"@,
        exchange_action(p, RelayStage::Start, Phase::Send) == "sending "@ + ("/relay/start/"@
            + p.token) + " ("@ + "relay start"@ + ")"@,
        exchange_action(p, RelayStage::Channel, Phase::Send) == "sending relay channel request"@,
{
}

/// The session goes on from packet to packet: each that comes in is noted, each that goes out is
/// counted with its bytes, and the tunnel takes the session over as it stands.
#[verifier::rlimit(40)]
pub proof fn law_the_session_goes_on(p: Progress, d: Seq<u8>, now: nat, draw: Drawn)
    requires
        datagram_of(d) is Ok,
        p.stage == Stage::ReadSync || p.stage == Stage::ReadSign || p.stage
            == Stage::ReadDirectSync || p.stage == Stage::ReadDirectSign || p.stage
            == Stage::ReadDirectConfirm,
    ensures
        ({
            let (q, act) = advanced(p, Came::Data(d), now, draw);
            let packet = datagram_of(d)->Ok_0;
            &&& q.session.recv == (packet.sent + body_wire(packet.body).len()) % 0x1_0000_0000
            &&& q.session.rmid == packet.lmid
            &&& act is Send && p.stage != Stage::ReadSign ==> {
                let sent = act->Send_data.len() - 24;
                &&& q.session.sent == (p.session.sent + sent) % 0x1_0000_0000
                &&& q.session.id == (p.session.id + 1) % 0x1_0000_0000
                &&& q.session.count == (p.session.count + 1) % 0x1_0000_0000
            }
            &&& !(act is Send) || p.stage == Stage::ReadSign ==> q.session.sent == p.session.sent
                && q.session.id == p.session.id && q.session.count == p.session.count
        }),
{
    let packet = datagram_of(d)->Ok_0;
    let s = after_recv(p.session, packet);
    law_wire_length(packet.body);
    lemma_command(s, 0x17, Seq::empty());
    lemma_command(s, 0x19, p.sign);
    lemma_command(s, 0x1b, Seq::empty());
}

/// The session that is to be given back is the one that was started: with the token and the agent
/// that the relay told, at that relay.
pub proof fn law_the_lease_is_what_was_learned(h: &Handshake, l: RelayLease)
    requires
        call_ensures(Handshake::lease, (h,), l),
    ensures
        l.token@ == h.token@,
        l.relay@ == h.relay@,
        l.agent@ == h.agent@,
{
}

} // verus!
