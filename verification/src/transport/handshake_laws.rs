//! What holds of every handshake, whatever the network does.
use vstd::prelude::*;

use crate::error::{invalid, ErrorKind, Failure};
use crate::transport::handshake::{
    accept, address_came, advanced, answered, attempt, begin, data_came, device_answered, done,
    exchange_action, exchange_body, exchange_path, exchanged, fail, fits, good_response, has_lease, hello_answered, is_reading,
    lease_of, packet_came, read, send_exchange, sound, Act, Came, Drawn, Link, Phase, Progress, Stage, DRAINED,
};
use crate::transport::ptcp::{after_recv, datagram_of, recv_timeout, text_of, Body};
use crate::transport::request::{p2p_channel_fields, request_text, Stamped};
use crate::transport::response::{body_field, response_of, Response};
use crate::transport::retry::{expired, judged, slower, step_failure, Judgement, RelayStage};
use crate::transport::xml::body_xml;

verus! {

/// Whether a stage belongs to the direct path to the camera, or to signing it.
pub open spec fn is_direct(stage: Stage) -> bool {
    match stage {
        Stage::SendSign | Stage::ReadSign | Stage::SendHello | Stage::ReadHello
        | Stage::SendConfirm | Stage::Drain(_) | Stage::SendDirectSync | Stage::ReadDirectSync
        | Stage::SendDirectSign | Stage::ReadDirectSign | Stage::SendDirectConfirm
        | Stage::ReadDirectConfirm => true,
        _ => false,
    }
}

/// How far a stage is on the way. The attempts of one question share a place.
pub open spec fn place(stage: Stage) -> nat {
    match stage {
        Stage::ConnectMain => 0,
        Stage::SendProbe => 1,
        Stage::ReadProbe => 2,
        Stage::SendOnline => 3,
        Stage::ReadOnline => 4,
        Stage::Exchange(RelayStage::Lookup, _) => 5,
        Stage::Bind => 6,
        Stage::ConnectServer => 7,
        Stage::SendDeviceProbe => 8,
        Stage::ReadDeviceProbe => 9,
        Stage::AskLocal => 10,
        Stage::SendChannelRequest => 11,
        Stage::Exchange(RelayStage::Agent, _) => 12,
        Stage::AskRelayLocal => 13,
        Stage::Exchange(RelayStage::Start, _) => 14,
        Stage::ReadDevice => 15,
        Stage::ReadDeviceFinal => 16,
        Stage::ConnectDevice => 17,
        Stage::Exchange(RelayStage::Channel, _) => 18,
        Stage::SendSync => 19,
        Stage::ReadSync => 20,
        Stage::SendSign => 21,
        Stage::ReadSign => 22,
        Stage::SendHello => 23,
        Stage::ReadHello => 24,
        Stage::SendConfirm => 25,
        Stage::Drain(k) => 26 + k as nat,
        Stage::SendDirectSync => 26 + DRAINED as nat,
        Stage::ReadDirectSync => 27 + DRAINED as nat,
        Stage::SendDirectSign => 28 + DRAINED as nat,
        Stage::ReadDirectSign => 29 + DRAINED as nat,
        Stage::SendDirectConfirm => 30 + DRAINED as nat,
        Stage::ReadDirectConfirm => 31 + DRAINED as nat,
        Stage::Releasing => 32 + DRAINED as nat,
        Stage::Finished => 33 + DRAINED as nat,
        Stage::Failed => 33 + DRAINED as nat,
    }
}

/// Whether a step goes from `p` to `q` as every step does.
#[verifier::opaque]
spec fn regular(p: Progress, r: (Progress, Act), stamp: Stamped) -> bool {
    let (q, act) = r;
    &&& q.serial == p.serial
    &&& q.relay_mode == p.relay_mode
    &&& act is Fail ==> !has_lease(p.stage) && q.stage == Stage::Failed
    &&& act is Release <==> has_lease(p.stage) && !has_lease(q.stage)
    &&& act is Release ==> act == Act::Release(lease_of(p)) && q.stage == Stage::Releasing
        && q.failure is Some
    &&& q.stage == Stage::Releasing ==> act is Release
    &&& act is Finish ==> q.stage == Stage::Finished
    &&& act == Act::Finish(Link::Relay) ==> p.relay_mode
    &&& act == Act::Finish(Link::Camera) ==> is_direct(p.stage)
    &&& is_direct(q.stage) ==> is_direct(p.stage) || !p.relay_mode
    &&& act is Finish && !p.relay_mode ==> act == Act::Finish(Link::Camera)
    &&& act is Request ==> q.cseq == p.cseq + 1 && exists|path: Seq<char>, body: Option<Seq<char>>|
        act->text == #[trigger] request_text(path, body, stamp, q.cseq)
    &&& !(act is Request) ==> q.cseq == p.cseq
    &&& place(q.stage) >= place(p.stage)
    &&& place(q.stage) == place(p.stage) ==> p.stage is Exchange || p.stage == Stage::ReadSign
        || p.stage == Stage::ReadDirectSign
}

proof fn lemma_attempt(p: Progress, ex: RelayStage, now: nat, draw: Drawn)
    requires
        p.stage matches Stage::Exchange(e, _) && e == ex,
        p.cseq < u32::MAX,
    ensures
        regular(p, attempt(p, ex, now, draw), draw.stamp),
{
    reveal(regular);
}

proof fn lemma_begin(p: Progress, ex: RelayStage, now: nat, draw: Drawn)
    requires
        place(p.stage) < place(Stage::Exchange(ex, Phase::Connect)),
        has_lease(p.stage) == (ex == RelayStage::Channel),
        p.cseq < u32::MAX,
    ensures
        regular(p, begin(p, ex, now, draw), draw.stamp),
{
    reveal(regular);
}

proof fn lemma_accept(p: Progress, ex: RelayStage, res: Response, stamp: Stamped)
    requires
        p.stage matches Stage::Exchange(e, _) && e == ex,
    ensures
        regular(p, accept(p, ex, res), stamp),
{
    reveal(regular);
}

proof fn lemma_same_step(p: Progress, o: Progress, r: (Progress, Act), stamp: Stamped)
    requires
        regular(o, r, stamp),
        o.stage == p.stage,
        o.serial == p.serial,
        o.relay_mode == p.relay_mode,
        o.cseq == p.cseq,
        lease_of(o) == lease_of(p),
    ensures
        regular(p, r, stamp),
{
    reveal(regular);
}

proof fn lemma_answered(p: Progress, ex: RelayStage, came: Came, now: nat, draw: Drawn)
    requires
        p.stage matches Stage::Exchange(e, _) && e == ex,
        p.cseq < u32::MAX,
    ensures
        regular(p, answered(p, ex, came, now, draw), draw.stamp),
{
    let slowed = Progress { retry: slower(p.retry), ..p };
    lemma_attempt(slowed, ex, now, draw);
    lemma_same_step(p, slowed, attempt(slowed, ex, now, draw), draw.stamp);
    if let Came::Data(d) = came {
        if let Ok(res) = response_of(text_of(d)) {
            let (retry, judgement) = judged(p.retry, ex, res.status, res.code);
            let q = Progress { retry, ..p };
            match judgement {
                Judgement::Accept => {
                    lemma_accept(q, ex, res, draw.stamp);
                    lemma_same_step(p, q, accept(q, ex, res), draw.stamp);
                },
                Judgement::Again => {
                    lemma_attempt(q, ex, now, draw);
                    lemma_same_step(p, q, attempt(q, ex, now, draw), draw.stamp);
                },
                Judgement::Fail(f) => {
                    lemma_fail(q, f, draw.stamp);
                    lemma_same_step(p, q, fail(q, f), draw.stamp);
                },
            }
        }
    }
}

proof fn lemma_fail(p: Progress, f: Failure, stamp: Stamped)
    requires
        place(p.stage) < place(Stage::Releasing),
    ensures
        regular(p, fail(p, f), stamp),
{
    reveal(regular);
}

proof fn lemma_exchanged(
    p: Progress,
    ex: RelayStage,
    phase: Phase,
    came: Came,
    now: nat,
    draw: Drawn,
)
    requires
        p.stage == Stage::Exchange(ex, phase),
        p.cseq < u32::MAX,
    ensures
        regular(p, exchanged(p, ex, phase, came, now, draw), draw.stamp),
{
    if phase == Phase::Read {
        lemma_answered(p, ex, came, now, draw);
    } else {
        match came {
            Came::Failed(f) => lemma_fail(p, f, draw.stamp),
            Came::TimedOut => lemma_fail(
                p,
                step_failure(exchange_action(p, ex, phase)),
                draw.stamp,
            ),
            _ => {
                reveal(regular);
                let sent = send_exchange(p, ex, draw);
                assert(sent.1->text == request_text(
                    exchange_path(p, ex),
                    exchange_body(p, ex, draw),
                    draw.stamp,
                    sent.0.cseq,
                ));
            },
        }
    }
}

proof fn lemma_packet_came(p: Progress, body: Body, draw: Drawn)
    requires
        p.stage == Stage::ReadSync || p.stage == Stage::ReadSign || p.stage
            == Stage::ReadDirectSync || p.stage == Stage::ReadDirectSign || p.stage
            == Stage::ReadDirectConfirm,
    ensures
        regular(p, packet_came(p, body, draw), draw.stamp),
{
    reveal(regular);
}

proof fn lemma_device_answered(p: Progress, res: Response, stamp: Stamped)
    requires
        p.stage == Stage::ReadDevice || p.stage == Stage::ReadDeviceFinal,
    ensures
        regular(p, device_answered(p, res), stamp),
{
    reveal(regular);
}

proof fn lemma_hello_answered(p: Progress, d: Seq<u8>, stamp: Stamped)
    requires
        p.stage == Stage::ReadHello,
    ensures
        regular(p, hello_answered(p, d), stamp),
{
    reveal(regular);
}

proof fn lemma_bootstrap_data_came(p: Progress, d: Seq<u8>, now: nat, draw: Drawn)
    requires
        p.stage == Stage::ReadProbe || p.stage == Stage::ReadOnline || p.stage
            == Stage::ReadDeviceProbe,
        p.cseq < u32::MAX,
    ensures
        regular(p, data_came(p, d, now, draw), draw.stamp),
{
    match good_response(d) {
        Ok(res) => {
            if p.stage == Stage::ReadOnline {
                match body_field(res, "body/Address"@) {
                    Ok(server) => {
                        let q = Progress { server, ..p };
                        lemma_begin(q, RelayStage::Lookup, now, draw);
                        lemma_same_step(p, q, begin(q, RelayStage::Lookup, now, draw), draw.stamp);
                    },
                    Err(e) => lemma_fail(p, invalid(e), draw.stamp),
                }
            } else {
                reveal(regular);
            }
        },
        Err(e) => lemma_fail(p, invalid(e), draw.stamp),
    }
}

proof fn lemma_data_came(p: Progress, d: Seq<u8>, now: nat, draw: Drawn)
    requires
        is_reading(p.stage),
        !(p.stage is Exchange),
        sound(p),
        p.cseq < u32::MAX,
    ensures
        regular(p, data_came(p, d, now, draw), draw.stamp),
{
    match p.stage {
        Stage::ReadProbe | Stage::ReadOnline | Stage::ReadDeviceProbe => lemma_bootstrap_data_came(
            p,
            d,
            now,
            draw,
        ),
        Stage::ReadDevice | Stage::ReadDeviceFinal => match response_of(text_of(d)) {
            Ok(res) => {
                lemma_device_answered(p, res, draw.stamp);
                assert(regular(
                    p,
                    read(p, Stage::ReadDeviceFinal, Link::Camera, None),
                    draw.stamp,
                ) || p.stage == Stage::ReadDeviceFinal) by {
                    reveal(regular);
                }
            },
            Err(e) => lemma_fail(p, invalid(e), draw.stamp),
        },
        Stage::ReadHello => lemma_hello_answered(p, d, draw.stamp),
        Stage::Drain(k) => {
            reveal(regular);
        },
        _ => match datagram_of(d) {
            Ok(packet) => {
                let q = Progress { session: after_recv(p.session, packet), ..p };
                lemma_packet_came(q, packet.body, draw);
                lemma_same_step(p, q, packet_came(q, packet.body, draw), draw.stamp);
            },
            Err(e) => lemma_fail(p, invalid(e), draw.stamp),
        },
    }
}

proof fn lemma_done(p: Progress, now: nat, draw: Drawn)
    requires
        fits(p.stage, Came::Done),
        !(p.stage is Exchange),
        p.cseq < u32::MAX,
    ensures
        regular(p, done(p, now, draw), draw.stamp),
{
    match p.stage {
        Stage::SendChannelRequest => lemma_begin(p, RelayStage::Agent, now, draw),
        Stage::ConnectDevice => lemma_begin(p, RelayStage::Channel, now, draw),
        _ => {
            reveal(regular);
            let (q, act) = done(p, now, draw);
            if p.stage == Stage::ConnectMain {
                assert(act->text == request_text("/probe/p2psrv"@, None, draw.stamp, q.cseq));
            } else if p.stage == Stage::ConnectServer {
                let path = "/probe/device/"@ + p.serial;
                assert(act->text == request_text(path, None, draw.stamp, q.cseq));
            }
        },
    }
}

proof fn lemma_address_came(p: Progress, addr: Seq<char>, port: u16, now: nat, draw: Drawn)
    requires
        p.stage == Stage::AskLocal || p.stage == Stage::AskRelayLocal,
        p.cseq < u32::MAX,
    ensures
        regular(p, address_came(p, addr, port, now, draw), draw.stamp),
{
    if p.stage == Stage::AskLocal {
        reveal(regular);
        let (q, act) = address_came(p, addr, port, now, draw);
        let path = "/device/"@ + p.serial + "/p2p-channel"@;
        let body = Some(body_xml(p2p_channel_fields(p.cid, port, addr)));
        assert(act->text == request_text(path, body, draw.stamp, q.cseq));
    } else {
        let q = Progress { local: addr, ..p };
        lemma_begin(q, RelayStage::Start, now, draw);
        lemma_same_step(p, q, begin(q, RelayStage::Start, now, draw), draw.stamp);
    }
}

proof fn lemma_advanced(p: Progress, came: Came, now: nat, draw: Drawn)
    requires
        sound(p),
        fits(p.stage, came),
        p.cseq < u32::MAX,
    ensures
        regular(p, advanced(p, came, now, draw), draw.stamp),
{
    match p.stage {
        Stage::Exchange(ex, phase) => lemma_exchanged(p, ex, phase, came, now, draw),
        _ => match came {
            Came::Failed(f) => lemma_fail(p, f, draw.stamp),
            Came::TimedOut => lemma_fail(
                p,
                if p.stage == Stage::ReadHello {
                    Failure { kind: ErrorKind::TimedOut, message: "Device response timeout"@ }
                } else {
                    recv_timeout()
                },
                draw.stamp,
            ),
            Came::Done => lemma_done(p, now, draw),
            Came::Address(addr, port) => lemma_address_came(p, addr, port, now, draw),
            Came::Data(d) => lemma_data_came(p, d, now, draw),
        },
    }
}

/// A relay session that has been started is given back exactly once when the handshake fails: as
/// long as there is one the handshake does not fail, it loses it only by asking for its release,
/// and after that it fails with what had gone wrong. Without one nothing is released.
pub proof fn law_lease_is_given_back_once(p: Progress, came: Came, now: nat, draw: Drawn)
    requires
        sound(p),
        fits(p.stage, came),
        p.cseq < u32::MAX,
    ensures
        ({
            let (q, act) = advanced(p, came, now, draw);
            &&& act is Fail ==> !has_lease(p.stage) && q.stage == Stage::Failed
            &&& act is Release <==> has_lease(p.stage) && !has_lease(q.stage)
            &&& act is Release ==> act == Act::Release(lease_of(p)) && q.stage == Stage::Releasing
                && q.failure is Some
            &&& p.stage == Stage::Releasing ==> act == Act::Fail(p.failure->0)
            &&& q.stage == Stage::Releasing ==> act is Release
        }),
{
    lemma_advanced(p, came, now, draw);
    reveal(regular);
}

/// In relay mode no direct path is ever opened, and the tunnel goes through the relay. Otherwise it
/// leads to the camera itself.
pub proof fn law_relay_mode_keeps_to_the_relay(p: Progress, came: Came, now: nat, draw: Drawn)
    requires
        sound(p),
        fits(p.stage, came),
        p.relay_mode ==> !is_direct(p.stage),
        p.cseq < u32::MAX,
    ensures
        ({
            let (q, act) = advanced(p, came, now, draw);
            &&& q.relay_mode == p.relay_mode
            &&& p.relay_mode ==> !is_direct(q.stage)
            &&& act is Finish ==> q.stage == Stage::Finished && act == Act::Finish(
                if p.relay_mode {
                    Link::Relay
                } else {
                    Link::Camera
                },
            )
        }),
{
    lemma_advanced(p, came, now, draw);
    reveal(regular);
}

/// Every request carries the next number of the sequence, and nothing else uses a number up.
pub proof fn law_requests_are_numbered(p: Progress, came: Came, now: nat, draw: Drawn)
    requires
        sound(p),
        fits(p.stage, came),
        p.cseq < u32::MAX,
    ensures
        ({
            let (q, act) = advanced(p, came, now, draw);
            &&& act is Request ==> q.cseq == p.cseq + 1 && exists|
                path: Seq<char>,
                body: Option<Seq<char>>,
            |
                act->text == #[trigger] request_text(path, body, draw.stamp, q.cseq)
            &&& !(act is Request) ==> q.cseq == p.cseq
        }),
{
    lemma_advanced(p, came, now, draw);
    reveal(regular);
}

/// The handshake never goes back. It stays where it is only while a relay server is asked again or
/// while acknowledgements come in place of a signature.
pub proof fn law_never_back(p: Progress, came: Came, now: nat, draw: Drawn)
    requires
        sound(p),
        fits(p.stage, came),
        p.cseq < u32::MAX,
    ensures
        ({
            let (q, act) = advanced(p, came, now, draw);
            &&& place(q.stage) >= place(p.stage)
            &&& place(q.stage) == place(p.stage) ==> p.stage is Exchange || p.stage
                == Stage::ReadSign || p.stage == Stage::ReadDirectSign
            &&& q.serial == p.serial
        }),
{
    lemma_advanced(p, came, now, draw);
    reveal(regular);
}

/// A relay server is asked again only within the time for it.
pub proof fn law_no_attempt_after_the_total(p: Progress, came: Came, now: nat, draw: Drawn)
    requires
        sound(p),
        p.stage matches Stage::Exchange(_, phase) && phase == Phase::Read,
        fits(p.stage, came),
        expired(p.retry, now),
    ensures
        !(advanced(p, came, now, draw).0.stage is Exchange),
{
}

} // verus!
