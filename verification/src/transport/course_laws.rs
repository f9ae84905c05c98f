//! The course of a whole handshake, as someone sees it who watches the two sockets.
use vstd::prelude::*;

use crate::error::{invalid, ErrorKind, Failure};
use crate::fields::{lookup, Field};
use crate::text::dec;
use crate::transport::handshake::{
    accept, advanced, answered, at_first, attempt, begin, exchange_action, exchanged, fail, fits,
    good_response, has_lease, packet_came, send_exchange, Act, Action, Came, Draw, Drawn, Event,
    Handshake, Lease, Link, Phase, Progress, Stage,
};
use crate::transport::message_laws::lemma_request_frame;
use crate::transport::ptcp::{after_recv, datagram_of, recv_timeout, text_of, Body};
use crate::transport::request::{client_id_text, request_text, signed_dec, Stamped};
use crate::transport::response::{body_field, response_of, Response};
use crate::transport::retry::{
    begun, expired, expired_failure, judged, slower, step_failure, Judgement, RelayStage,
};
use crate::transport::xml::body_xml;

verus! {

/// The server that is asked first.
pub open spec fn main_server() -> Seq<char> {
    "www.easy4ipcloud.com:8800"@
}

/// The text begins with `part`.
pub open spec fn begins(s: Seq<char>, part: Seq<char>) -> bool {
    part.len() <= s.len() && forall|i: int| 0 <= i < part.len() ==> s[i] == #[trigger] part[i]
}

/// The text ends with `part`.
pub open spec fn ends(s: Seq<char>, part: Seq<char>) -> bool {
    part.len() <= s.len() && forall|i: int|
        0 <= i < part.len() ==> s[s.len() - part.len() + i] == #[trigger] part[i]
}

/// What was seen so far: where each socket was connected last, what was asked on it since, which
/// question was the latest, and the texts in the answers.
pub struct Seen {
    pub camera_at: Seq<char>,
    pub relay_at: Seq<char>,
    pub camera_asked: Seq<char>,
    pub relay_asked: Seq<char>,
    pub latest: nat,
    pub camera_local: (Seq<char>, u16),
    pub relay_local: Seq<char>,
    /// `Address` in the answer about the camera's server.
    pub server: Seq<char>,
    /// `Address` in the answer about the relay.
    pub relay: Seq<char>,
    /// `Token` and `Agent` in the answer of the relay.
    pub token: Seq<char>,
    pub agent: Seq<char>,
    /// `PubAddr` and `LocalAddr` in the answer of the camera.
    pub device: Seq<char>,
    pub device_local: Seq<char>,
    /// The agent has agreed to start a relay session.
    pub started: bool,
    /// The relay session has been given back.
    pub returned: bool,
}

/// Which question a request on a socket asks, by how it begins. The questions are numbered in the
/// order in which they are asked.
#[verifier::opaque]
pub open spec fn which(link: Link, text: Seq<char>) -> nat {
    if begins(text, "NFGET /probe/p2psrv "@) {
        1
    } else if begins(text, "NFGET /online/p2psrv/"@) {
        2
    } else if begins(text, "NFGET /online/relay "@) {
        3
    } else if begins(text, "NFGET /probe/device/"@) {
        4
    } else if begins(text, "NFPOST /relay/agent "@) {
        6
    } else if begins(text, "NFPOST /relay/start/"@) {
        7
    } else if begins(text, "NFPOST /device/"@) {
        if link == Link::Camera {
            5
        } else {
            8
        }
    } else {
        0
    }
}

/// The text at a path in the body of an answer.
pub open spec fn told(res: Response, at: Seq<char>) -> Option<Seq<char>> {
    match res.body {
        Some(fields) => lookup(fields, at),
        None => None,
    }
}

/// What an answer on a socket tells, after what was asked there.
pub open spec fn heard(w: Seen, link: Link, res: Response) -> Seen {
    let question = if link == Link::Camera {
        which(link, w.camera_asked)
    } else {
        which(link, w.relay_asked)
    };
    if question == 2 {
        match told(res, "body/Address"@) {
            Some(server) => Seen { server, ..w },
            None => w,
        }
    } else if question == 3 {
        match told(res, "body/Address"@) {
            Some(relay) => Seen { relay, ..w },
            None => w,
        }
    } else if question == 5 {
        match (told(res, "body/PubAddr"@), told(res, "body/LocalAddr"@)) {
            (Some(device), Some(device_local)) => Seen { device, device_local, ..w },
            _ => w,
        }
    } else if question == 6 {
        match (told(res, "body/Token"@), told(res, "body/Agent"@)) {
            (Some(token), Some(agent)) => Seen { token, agent, ..w },
            _ => w,
        }
    } else if question == 7 && res.code < 300 {
        Seen { started: true, ..w }
    } else {
        w
    }
}

/// What is seen of an action and of what came of it. A socket that has been connected anew has been
/// asked nothing.
pub open spec fn seen(w: Seen, act: Act, came: Came) -> Seen {
    match (act, came) {
        (Act::Connect { link, addr, .. }, Came::Done) => if link == Link::Camera {
            Seen { camera_at: addr, camera_asked: Seq::empty(), ..w }
        } else {
            Seen { relay_at: addr, relay_asked: Seq::empty(), ..w }
        },
        (Act::Request { link, text, .. }, Came::Done) => if link == Link::Camera {
            Seen { camera_asked: text, latest: which(link, text), ..w }
        } else {
            Seen { relay_asked: text, latest: which(link, text), ..w }
        },
        (Act::LocalAddr(link), Came::Address(addr, port)) => if link == Link::Camera {
            Seen { camera_local: (addr, port), ..w }
        } else {
            Seen { relay_local: addr, ..w }
        },
        (Act::Read { link, .. }, Came::Data(d)) => match response_of(text_of(d)) {
            Ok(res) => heard(w, link, res),
            Err(_) => w,
        },
        (Act::Release(_), Came::Done) => Seen { returned: true, ..w },
        _ => w,
    }
}

/// One step of a handshake: what came of the last action, when, and what is drawn for the next.
pub struct Step {
    pub came: Came,
    pub now: nat,
    pub draw: Drawn,
}

/// Where a handshake stands after some steps, what it wants done next, and what was seen.
pub open spec fn run(p: Progress, first: Act, before: Seen, steps: Seq<Step>) -> (
    Progress,
    Act,
    Seen,
)
    decreases steps.len(),
{
    if steps.len() == 0 {
        (p, first, before)
    } else {
        let (q, act, w) = run(p, first, before, steps.drop_last());
        let s = steps.last();
        let (r, next) = advanced(q, s.came, s.now, s.draw);
        (r, next, seen(w, act, s.came))
    }
}

/// What came in each step can come of what was wanted.
pub open spec fn can_come(p: Progress, first: Act, before: Seen, steps: Seq<Step>) -> bool
    decreases steps.len(),
{
    steps.len() == 0 || {
        let q = run(p, first, before, steps.drop_last()).0;
        &&& can_come(p, first, before, steps.drop_last())
        &&& fits(q.stage, steps.last().came)
        &&& q.cseq < u32::MAX
    }
}

/// The request is a question for `path`, with nothing else in it.
pub open spec fn gets(text: Seq<char>, path: Seq<char>) -> bool {
    begins(text, "NFGET "@ + path + " HTTP/1.1\r\n"@) && ends(text, "\r\n\r\n"@)
}

/// The request is a question for `path` with these fields.
pub open spec fn posts(text: Seq<char>, path: Seq<char>, fields: Seq<Field>) -> bool {
    begins(text, "NFPOST "@ + path + " HTTP/1.1\r\n"@) && ends(
        text,
        "\r\n\r\n"@ + body_xml(fields),
    )
}

/// The question with number `k` is asked as it should be: on its socket, with its path and its
/// fields, of the server that has the answer, and within two seconds where a relay is asked.
pub open spec fn asks(
    k: nat,
    link: Link,
    text: Seq<char>,
    limited: bool,
    w: Seen,
    serial: Seq<char>,
    draw: Drawn,
) -> bool {
    let camera = link == Link::Camera && !limited && w.camera_at == main_server();
    if k == 1 {
        camera && gets(text, "/probe/p2psrv"@)
    } else if k == 2 {
        camera && gets(text, "/online/p2psrv/"@ + serial)
    } else if k == 3 {
        &&& link == Link::Camera
        &&& limited
        &&& w.camera_at == main_server()
        &&& gets(text, "/online/relay"@)
    } else if k == 4 {
        &&& link == Link::Relay
        &&& !limited
        &&& w.relay_at == w.server
        &&& gets(text, "/probe/device/"@ + serial)
    } else if k == 5 {
        camera && exists|cid: Seq<u8>|
            posts(
                text,
                "/device/"@ + serial + "/p2p-channel"@,
                seq![
                    ("Identify"@, #[trigger] client_id_text(cid)),
                    ("IpEncrpt"@, "true"@),
                    ("LocalAddr"@, "127.0.0.1:"@ + dec(w.camera_local.1 as nat)),
                    ("PubAddr"@, w.camera_local.0),
                    ("version"@, "5.0.0"@),
                ],
            )
    } else if k == 6 {
        &&& link == Link::Relay
        &&& limited
        &&& w.relay_at == w.relay
        &&& posts(text, "/relay/agent"@, seq![("Dev"@, serial)])
    } else if k == 7 {
        &&& link == Link::Relay
        &&& limited
        &&& w.relay_at == w.agent
        &&& posts(
            text,
            "/relay/start/"@ + w.token,
            seq![("Client"@, w.relay_local), ("Dev"@, serial)],
        )
    } else {
        &&& k == 8
        &&& link == Link::Relay
        &&& limited
        &&& w.relay_at == main_server()
        &&& posts(
            text,
            "/device/"@ + serial + "/relay-channel"@,
            seq![
                ("CreateDate"@, signed_dec(draw.timestamp as int)),
                ("Nonce"@, dec(draw.channel_nonce as nat)),
                ("agentAddr"@, w.agent),
                ("TransType"@, "1"@),
            ],
        )
    }
}

/// Whether a question may be asked again when it got no useful answer.
pub open spec fn is_repeated(k: nat) -> bool {
    k == 3 || k == 6 || k == 7 || k == 8
}

/// What is to be done next is what the course of the handshake asks for, after what was seen. A
/// handshake does not fail as long as there is a relay session that has been started and not given
/// back; one is given back only where it has been started, and nothing is done after that.
pub open spec fn is_in_course(
    act: Act,
    w: Seen,
    serial: Seq<char>,
    relay_mode: bool,
    draw: Drawn,
) -> bool {
    &&& match act {
        Act::Fail(_) => w.started ==> w.returned,
        Act::Release(_) | Act::Finish(_) => w.started && !w.returned,
        _ => !w.returned,
    }
    &&& is_in_turn(act, w, serial, relay_mode, draw)
}

/// What is to be done next is in its turn: with the socket, the server and the texts that belong to
/// it.
pub open spec fn is_in_turn(
    act: Act,
    w: Seen,
    serial: Seq<char>,
    relay_mode: bool,
    draw: Drawn,
) -> bool {
    match act {
        Act::Bind => w.latest == 3,
        Act::LocalAddr(link) => w.latest == if link == Link::Camera {
            4nat
        } else {
            6nat
        },
        Act::Connect { link, addr, limited } => if link == Link::Camera {
            // The camera itself, at the address at which it can be reached from outside.
            w.latest == 7 && addr == w.device && !limited
        } else {
            ||| w.latest == 3 && addr == w.server && !limited
            ||| w.latest == 5 && addr == w.relay && limited
            ||| w.latest == 6 && (addr == w.relay || addr == w.agent) && limited
            ||| w.latest == 7 && (addr == w.agent || addr == main_server()) && limited
            ||| w.latest == 8 && (addr == w.agent || addr == main_server()) && limited
        },
        Act::Request { link, text, limited } => {
            let k = which(link, text);
            &&& k == w.latest + 1 || (k == w.latest && is_repeated(k))
            &&& asks(k, link, text, limited, w, serial, draw)
        },
        Act::Send { link, .. } => {
            &&& w.latest == 8
            &&& link == Link::Relay ==> w.relay_at == w.agent
            &&& link == Link::Camera ==> w.camera_at == w.device && !relay_mode
        },
        Act::Read { link, limit } => if link == Link::Relay {
            ||| w.latest == 4 && w.relay_at == w.server && limit is None
            ||| w.latest == 6 && w.relay_at == w.relay && limit is Some
            ||| w.latest == 7 && w.relay_at == w.agent && limit is Some
            ||| w.latest == 8 && w.relay_at == w.agent && limit is Some
        } else {
            ||| (w.latest == 1 || w.latest == 2 || w.latest == 7) && w.camera_at == main_server()
                && limit is None
            ||| w.latest == 3 && w.camera_at == main_server() && limit is Some
            ||| w.latest == 8 && w.camera_at == w.device && !relay_mode
        },
        Act::Release(lease) => {
            &&& w.latest == 7 || w.latest == 8
            &&& lease == (Lease { token: w.token, relay: w.relay, agent: w.agent })
        },
        Act::Finish(link) => {
            &&& w.latest == 8
            &&& w.relay_at == w.agent
            &&& w.camera_at == w.device
            &&& link == if relay_mode {
                Link::Relay
            } else {
                Link::Camera
            }
        },
        Act::Fail(_) => true,
    }
}

proof fn lemma_request_line(path: Seq<char>, body: Option<Seq<char>>, stamp: Stamped, cseq: u32)
    ensures
        ({
            let text = request_text(path, body, stamp, cseq);
            &&& body is None ==> begins(text, "NFGET "@ + path + " HTTP/1.1\r\n"@) && ends(
                text,
                "\r\n\r\n"@,
            )
            &&& body matches Some(b) ==> begins(text, "NFPOST "@ + path + " HTTP/1.1\r\n"@) && ends(
                text,
                "\r\n\r\n"@ + b,
            )
        }),
{
    lemma_request_frame(path, body, stamp, cseq);
    reveal_strlit("NFGET");
    reveal_strlit("NFPOST");
    reveal_strlit(" ");
    reveal_strlit("NFGET ");
    reveal_strlit("NFPOST ");
    reveal_strlit(" HTTP/1.1");
    reveal_strlit("\r\n");
    reveal_strlit(" HTTP/1.1\r\n");
    assert("NFGET"@ + " "@ + path + " HTTP/1.1"@ + "\r\n"@ =~= "NFGET "@ + path
        + " HTTP/1.1\r\n"@);
    assert("NFPOST"@ + " "@ + path + " HTTP/1.1"@ + "\r\n"@ =~= "NFPOST "@ + path
        + " HTTP/1.1\r\n"@);
    assert("\r\n\r\n"@ + Seq::<char>::empty() =~= "\r\n\r\n"@);
}

proof fn lemma_asks_nothing(link: Link)
    ensures
        which(link, Seq::empty()) == 0,
{
    reveal(which);
    reveal_strlit("NFGET /probe/p2psrv ");
    reveal_strlit("NFGET /online/p2psrv/");
    reveal_strlit("NFGET /online/relay ");
    reveal_strlit("NFGET /probe/device/");
    reveal_strlit("NFPOST /relay/agent ");
    reveal_strlit("NFPOST /relay/start/");
    reveal_strlit("NFPOST /device/");
}

proof fn lemma_which_gets(text: Seq<char>, link: Link, serial: Seq<char>)
    ensures
        gets(text, "/probe/p2psrv"@) ==> which(link, text) == 1,
        gets(text, "/online/p2psrv/"@ + serial) ==> which(link, text) == 2,
        gets(text, "/online/relay"@) ==> which(link, text) == 3,
        gets(text, "/probe/device/"@ + serial) ==> which(link, text) == 4,
{
    reveal(which);
    reveal_strlit("NFGET ");
    reveal_strlit("/probe/p2psrv");
    reveal_strlit("/online/p2psrv/");
    reveal_strlit("/online/relay");
    reveal_strlit("/probe/device/");
    reveal_strlit(" HTTP/1.1\r\n");
    reveal_strlit("NFGET /probe/p2psrv ");
    reveal_strlit("NFGET /online/p2psrv/");
    reveal_strlit("NFGET /online/relay ");
    reveal_strlit("NFGET /probe/device/");
    let a = "NFGET "@ + "/probe/p2psrv"@ + " HTTP/1.1\r\n"@;
    let b = "NFGET "@ + ("/online/p2psrv/"@ + serial) + " HTTP/1.1\r\n"@;
    let c = "NFGET "@ + "/online/relay"@ + " HTTP/1.1\r\n"@;
    let d = "NFGET "@ + ("/probe/device/"@ + serial) + " HTTP/1.1\r\n"@;
    if gets(text, "/probe/p2psrv"@) {
        assert(begins(text, a));
        assert forall|i: int| 0 <= i < 20 implies text[i] == #[trigger] "NFGET /probe/p2psrv "@[i] by {
            assert(text[i] == a[i]);
        }
    }
    if gets(text, "/online/p2psrv/"@ + serial) {
        assert(begins(text, b));
        assert(text[7] == b[7]);
        assert("NFGET /probe/p2psrv "@[7] == 'p');
        assert forall|i: int| 0 <= i < 21 implies text[i] == #[trigger] "NFGET /online/p2psrv/"@[i] by {
            assert(text[i] == b[i]);
        }
    }
    if gets(text, "/online/relay"@) {
        assert(begins(text, c));
        assert(text[7] == c[7]);
        assert("NFGET /probe/p2psrv "@[7] == 'p');
        assert(text[14] == c[14]);
        assert("NFGET /online/p2psrv/"@[14] == 'p');
        assert forall|i: int| 0 <= i < 20 implies text[i] == #[trigger] "NFGET /online/relay "@[i] by {
            assert(text[i] == c[i]);
        }
    }
    if gets(text, "/probe/device/"@ + serial) {
        assert(begins(text, d));
        assert(text[7] == d[7]);
        assert(text[13] == d[13]);
        assert("NFGET /probe/p2psrv "@[13] == 'p');
        assert("NFGET /online/p2psrv/"@[7] == 'o');
        assert("NFGET /online/relay "@[7] == 'o');
        assert forall|i: int| 0 <= i < 20 implies text[i] == #[trigger] "NFGET /probe/device/"@[i] by {
            assert(text[i] == d[i]);
        }
    }
}

proof fn lemma_which_posts(text: Seq<char>, link: Link, rest: Seq<char>, fields: Seq<Field>)
    ensures
        posts(text, "/relay/agent"@, fields) ==> which(link, text) == 6,
        posts(text, "/relay/start/"@ + rest, fields) ==> which(link, text) == 7,
        posts(text, "/device/"@ + rest, fields) ==> which(link, text) == if link == Link::Camera {
            5nat
        } else {
            8nat
        },
{
    reveal(which);
    reveal_strlit("NFPOST ");
    reveal_strlit("/relay/agent");
    reveal_strlit("/relay/start/");
    reveal_strlit("/device/");
    reveal_strlit(" HTTP/1.1\r\n");
    reveal_strlit("NFGET /probe/p2psrv ");
    reveal_strlit("NFGET /online/p2psrv/");
    reveal_strlit("NFGET /online/relay ");
    reveal_strlit("NFGET /probe/device/");
    reveal_strlit("NFPOST /relay/agent ");
    reveal_strlit("NFPOST /relay/start/");
    reveal_strlit("NFPOST /device/");
    assert("NFGET /probe/p2psrv "@[2] == 'G');
    assert("NFGET /online/p2psrv/"@[2] == 'G');
    assert("NFGET /online/relay "@[2] == 'G');
    assert("NFGET /probe/device/"@[2] == 'G');
    let a = "NFPOST "@ + "/relay/agent"@ + " HTTP/1.1\r\n"@;
    let b = "NFPOST "@ + ("/relay/start/"@ + rest) + " HTTP/1.1\r\n"@;
    let c = "NFPOST "@ + ("/device/"@ + rest) + " HTTP/1.1\r\n"@;
    if posts(text, "/relay/agent"@, fields) {
        assert(begins(text, a));
        assert(text[2] == a[2]);
        assert forall|i: int| 0 <= i < 20 implies text[i] == #[trigger] "NFPOST /relay/agent "@[i] by {
            assert(text[i] == a[i]);
        }
    }
    if posts(text, "/relay/start/"@ + rest, fields) {
        assert(begins(text, b));
        assert(text[2] == b[2]);
        assert(text[14] == b[14]);
        assert("NFPOST /relay/agent "@[14] == 'a');
        assert forall|i: int| 0 <= i < 20 implies text[i] == #[trigger] "NFPOST /relay/start/"@[i] by {
            assert(text[i] == b[i]);
        }
    }
    if posts(text, "/device/"@ + rest, fields) {
        assert(begins(text, c));
        assert(text[2] == c[2]);
        assert(text[8] == c[8]);
        assert("NFPOST /relay/agent "@[8] == 'r');
        assert("NFPOST /relay/start/"@[8] == 'r');
        assert forall|i: int| 0 <= i < 15 implies text[i] == #[trigger] "NFPOST /device/"@[i] by {
            assert(text[i] == c[i]);
        }
    }
}

spec fn connects(act: Act, link: Link, addr: Seq<char>) -> bool {
    act matches Act::Connect { link: l, addr: a, .. } && l == link && a == addr
}

spec fn sends(act: Act, link: Link, k: nat) -> bool {
    act matches Act::Request { link: l, text, .. } && l == link && which(link, text) == k
}

spec fn reads(act: Act, link: Link) -> bool {
    act matches Act::Read { link: l, .. } && l == link
}

/// What has been learned is what was told.
spec fn knows(p: Progress, w: Seen, n: nat) -> bool {
    &&& n >= 1 ==> p.server == w.server
    &&& n >= 2 ==> p.relay == w.relay
    &&& n >= 3 ==> p.token == w.token && p.agent == w.agent
    &&& n >= 4 ==> p.local == w.relay_local
    &&& n >= 5 ==> p.device == w.device && p.device_laddr == w.device_local
}

/// Whether a stage comes after the relay session has been started.
spec fn has_started(stage: Stage) -> bool {
    match stage {
        Stage::ReadDevice | Stage::ReadDeviceFinal | Stage::ConnectDevice | Stage::Exchange(
            RelayStage::Channel,
            _,
        ) => true,
        _ => is_confirmed(stage),
    }
}

/// How a handshake in a stage fits what was seen.
#[verifier::opaque]
spec fn stands(p: Progress, act: Act, w: Seen) -> bool {
    let at_main = w.camera_at == main_server();
    let at_device = w.camera_at == w.device;
    &&& p.stage != Stage::Finished && p.stage != Stage::Failed ==> !w.returned && w.started == (
    has_started(p.stage) || p.stage == Stage::Releasing)
    &&& match p.stage {
        Stage::ConnectMain => connects(act, Link::Camera, main_server()) && w.latest == 0,
        Stage::SendProbe => sends(act, Link::Camera, 1) && w.latest == 0 && at_main,
        Stage::ReadProbe => reads(act, Link::Camera) && w.latest == 1 && at_main && which(
            Link::Camera,
            w.camera_asked,
        ) == 1,
        Stage::SendOnline => sends(act, Link::Camera, 2) && w.latest == 1 && at_main,
        Stage::ReadOnline => reads(act, Link::Camera) && w.latest == 2 && at_main && which(
            Link::Camera,
            w.camera_asked,
        ) == 2,
        Stage::Exchange(RelayStage::Lookup, phase) => {
            &&& at_main
            &&& knows(p, w, 1)
            &&& match phase {
                Phase::Send => sends(act, Link::Camera, 3) && (w.latest == 2 || w.latest == 3),
                Phase::Read => reads(act, Link::Camera) && w.latest == 3 && which(
                    Link::Camera,
                    w.camera_asked,
                ) == 3,
                _ => false,
            }
        },
        Stage::Bind => act == Act::Bind && w.latest == 3 && at_main && knows(p, w, 2),
        Stage::ConnectServer => connects(act, Link::Relay, p.server) && w.latest == 3 && at_main
            && knows(p, w, 2),
        Stage::SendDeviceProbe => sends(act, Link::Relay, 4) && w.latest == 3 && at_main && knows(
            p,
            w,
            2,
        ) && w.relay_at == w.server,
        Stage::ReadDeviceProbe => reads(act, Link::Relay) && w.latest == 4 && at_main && knows(
            p,
            w,
            2,
        ) && which(Link::Relay, w.relay_asked) == 4,
        Stage::AskLocal => act == Act::LocalAddr(Link::Camera) && w.latest == 4 && at_main && knows(
            p,
            w,
            2,
        ),
        Stage::SendChannelRequest => sends(act, Link::Camera, 5) && w.latest == 4 && at_main
            && knows(p, w, 2),
        Stage::Exchange(RelayStage::Agent, phase) => {
            &&& at_main
            &&& knows(p, w, 2)
            &&& which(Link::Camera, w.camera_asked) == 5
            &&& match phase {
                Phase::Connect => connects(act, Link::Relay, p.relay) && (w.latest == 5 || w.latest
                    == 6),
                Phase::Send => sends(act, Link::Relay, 6) && (w.latest == 5 || w.latest == 6)
                    && w.relay_at == w.relay,
                Phase::Read => reads(act, Link::Relay) && w.latest == 6 && w.relay_at == w.relay
                    && which(Link::Relay, w.relay_asked) == 6,
                _ => false,
            }
        },
        Stage::AskRelayLocal => act == Act::LocalAddr(Link::Relay) && w.latest == 6 && at_main
            && knows(p, w, 3) && which(Link::Camera, w.camera_asked) == 5,
        Stage::Exchange(RelayStage::Start, phase) => {
            &&& at_main
            &&& knows(p, w, 4)
            &&& which(Link::Camera, w.camera_asked) == 5
            &&& match phase {
                Phase::Connect => connects(act, Link::Relay, p.agent) && (w.latest == 6 || w.latest
                    == 7),
                Phase::Send => sends(act, Link::Relay, 7) && (w.latest == 6 || w.latest == 7)
                    && w.relay_at == w.agent,
                Phase::Read => reads(act, Link::Relay) && w.latest == 7 && w.relay_at == w.agent
                    && which(Link::Relay, w.relay_asked) == 7,
                _ => false,
            }
        },
        Stage::ReadDevice | Stage::ReadDeviceFinal => reads(act, Link::Camera) && w.latest == 7
            && at_main && knows(p, w, 4) && which(Link::Camera, w.camera_asked) == 5,
        Stage::ConnectDevice => connects(act, Link::Camera, p.device) && w.latest == 7 && knows(
            p,
            w,
            5,
        ),
        Stage::Exchange(RelayStage::Channel, phase) => {
            &&& at_device
            &&& knows(p, w, 5)
            &&& which(Link::Camera, w.camera_asked) == 0
            &&& match phase {
                Phase::Connect => connects(act, Link::Relay, main_server()) && (w.latest == 7
                    || w.latest == 8),
                Phase::Send => sends(act, Link::Relay, 8) && (w.latest == 7 || w.latest == 8)
                    && w.relay_at == main_server(),
                Phase::Return => connects(act, Link::Relay, p.agent) && w.latest == 8,
                Phase::Read => reads(act, Link::Relay) && w.latest == 8 && w.relay_at == w.agent
                    && which(Link::Relay, w.relay_asked) == 0,
            }
        },
        Stage::Releasing => act is Release,
        Stage::Finished | Stage::Failed => true,
        _ => {
            &&& at_device
            &&& knows(p, w, 5)
            &&& w.latest == 8
            &&& w.relay_at == w.agent
            &&& which(Link::Relay, w.relay_asked) == 0
            &&& which(Link::Camera, w.camera_asked) == 0
            &&& match p.stage {
                Stage::SendSync | Stage::SendSign => act matches Act::Send { link, .. } && link
                    == Link::Relay,
                Stage::ReadSync | Stage::ReadSign => reads(act, Link::Relay),
                Stage::ReadHello | Stage::Drain(_) | Stage::ReadDirectSync | Stage::ReadDirectSign
                | Stage::ReadDirectConfirm => reads(act, Link::Camera) && !p.relay_mode,
                _ => (act matches Act::Send { link, .. } && link == Link::Camera) && !p.relay_mode,
            }
            &&& p.stage == Stage::SendSign || p.stage == Stage::ReadSign ==> !p.relay_mode
        },
    }
}

/// A step leads to where the handshake fits what was seen, with an action that is in course.
#[verifier::opaque]
spec fn leads_on(r: (Progress, Act), p: Progress, w: Seen, draw: Drawn) -> bool {
    &&& stands(r.0, r.1, w)
    &&& is_in_course(r.1, w, p.serial, p.relay_mode, draw)
    &&& r.0.serial == p.serial
    &&& r.0.relay_mode == p.relay_mode
}

pub proof fn lemma_gets(path: Seq<char>, stamp: Stamped, cseq: u32)
    ensures
        gets(request_text(path, None, stamp, cseq), path),
{
    lemma_request_line(path, None, stamp, cseq);
}

pub proof fn lemma_posts(path: Seq<char>, fields: Seq<Field>, stamp: Stamped, cseq: u32)
    ensures
        posts(request_text(path, Some(body_xml(fields)), stamp, cseq), path, fields),
{
    lemma_request_line(path, Some(body_xml(fields)), stamp, cseq);
}

proof fn lemma_failed(p: Progress, o: Progress, f: Failure, w: Seen, draw: Drawn)
    requires
        has_lease(p.stage) ==> knows(p, w, 3) && (w.latest == 7 || w.latest == 8),
        w.started == has_lease(p.stage),
        !w.returned,
        o.serial == p.serial,
        o.relay_mode == p.relay_mode,
    ensures
        leads_on(fail(p, f), o, w, draw),
{
    reveal(stands);
    reveal(leads_on);
}

proof fn lemma_stopped(p: Progress, act: Act, w: Seen, came: Came, f: Failure, draw: Drawn)
    requires
        stands(p, act, w),
        came is Failed || came is TimedOut,
        p.stage != Stage::Releasing,
        p.stage != Stage::Finished,
        p.stage != Stage::Failed,
    ensures
        seen(w, act, came) == w,
        leads_on(fail(p, f), p, seen(w, act, came), draw),
{
    reveal(stands);
    lemma_failed(p, p, f, w, draw);
}

proof fn lemma_bootstrap(p: Progress, act: Act, w: Seen, came: Came, now: nat, draw: Drawn)
    requires
        stands(p, act, w),
        fits(p.stage, came),
        !(came is Failed),
        !(came is TimedOut),
        p.stage == Stage::ConnectMain || p.stage == Stage::SendProbe || p.stage == Stage::ReadProbe
            || p.stage == Stage::SendOnline,
        p.cseq < u32::MAX,
    ensures
        leads_on(advanced(p, came, now, draw), p, seen(w, act, came), draw),
{
    reveal(stands);
    reveal(leads_on);
    let (q, next) = advanced(p, came, now, draw);
    if p.stage == Stage::ConnectMain {
        let text = request_text("/probe/p2psrv"@, None, draw.stamp, q.cseq);
        lemma_gets("/probe/p2psrv"@, draw.stamp, q.cseq);
        lemma_which_gets(text, Link::Camera, p.serial);
        assert(next == Act::Request { link: Link::Camera, text, limited: false });
    } else if p.stage == Stage::ReadProbe {
        let path = "/online/p2psrv/"@ + p.serial;
        let text = request_text(path, None, draw.stamp, q.cseq);
        lemma_gets(path, draw.stamp, q.cseq);
        lemma_which_gets(text, Link::Camera, p.serial);
    }
}

/// A relay server can be asked.
spec fn is_ready(p: Progress, w: Seen, ex: RelayStage) -> bool {
    &&& !w.returned
    &&& w.started == (ex == RelayStage::Channel)
    &&& match ex {
        RelayStage::Lookup => w.camera_at == main_server() && knows(p, w, 1) && (w.latest == 2
            || w.latest == 3),
        RelayStage::Agent => w.camera_at == main_server() && knows(p, w, 2) && (w.latest == 5
            || w.latest == 6) && which(Link::Camera, w.camera_asked) == 5,
        RelayStage::Start => w.camera_at == main_server() && knows(p, w, 4) && (w.latest == 6
            || w.latest == 7) && which(Link::Camera, w.camera_asked) == 5,
        RelayStage::Channel => w.camera_at == w.device && knows(p, w, 5) && (w.latest == 7
            || w.latest == 8) && which(Link::Camera, w.camera_asked) == 0,
    }
}

#[verifier::rlimit(40)]
proof fn lemma_send_exchange(p: Progress, o: Progress, ex: RelayStage, w: Seen, draw: Drawn)
    requires
        is_ready(p, w, ex),
        ex == RelayStage::Agent ==> w.relay_at == w.relay,
        ex == RelayStage::Start ==> w.relay_at == w.agent,
        ex == RelayStage::Channel ==> w.relay_at == main_server(),
        o.serial == p.serial,
        o.relay_mode == p.relay_mode,
        p.cseq < u32::MAX,
    ensures
        leads_on(send_exchange(p, ex, draw), o, w, draw),
{
    reveal(stands);
    reveal(leads_on);
    let (q, next) = send_exchange(p, ex, draw);
    match ex {
        RelayStage::Lookup => {
            let text = request_text("/online/relay"@, None, draw.stamp, q.cseq);
            lemma_gets("/online/relay"@, draw.stamp, q.cseq);
            lemma_which_gets(text, Link::Camera, p.serial);
            assert(next == Act::Request { link: Link::Camera, text, limited: true });
        },
        RelayStage::Agent => {
            let fields = seq![("Dev"@, p.serial)];
            let text = request_text("/relay/agent"@, Some(body_xml(fields)), draw.stamp, q.cseq);
            lemma_posts("/relay/agent"@, fields, draw.stamp, q.cseq);
            lemma_which_posts(text, Link::Relay, p.serial, fields);
            assert(next == Act::Request { link: Link::Relay, text, limited: true });
        },
        RelayStage::Start => {
            let fields = seq![("Client"@, p.local), ("Dev"@, p.serial)];
            let path = "/relay/start/"@ + p.token;
            let text = request_text(path, Some(body_xml(fields)), draw.stamp, q.cseq);
            lemma_posts(path, fields, draw.stamp, q.cseq);
            lemma_which_posts(text, Link::Relay, p.token, fields);
            assert(next == Act::Request { link: Link::Relay, text, limited: true });
        },
        RelayStage::Channel => {
            let fields = seq![
                ("CreateDate"@, signed_dec(draw.timestamp as int)),
                ("Nonce"@, dec(draw.channel_nonce as nat)),
                ("agentAddr"@, p.agent),
                ("TransType"@, "1"@),
            ];
            let path = "/device/"@ + p.serial + "/relay-channel"@;
            assert(path =~= "/device/"@ + (p.serial + "/relay-channel"@));
            let text = request_text(path, Some(body_xml(fields)), draw.stamp, q.cseq);
            lemma_posts(path, fields, draw.stamp, q.cseq);
            lemma_which_posts(text, Link::Relay, p.serial + "/relay-channel"@, fields);
            assert(next == Act::Request { link: Link::Relay, text, limited: true });
        },
    }
}

proof fn lemma_attempt(
    p: Progress,
    o: Progress,
    ex: RelayStage,
    w: Seen,
    now: nat,
    draw: Drawn,
)
    requires
        is_ready(p, w, ex),
        p.stage matches Stage::Exchange(e, _) && e == ex,
        o.serial == p.serial,
        o.relay_mode == p.relay_mode,
        p.cseq < u32::MAX,
    ensures
        leads_on(attempt(p, ex, now, draw), o, w, draw),
{
    if expired(p.retry, now) {
        lemma_failed(p, o, expired_failure(ex), w, draw);
    } else if ex == RelayStage::Lookup {
        lemma_send_exchange(p, o, ex, w, draw);
    } else {
        reveal(stands);
        reveal(leads_on);
    }
}

proof fn lemma_begin(p: Progress, o: Progress, ex: RelayStage, w: Seen, now: nat, draw: Drawn)
    requires
        is_ready(p, w, ex),
        o.serial == p.serial,
        o.relay_mode == p.relay_mode,
        p.cseq < u32::MAX,
    ensures
        leads_on(begin(p, ex, now, draw), o, w, draw),
{
    let q = Progress {
        stage: Stage::Exchange(ex, Phase::Connect),
        retry: begun(ex, now),
        ..p
    };
    lemma_attempt(q, o, ex, w, now, draw);
}

proof fn lemma_told(res: Response, at: Seq<char>)
    ensures
        match told(res, at) {
            Some(text) => body_field(res, at) == Ok::<Seq<char>, Seq<char>>(text),
            None => body_field(res, at) is Err,
        },
{
}

#[verifier::rlimit(40)]
proof fn lemma_accept(p: Progress, o: Progress, ex: RelayStage, res: Response, w: Seen, draw: Drawn)
    requires
        p.stage == Stage::Exchange(ex, Phase::Read),
        res.code < 300,
        exists|act: Act| #[trigger] stands(p, act, w),
        o.serial == p.serial,
        o.relay_mode == p.relay_mode,
    ensures
        leads_on(
            accept(p, ex, res),
            o,
            heard(
                w,
                if ex == RelayStage::Lookup {
                    Link::Camera
                } else {
                    Link::Relay
                },
                res,
            ),
            draw,
        ),
{
    let act = choose|act: Act| #[trigger] stands(p, act, w);
    reveal(stands);
    let link = if ex == RelayStage::Lookup {
        Link::Camera
    } else {
        Link::Relay
    };
    let v = heard(w, link, res);
    match ex {
        RelayStage::Lookup => {
            lemma_told(res, "body/Address"@);
            match body_field(res, "body/Address"@) {
                Ok(_) => {
                    reveal(leads_on);
                },
                Err(e) => lemma_failed(p, o, invalid(e), v, draw),
            }
        },
        RelayStage::Agent => {
            lemma_told(res, "body/Token"@);
            lemma_told(res, "body/Agent"@);
            match body_field(res, "body/Token"@) {
                Ok(_) => match body_field(res, "body/Agent"@) {
                    Ok(_) => {
                        reveal(leads_on);
                    },
                    Err(e) => lemma_failed(p, o, invalid(e), v, draw),
                },
                Err(e) => lemma_failed(p, o, invalid(e), v, draw),
            }
        },
        _ => {
            reveal(leads_on);
        },
    }
}

proof fn lemma_answered(
    p: Progress,
    act: Act,
    ex: RelayStage,
    w: Seen,
    came: Came,
    now: nat,
    draw: Drawn,
)
    requires
        stands(p, act, w),
        p.stage == Stage::Exchange(ex, Phase::Read),
        fits(p.stage, came),
        p.cseq < u32::MAX,
    ensures
        leads_on(answered(p, ex, came, now, draw), p, seen(w, act, came), draw),
{
    let v = seen(w, act, came);
    let res = if let Came::Data(d) = came {
        response_of(text_of(d))
    } else {
        Err(Seq::empty())
    };
    if res is Ok && res->Ok_0.code < 300 {
        assert(v == heard(
            w,
            if ex == RelayStage::Lookup {
                Link::Camera
            } else {
                Link::Relay
            },
            res->Ok_0,
        )) by {
            reveal(stands);
        }
        lemma_accept(p, p, ex, res->Ok_0, w, draw);
    } else {
        assert(is_ready(p, v, ex)) by {
            reveal(stands);
        }
        let slowed = Progress { retry: slower(p.retry), ..p };
        lemma_attempt(slowed, p, ex, v, now, draw);
        if let Ok(res) = res {
            let (retry, judgement) = judged(p.retry, ex, res.status, res.code);
            let q = Progress { retry, ..p };
            match judgement {
                Judgement::Accept => {},
                Judgement::Again => lemma_attempt(q, p, ex, v, now, draw),
                Judgement::Fail(f) => lemma_failed(q, p, f, v, draw),
            }
        }
    }
}

#[verifier::rlimit(40)]
proof fn lemma_exchanged(
    p: Progress,
    act: Act,
    ex: RelayStage,
    phase: Phase,
    w: Seen,
    came: Came,
    now: nat,
    draw: Drawn,
)
    requires
        stands(p, act, w),
        p.stage == Stage::Exchange(ex, phase),
        fits(p.stage, came),
        p.cseq < u32::MAX,
    ensures
        leads_on(exchanged(p, ex, phase, came, now, draw), p, seen(w, act, came), draw),
{
    if phase == Phase::Read {
        lemma_answered(p, act, ex, w, came, now, draw);
    } else {
        match came {
            Came::Failed(f) => lemma_stopped(p, act, w, came, f, draw),
            Came::TimedOut => lemma_stopped(
                p,
                act,
                w,
                came,
                step_failure(
                    exchange_action(p, ex, phase),
                ),
                draw,
            ),
            _ => {
                let v = seen(w, act, came);
                lemma_asks_nothing(Link::Relay);
                if phase == Phase::Connect {
                    assert(is_ready(p, v, ex) && (ex == RelayStage::Agent ==> v.relay_at == v.relay)
                        && (ex == RelayStage::Start ==> v.relay_at == v.agent) && (ex
                        == RelayStage::Channel ==> v.relay_at == main_server())) by {
                        reveal(stands);
                    }
                    lemma_send_exchange(p, p, ex, v, draw);
                } else {
                    reveal(stands);
                    reveal(leads_on);
                }
            },
        }
    }
}

proof fn lemma_lookup_done(p: Progress, act: Act, w: Seen, came: Came, now: nat, draw: Drawn)
    requires
        stands(p, act, w),
        fits(p.stage, came),
        !(came is Failed),
        !(came is TimedOut),
        p.stage == Stage::ReadOnline || p.stage == Stage::Bind || p.stage == Stage::ConnectServer
            || p.stage == Stage::SendDeviceProbe || p.stage == Stage::ReadDeviceProbe || p.stage
            == Stage::AskLocal || p.stage == Stage::SendChannelRequest,
        p.cseq < u32::MAX,
    ensures
        leads_on(advanced(p, came, now, draw), p, seen(w, act, came), draw),
{
    let v = seen(w, act, came);
    assert(!v.started && !v.returned) by {
        reveal(stands);
    }
    let (q, next) = advanced(p, came, now, draw);
    if p.stage == Stage::ReadOnline {
        let d = came->Data_0;
        match good_response(d) {
            Ok(res) => {
                lemma_told(res, "body/Address"@);
                match body_field(res, "body/Address"@) {
                    Ok(server) => {
                        let o = Progress { server, ..p };
                        assert(is_ready(o, v, RelayStage::Lookup)) by {
                            reveal(stands);
                        }
                        lemma_begin(o, p, RelayStage::Lookup, v, now, draw);
                    },
                    Err(e) => lemma_failed(p, p, invalid(e), v, draw),
                }
            },
            Err(e) => lemma_failed(p, p, invalid(e), v, draw),
        }
    } else if p.stage == Stage::ReadDeviceProbe {
        match good_response(came->Data_0) {
            Ok(res) => {
                reveal(stands);
                reveal(leads_on);
            },
            Err(e) => lemma_failed(p, p, invalid(e), v, draw),
        }
    } else if p.stage == Stage::SendChannelRequest {
        assert(is_ready(p, v, RelayStage::Agent)) by {
            reveal(stands);
        }
        lemma_begin(p, p, RelayStage::Agent, v, now, draw);
    } else if p.stage == Stage::ConnectServer {
        reveal(stands);
        reveal(leads_on);
        let path = "/probe/device/"@ + p.serial;
        let text = request_text(path, None, draw.stamp, q.cseq);
        lemma_gets(path, draw.stamp, q.cseq);
        lemma_which_gets(text, Link::Relay, p.serial);
        assert(next == Act::Request { link: Link::Relay, text, limited: false });
    } else if p.stage == Stage::AskLocal {
        lemma_local(p, act, w, came, now, draw);
    } else {
        reveal(stands);
        reveal(leads_on);
    }
}

#[verifier::rlimit(40)]
proof fn lemma_local(p: Progress, act: Act, w: Seen, came: Came, now: nat, draw: Drawn)
    requires
        stands(p, act, w),
        came is Address,
        p.stage == Stage::AskLocal,
        p.cseq < u32::MAX,
    ensures
        leads_on(advanced(p, came, now, draw), p, seen(w, act, came), draw),
{
    reveal(stands);
    reveal(leads_on);
    let v = seen(w, act, came);
    let (q, next) = advanced(p, came, now, draw);
    let (addr, port) = (came->Address_0, came->Address_1);
    let fields = seq![
        ("Identify"@, client_id_text(p.cid)),
        ("IpEncrpt"@, "true"@),
        ("LocalAddr"@, "127.0.0.1:"@ + dec(port as nat)),
        ("PubAddr"@, addr),
        ("version"@, "5.0.0"@),
    ];
    let path = "/device/"@ + p.serial + "/p2p-channel"@;
    assert(path =~= "/device/"@ + (p.serial + "/p2p-channel"@));
    let text = request_text(path, Some(body_xml(fields)), draw.stamp, q.cseq);
    lemma_posts(path, fields, draw.stamp, q.cseq);
    lemma_which_posts(text, Link::Camera, p.serial + "/p2p-channel"@, fields);
    assert(next == Act::Request { link: Link::Camera, text, limited: false });
    assert(asks(5, Link::Camera, text, false, v, p.serial, draw));
}

#[verifier::rlimit(40)]
proof fn lemma_device_answered(
    p: Progress,
    act: Act,
    w: Seen,
    came: Came,
    now: nat,
    draw: Drawn,
)
    requires
        stands(p, act, w),
        fits(p.stage, came),
        !(came is Failed),
        !(came is TimedOut),
        p.stage == Stage::AskRelayLocal || p.stage == Stage::ReadDevice || p.stage
            == Stage::ReadDeviceFinal || p.stage == Stage::ConnectDevice,
        p.cseq < u32::MAX,
    ensures
        leads_on(advanced(p, came, now, draw), p, seen(w, act, came), draw),
{
    let v = seen(w, act, came);
    if p.stage == Stage::AskRelayLocal {
        let o = Progress { local: came->Address_0, ..p };
        assert(is_ready(o, v, RelayStage::Start)) by {
            reveal(stands);
        }
        lemma_begin(o, p, RelayStage::Start, v, now, draw);
    } else if p.stage == Stage::ConnectDevice {
        lemma_asks_nothing(Link::Camera);
        assert(is_ready(p, v, RelayStage::Channel)) by {
            reveal(stands);
        }
        lemma_begin(p, p, RelayStage::Channel, v, now, draw);
    } else {
        assert(knows(p, v, 4) && v.latest == 7 && v.started && !v.returned) by {
            reveal(stands);
        }
        match response_of(text_of(came->Data_0)) {
            Ok(res) => {
                if p.stage == Stage::ReadDevice && res.code == 100 {
                    reveal(stands);
                    reveal(leads_on);
                } else {
                    lemma_told(res, "body/LocalAddr"@);
                    lemma_told(res, "body/PubAddr"@);
                    if res.code >= 400 {
                        lemma_failed(
                            p,
                            p,
                            Failure { kind: ErrorKind::Other, message: res.status },
                            v,
                            draw,
                        );
                    } else {
                        match body_field(res, "body/LocalAddr"@) {
                            Ok(_) => match body_field(res, "body/PubAddr"@) {
                                Ok(_) => {
                                    reveal(stands);
                                    reveal(leads_on);
                                },
                                Err(e) => lemma_failed(p, p, invalid(e), v, draw),
                            },
                            Err(e) => lemma_failed(p, p, invalid(e), v, draw),
                        }
                    }
                }
            },
            Err(e) => lemma_failed(p, p, invalid(e), v, draw),
        }
    }
}

/// Whether a stage comes after the channel through the relay is confirmed.
spec fn is_confirmed(stage: Stage) -> bool {
    match stage {
        Stage::SendSync | Stage::ReadSync | Stage::SendSign | Stage::ReadSign | Stage::SendHello
        | Stage::ReadHello | Stage::SendConfirm | Stage::Drain(_) | Stage::SendDirectSync
        | Stage::ReadDirectSync | Stage::SendDirectSign | Stage::ReadDirectSign
        | Stage::SendDirectConfirm | Stage::ReadDirectConfirm => true,
        _ => false,
    }
}

#[verifier::rlimit(40)]
proof fn lemma_packet_came(p: Progress, o: Progress, act: Act, w: Seen, body: Body, draw: Drawn)
    requires
        stands(p, act, w),
        p.stage == Stage::ReadSync || p.stage == Stage::ReadSign || p.stage
            == Stage::ReadDirectSync || p.stage == Stage::ReadDirectSign || p.stage
            == Stage::ReadDirectConfirm,
        o.serial == p.serial,
        o.relay_mode == p.relay_mode,
    ensures
        leads_on(packet_came(p, body, draw), o, w, draw),
{
    assert(knows(p, w, 5) && w.latest == 8 && w.started && !w.returned) by {
        reveal(stands);
    }
    let (q, next) = packet_came(p, body, draw);
    if next is Release {
        let f = q.failure->0;
        lemma_failed(p, o, f, w, draw);
        reveal(stands);
        reveal(leads_on);
    } else {
        reveal(stands);
        reveal(leads_on);
    }
}

#[verifier::rlimit(40)]
proof fn lemma_confirmed(p: Progress, act: Act, w: Seen, came: Came, now: nat, draw: Drawn)
    requires
        stands(p, act, w),
        fits(p.stage, came),
        !(came is Failed),
        !(came is TimedOut),
        is_confirmed(p.stage),
    ensures
        leads_on(advanced(p, came, now, draw), p, seen(w, act, came), draw),
{
    assert(knows(p, w, 5) && w.latest == 8 && w.started && !w.returned && seen(w, act, came) == w)
        by {
        reveal(stands);
    }
    if came is Done {
        reveal(stands);
        reveal(leads_on);
    } else {
        let d = came->Data_0;
        match p.stage {
            Stage::ReadHello | Stage::Drain(_) => {
                reveal(stands);
                reveal(leads_on);
            },
            _ => match datagram_of(d) {
                Ok(packet) => {
                    let q = Progress { session: after_recv(p.session, packet), ..p };
                    assert(stands(q, act, w)) by {
                        reveal(stands);
                    }
                    lemma_packet_came(q, p, act, w, packet.body, draw);
                },
                Err(e) => lemma_failed(p, p, invalid(e), w, draw),
            },
        }
    }
}

proof fn lemma_step(p: Progress, act: Act, w: Seen, came: Came, now: nat, draw: Drawn)
    requires
        stands(p, act, w),
        fits(p.stage, came),
        p.cseq < u32::MAX,
    ensures
        leads_on(advanced(p, came, now, draw), p, seen(w, act, came), draw),
{
    match p.stage {
        Stage::Exchange(ex, phase) => lemma_exchanged(p, act, ex, phase, w, came, now, draw),
        Stage::Releasing => {
            reveal(stands);
            reveal(leads_on);
        },
        _ => match came {
            Came::Failed(f) => lemma_stopped(p, act, w, came, f, draw),
            Came::TimedOut => {
                let f = if p.stage == Stage::ReadHello {
                    Failure { kind: ErrorKind::TimedOut, message: "Device response timeout"@ }
                } else {
                    recv_timeout()
                };
                lemma_stopped(p, act, w, came, f, draw);
            },
            _ => match p.stage {
                Stage::ConnectMain | Stage::SendProbe | Stage::ReadProbe | Stage::SendOnline => {
                    lemma_bootstrap(p, act, w, came, now, draw);
                },
                Stage::ReadOnline | Stage::Bind | Stage::ConnectServer | Stage::SendDeviceProbe
                | Stage::ReadDeviceProbe | Stage::AskLocal | Stage::SendChannelRequest => {
                    lemma_lookup_done(p, act, w, came, now, draw);
                },
                Stage::AskRelayLocal | Stage::ReadDevice | Stage::ReadDeviceFinal
                | Stage::ConnectDevice => lemma_device_answered(p, act, w, came, now, draw),
                _ => lemma_confirmed(p, act, w, came, now, draw),
            },
        },
    }
}

proof fn lemma_run(p: Progress, first: Act, before: Seen, steps: Seq<Step>)
    requires
        stands(p, first, before),
        can_come(p, first, before, steps),
    ensures
        ({
            let (q, act, w) = run(p, first, before, steps);
            &&& stands(q, act, w)
            &&& q.serial == p.serial
            &&& q.relay_mode == p.relay_mode
            &&& steps.len() > 0 ==> is_in_course(
                act,
                w,
                p.serial,
                p.relay_mode,
                steps.last().draw,
            )
        }),
    decreases steps.len(),
{
    if steps.len() > 0 {
        lemma_run(p, first, before, steps.drop_last());
        let (q, act, w) = run(p, first, before, steps.drop_last());
        let s = steps.last();
        lemma_step(q, act, w, s.came, s.now, s.draw);
        reveal(leads_on);
    }
}

/// Whatever the network does, each question of a handshake is asked in its turn, on its socket, of
/// the server that was named for it and with the texts that were learned for it: the relay is asked
/// at the `Address` that the main server told, its agent at the `Agent` and with the `Token` that
/// the relay told, the main server again for the channel through the agent. Then the camera's socket
/// leads to the `PubAddr` that the camera told, and the relay's socket to the agent; one of them is
/// the tunnel. A session that is given back is the one that was started.
pub proof fn law_every_question_goes_to_its_server(
    p: Progress,
    serial: Seq<char>,
    relay_mode: bool,
    first: Act,
    before: Seen,
    steps: Seq<Step>,
)
    requires
        at_first(p, serial, relay_mode),
        first == (Act::Connect { link: Link::Camera, addr: main_server(), limited: false }),
        before.latest == 0,
        !before.started,
        !before.returned,
        can_come(p, first, before, steps),
        steps.len() > 0,
    ensures
        ({
            let (q, act, w) = run(p, first, before, steps);
            is_in_course(act, w, serial, relay_mode, steps.last().draw)
        }),
{
    assert(stands(p, first, before)) by {
        reveal(stands);
    }
    lemma_run(p, first, before, steps);
}

/// So it is for a handshake that runs: whatever it has been told so far, what it says next is in
/// course.
pub proof fn law_a_handshake_takes_its_course(
    p: Progress,
    serial: Seq<char>,
    relay_mode: bool,
    first: Act,
    before: Seen,
    steps: Seq<Step>,
    h: &mut Handshake,
    event: Event,
    now: u128,
    draw: &Draw,
    a: Action,
)
    requires
        at_first(p, serial, relay_mode),
        first == (Act::Connect { link: Link::Camera, addr: main_server(), limited: false }),
        before.latest == 0,
        !before.started,
        !before.returned,
        can_come(p, first, before, steps),
        old(h)@ == run(p, first, before, steps).0,
        fits(old(h).stage, event@),
        old(h).cseq < u32::MAX,
        call_ensures(Handshake::advance, (h, event, now, draw), a),
    ensures
        ({
            let (_, act, w) = run(p, first, before, steps);
            is_in_course(a@, seen(w, act, event@), serial, relay_mode, draw@)
        }),
{
    let more = steps.push(Step { came: event@, now: now as nat, draw: draw@ });
    assert(more.drop_last() =~= steps);
    assert(more.last() == Step { came: event@, now: now as nat, draw: draw@ });
    assert(old(h)@.stage == old(h).stage && old(h)@.cseq == old(h).cseq);
    law_every_question_goes_to_its_server(p, serial, relay_mode, first, before, more);
    let (q, act, w) = run(p, first, before, more);
    assert(act == a@);
}

} // verus!
