use dh_p2p::error::{Error, ErrorKind};
use dh_p2p::transport::direct::command;
use dh_p2p::transport::handshake::{Action, Draw, Event, Handshake, Link, Stage};
use dh_p2p::transport::ptcp::{PTCPBody, PTCPPacket, PTCPSession};
use dh_p2p::transport::retry::{RelayRetry, RelayStage, Verdict};
use dh_p2p::transport::response::DHResponse;

const SECOND: u128 = 1_000_000_000;

fn answer(code: u16, body: &str) -> Event {
    Event::Data(format!("HTTP/1.1 {} Word\r\n\r\n{}", code, body).into_bytes())
}

/// A network that answers everything as it should.
struct Network {
    session: PTCPSession,
    requests: Vec<String>,
    released: usize,
    now: u128,
}

impl Network {
    fn new() -> Network {
        Network {
            session: PTCPSession::new(),
            requests: Vec::new(),
            released: 0,
            now: 0,
        }
    }

    fn packet(&mut self, body: PTCPBody) -> Event {
        Event::Data(self.session.send(body).serialize())
    }

    fn reply(&mut self, stage: Stage) -> Event {
        match stage {
            Stage::ReadOnline => answer(200, "<body><Address>192.0.2.1:1</Address><US>192.0.2.8:8</US></body>"),
            Stage::Exchange(RelayStage::Lookup, _) => {
                answer(200, "<body><Address>192.0.2.2:2</Address></body>")
            }
            Stage::Exchange(RelayStage::Agent, _) => {
                answer(200, "<body><Token>tok</Token><Agent>192.0.2.3:3</Agent></body>")
            }
            Stage::ReadDevice => answer(100, ""),
            Stage::ReadDeviceFinal => answer(
                200,
                "<body><LocalAddr>10.0.0.5:5</LocalAddr><PubAddr>192.0.2.5:5</PubAddr></body>",
            ),
            Stage::ReadSync | Stage::ReadDirectSync => self.packet(PTCPBody::Sync),
            Stage::ReadSign => self.packet(command(0x18, b"signature")),
            Stage::ReadHello => Event::Data((0..32).collect()),
            Stage::Drain(_) => Event::Data(vec![1]),
            Stage::ReadDirectSign => self.packet(command(0x1a, &[])),
            Stage::ReadDirectConfirm => self.packet(PTCPBody::Empty),
            _ => answer(200, ""),
        }
    }

    fn perform(&mut self, stage: Stage, action: &Action) -> Event {
        match action {
            Action::Bind | Action::Connect { .. } | Action::Send { .. } => Event::Done,
            Action::Request { text, .. } => {
                self.requests.push(text.lines().next().unwrap().to_string());
                Event::Done
            }
            Action::LocalAddr(_) => Event::Address("192.0.2.9:4444".to_string(), 4444),
            Action::Read { .. } => self.reply(stage),
            Action::Release(lease) => {
                assert_eq!(lease.token, "tok");
                self.released += 1;
                Event::Done
            }
            Action::Finish(_) | Action::Fail(_) => panic!("the handshake is over"),
        }
    }
}

/// Runs a handshake to its end. In `at` the event is `instead`.
fn run(relay_mode: bool, network: &mut Network, at: Option<Stage>, instead: fn() -> Event) -> Action {
    let (mut h, mut action) = Handshake::start("SERIAL".to_string(), relay_mode);
    loop {
        if matches!(action, Action::Finish(_) | Action::Fail(_)) {
            assert!(h.stage.is_over());
            return action;
        }
        let event = if Some(h.stage) == at {
            instead()
        } else {
            network.perform(h.stage, &action)
        };
        assert!(h.stage.accepts(&event), "{:?}", h.stage);
        let cseq = h.cseq;
        action = h.advance(event, network.now, &Draw::now());
        network.now += SECOND / 1000;
        let numbered = matches!(action, Action::Request { .. });
        assert_eq!(h.cseq, if numbered { cseq + 1 } else { cseq });
    }
}

fn failure(action: Action) -> Error {
    match action {
        Action::Fail(e) => e,
        _ => panic!("expected a failure"),
    }
}

fn no_event() -> Event {
    panic!("no stage is disturbed")
}

#[test]
fn relay_tunnel_is_set_up() {
    let mut network = Network::new();
    let end = run(true, &mut network, None, no_event);
    assert!(matches!(end, Action::Finish(Link::Relay)));
    assert_eq!(network.released, 0);
    assert_eq!(
        network.requests,
        vec![
            "NFGET /probe/p2psrv HTTP/1.1",
            "NFGET /online/p2psrv/SERIAL HTTP/1.1",
            "NFGET /online/relay HTTP/1.1",
            "NFGET /probe/device/SERIAL HTTP/1.1",
            "NFPOST /device/SERIAL/p2p-channel HTTP/1.1",
            "NFPOST /relay/agent HTTP/1.1",
            "NFPOST /relay/start/tok HTTP/1.1",
            "NFPOST /device/SERIAL/relay-channel HTTP/1.1",
        ]
    );
}

#[test]
fn direct_tunnel_is_set_up() {
    let mut network = Network::new();
    let end = run(false, &mut network, None, no_event);
    assert!(matches!(end, Action::Finish(Link::Camera)));
    assert_eq!(network.released, 0);
}

#[test]
fn failures_before_the_lease_release_nothing() {
    for stage in [
        Stage::ConnectMain,
        Stage::ReadProbe,
        Stage::ReadOnline,
        Stage::Bind,
        Stage::ReadDeviceProbe,
        Stage::AskLocal,
        Stage::AskRelayLocal,
    ] {
        let mut network = Network::new();
        let end = run(true, &mut network, Some(stage), || {
            Event::Failed(Error {
                kind: ErrorKind::ConnectionRefused,
                message: "broken".to_string(),
            })
        });
        let e = failure(end);
        assert_eq!((e.kind, e.message.as_str()), (ErrorKind::ConnectionRefused, "broken"));
        assert_eq!(network.released, 0, "{:?}", stage);
    }
}

#[test]
fn failures_after_the_lease_release_it_once() {
    for stage in [
        Stage::ReadDevice,
        Stage::ReadDeviceFinal,
        Stage::ConnectDevice,
        Stage::SendSync,
        Stage::ReadSync,
        Stage::SendSign,
        Stage::ReadSign,
        Stage::SendHello,
        Stage::ReadHello,
        Stage::SendConfirm,
        Stage::Drain(3),
        Stage::ReadDirectSync,
        Stage::SendDirectSign,
        Stage::ReadDirectSign,
        Stage::ReadDirectConfirm,
    ] {
        let mut network = Network::new();
        let end = run(false, &mut network, Some(stage), || {
            Event::Failed(Error {
                kind: ErrorKind::ConnectionRefused,
                message: "broken".to_string(),
            })
        });
        assert_eq!(failure(end).message, "broken");
        assert_eq!(network.released, 1, "{:?}", stage);
    }
}

#[test]
fn wrong_answers_are_named() {
    let cases: [(Stage, fn() -> Event, &str); 9] = [
        (Stage::ReadProbe, || answer(500, ""), "error response: Word (500)"),
        (
            Stage::ReadOnline,
            || answer(200, "<body><DS>x</DS></body>"),
            "missing response field 'body/Address'",
        ),
        (Stage::ReadDevice, || answer(403, ""), "Word"),
        (
            Stage::ReadDevice,
            || answer(200, ""),
            "missing response body while reading key 'body/LocalAddr'",
        ),
        (Stage::ReadSync, || Event::Data(vec![0; 3]), "undersized packet (3 bytes)"),
        (
            Stage::ReadHello,
            || Event::Data(vec![0; 19]),
            "device response too short: expected at least 20 bytes, got 19",
        ),
        (Stage::ReadHello, || Event::TimedOut, "Device response timeout"),
        (Stage::ReadSign, || Event::TimedOut, "UDP recv timeout after 30s"),
        (
            Stage::ReadDirectConfirm,
            || Event::Data(PTCPSession::new().send(PTCPBody::Sync).serialize()),
            "invalid final direct handshake response body",
        ),
    ];
    for (stage, event, expected) in cases {
        let end = run(false, &mut Network::new(), Some(stage), event);
        assert_eq!(failure(end).message, expected);
    }
}

#[test]
fn wrong_packets_are_named() {
    let cases: [(Stage, fn() -> PTCPBody, &str); 4] = [
        (
            Stage::ReadDirectSync,
            || PTCPBody::Heartbeat,
            "invalid direct sync response body",
        ),
        (
            Stage::ReadDirectSign,
            || PTCPBody::Command(vec![0x1c, 0, 0, 0]),
            "unexpected direct sign response command",
        ),
        (
            Stage::ReadDirectSign,
            || PTCPBody::Heartbeat,
            "invalid direct sign response body",
        ),
        (
            Stage::ReadSign,
            || PTCPBody::Heartbeat,
            "invalid response type for relay sign",
        ),
    ];
    for (stage, body, expected) in cases {
        let mut network = Network::new();
        let (mut h, mut action) = Handshake::start("SERIAL".to_string(), false);
        while !matches!(action, Action::Fail(_)) {
            let event = if h.stage == stage {
                network.packet(body())
            } else {
                network.perform(h.stage, &action)
            };
            action = h.advance(event, 0, &Draw::now());
        }
        assert_eq!(failure(action).message, expected);
        assert_eq!(network.released, 1);
    }
}

#[test]
fn acknowledgements_in_place_of_a_signature_are_passed_over() {
    let mut network = Network::new();
    let (mut h, mut action) = Handshake::start("SERIAL".to_string(), false);
    let mut acks = 0;
    while !matches!(action, Action::Finish(_)) {
        let waits = h.stage == Stage::ReadSign || h.stage == Stage::ReadDirectSign;
        let event = if waits && acks % 3 != 2 {
            network.packet(PTCPBody::Empty)
        } else {
            network.perform(h.stage, &action)
        };
        if waits {
            acks += 1;
        }
        action = h.advance(event, 0, &Draw::now());
    }
    assert_eq!(acks, 6);
}

#[test]
fn steps_that_take_too_long_are_named() {
    let (mut h, _) = Handshake::start("SERIAL".to_string(), true);
    let mut network = Network::new();
    let mut action = h.advance(Event::Done, 0, &Draw::now());
    while h.stage != Stage::Exchange(RelayStage::Agent, dh_p2p::transport::handshake::Phase::Connect)
    {
        let event = network.perform(h.stage, &action);
        action = h.advance(event, 0, &Draw::now());
    }
    match &action {
        Action::Connect { link, addr, limited } => {
            assert_eq!((*link, addr.as_str(), *limited), (Link::Relay, "192.0.2.2:2", true));
        }
        _ => panic!("expected to connect"),
    }
    let e = failure(h.advance(Event::TimedOut, 0, &Draw::now()));
    assert_eq!(e.kind, ErrorKind::TimedOut);
    assert_eq!(
        e.message,
        "timed out connecting to 192.0.2.2:2 for relay agent after 2s"
    );
}

/// A handshake that waits for the first answer of the relay lookup, begun at time zero.
fn at_lookup() -> (Handshake, Action) {
    let mut network = Network::new();
    let (mut h, mut action) = Handshake::start("SERIAL".to_string(), true);
    loop {
        if let Stage::Exchange(RelayStage::Lookup, dh_p2p::transport::handshake::Phase::Read) =
            h.stage
        {
            return (h, action);
        }
        let event = network.perform(h.stage, &action);
        action = h.advance(event, 0, &Draw::now());
    }
}

fn wait_millis(action: &Action) -> u128 {
    match action {
        Action::Read { limit, .. } => limit.as_ref().unwrap().as_millis(),
        _ => panic!("expected to wait"),
    }
}

#[test]
fn silent_relay_is_asked_ever_more_patiently() {
    let (mut h, mut action) = at_lookup();
    let mut waits = Vec::new();
    let mut now = 0;
    loop {
        let wait = wait_millis(&action);
        waits.push(wait);
        now += wait * 1_000_000;
        action = h.advance(Event::TimedOut, now, &Draw::now());
        match action {
            Action::Request { .. } => action = h.advance(Event::Done, now, &Draw::now()),
            _ => break,
        }
    }
    assert_eq!(waits, vec![500, 1000, 2000, 4000, 2500]);
    let e = failure(action);
    assert_eq!(e.kind, ErrorKind::TimedOut);
    assert_eq!(e.message, "online relay timed out after 10s");
}

#[test]
fn refused_authentication_is_retried_three_times() {
    let (mut h, _) = at_lookup();
    for _ in 0..3 {
        let again = h.advance(answer(401, ""), 0, &Draw::now());
        assert!(matches!(again, Action::Request { .. }));
        h.advance(Event::Done, 0, &Draw::now());
    }
    let e = failure(h.advance(answer(401, ""), 0, &Draw::now()));
    assert_eq!(e.kind, ErrorKind::PermissionDenied);
    assert_eq!(e.message, "online relay failed authentication after 3 retries");
}

#[test]
fn other_codes_of_a_relay_are_failures() {
    let (mut h, _) = at_lookup();
    let e = failure(h.advance(answer(500, ""), 0, &Draw::now()));
    assert_eq!(e.message, "online relay error response: Word (500)");
    let (mut h, _) = at_lookup();
    let again = h.advance(Event::Data(vec![0xff]), 0, &Draw::now());
    assert!(matches!(again, Action::Request { .. }), "garbage is asked about again");
}

#[test]
fn channel_failures_have_their_own_words() {
    let parse = |code: u16| {
        DHResponse::parse_response(&format!("HTTP/1.1 {} Word\r\n\r\n", code)).unwrap()
    };
    let mut retry = RelayRetry::begin(RelayStage::Channel, 0);
    assert_eq!(retry.wait.as_millis(), 2000);
    match retry.judge(RelayStage::Channel, &parse(500)) {
        Verdict::Fail(e) => assert_eq!(e.message, "Relay channel error response: Word (500)"),
        _ => panic!("expected a failure"),
    }
    for _ in 0..3 {
        assert!(matches!(retry.judge(RelayStage::Channel, &parse(401)), Verdict::Again));
    }
    match retry.judge(RelayStage::Channel, &parse(401)) {
        Verdict::Fail(e) => {
            assert_eq!(e.message, "relay channel failed authentication after 3 retries")
        }
        _ => panic!("expected a failure"),
    }
    assert!(matches!(
        RelayRetry::begin(RelayStage::Channel, 0).judge(RelayStage::Channel, &parse(200)),
        Verdict::Accept
    ));
    assert!(!retry.expired(10 * SECOND - 1));
    assert!(retry.expired(10 * SECOND));
    assert_eq!(retry.read_wait(9 * SECOND).as_millis(), 1000);
}

#[test]
fn packets_of_the_handshake_are_well_formed() {
    let mut network = Network::new();
    let (mut h, mut action) = Handshake::start("SERIAL".to_string(), false);
    let mut commands = Vec::new();
    while !matches!(action, Action::Finish(_)) {
        if let Action::Send { data, .. } = &action {
            if let Ok(PTCPPacket {
                body: PTCPBody::Command(c),
                ..
            }) = PTCPPacket::from_datagram(data)
            {
                commands.push(c);
            }
        }
        let event = network.perform(h.stage, &action);
        action = h.advance(event, 0, &Draw::now());
    }
    assert_eq!(commands.len(), 3);
    assert_eq!(commands[0], [&[0x17][..], &[0; 11]].concat());
    assert_eq!(commands[1], [&[0x19][..], &[0; 11], b"signature"].concat());
    assert_eq!(commands[2], [&[0x1b][..], &[0; 11]].concat());
}

#[test]
fn packets_are_waited_for_thirty_seconds() {
    let mut network = Network::new();
    let (mut h, mut action) = Handshake::start("SERIAL".to_string(), true);
    while h.stage != Stage::ReadSync {
        let event = network.perform(h.stage, &action);
        action = h.advance(event, 0, &Draw::now());
    }
    assert_eq!(wait_millis(&action), 30_000);
    assert_eq!(h.server, "192.0.2.1:1");
}
