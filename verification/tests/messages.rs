use dh_p2p::error::ErrorKind;
use dh_p2p::shutdown::ShutdownReason;
use dh_p2p::transport::direct::{
    command, command_tail, confirm_datagram, hello_datagram, ip_to_bytes, parse_socket_addr,
};
use dh_p2p::transport::handshake::{Draw, Event, RelayLease};
use dh_p2p::transport::ptcp::{
    PTCPBody, PTCPPacket, PTCPPayload, PTCPReadError, PTCPSession,
};
use dh_p2p::transport::release::{ReleaseNote, ReleaseStage, ReleaseStep};
use dh_p2p::transport::request::{
    build_request, dh_request, format_request_id, format_signed, p2p_channel_body, pcs_request_id,
    relay_agent_body, relay_channel_body, relay_channel_create_date, relay_channel_nonce,
    relay_start_body, Stamp,
};
use dh_p2p::transport::response::{
    body_keys, check_response, response_body_field, split_response_sections, DHResponse,
};
use dh_p2p::transport::xml::{collect_tree, xml_body, xml_escape, XmlStep};

fn stamp() -> Stamp {
    Stamp {
        nonce: 12345,
        created: "2024-01-02T03:04:05Z".to_string(),
        id_high: 1,
        id_low: 0xabc,
    }
}

fn message<T>(r: Result<T, dh_p2p::error::Error>) -> String {
    match r {
        Ok(_) => panic!("expected a failure"),
        Err(e) => {
            assert_eq!(e.kind, ErrorKind::InvalidData);
            e.message
        }
    }
}

fn response(text: &str) -> DHResponse {
    DHResponse::parse_response(text).expect("response should parse")
}

#[test]
fn request_is_written_in_full() {
    let expected = "NFPOST /relay/agent HTTP/1.1\r\n\
        X-Version: 6.7.11\r\n\
        X-TSVersion: TS_1.1.4\r\n\
        x-pcs-request-id: 00000000000000010000000000000abc\r\n\
        X-ToUType: Client/Dmss_Android\r\n\
        CSeq: 7\r\n\
        Authorization: WSSE profile=\"UsernameToken\"\r\n\
        X-WSSE: UsernameToken Username=\"cba1b29e32cb17aa46b8ff9e73c7f40b\", PasswordDigest=\"17o3KbzCy6nbzrvItei5xYUJ+1s=\", Nonce=\"12345\", Created=\"2024-01-02T03:04:05Z\"\r\n\
        Content-Type: \r\n\
        Content-Length: 3\r\n\r\n\u{e9}x";
    assert_eq!(
        build_request("/relay/agent", Some("\u{e9}x"), &stamp(), 7),
        expected
    );
    let get = build_request("/probe/p2psrv", None, &stamp(), 1);
    assert!(get.starts_with("NFGET /probe/p2psrv HTTP/1.1\r\n"));
    assert!(get.ends_with("Content-Length: 0\r\n\r\n"));
}

#[test]
fn requests_are_numbered_and_stamped() {
    let mut seq = 0;
    let first = dh_request("/online/relay", None, &mut seq);
    let second = dh_request("/online/relay", None, &mut seq);
    assert_eq!(seq, 2);
    assert!(first.contains("\r\nCSeq: 1\r\n"));
    assert!(second.contains("\r\nCSeq: 2\r\n"));
    assert_ne!(
        first.replace("CSeq: 1", ""),
        second.replace("CSeq: 2", ""),
        "nonce and number are drawn anew"
    );
    let created = first.split("Created=\"").nth(1).unwrap();
    assert_eq!(created.as_bytes()[10], b'T');
    assert_eq!(created.as_bytes()[19], b'Z');
}

#[test]
fn drawn_values_have_their_form() {
    let id = pcs_request_id();
    assert_eq!(id.len(), 32);
    assert!(id.chars().all(|c| c.is_ascii_hexdigit()));
    assert_ne!(id, pcs_request_id());
    assert_eq!(format_request_id(u64::MAX, 0), "ffffffffffffffff0000000000000000");
    assert!(relay_channel_nonce().parse::<u32>().is_ok());
    let date: i64 = relay_channel_create_date().parse().unwrap();
    assert!(date > 1_600_000_000);
    assert_eq!(format_signed(i64::MIN), i64::MIN.to_string());
    assert_eq!(format_signed(-1), "-1");
}

#[test]
fn request_bodies_have_their_fields() {
    let cid = [0, 1, 2, 3, 4, 5, 6, 0xff];
    assert_eq!(
        p2p_channel_body(&cid, 5000, "192.0.2.1:5000"),
        "<body><Identify>0 1 2 3 4 5 6 ff</Identify><IpEncrpt>true</IpEncrpt><LocalAddr>127.0.0.1:5000</LocalAddr><PubAddr>192.0.2.1:5000</PubAddr><version>5.0.0</version></body>"
    );
    assert_eq!(relay_agent_body("SN"), "<body><Dev>SN</Dev></body>");
    assert_eq!(
        relay_start_body("192.0.2.1:9", "SN"),
        "<body><Client>192.0.2.1:9</Client><Dev>SN</Dev></body>"
    );
    assert_eq!(
        relay_channel_body("1700000000", "42", "198.51.100.7:1"),
        "<body><CreateDate>1700000000</CreateDate><Nonce>42</Nonce><TransType>1</TransType><agentAddr>198.51.100.7:1</agentAddr></body>"
    );
}

#[test]
fn escaped_text_is_inert_and_unique() {
    assert_eq!(xml_escape("<a b='1'>&\"</a>"), "&lt;a b=&apos;1&apos;&gt;&amp;&quot;&lt;/a&gt;");
    assert_ne!(xml_escape("&lt;"), xml_escape("<"));
    assert_eq!(xml_escape("&amp;"), "&amp;amp;");
}

#[test]
fn body_that_was_written_is_read_back() {
    let body = xml_body(&[
        ("Token", "a&b".to_string()),
        ("Agent", "<x>".to_string()),
        ("Token", "c'\"d".to_string()),
    ]);
    let tree = DHResponse::parse_body(&body).expect("body should parse");
    assert_eq!(tree.get("body/Token").map(String::as_str), Some("c'\"d"));
    assert_eq!(tree.get("body/Agent").map(String::as_str), Some("<x>"));
    assert_eq!(tree.len(), 2);
}

#[test]
fn repeated_paths_keep_the_last_text() {
    let tree = DHResponse::parse_body("<body><A>1</A><B><A>2</A></B><A>3</A></body>").unwrap();
    assert_eq!(tree.get("body/A").map(String::as_str), Some("3"));
    assert_eq!(tree.get("body/B/A").map(String::as_str), Some("2"));
}

#[test]
fn tree_follows_the_steps_of_the_reader() {
    let open = |s: &str| XmlStep::Open(s.to_string());
    let text = |s: &str| XmlStep::Text(s.to_string());
    let tree = collect_tree(vec![
        XmlStep::Prolog,
        open("a"),
        XmlStep::Blank(" ".to_string()),
        open("b"),
        text("1"),
        XmlStep::Close,
        XmlStep::Comment("2".to_string()),
        XmlStep::CData("3".to_string()),
        XmlStep::Instruction("4".to_string()),
        XmlStep::Close,
        XmlStep::End,
        text("ignored"),
    ])
    .unwrap();
    assert_eq!(tree.joined_names(","), "a/b");
    assert_eq!(
        message(collect_tree(vec![XmlStep::Close])),
        "malformed xml: unexpected closing tag"
    );
    assert_eq!(
        message(collect_tree(vec![
            text("x"),
            XmlStep::Failed("why".to_string())
        ])),
        "xml parse error: why"
    );
}

#[test]
fn response_is_read_in_full() {
    let res = response(
        "HTTP/1.1 200 All is well\r\nCSeq: 3\r\nCSeq: 4\r\n\r\n<body><US>192.0.2.9:8800</US></body>",
    );
    assert_eq!(res.version, "HTTP/1.1");
    assert_eq!(res.code, 200);
    assert_eq!(res.status, "All is well");
    assert_eq!(res.headers.get("CSeq").map(String::as_str), Some("4"));
    assert_eq!(response_body_field(&res, "body/US").unwrap(), "192.0.2.9:8800");
    assert_eq!(body_keys(&res), "body/US");
    assert_eq!(
        message(response_body_field(&res, "body/Agent")),
        "missing response field 'body/Agent'"
    );
    let bare = response("HTTP/1.1 100\r\n\r\n \r\n");
    assert_eq!(bare.status, "UNKNOWN");
    assert_eq!(body_keys(&bare), "<none>");
    assert_eq!(
        message(response_body_field(&bare, "body/US")),
        "missing response body while reading key 'body/US'"
    );
}

#[test]
fn refused_responses_say_why() {
    for (text, expected) in [
        ("HTTP/1.1 200 OK\r\n", "malformed response: missing header/body separator"),
        ("\r\n\r\n", "malformed response: missing status line"),
        (" \r\n\r\n", "malformed response: missing version"),
        ("HTTP/1.1\r\n\r\n", "malformed response: missing status code"),
        ("HTTP/1.1 x\r\n\r\n", "invalid status code: invalid digit found in string"),
        (
            "HTTP/1.1 70000\r\n\r\n",
            "invalid status code: number too large to fit in target type",
        ),
        ("HTTP/1.1 200 OK\r\nnothing\r\n\r\n", "malformed header line: 'nothing'"),
        (
            "HTTP/1.1 200 OK\r\n : x\r\n\r\n",
            "malformed header line with empty key: ' : x'",
        ),
    ] {
        assert_eq!(message(DHResponse::parse_response(text)), expected);
    }
    let broken = message(DHResponse::parse_response("HTTP/1.1 200 OK\r\n\r\n<body>"));
    assert!(broken.starts_with("xml parse error: "), "{}", broken);
}

#[test]
fn header_complaints_come_before_the_body() {
    let broken = DHResponse::parse_body("<a>");
    let failure = DHResponse::assemble("HTTP/1.1 200 OK\nnothing", broken.map(Some));
    assert_eq!(message(failure), "malformed header line: 'nothing'");
}

#[test]
fn sections_are_parted_by_the_first_empty_line() {
    assert_eq!(
        split_response_sections("a\r\n\r\nb\r\n\r\nc"),
        Some(("a".to_string(), "b\r\n\r\nc".to_string()))
    );
    assert_eq!(
        split_response_sections("a\n\nb\r\n\r\nc"),
        Some(("a\n\nb".to_string(), "c".to_string()))
    );
    assert_eq!(
        split_response_sections("a\n\nb"),
        Some(("a".to_string(), "b".to_string()))
    );
    assert_eq!(split_response_sections("a\nb"), None);
}

#[test]
fn datagram_that_is_no_text_is_read_as_far_as_possible() {
    let mut data = b"HTTP/1.1 200 O".to_vec();
    data.push(0xff);
    data.extend_from_slice(b"K\r\n\r\n");
    let res = DHResponse::parse_datagram(&data).unwrap();
    assert_eq!(res.status, "O\u{fffd}K");
}

#[test]
fn error_codes_are_failures() {
    assert!(check_response(response("HTTP/1.1 299 OK\r\n\r\n")).is_ok());
    assert_eq!(
        message(check_response(response("HTTP/1.1 300 Moved on\r\n\r\n"))),
        "error response: Moved on (300)"
    );
}

#[test]
fn addresses_are_inverted() {
    assert_eq!(
        ip_to_bytes("192.168.1.2:8080").unwrap(),
        vec![!0x1f, !0x90, !192, !168, !1, !2]
    );
    assert_eq!(parse_socket_addr("1.2.3.4:00080"), Some(([1, 2, 3, 4], 80)));
    for text in [
        "", "1.2.3.4", "1.2.3:80", "1.2.3.4:", "01.2.3.4:80", "256.2.3.4:80", "1.2.3.4:70000",
        "1.2.3.4:+8", "1.2.3.4:8:9", "1.2.3.4.5:80", "1.2.3.x:80", "1.2.3.0004:80", " 1.2.3.4:80",
    ] {
        assert_eq!(
            message(ip_to_bytes(text)),
            format!("invalid address '{}': invalid IPv4 socket address syntax", text)
        );
    }
}

#[test]
fn path_datagrams_have_their_form() {
    let hello = hello_datagram(&[1, 2, 3, 4], &[5; 12], &[0, 0xff], &[9, 9]);
    assert_eq!(hello[0..4], [0xff, 0xfe, 0xff, 0xe7]);
    assert_eq!(hello[4..8], [1, 2, 3, 4]);
    assert_eq!(hello[8..20], [5; 12]);
    assert_eq!(hello[20..24], [0x7f, 0xd5, 0xff, 0xf7]);
    assert_eq!(hello[24..26], [0xff, 0]);
    assert_eq!(hello[26..32], [0xff, 0xfb, 0xff, 0xf7, 0xff, 0xfe]);
    assert_eq!(hello[32..], [9, 9]);
    let confirm = confirm_datagram(&[1, 2, 3, 4], &[5; 12], &[0, 0xff], &[9, 9]);
    assert_eq!(confirm[0..4], [0xfe, 0xfe, 0xff, 0xe7]);
    assert_eq!(confirm[20..24], [0x7f, 0xd6, 0xff, 0xf7]);
    assert_eq!(confirm[24..], hello[24..]);
}

#[test]
fn command_tails_are_cut_or_refused() {
    let body = command(0x17, &[7, 8]);
    assert_eq!(command_tail(&body, 12, "relay sign").unwrap(), &[7, 8]);
    assert_eq!(
        message(command_tail(&body, 15, "relay sign")),
        "relay sign response too short; expected at least 15 bytes"
    );
    assert_eq!(
        message(command_tail(&PTCPBody::Sync, 12, "relay sign")),
        "invalid response type for relay sign"
    );
}

fn malformed<T>(r: Result<T, PTCPReadError>) -> String {
    match r {
        Err(PTCPReadError::Malformed(m)) => m,
        _ => panic!("expected a malformed packet"),
    }
}

#[test]
fn packets_survive_the_wire() {
    let bodies = [
        PTCPBody::Sync,
        PTCPBody::Command(vec![0x17, 0, 0, 0, 1]),
        PTCPBody::Payload(PTCPPayload {
            realm: 0x0102_0304,
            data: vec![1, 2, 3],
        }),
        PTCPBody::Bind(7, 554),
        PTCPBody::Status(9, "DISC".to_string()),
        PTCPBody::Heartbeat,
        PTCPBody::Empty,
    ];
    let mut session = PTCPSession::new();
    for body in bodies {
        let expected = body.describe();
        let length = body.len();
        let packet = session.send(body);
        let wire = packet.serialize();
        assert_eq!(wire.len(), 24 + length);
        let read = PTCPPacket::from_datagram(&wire).expect("packet should parse");
        assert_eq!(read.body.describe(), expected);
        assert_eq!(read.describe(), packet.describe());
    }
}

#[test]
fn refused_packets_say_why() {
    assert_eq!(malformed(PTCPPacket::from_datagram(&[0; 10])), "undersized packet (10 bytes)");
    assert_eq!(malformed(PTCPPacket::from_datagram(&[0; 24])), "invalid magic in packet");
    assert_eq!(
        malformed(PTCPPacket::parse(&[0; 24])),
        "invalid packet magic: expected PTCP, got [00, 00, 00, 00]"
    );
    assert_eq!(
        malformed(PTCPBody::parse(&[1, 2])),
        "invalid body: expected at least 4 bytes, got 2"
    );
    let mut payload = PTCPPayload {
        realm: 1,
        data: vec![1, 2],
    }
    .serialize();
    payload[3] = 5;
    assert_eq!(
        malformed(PTCPPayload::parse(&payload)),
        "invalid payload length: header says 5, body is 2"
    );
    let timeout = PTCPReadError::timed_out();
    assert!(!timeout.is_fatal());
    assert_eq!(timeout.describe(), "IO error: UDP recv timeout after 30s");
    let lost = PTCPReadError::Io(dh_p2p::error::Error {
        kind: ErrorKind::ConnectionReset,
        message: "reset".to_string(),
    });
    assert!(lost.is_fatal());
    let refused = PTCPReadError::Io(dh_p2p::error::Error {
        kind: ErrorKind::ConnectionRefused,
        message: "refused".to_string(),
    });
    assert!(!refused.is_fatal());
}

#[test]
fn session_counters_wrap() {
    let mut session = PTCPSession::new();
    session.sent = u32::MAX;
    session.id = u32::MAX;
    session.count = u32::MAX;
    let packet = session.send(PTCPBody::Heartbeat);
    assert_eq!((packet.sent, packet.lmid), (u32::MAX, u32::MAX));
    assert_eq!((session.sent, session.id, session.count), (11, 0, 0));
    let mut other = PTCPSession::new();
    let packet = other.recv(packet);
    assert_eq!((other.recv, other.rmid), (11, u32::MAX));
    assert_eq!(packet.pid, 0);
}

#[test]
fn printable_payloads_are_shown() {
    let mut session = PTCPSession::new();
    let data = |d: &[u8]| {
        PTCPBody::Payload(PTCPPayload {
            realm: 1,
            data: d.to_vec(),
        })
    };
    assert_eq!(
        session.send(data(b"OPTIONS")).try_print_data(),
        Some("OPTIONS".to_string())
    );
    assert_eq!(session.send(data(b"OPT")).try_print_data(), None);
    assert_eq!(session.send(data(b"OPTI\xffONS")).try_print_data(), None);
    assert_eq!(session.send(PTCPBody::Sync).try_print_data(), None);
}

fn lease() -> RelayLease {
    RelayLease {
        token: "tok".to_string(),
        relay: "192.0.2.1:1".to_string(),
        agent: "192.0.2.2:2".to_string(),
    }
}

#[test]
fn relay_session_is_given_back() {
    let lease = lease();
    let stop = ShutdownReason::Stop;
    match lease.release(ReleaseStage::Connect, stop, Event::Done, &stamp()) {
        ReleaseStep::Request(text) => {
            assert_eq!(text, build_request("/relay/unbind/tok", None, &stamp(), 1))
        }
        _ => panic!("expected a request"),
    }
    assert!(matches!(
        lease.release(ReleaseStage::Send, stop, Event::Done, &stamp()),
        ReleaseStep::Read
    ));
    let ok = Event::Data(b"HTTP/1.1 200 OK\r\n\r\n".to_vec());
    assert!(matches!(
        lease.release(ReleaseStage::Read, stop, ok, &stamp()),
        ReleaseStep::Done(ReleaseNote::Acknowledged)
    ));
    assert!(matches!(
        lease.release(ReleaseStage::Read, stop, Event::TimedOut, &stamp()),
        ReleaseStep::Done(ReleaseNote::Silence)
    ));
}

#[test]
fn failed_release_says_why() {
    let lease = lease();
    for (stage, expected) in [
        (ReleaseStage::Connect, "timed out connecting to relay server"),
        (ReleaseStage::Send, "timed out sending /relay/unbind"),
    ] {
        match lease.release(stage, ShutdownReason::Stop, Event::TimedOut, &stamp()) {
            ReleaseStep::Fail(e) => {
                assert_eq!(e.kind, ErrorKind::TimedOut);
                assert_eq!(e.message, expected);
            }
            _ => panic!("expected a failure"),
        }
    }
}

#[test]
fn expired_session_is_noise_only_after_a_refusal() {
    let lease = lease();
    let forbidden = || Event::Data(b"HTTP/1.1 403 Forbidden\r\n\r\n".to_vec());
    assert!(matches!(
        lease.release(
            ReleaseStage::Read,
            ShutdownReason::RestartPtcpSendRefused,
            forbidden(),
            &stamp()
        ),
        ReleaseStep::Done(ReleaseNote::AlreadyExpired)
    ));
    match lease.release(ReleaseStage::Read, ShutdownReason::Restart, forbidden(), &stamp()) {
        ReleaseStep::Done(ReleaseNote::Complaint(m)) => {
            assert_eq!(m, "error response: Forbidden (403)")
        }
        _ => panic!("expected a complaint"),
    }
}

#[test]
fn stamps_say_when_they_were_made() {
    let pattern = "dddd-dd-ddTdd:dd:ddZ";
    for created in [Stamp::now().created, Draw::now().stamp.created] {
        assert_eq!(created.len(), pattern.len());
        for (c, p) in created.chars().zip(pattern.chars()) {
            assert!(if p == 'd' { c.is_ascii_digit() } else { c == p }, "{}", created);
        }
    }
}

#[test]
fn awkward_texts_are_read_back() {
    let texts = [
        "/", "]", "]]>", "]]", "=", ";", "&", "&;", "&amp;", "<", ">", "/>", "</a>", "<!--", "-->", "<?",
        "?>", "'", "\"", "!", "a b", "a ", ";a", "#", "&#65;", "~", "{}", "a/b/>c]]d;e=f",
    ];
    for text in texts {
        let body = xml_body(&[("a", text.to_string()), ("Zxml", text.to_string())]);
        let tree = DHResponse::parse_body(&body).expect(text);
        assert_eq!(tree.len(), 2, "{}", text);
        assert_eq!(tree.get("body/a").map(String::as_str), Some(text));
        assert_eq!(tree.get("body/Zxml").map(String::as_str), Some(text));
    }
    let printable: String = ('!'..='~').collect();
    let body = xml_body(&[("xmlns", printable.clone())]);
    let tree = DHResponse::parse_body(&body).unwrap();
    assert_eq!(tree.get("body/xmlns"), Some(&printable));
    assert_eq!(DHResponse::parse_body(&xml_body(&[])).unwrap().len(), 0);
}

#[test]
fn statuses_that_are_no_text_are_still_statuses() {
    for (raw, expected) in [
        (&b"DISC\xff\xfe"[..], "DISC\u{fffd}\u{fffd}"),
        (&b"CONN \xc3"[..], "CONN \u{fffd}"),
        (&b"CONN \t\0rest"[..], "CONN"),
    ] {
        let mut data = vec![0x12, 0, 0, 0, 0, 0, 0, 7, 0, 0, 0, 0];
        data.extend_from_slice(raw);
        assert_eq!(
            PTCPBody::parse_status_body(&data),
            Some((7, expected.to_string()))
        );
    }
}

#[test]
fn digests_are_in_standard_base64() {
    for nonce in 0..50 {
        let mut stamp = stamp();
        stamp.nonce = nonce;
        let text = build_request("/probe/p2psrv", None, &stamp, 1);
        let digest = text.split("PasswordDigest=\"").nth(1).unwrap();
        let digest = digest.split('"').next().unwrap();
        assert_eq!(digest.len(), 28);
        assert!(digest.ends_with('=') && !digest.ends_with("=="));
        let alphabet = |c: char| c.is_ascii_alphanumeric() || c == '+' || c == '/';
        assert!(digest[..27].chars().all(alphabet), "{}", digest);
    }
}
