use dh_p2p::transport::ptcp::{PTCPBody, PTCPPacket, PTCPPayload, PTCPReadError, PTCPSession};
use rand::{rngs::StdRng, Rng, SeedableRng};

#[test]
fn test_pid_calculation_normal() {
    let mut session = PTCPSession::new();

    // First message: count=0, pid = 0xFFFF - 0 = 65535
    let packet = session.send(PTCPBody::Heartbeat);
    assert_eq!(packet.pid, 0x0000FFFF);

    // Second message: count=1, pid = 0xFFFF - 1 = 65534
    let packet = session.send(PTCPBody::Heartbeat);
    assert_eq!(packet.pid, 0x0000FFFE);
}

#[test]
fn test_pid_calculation_at_boundary() {
    let mut session = PTCPSession::new();
    // Manually set count to 65534 (just before wrap boundary)
    session.count = 65534;

    // count=65534, pid = 0xFFFF - 65534 = 1
    let packet = session.send(PTCPBody::Heartbeat);
    assert_eq!(packet.pid, 1);

    // count=65535, pid = 0xFFFF - 65535 = 0
    let packet = session.send(PTCPBody::Heartbeat);
    assert_eq!(packet.pid, 0);

    // count=65536, pid = 0xFFFF - (65536 & 0xFFFF) = 0xFFFF - 0 = 65535
    // This would have been 0xFFFFFFFF without the fix!
    let packet = session.send(PTCPBody::Heartbeat);
    assert_eq!(packet.pid, 0x0000FFFF);

    // count=65537, pid = 0xFFFF - (65537 & 0xFFFF) = 0xFFFF - 1 = 65534
    let packet = session.send(PTCPBody::Heartbeat);
    assert_eq!(packet.pid, 0x0000FFFE);
}

#[test]
fn test_pid_calculation_large_count() {
    let mut session = PTCPSession::new();
    // Set count to a very large value (multiple wraparounds)
    session.count = 200000; // = 3 * 65536 + 3392

    // pid = 0xFFFF - (200000 & 0xFFFF) = 0xFFFF - 3392 = 62143
    let packet = session.send(PTCPBody::Heartbeat);
    assert_eq!(packet.pid, 0x0000FFFF - 3392);
    assert!(packet.pid <= 0xFFFF, "pid should be in 16-bit range");
}

#[test]
fn test_pid_sync_special_case() {
    let mut session = PTCPSession::new();

    // Sync packets have a special pid value
    let packet = session.send(PTCPBody::Sync);
    assert_eq!(packet.pid, 0x0002FFFF);

    // Sync doesn't increment count
    assert_eq!(session.count, 0);
}

#[test]
fn test_pid_empty_doesnt_increment_count() {
    let mut session = PTCPSession::new();

    // Send a regular message first
    session.send(PTCPBody::Heartbeat);
    assert_eq!(session.count, 1);

    // Empty packets don't increment count
    session.send(PTCPBody::Empty);
    assert_eq!(session.count, 1);

    session.send(PTCPBody::Empty);
    assert_eq!(session.count, 1);

    // But regular messages do
    session.send(PTCPBody::Heartbeat);
    assert_eq!(session.count, 2);
}

#[test]
fn test_session_sent_recv_tracking() {
    let mut session = PTCPSession::new();

    // Heartbeat body is 12 bytes
    let packet = session.send(PTCPBody::Heartbeat);
    assert_eq!(packet.sent, 0); // First packet starts at 0
    assert_eq!(session.sent, 12); // After sending, sent = 12

    let packet = session.send(PTCPBody::Heartbeat);
    assert_eq!(packet.sent, 12); // Second packet starts at 12
    assert_eq!(session.sent, 24); // After sending, sent = 24
}

#[test]
fn parse_rejects_undersized_packet() {
    let data = vec![0u8; 10];
    assert!(matches!(
        PTCPPacket::parse(&data),
        Err(PTCPReadError::Malformed(_))
    ));
}

#[test]
fn parse_rejects_invalid_magic() {
    let mut data = vec![0u8; 24];
    data[0..4].copy_from_slice(b"XXXX");
    assert!(matches!(
        PTCPPacket::parse(&data),
        Err(PTCPReadError::Malformed(_))
    ));
}

#[test]
fn parse_rejects_undersized_bind_body() {
    let mut data = Vec::new();
    data.extend_from_slice(b"PTCP");
    data.extend_from_slice(&0u32.to_be_bytes()); // sent
    data.extend_from_slice(&0u32.to_be_bytes()); // recv
    data.extend_from_slice(&0u32.to_be_bytes()); // pid
    data.extend_from_slice(&0u32.to_be_bytes()); // lmid
    data.extend_from_slice(&0u32.to_be_bytes()); // rmid
    data.extend_from_slice(&[0x11, 0x00, 0x00, 0x00]); // bind tag, too short
    assert!(matches!(
        PTCPPacket::parse(&data),
        Err(PTCPReadError::Malformed(_))
    ));
}

#[test]
fn parse_rejects_invalid_payload_length() {
    let payload = [
        0x10, 0x00, 0x00, 0x05, // header says length 5
        0x00, 0x00, 0x00, 0x01, // realm
        0x00, 0x00, 0x00, 0x00, // padding
        0xaa, 0xbb, // actual payload is 2 bytes
    ];
    assert!(matches!(
        PTCPPayload::parse(&payload),
        Err(PTCPReadError::Malformed(_))
    ));
}

#[test]
fn parse_rejects_invalid_payload_header_byte() {
    let payload = [
        0x11, 0x00, 0x00, 0x02, // invalid header type for payload parser
        0x00, 0x00, 0x00, 0x01, // realm
        0x00, 0x00, 0x00, 0x00, // padding
        0xaa, 0xbb,
    ];
    assert!(matches!(
        PTCPPayload::parse(&payload),
        Err(PTCPReadError::Malformed(_))
    ));
}

#[test]
fn parse_rejects_non_zero_payload_padding() {
    let payload = [
        0x10, 0x00, 0x00, 0x02, // header says length 2
        0x00, 0x00, 0x00, 0x01, // realm
        0x00, 0x00, 0x00, 0x01, // invalid padding
        0xaa, 0xbb,
    ];
    assert!(matches!(
        PTCPPayload::parse(&payload),
        Err(PTCPReadError::Malformed(_))
    ));
}

#[test]
fn parse_rejects_undersized_status_body() {
    let mut data = Vec::new();
    data.extend_from_slice(b"PTCP");
    data.extend_from_slice(&0u32.to_be_bytes()); // sent
    data.extend_from_slice(&0u32.to_be_bytes()); // recv
    data.extend_from_slice(&0u32.to_be_bytes()); // pid
    data.extend_from_slice(&0u32.to_be_bytes()); // lmid
    data.extend_from_slice(&0u32.to_be_bytes()); // rmid
    data.extend_from_slice(&[
        0x12, 0x00, 0x00, 0x00, // status tag
        0x00, 0x00, 0x00, 0x01, // realm
    ]); // only 8 body bytes; status requires at least 12
    assert!(matches!(
        PTCPPacket::parse(&data),
        Err(PTCPReadError::Malformed(_))
    ));
}

#[test]
fn parse_status_accepts_conn_with_trailing_nul() {
    let body = [
        0x12, 0x00, 0x00, 0x00, // status tag
        0x12, 0x34, 0x56, 0x78, // realm
        0x00, 0x00, 0x00, 0x00, // reserved
        b'C', b'O', b'N', b'N', 0x00,
    ];

    let parsed = PTCPBody::parse(&body).expect("status should parse");
    match parsed {
        PTCPBody::Status(realm, status) => {
            assert_eq!(realm, 0x12345678);
            assert_eq!(status, "CONN");
        }
        _ => panic!("expected status body"),
    }
}

#[test]
fn parse_status_like_unknown_payload_falls_back_to_command() {
    let body = [
        0x12, 0x00, 0x0b, 0x34, // 0x12-prefixed payload that is not status
        0x00, 0x00, 0x00, 0x00, // realm-like bytes
        0x00, 0x00, 0x00, 0x00, // reserved-like bytes
        b'+', b'8', b'K',
    ];

    let parsed = PTCPBody::parse(&body).expect("payload should parse");
    match parsed {
        PTCPBody::Command(data) => assert_eq!(data, body),
        _ => panic!("expected command fallback"),
    }
}

#[test]
fn parse_random_inputs_do_not_panic() {
    let mut rng = StdRng::seed_from_u64(0x5EED_1234);
    for _ in 0..2500 {
        let len = rng.gen_range(0..512);
        let data: Vec<u8> = (0..len).map(|_| rng.gen()).collect();
        let packet = PTCPPacket::parse(&data);
        let body = PTCPBody::parse(&data);
        let payload = PTCPPayload::parse(&data);
        // Whatever came, it is either read or refused as malformed.
        assert!(packet.is_ok() || matches!(packet, Err(PTCPReadError::Malformed(_))));
        assert!(body.is_ok() || matches!(body, Err(PTCPReadError::Malformed(_))));
        assert!(payload.is_ok() || matches!(payload, Err(PTCPReadError::Malformed(_))));
    }
}
