use dh_p2p::error::ErrorKind;
use dh_p2p::transport::direct::command_tail;
use dh_p2p::transport::ptcp::PTCPBody;
use dh_p2p::transport::request::format_client_id;
use dh_p2p::transport::response::{parse_header_line, DHResponse};
use dh_p2p::transport::retry::{
    next_relay_wait, relay_setup_initial_wait, relay_setup_total_timeout,
};
use dh_p2p::transport::xml::xml_body;
use rand::{rngs::StdRng, Rng, SeedableRng};

#[test]
fn parse_response_rejects_missing_separator() {
    let raw = "HTTP/1.1 200 OK\r\nCSeq: 1\r\n";
    assert!(DHResponse::parse_response(raw).is_err());
}

#[test]
fn parse_response_rejects_malformed_status_code() {
    let raw = "HTTP/1.1 abc OK\r\nCSeq: 1\r\n\r\n";
    assert!(DHResponse::parse_response(raw).is_err());
}

#[test]
fn parse_response_rejects_malformed_xml_body() {
    let raw = "HTTP/1.1 200 OK\r\nCSeq: 1\r\n\r\n<body><Token>abc</Token>";
    assert!(DHResponse::parse_response(raw).is_err());
}

#[test]
fn parse_response_accepts_header_without_space_after_colon() {
    let raw = "HTTP/1.1 200 OK\r\nCSeq:1\r\nServer:device\r\n\r\n";
    let res = DHResponse::parse_response(raw).expect("response should parse");
    assert_eq!(res.headers.get("CSeq").map(String::as_str), Some("1"));
    assert_eq!(
        res.headers.get("Server").map(String::as_str),
        Some("device")
    );
}

#[test]
fn parse_header_line_accepts_common_variants() {
    let cases = [
        ("CSeq: 1", "CSeq", "1"),
        ("CSeq:1", "CSeq", "1"),
        ("  CSeq  :  1  ", "CSeq", "1"),
        ("X-Empty: ", "X-Empty", ""),
        ("X-Tab:\t42", "X-Tab", "42"),
    ];
    for (line, exp_key, exp_val) in cases {
        let (key, value) = parse_header_line(line).expect("header line should parse");
        assert_eq!(key, exp_key);
        assert_eq!(value, exp_val);
    }
}

#[test]
fn parse_header_line_rejects_malformed_variants() {
    for line in ["CSeq 1", ": value", "", "   :1"] {
        assert!(parse_header_line(line).is_err());
    }
}

#[test]
fn xml_body_sorts_fields_and_escapes_values() {
    let body = xml_body(&[
        ("Dev", "CAM&1".to_string()),
        ("Client", "192.0.2.10:1234".to_string()),
        ("Note", "<quoted>\"value\"".to_string()),
    ]);

    assert_eq!(
        body,
        "<body><Client>192.0.2.10:1234</Client><Dev>CAM&amp;1</Dev><Note>&lt;quoted&gt;&quot;value&quot;</Note></body>"
    );
}

#[test]
fn format_client_id_matches_sdk_style_hex_bytes() {
    let cid = [0x00, 0x01, 0x0a, 0x10, 0xab, 0xcd, 0xef, 0xff];
    assert_eq!(format_client_id(&cid), "0 1 a 10 ab cd ef ff");
}

#[test]
fn relay_wait_backoff_doubles_until_setup_cap() {
    let first = relay_setup_initial_wait();
    let second = next_relay_wait(first);
    let third = next_relay_wait(second);

    assert_eq!(first.as_millis(), 500);
    assert_eq!(second.as_millis(), 1000);
    assert_eq!(third.as_millis(), 2000);
    assert_eq!(
        next_relay_wait(relay_setup_total_timeout()),
        relay_setup_total_timeout()
    );
}

#[test]
fn command_tail_rejects_short_command_payload() {
    let body = PTCPBody::Command(vec![0x10, 0x20]);
    assert!(command_tail(&body, 12, "relay sign").is_err());
}

#[test]
fn command_tail_rejects_non_command_body() {
    let body = PTCPBody::Sync;
    assert!(command_tail(&body, 12, "relay sign").is_err());
}

#[test]
fn parse_response_accepts_lf_only_separator() {
    let raw = "HTTP/1.1 200 OK\nCSeq:1\nServer:device\n\n";
    let res = DHResponse::parse_response(raw).expect("lf-only response should parse");
    assert_eq!(res.headers.get("CSeq").map(String::as_str), Some("1"));
    assert_eq!(
        res.headers.get("Server").map(String::as_str),
        Some("device")
    );
}

#[test]
fn parse_response_random_inputs_do_not_panic() {
    let mut rng = StdRng::seed_from_u64(0xD0A1_CE55);
    let alphabet = b"ABCDEFGHIJKLMNOPQRSTUVWXYZabcdefghijklmnopqrstuvwxyz0123456789-: \r\n\t";
    for _ in 0..1500 {
        let len = rng.gen_range(0..256);
        let s: String = (0..len)
            .map(|_| {
                let idx = rng.gen_range(0..alphabet.len());
                alphabet[idx] as char
            })
            .collect();
        let result = DHResponse::parse_response(&s);
        // Whatever came, it is either read or refused as invalid data.
        assert!(
            result.is_ok() || matches!(result, Err(e) if e.kind == ErrorKind::InvalidData),
            "parse_response failed otherwise for input: {:?}",
            s
        );
    }
}
