//! Requests to the signalling servers.
use base64::Engine;
use sha1::Digest;
use vstd::prelude::*;
use vstd::string::StringExecFns;
use vstd::utf8::encode_utf8;

use crate::fields::Field;
use crate::random::{is_utc_text, random_u32, random_u64, utc_seconds, utc_text};
use crate::text::{copy, dec, hex, hex_fixed, join, push_dec, push_hex, push_hex_fixed};
use crate::transport::xml::{body_xml, fields_of, xml_body};

verus! {

/// The server that is asked first.
pub const MAIN_SERVER: &'static str = "www.easy4ipcloud.com:8800";

/// What the client claims to be.
pub const SDK_VERSION: &'static str = "6.7.11";

pub const SDK_TS_VERSION: &'static str = "TS_1.1.4";

pub const SDK_TOU_TYPE: &'static str = "Client/Dmss_Android";

pub const SDK_TRANS_TYPE: &'static str = "1";

pub const USERNAME: &'static str = "cba1b29e32cb17aa46b8ff9e73c7f40b";

pub const USERKEY: &'static str = "996103384cdf19179e19243e959bbf8b";

/// The SHA-1 digest of some bytes.
pub uninterp spec fn sha1_digest(data: Seq<u8>) -> Seq<u8>;

/// The character for six bits in base64 with the standard alphabet.
pub open spec fn base64_char(n: int) -> char {
    if n < 26 {
        (n + 65) as char
    } else if n < 52 {
        (n - 26 + 97) as char
    } else if n < 62 {
        (n - 52 + 48) as char
    } else if n == 62 {
        '+'
    } else {
        '/'
    }
}

/// Some bytes in base64 with the standard alphabet and padding: four characters for three bytes.
pub open spec fn base64_text(data: Seq<u8>) -> Seq<char>
    decreases data.len(),
{
    if data.len() == 0 {
        Seq::empty()
    } else if data.len() == 1 {
        seq![base64_char(data[0] as int / 4), base64_char(data[0] as int % 4 * 16), '=', '=']
    } else if data.len() == 2 {
        seq![
            base64_char(data[0] as int / 4),
            base64_char(data[0] as int % 4 * 16 + data[1] as int / 16),
            base64_char(data[1] as int % 16 * 4),
            '=',
        ]
    } else {
        seq![
            base64_char(data[0] as int / 4),
            base64_char(data[0] as int % 4 * 16 + data[1] as int / 16),
            base64_char(data[1] as int % 16 * 4 + data[2] as int / 64),
            base64_char(data[2] as int % 64),
        ] + base64_text(data.skip(3))
    }
}

/// `sha1::Sha1`: the digest of the bytes, twenty bytes long. How a digest comes about is left
/// unsaid.
#[verifier::external_body]
fn sha1_of(data: &[u8]) -> (digest: Vec<u8>)
    ensures
        digest@ == sha1_digest(data@),
        digest@.len() == 20,
{
    let mut hasher = sha1::Sha1::new();
    hasher.update(data);
    hasher.finalize().to_vec()
}

/// `base64::engine::general_purpose::STANDARD.encode`: the bytes in base64, padded.
#[verifier::external_body]
fn base64_of(data: &[u8]) -> (text: String)
    ensures
        text@ == base64_text(data@),
{
    base64::engine::general_purpose::STANDARD.encode(data)
}

/// What the password digest of a request is made from.
pub open spec fn password(nonce: u32, created: Seq<char>) -> Seq<char> {
    dec(nonce as nat) + created + "DHP2P:"@ + USERNAME@ + ":"@ + USERKEY@
}

/// The password digest of a request.
pub open spec fn password_digest(nonce: u32, created: Seq<char>) -> Seq<char> {
    base64_text(sha1_digest(encode_utf8(password(nonce, created))))
}

/// What is drawn or read off the clock for one request.
pub struct Stamp {
    pub nonce: u32,
    /// When the request is made.
    pub created: String,
    /// The two halves of the request's number.
    pub id_high: u64,
    pub id_low: u64,
}

/// A stamp, as contracts speak of it.
pub struct Stamped {
    pub nonce: u32,
    pub created: Seq<char>,
    pub id_high: u64,
    pub id_low: u64,
}

impl View for Stamp {
    type V = Stamped;

    open spec fn view(&self) -> Stamped {
        Stamped {
            nonce: self.nonce,
            created: self.created@,
            id_high: self.id_high,
            id_low: self.id_low,
        }
    }
}

/// The number of a request: 32 hexadecimal digits.
pub open spec fn request_id(high: u64, low: u64) -> Seq<char> {
    hex_fixed(high as nat, 16) + hex_fixed(low as nat, 16)
}

/// What a request looks like.
pub open spec fn request_text(
    path: Seq<char>,
    body: Option<Seq<char>>,
    stamp: Stamped,
    cseq: u32,
) -> Seq<char> {
    let content = match body {
        Some(b) => b,
        None => Seq::empty(),
    };
    (if body is Some {
        "NFPOST"@
    } else {
        "NFGET"@
    }) + " "@ + path + " HTTP/1.1\r\nX-Version: "@ + SDK_VERSION@ + "\r\nX-TSVersion: "@
        + SDK_TS_VERSION@ + "\r\nx-pcs-request-id: "@ + request_id(stamp.id_high, stamp.id_low)
        + "\r\nX-ToUType: "@ + SDK_TOU_TYPE@ + "\r\nCSeq: "@ + dec(cseq as nat)
        + "\r\nAuthorization: WSSE profile=\"UsernameToken\"\r\nX-WSSE: UsernameToken Username=\""@
        + USERNAME@ + "\", PasswordDigest=\""@ + password_digest(stamp.nonce, stamp.created)
        + "\", Nonce=\""@ + dec(stamp.nonce as nat) + "\", Created=\""@ + stamp.created
        + "\"\r\nContent-Type: \r\nContent-Length: "@ + dec(encode_utf8(content).len())
        + "\r\n\r\n"@ + content
}

/// What an optional text holds.
pub open spec fn content_of(body: Option<&str>) -> Option<Seq<char>> {
    match body {
        Some(b) => Some(b@),
        None => None,
    }
}

fn digest_of(nonce: u32, created: &str) -> (text: String)
    ensures
        text@ == password_digest(nonce, created@),
{
    let mut pwd = String::new();
    push_dec(&mut pwd, nonce as u64);
    pwd.append(created);
    pwd.append("DHP2P:");
    pwd.append(USERNAME);
    pwd.append(":");
    pwd.append(USERKEY);
    assert(pwd@ =~= password(nonce, created@));
    let digest = sha1_of(pwd.as_str().as_bytes());
    base64_of(digest.as_slice())
}

/// Writes the request with this number in the sequence.
pub fn build_request(path: &str, body: Option<&str>, stamp: &Stamp, cseq: u32) -> (req: String)
    ensures
        req@ == request_text(path@, content_of(body), stamp@, cseq),
{
    let content: &str = match body {
        Some(b) => b,
        None => "",
    };
    proof {
        reveal_strlit("");
        assert(""@ =~= Seq::empty());
    }
    let mut req = String::new();
    req.append(
        if body.is_some() {
            "NFPOST"
        } else {
            "NFGET"
        },
    );
    req.append(" ");
    req.append(path);
    req.append(" HTTP/1.1\r\nX-Version: ");
    req.append(SDK_VERSION);
    req.append("\r\nX-TSVersion: ");
    req.append(SDK_TS_VERSION);
    req.append("\r\nx-pcs-request-id: ");
    req.append(format_request_id(stamp.id_high, stamp.id_low).as_str());
    req.append("\r\nX-ToUType: ");
    req.append(SDK_TOU_TYPE);
    req.append("\r\nCSeq: ");
    push_dec(&mut req, cseq as u64);
    req.append(
        "\r\nAuthorization: WSSE profile=\"UsernameToken\"\r\nX-WSSE: UsernameToken Username=\"",
    );
    req.append(USERNAME);
    req.append("\", PasswordDigest=\"");
    req.append(digest_of(stamp.nonce, stamp.created.as_str()).as_str());
    req.append("\", Nonce=\"");
    push_dec(&mut req, stamp.nonce as u64);
    req.append("\", Created=\"");
    req.append(stamp.created.as_str());
    req.append("\"\r\nContent-Type: \r\nContent-Length: ");
    push_dec(&mut req, content.as_bytes().len() as u64);
    req.append("\r\n\r\n");
    req.append(content);
    req
}

impl Stamp {
    /// A stamp for a request that is made now: it says when, and its numbers are drawn.
    pub fn now() -> (s: Stamp)
        ensures
            is_utc_text(s.created@),
    {
        Stamp {
            nonce: random_u32(),
            created: utc_text(),
            id_high: random_u64(),
            id_low: random_u64(),
        }
    }
}

/// Writes the next request in the sequence, stamped now.
pub fn dh_request(path: &str, body: Option<&str>, seq: &mut u32) -> (req: String)
    requires
        *old(seq) < u32::MAX,
    ensures
        *final(seq) == *old(seq) + 1,
        exists|stamp: Stamped|
            is_utc_text(stamp.created) && req@ == #[trigger] request_text(
                path@,
                content_of(body),
                stamp,
                *final(seq),
            ),
{
    let stamp = Stamp::now();
    *seq = *seq + 1;
    build_request(path, body, &stamp, *seq)
}

/// The number of a request: 32 hexadecimal digits.
pub fn format_request_id(high: u64, low: u64) -> (s: String)
    ensures
        s@ == request_id(high, low),
{
    let mut s = String::new();
    push_hex_fixed(&mut s, high, 16);
    push_hex_fixed(&mut s, low, 16);
    s
}

/// A new number for a request.
pub fn pcs_request_id() -> (s: String)
    ensures
        exists|high: u64, low: u64| s@ == #[trigger] request_id(high, low),
{
    let high: u64 = random_u64();
    let low: u64 = random_u64();
    format_request_id(high, low)
}

/// A client identifier: its bytes in hexadecimal without leading zeros, with blanks between them.
pub open spec fn client_id_text(cid: Seq<u8>) -> Seq<char> {
    join(cid.map_values(|b: u8| hex(b as nat)), " "@)
}

/// A client identifier, as the servers read it.
pub fn format_client_id(cid: &[u8; 8]) -> (s: String)
    ensures
        s@ == client_id_text(cid@),
{
    let ghost parts = cid@.map_values(|b: u8| hex(b as nat));
    let mut s = String::new();
    let mut i: usize = 0;
    assert(parts.take(0) =~= Seq::empty());
    while i < 8
        invariant
            i <= 8,
            cid@.len() == 8,
            parts == cid@.map_values(|b: u8| hex(b as nat)),
            s@ == join(parts.take(i as int), " "@),
        decreases 8 - i,
    {
        if i > 0 {
            s.append(" ");
        }
        push_hex(&mut s, cid[i] as u64);
        proof {
            assert(parts[i as int] == hex(cid@[i as int] as nat));
            assert(parts.take(i + 1).drop_last() =~= parts.take(i as int));
            assert(parts.take(i + 1).last() == parts[i as int]);
        }
        i = i + 1;
    }
    assert(parts.take(8) =~= parts);
    s
}

/// A number in decimal, with a minus sign where it is negative.
pub open spec fn signed_dec(n: int) -> Seq<char> {
    if n < 0 {
        "-"@ + dec((-n) as nat)
    } else {
        dec(n as nat)
    }
}

/// A number in decimal, with a minus sign where it is negative.
pub fn format_signed(n: i64) -> (s: String)
    ensures
        s@ == signed_dec(n as int),
{
    let mut s = String::new();
    if n < 0 {
        s.append("-");
        push_dec(&mut s, (-(n + 1)) as u64 + 1);
    } else {
        push_dec(&mut s, n as u64);
    }
    s
}

/// A number in decimal.
pub fn format_number(n: u32) -> (s: String)
    ensures
        s@ == dec(n as nat),
{
    let mut s = String::new();
    push_dec(&mut s, n as u64);
    s
}

/// A nonce for a relay channel request.
pub fn relay_channel_nonce() -> (s: String)
    ensures
        exists|n: u32| s@ == #[trigger] dec(n as nat),
{
    let n: u32 = random_u32();
    format_number(n)
}

/// The date of a relay channel request: seconds since 1970.
pub fn relay_channel_create_date() -> (s: String)
    ensures
        exists|n: i64| s@ == #[trigger] signed_dec(n as int),
{
    let n: i64 = utc_seconds();
    format_signed(n)
}

/// The text `before`, then `middle`, then `behind`.
fn surround(before: &str, middle: &str, behind: &str) -> (s: String)
    ensures
        s@ == before@ + middle@ + behind@,
{
    let mut s = String::new();
    s.append(before);
    s.append(middle);
    s.append(behind);
    s
}

/// The text `before`, then `behind`.
pub(crate) fn followed(before: &str, behind: &str) -> (s: String)
    ensures
        s@ == before@ + behind@,
{
    let mut s = String::new();
    s.append(before);
    s.append(behind);
    s
}

/// Where the server of a camera is asked for.
pub fn online_path(serial: &str) -> (s: String)
    ensures
        s@ == "/online/p2psrv/"@ + serial@,
{
    followed("/online/p2psrv/", serial)
}

/// Where a camera is probed.
pub fn probe_path(serial: &str) -> (s: String)
    ensures
        s@ == "/probe/device/"@ + serial@,
{
    followed("/probe/device/", serial)
}

/// Where a channel to a camera is asked for.
pub fn p2p_channel_path(serial: &str) -> (s: String)
    ensures
        s@ == "/device/"@ + serial@ + "/p2p-channel"@,
{
    surround("/device/", serial, "/p2p-channel")
}

/// Where a relay session is started.
pub fn relay_start_path(token: &str) -> (s: String)
    ensures
        s@ == "/relay/start/"@ + token@,
{
    followed("/relay/start/", token)
}

/// Where a relayed channel to a camera is asked for.
pub fn relay_channel_path(serial: &str) -> (s: String)
    ensures
        s@ == "/device/"@ + serial@ + "/relay-channel"@,
{
    surround("/device/", serial, "/relay-channel")
}

/// Where a relay session is given back.
pub fn relay_unbind_path(token: &str) -> (s: String)
    ensures
        s@ == "/relay/unbind/"@ + token@,
{
    followed("/relay/unbind/", token)
}

/// The fields of a request for a channel to a camera.
pub open spec fn p2p_channel_fields(cid: Seq<u8>, port: u16, local: Seq<char>) -> Seq<Field> {
    seq![
        ("Identify"@, client_id_text(cid)),
        ("IpEncrpt"@, "true"@),
        ("LocalAddr"@, "127.0.0.1:"@ + dec(port as nat)),
        ("PubAddr"@, local),
        ("version"@, "5.0.0"@),
    ]
}

/// The body of a request for a channel to a camera, from a socket with this address.
pub fn p2p_channel_body(cid: &[u8; 8], port: u16, local: &str) -> (s: String)
    ensures
        s@ == body_xml(p2p_channel_fields(cid@, port, local@)),
{
    let mut loopback = copy("127.0.0.1:");
    push_dec(&mut loopback, port as u64);
    let fields: [(&str, String); 5] = [
        ("Identify", format_client_id(cid)),
        ("IpEncrpt", copy("true")),
        ("LocalAddr", loopback),
        ("PubAddr", copy(local)),
        ("version", copy("5.0.0")),
    ];
    assert(fields_of(fields@) =~= p2p_channel_fields(cid@, port, local@));
    xml_body(fields.as_slice())
}

/// The body of a request for a relay agent.
pub fn relay_agent_body(serial: &str) -> (s: String)
    ensures
        s@ == body_xml(seq![("Dev"@, serial@)]),
{
    let fields: [(&str, String); 1] = [("Dev", copy(serial))];
    assert(fields_of(fields@) =~= seq![("Dev"@, serial@)]);
    xml_body(fields.as_slice())
}

/// The body of a request to start a relay session, from a socket with this address.
pub fn relay_start_body(client: &str, serial: &str) -> (s: String)
    ensures
        s@ == body_xml(seq![("Client"@, client@), ("Dev"@, serial@)]),
{
    let fields: [(&str, String); 2] = [("Client", copy(client)), ("Dev", copy(serial))];
    assert(fields_of(fields@) =~= seq![("Client"@, client@), ("Dev"@, serial@)]);
    xml_body(fields.as_slice())
}

/// The fields of a request for a relayed channel.
pub open spec fn relay_channel_fields(
    date: Seq<char>,
    nonce: Seq<char>,
    agent: Seq<char>,
) -> Seq<Field> {
    seq![
        ("CreateDate"@, date),
        ("Nonce"@, nonce),
        ("agentAddr"@, agent),
        ("TransType"@, SDK_TRANS_TYPE@),
    ]
}

/// The body of a request for a relayed channel through this agent.
pub fn relay_channel_body(date: &str, nonce: &str, agent: &str) -> (s: String)
    ensures
        s@ == body_xml(relay_channel_fields(date@, nonce@, agent@)),
{
    let fields: [(&str, String); 4] = [
        ("CreateDate", copy(date)),
        ("Nonce", copy(nonce)),
        ("agentAddr", copy(agent)),
        ("TransType", copy(SDK_TRANS_TYPE)),
    ];
    assert(fields_of(fields@) =~= relay_channel_fields(date@, nonce@, agent@));
    xml_body(fields.as_slice())
}

} // verus!
