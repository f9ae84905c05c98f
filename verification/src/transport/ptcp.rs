//! PTCP: the packets that carry the tunnelled connections over UDP, and the session that numbers
//! them.
use vstd::prelude::*;
use vstd::slice::slice_subrange;
use vstd::string::StringExecFns;
use vstd::utf8::{decode_utf8, encode_utf8, valid_utf8};

use crate::bytes::{
    be32, hex_dump, push_bytes, push_hex_dump, push_u32, push_zeros, read_u32, u32_at,
};
use crate::error::{invalid, invalid_data, Error, ErrorKind, Failure};
use crate::text::{
    copy, dec, from_chars, hex_fixed, lemma_trim_end_keeps, push_dec, push_hex_fixed, starts_with,
    to_chars, trim, trim_start, trimmed,
};

verus! {

/// What the tunnel's tasks tell the one that writes to the device.
pub enum PTCPEvent {
    Heartbeat,
    Connect(u32),
    Disconnect(u32),
    Data(u32, Vec<u8>),
}

/// The bytes of one realm, that is of one tunnelled connection.
pub struct PTCPPayload {
    pub realm: u32,
    pub data: Vec<u8>,
}

/// What a packet carries.
pub enum PTCPBody {
    Sync,
    Command(Vec<u8>),
    Payload(PTCPPayload),
    Bind(u32, u32),
    Status(u32, String),
    Heartbeat,
    Empty,
}

/// A packet: how many bytes its sender has sent before it and received so far, its number, the
/// message numbers of both sides, and what it carries.
pub struct PTCPPacket {
    pub sent: u32,
    pub recv: u32,
    pub pid: u32,
    pub lmid: u32,
    pub rmid: u32,
    pub body: PTCPBody,
}

/// A body, as contracts speak of it.
pub enum Body {
    Sync,
    Command(Seq<u8>),
    Payload(u32, Seq<u8>),
    Bind(u32, u32),
    Status(u32, Seq<char>),
    Heartbeat,
    Empty,
}

/// A packet, as contracts speak of it.
pub struct Packet {
    pub sent: u32,
    pub recv: u32,
    pub pid: u32,
    pub lmid: u32,
    pub rmid: u32,
    pub body: Body,
}

/// An event, as contracts speak of it.
pub enum Event {
    Heartbeat,
    Connect(u32),
    Disconnect(u32),
    Data(u32, Seq<u8>),
}

impl View for PTCPEvent {
    type V = Event;

    open spec fn view(&self) -> Event {
        match *self {
            PTCPEvent::Heartbeat => Event::Heartbeat,
            PTCPEvent::Connect(realm) => Event::Connect(realm),
            PTCPEvent::Disconnect(realm) => Event::Disconnect(realm),
            PTCPEvent::Data(realm, data) => Event::Data(realm, data@),
        }
    }
}

impl View for PTCPPayload {
    type V = (u32, Seq<u8>);

    open spec fn view(&self) -> (u32, Seq<u8>) {
        (self.realm, self.data@)
    }
}

impl View for PTCPBody {
    type V = Body;

    open spec fn view(&self) -> Body {
        match *self {
            PTCPBody::Sync => Body::Sync,
            PTCPBody::Command(data) => Body::Command(data@),
            PTCPBody::Payload(p) => Body::Payload(p.realm, p.data@),
            PTCPBody::Bind(realm, port) => Body::Bind(realm, port),
            PTCPBody::Status(realm, status) => Body::Status(realm, status@),
            PTCPBody::Heartbeat => Body::Heartbeat,
            PTCPBody::Empty => Body::Empty,
        }
    }
}

impl View for PTCPPacket {
    type V = Packet;

    open spec fn view(&self) -> Packet {
        Packet {
            sent: self.sent,
            recv: self.recv,
            pid: self.pid,
            lmid: self.lmid,
            rmid: self.rmid,
            body: self.body@,
        }
    }
}

/// `n` zero bytes.
pub open spec fn zeros(n: nat) -> Seq<u8> {
    Seq::new(n, |i: int| 0u8)
}

/// What a payload looks like on the wire: a tag with the length, the realm, padding, the bytes.
pub open spec fn payload_wire(realm: u32, data: Seq<u8>) -> Seq<u8> {
    be32(0x1000_0000u32 | (data.len() % 0x1_0000_0000) as u32) + be32(realm) + zeros(4) + data
}

/// What a body looks like on the wire.
pub open spec fn body_wire(b: Body) -> Seq<u8> {
    match b {
        Body::Sync => seq![0x00, 0x03, 0x01, 0x00],
        Body::Command(data) => data,
        Body::Payload(realm, data) => payload_wire(realm, data),
        Body::Bind(realm, port) => seq![0x11u8, 0, 0, 0] + be32(realm) + zeros(4) + be32(port)
            + seq![0x7fu8, 0, 0, 1],
        Body::Status(realm, status) => seq![0x12u8, 0, 0, 0] + be32(realm) + zeros(4)
            + encode_utf8(status),
        Body::Heartbeat => seq![0x13u8] + zeros(11),
        Body::Empty => Seq::empty(),
    }
}

/// The first four bytes of every packet: `PTCP`.
pub open spec fn magic() -> Seq<u8> {
    seq![0x50u8, 0x54, 0x43, 0x50]
}

/// What a packet looks like on the wire.
pub open spec fn packet_wire(p: Packet) -> Seq<u8> {
    magic() + be32(p.sent) + be32(p.recv) + be32(p.pid) + be32(p.lmid) + be32(p.rmid) + body_wire(
        p.body,
    )
}

/// How long a body is on the wire.
pub open spec fn body_len(b: Body) -> nat {
    match b {
        Body::Sync => 4,
        Body::Command(data) => data.len(),
        Body::Payload(_, data) => data.len() + 12,
        Body::Bind(_, _) => 20,
        Body::Status(_, status) => encode_utf8(status).len() + 12,
        Body::Heartbeat => 12,
        Body::Empty => 0,
    }
}

/// What `String::from_utf8_lossy` makes of bytes that are not UTF-8.
pub uninterp spec fn utf8_lossy(bytes: Seq<u8>) -> Seq<char>;

/// What some bytes mean as text: what they encode, where they are UTF-8.
pub open spec fn text_of(bytes: Seq<u8>) -> Seq<char> {
    if valid_utf8(bytes) {
        decode_utf8(bytes)
    } else {
        utf8_lossy(bytes)
    }
}

/// The payload that `d` is, or what is wrong with it.
pub open spec fn payload_of(d: Seq<u8>) -> Result<(u32, Seq<u8>), Seq<char>> {
    if d.len() < 12 {
        Err("invalid payload: expected at least 12 bytes, got "@ + dec(d.len()))
    } else if d[0] != 0x10 {
        Err("invalid payload header: expected 0x10, got 0x"@ + hex_fixed(d[0] as nat, 2))
    } else if u32_at(d, 8) != 0 {
        Err("invalid payload padding: expected 0, got "@ + dec(u32_at(d, 8) as nat))
    } else if d[2] * 0x100 + d[3] != (d.len() - 12) % 0x1_0000_0000 {
        Err(
            "invalid payload length: header says "@ + dec((d[2] * 0x100 + d[3]) as nat)
                + ", body is "@ + dec((d.len() - 12) as nat),
        )
    } else {
        Ok((u32_at(d, 4), d.skip(12)))
    }
}

/// The bytes up to the first zero.
pub open spec fn until_zero(d: Seq<u8>) -> Seq<u8>
    decreases d.len(),
{
    if d.len() == 0 || d[0] == 0 {
        Seq::empty()
    } else {
        seq![d[0]] + until_zero(d.skip(1))
    }
}

/// The statuses that the device sends and that are acted on begin like this.
pub open spec fn is_status_text(raw: Seq<u8>) -> bool {
    raw.len() >= 4 && (raw.take(4) == seq![0x43u8, 0x4f, 0x4e, 0x4e] || raw.take(4) == seq![
        0x44u8,
        0x49,
        0x53,
        0x43,
    ])
}

/// The status that `d` is: a fixed header with the realm, then `CONN...` or `DISC...` up to a
/// zero or the end.
pub open spec fn status_of(d: Seq<u8>) -> Option<(u32, Seq<char>)> {
    if d.len() < 13 || d.subrange(1, 4) != zeros(3) || d.subrange(8, 12) != zeros(4)
        || !is_status_text(until_zero(d.skip(12))) {
        None
    } else {
        Some((u32_at(d, 4), trim(text_of(until_zero(d.skip(12))))))
    }
}

/// The body that `d` is, or what is wrong with it.
pub open spec fn body_of(d: Seq<u8>) -> Result<Body, Seq<char>> {
    if d.len() == 0 {
        Ok(Body::Empty)
    } else if d.len() < 4 {
        Err("invalid body: expected at least 4 bytes, got "@ + dec(d.len()))
    } else if d[0] == 0x00 {
        Ok(Body::Sync)
    } else if d[0] == 0x10 {
        match payload_of(d) {
            Ok(p) => Ok(Body::Payload(p.0, p.1)),
            Err(e) => Err(e),
        }
    } else if d[0] == 0x11 {
        if d.len() < 16 {
            Err("invalid bind body: expected at least 16 bytes, got "@ + dec(d.len()))
        } else {
            Ok(Body::Bind(u32_at(d, 4), u32_at(d, 12)))
        }
    } else if d[0] == 0x12 {
        if d.len() < 12 {
            Err("invalid status body: expected at least 12 bytes, got "@ + dec(d.len()))
        } else {
            match status_of(d) {
                Some(s) => Ok(Body::Status(s.0, s.1)),
                None => Ok(Body::Command(d)),
            }
        }
    } else if d[0] == 0x13 {
        Ok(Body::Heartbeat)
    } else {
        Ok(Body::Command(d))
    }
}

/// The packet that `d` is, or what is wrong with it.
pub open spec fn packet_of(d: Seq<u8>) -> Result<Packet, Seq<char>> {
    if d.len() < 24 {
        Err("invalid packet: expected at least 24 bytes, got "@ + dec(d.len()))
    } else if d.take(4) != magic() {
        Err(
            "invalid packet magic: expected PTCP, got ["@ + hex_dump(d.take(4), ", "@) + "]"@,
        )
    } else {
        match body_of(d.skip(24)) {
            Ok(body) => Ok(
                Packet {
                    sent: u32_at(d, 4),
                    recv: u32_at(d, 8),
                    pid: u32_at(d, 12),
                    lmid: u32_at(d, 16),
                    rmid: u32_at(d, 20),
                    body,
                },
            ),
            Err(e) => Err(e),
        }
    }
}

/// The packet in a datagram from the network, or what is wrong with it.
pub open spec fn datagram_of(d: Seq<u8>) -> Result<Packet, Seq<char>> {
    if d.len() < 24 {
        Err("undersized packet ("@ + dec(d.len()) + " bytes)"@)
    } else if d.take(4) != magic() {
        Err("invalid magic in packet"@)
    } else {
        packet_of(d)
    }
}

/// How long a read waits for a packet, in seconds.
pub const RECV_TIMEOUT_SECS: u64 = 30;

/// The failure of a read for which nothing came.
pub open spec fn recv_timeout() -> Failure {
    Failure { kind: ErrorKind::TimedOut, message: "UDP recv timeout after 30s"@ }
}

/// A failure to read a PTCP packet.
#[derive(Clone, Debug)]
pub enum PTCPReadError {
    /// The socket failed.
    Io(Error),
    /// What came is no packet.
    Malformed(String),
}

impl PTCPReadError {
    /// Whether the connection is dead, so that a restart is due. Running into the receive timeout
    /// is not fatal, nor is a refused connection, which may be the echo of an earlier send; nor is
    /// a malformed packet.
    pub fn is_fatal(&self) -> (r: bool)
        ensures
            r == match *self {
                PTCPReadError::Io(e) => e.kind == ErrorKind::ConnectionReset || e.kind
                    == ErrorKind::NotConnected,
                PTCPReadError::Malformed(_) => false,
            },
    {
        match self {
            PTCPReadError::Io(e) => e.kind == ErrorKind::ConnectionReset || e.kind
                == ErrorKind::NotConnected,
            PTCPReadError::Malformed(_) => false,
        }
    }

    /// What is said of the failure.
    pub fn describe(&self) -> (s: String)
        ensures
            s@ == match *self {
                PTCPReadError::Io(e) => "IO error: "@ + e.message@,
                PTCPReadError::Malformed(m) => "Malformed packet: "@ + m@,
            },
    {
        let mut s = String::new();
        match self {
            PTCPReadError::Io(e) => {
                s.append("IO error: ");
                s.append(e.message.as_str());
            },
            PTCPReadError::Malformed(m) => {
                s.append("Malformed packet: ");
                s.append(m.as_str());
            },
        }
        s
    }

    /// The failure of a read for which nothing came. It is not fatal: the camera may have nothing
    /// to send.
    pub fn timed_out() -> (e: PTCPReadError)
        ensures
            e matches PTCPReadError::Io(f) && f@ == recv_timeout(),
    {
        PTCPReadError::Io(
            Error { kind: ErrorKind::TimedOut, message: copy("UDP recv timeout after 30s") },
        )
    }

    /// The failure as one of the socket's: a malformed packet is invalid data.
    pub fn into_error(self) -> (e: Error)
        ensures
            e@ == match self {
                PTCPReadError::Io(e) => e@,
                PTCPReadError::Malformed(m) => invalid(m@),
            },
    {
        match self {
            PTCPReadError::Io(e) => e,
            PTCPReadError::Malformed(m) => invalid_data(m),
        }
    }
}

/// `r` reports the failure `message` as a malformed packet.
pub open spec fn says_malformed(r: PTCPReadError, message: Seq<char>) -> bool {
    r matches PTCPReadError::Malformed(m) && m@ == message
}

/// How many ASCII characters the bytes begin with.
pub open spec fn ascii_len(bytes: Seq<u8>) -> nat
    decreases bytes.len(),
{
    if bytes.len() == 0 || bytes[0] >= 0x80 {
        0
    } else {
        1 + ascii_len(bytes.skip(1))
    }
}

/// `String::from_utf8_lossy`: the text that the bytes mean. Where they are UTF-8 it is the text
/// they encode. Where they are not, the ASCII characters that they begin with still stand at its
/// beginning; what stands for the rest is left unsaid.
#[verifier::external_body]
pub(crate) fn decode_lossy(bytes: &[u8]) -> (s: String)
    ensures
        valid_utf8(bytes@) ==> s@ == decode_utf8(bytes@),
        !valid_utf8(bytes@) ==> s@ == utf8_lossy(bytes@),
        s@.len() >= ascii_len(bytes@),
        forall|i: int| 0 <= i < ascii_len(bytes@) ==> #[trigger] s@[i] == bytes@[i] as char,
{
    String::from_utf8_lossy(bytes).into_owned()
}

proof fn lemma_ascii_len(bytes: Seq<u8>, n: int)
    requires
        0 <= n <= bytes.len(),
        forall|i: int| 0 <= i < n ==> #[trigger] bytes[i] < 0x80,
    ensures
        ascii_len(bytes) >= n,
    decreases n,
{
    if n > 0 {
        assert(bytes[0] < 0x80);
        assert forall|i: int| 0 <= i < n - 1 implies #[trigger] bytes.skip(1)[i] < 0x80 by {
            assert(bytes.skip(1)[i] == bytes[i + 1]);
        }
        lemma_ascii_len(bytes.skip(1), n - 1);
    }
}

fn copy_bytes(d: &[u8]) -> (v: Vec<u8>)
    ensures
        v@ == d@,
{
    let mut v: Vec<u8> = Vec::new();
    push_bytes(&mut v, d);
    assert(v@ =~= d@);
    v
}

fn got(what: &str, n: usize) -> (e: PTCPReadError)
    ensures
        says_malformed(e, what@ + dec(n as nat)),
{
    let mut m = String::new();
    m.append(what);
    push_dec(&mut m, n as u64);
    PTCPReadError::Malformed(m)
}

impl PTCPPayload {
    /// Reads a payload.
    pub fn parse(data: &[u8]) -> (r: Result<PTCPPayload, PTCPReadError>)
        ensures
            match r {
                Ok(p) => payload_of(data@) == Ok::<(u32, Seq<u8>), Seq<char>>(p@),
                Err(e) => payload_of(data@) is Err && says_malformed(e, payload_of(data@)->Err_0),
            },
    {
        if data.len() < 12 {
            return Err(got("invalid payload: expected at least 12 bytes, got ", data.len()));
        }
        if data[0] != 0x10 {
            let mut m = String::new();
            m.append("invalid payload header: expected 0x10, got 0x");
            push_hex_fixed(&mut m, data[0] as u64, 2);
            return Err(PTCPReadError::Malformed(m));
        }
        let length: u32 = data[2] as u32 * 0x100 + data[3] as u32;
        let realm: u32 = read_u32(data, 4);
        let padding: u32 = read_u32(data, 8);
        let rest = slice_subrange(data, 12, data.len());
        assert(rest@ =~= data@.skip(12));
        if padding != 0 {
            let mut m = String::new();
            m.append("invalid payload padding: expected 0, got ");
            push_dec(&mut m, padding as u64);
            return Err(PTCPReadError::Malformed(m));
        }
        let rest_len: u64 = rest.len() as u64;
        if length as u64 != rest_len % 0x1_0000_0000 {
            let mut m = String::new();
            m.append("invalid payload length: header says ");
            push_dec(&mut m, length as u64);
            m.append(", body is ");
            push_dec(&mut m, rest_len);
            return Err(PTCPReadError::Malformed(m));
        }
        Ok(PTCPPayload { realm, data: copy_bytes(rest) })
    }

    /// Writes a payload.
    pub fn serialize(&self) -> (v: Vec<u8>)
        ensures
            v@ == payload_wire(self.realm, self.data@),
    {
        let length: u32 = (self.data.len() as u64 % 0x1_0000_0000) as u32;
        let mut v: Vec<u8> = Vec::new();
        push_u32(&mut v, 0x1000_0000u32 | length);
        push_u32(&mut v, self.realm);
        push_zeros(&mut v, 4);
        push_bytes(&mut v, self.data.as_slice());
        assert(v@ =~= payload_wire(self.realm, self.data@));
        v
    }
}

/// The bytes up to the first zero.
fn before_zero(d: &[u8]) -> (r: &[u8])
    ensures
        r@ == until_zero(d@),
{
    let mut i: usize = 0;
    assert(d@.skip(0) =~= d@);
    assert(d@.take(0) + until_zero(d@) =~= until_zero(d@));
    while i < d.len() && d[i] != 0
        invariant
            i <= d.len(),
            until_zero(d@) == d@.take(i as int) + until_zero(d@.skip(i as int)),
        decreases d.len() - i,
    {
        assert(d@.skip(i as int).skip(1) =~= d@.skip(i + 1));
        assert(d@.take(i as int) + (seq![d@[i as int]] + until_zero(d@.skip(i + 1))) =~= d@.take(
            i + 1,
        ) + until_zero(d@.skip(i + 1)));
        i = i + 1;
    }
    assert(d@.subrange(0, i as int) =~= d@.take(i as int) + until_zero(d@.skip(i as int)));
    slice_subrange(d, 0, i)
}

/// Whether the bytes of `d` from `i` to `j` are all zero.
fn zero_between(d: &[u8], i: usize, j: usize) -> (r: bool)
    requires
        i <= j <= d@.len(),
    ensures
        r == (d@.subrange(i as int, j as int) == zeros((j - i) as nat)),
{
    let mut k: usize = i;
    while k < j
        invariant
            i <= k <= j <= d@.len(),
            forall|n: int| i <= n < k ==> d@[n] == 0,
        decreases j - k,
    {
        if d[k] != 0 {
            assert(d@.subrange(i as int, j as int)[k - i] != zeros((j - i) as nat)[k - i]);
            return false;
        }
        k = k + 1;
    }
    assert(d@.subrange(i as int, j as int) =~= zeros((j - i) as nat));
    true
}

fn is_status_bytes(raw: &[u8]) -> (r: bool)
    ensures
        r == is_status_text(raw@),
{
    if raw.len() < 4 {
        return false;
    }
    let conn = raw[0] == 0x43 && raw[1] == 0x4f && raw[2] == 0x4e && raw[3] == 0x4e;
    let disc = raw[0] == 0x44 && raw[1] == 0x49 && raw[2] == 0x53 && raw[3] == 0x43;
    proof {
        let t = raw@.take(4);
        if conn {
            assert(t =~= seq![0x43u8, 0x4f, 0x4e, 0x4e]);
        }
        if disc {
            assert(t =~= seq![0x44u8, 0x49, 0x53, 0x43]);
        }
        assert(t[0] == raw@[0] && t[1] == raw@[1] && t[2] == raw@[2] && t[3] == raw@[3]);
    }
    conn || disc
}

impl PTCPBody {
    /// Reads a status: a fixed header with the realm, then `CONN...` or `DISC...`. Anything else
    /// with that tag is left to be taken as a command.
    pub fn parse_status_body(data: &[u8]) -> (r: Option<(u32, String)>)
        ensures
            match r {
                Some(s) => status_of(data@) == Some((s.0, s.1@)) && (starts_with(s.1@, "CONN"@)
                    || starts_with(s.1@, "DISC"@)),
                None => status_of(data@) is None,
            },
    {
        if data.len() < 13 || !zero_between(data, 1, 4) || !zero_between(data, 8, 12) {
            return None;
        }
        let realm: u32 = read_u32(data, 4);
        let rest = slice_subrange(data, 12, data.len());
        assert(rest@ =~= data@.skip(12));
        let raw = before_zero(rest);
        if !is_status_bytes(raw) {
            return None;
        }
        let text = to_chars(decode_lossy(raw).as_str());
        let status = trimmed(text.as_slice());
        proof {
            reveal_strlit("CONN");
            reveal_strlit("DISC");
            let begin = raw@.take(4);
            assert(begin[0] == raw@[0] && begin[1] == raw@[1] && begin[2] == raw@[2] && begin[3]
                == raw@[3]);
            lemma_ascii_len(raw@, 4);
            assert(text@[0] == raw@[0] as char);
            assert(text@[1] == raw@[1] as char);
            assert(text@[2] == raw@[2] as char);
            assert(text@[3] == raw@[3] as char);
            lemma_trim_end_keeps(text@, 4);
            assert(trim_start(text@) == text@);
            if begin == seq![0x43u8, 0x4f, 0x4e, 0x4e] {
                assert(text@[0] == 'C' && text@[1] == 'O' && text@[2] == 'N' && text@[3] == 'N');
                assert(text@.take(4) =~= "CONN"@);
            } else {
                assert(begin == seq![0x44u8, 0x49, 0x53, 0x43]);
                assert(text@[0] == 'D' && text@[1] == 'I' && text@[2] == 'S' && text@[3] == 'C');
                assert(text@.take(4) =~= "DISC"@);
            }
        }
        Some((realm, from_chars(status)))
    }

    /// Reads a body.
    pub fn parse(data: &[u8]) -> (r: Result<PTCPBody, PTCPReadError>)
        ensures
            match r {
                Ok(b) => body_of(data@) == Ok::<Body, Seq<char>>(b@),
                Err(e) => body_of(data@) is Err && says_malformed(e, body_of(data@)->Err_0),
            },
    {
        if data.len() == 0 {
            return Ok(PTCPBody::Empty);
        }
        if data.len() < 4 {
            return Err(got("invalid body: expected at least 4 bytes, got ", data.len()));
        }
        match data[0] {
            0x00 => Ok(PTCPBody::Sync),
            0x10 => match PTCPPayload::parse(data) {
                Ok(p) => Ok(PTCPBody::Payload(p)),
                Err(e) => Err(e),
            },
            0x11 => {
                if data.len() < 16 {
                    return Err(
                        got("invalid bind body: expected at least 16 bytes, got ", data.len()),
                    );
                }
                Ok(PTCPBody::Bind(read_u32(data, 4), read_u32(data, 12)))
            },
            0x12 => {
                if data.len() < 12 {
                    return Err(
                        got("invalid status body: expected at least 12 bytes, got ", data.len()),
                    );
                }
                match PTCPBody::parse_status_body(data) {
                    Some(s) => Ok(PTCPBody::Status(s.0, s.1)),
                    None => Ok(PTCPBody::Command(copy_bytes(data))),
                }
            },
            0x13 => Ok(PTCPBody::Heartbeat),
            _ => Ok(PTCPBody::Command(copy_bytes(data))),
        }
    }

    /// Writes a body.
    pub fn serialize(&self) -> (v: Vec<u8>)
        ensures
            v@ == body_wire(self@),
    {
        let mut v: Vec<u8> = Vec::new();
        match self {
            PTCPBody::Sync => {
                v.push(0x00);
                v.push(0x03);
                v.push(0x01);
                v.push(0x00);
            },
            PTCPBody::Command(data) => push_bytes(&mut v, data.as_slice()),
            PTCPBody::Payload(payload) => {
                return payload.serialize();
            },
            PTCPBody::Bind(realm, port) => {
                v.push(0x11);
                push_zeros(&mut v, 3);
                push_u32(&mut v, *realm);
                push_zeros(&mut v, 4);
                push_u32(&mut v, *port);
                v.push(0x7f);
                v.push(0);
                v.push(0);
                v.push(1);
            },
            PTCPBody::Status(realm, status) => {
                v.push(0x12);
                push_zeros(&mut v, 3);
                push_u32(&mut v, *realm);
                push_zeros(&mut v, 4);
                push_bytes(&mut v, status.as_str().as_bytes());
            },
            PTCPBody::Heartbeat => {
                v.push(0x13);
                push_zeros(&mut v, 11);
            },
            PTCPBody::Empty => {},
        }
        assert(v@ =~= body_wire(self@));
        v
    }

    /// How long the body is on the wire.
    pub fn len(&self) -> (n: usize)
        ensures
            body_len(self@) <= usize::MAX ==> n == body_len(self@),
            n as nat % 0x1_0000_0000 == body_len(self@) % 0x1_0000_0000,
    {
        match self {
            PTCPBody::Sync => 4,
            PTCPBody::Command(data) => data.len(),
            PTCPBody::Payload(payload) => payload.data.len().wrapping_add(12),
            PTCPBody::Bind(_, _) => 20,
            PTCPBody::Status(_, status) => status.as_str().as_bytes().len().wrapping_add(12),
            PTCPBody::Heartbeat => 12,
            PTCPBody::Empty => 0,
        }
    }
}

impl PTCPPacket {
    /// Reads a packet.
    pub fn parse(data: &[u8]) -> (r: Result<PTCPPacket, PTCPReadError>)
        ensures
            match r {
                Ok(p) => packet_of(data@) == Ok::<Packet, Seq<char>>(p@),
                Err(e) => packet_of(data@) is Err && says_malformed(e, packet_of(data@)->Err_0),
            },
    {
        if data.len() < 24 {
            return Err(got("invalid packet: expected at least 24 bytes, got ", data.len()));
        }
        let tag = slice_subrange(data, 0, 4);
        assert(tag@ =~= data@.take(4));
        if tag[0] != 0x50 || tag[1] != 0x54 || tag[2] != 0x43 || tag[3] != 0x50 {
            assert(tag@ != magic());
            let mut m = String::new();
            m.append("invalid packet magic: expected PTCP, got [");
            push_hex_dump(&mut m, tag, ", ");
            m.append("]");
            return Err(PTCPReadError::Malformed(m));
        }
        assert(tag@ =~= magic());
        let rest = slice_subrange(data, 24, data.len());
        assert(rest@ =~= data@.skip(24));
        match PTCPBody::parse(rest) {
            Ok(body) => Ok(
                PTCPPacket {
                    sent: read_u32(data, 4),
                    recv: read_u32(data, 8),
                    pid: read_u32(data, 12),
                    lmid: read_u32(data, 16),
                    rmid: read_u32(data, 20),
                    body,
                },
            ),
            Err(e) => Err(e),
        }
    }

    /// Reads the packet in a datagram from the network.
    pub fn from_datagram(data: &[u8]) -> (r: Result<PTCPPacket, PTCPReadError>)
        ensures
            match r {
                Ok(p) => datagram_of(data@) == Ok::<Packet, Seq<char>>(p@),
                Err(e) => datagram_of(data@) is Err && says_malformed(e, datagram_of(data@)->Err_0),
            },
    {
        if data.len() < 24 {
            let mut m = String::new();
            m.append("undersized packet (");
            push_dec(&mut m, data.len() as u64);
            m.append(" bytes)");
            return Err(PTCPReadError::Malformed(m));
        }
        if data[0] != 0x50 || data[1] != 0x54 || data[2] != 0x43 || data[3] != 0x50 {
            proof {
                let t = data@.take(4);
                assert(t[0] == data@[0] && t[1] == data@[1] && t[2] == data@[2] && t[3] == data@[3]);
                assert(t != magic());
            }
            return Err(PTCPReadError::Malformed(copy("invalid magic in packet")));
        }
        assert(data@.take(4) =~= magic());
        PTCPPacket::parse(data)
    }

    /// Writes a packet.
    pub fn serialize(&self) -> (v: Vec<u8>)
        ensures
            v@ == packet_wire(self@),
    {
        let mut v: Vec<u8> = Vec::new();
        v.push(0x50);
        v.push(0x54);
        v.push(0x43);
        v.push(0x50);
        push_u32(&mut v, self.sent);
        push_u32(&mut v, self.recv);
        push_u32(&mut v, self.pid);
        push_u32(&mut v, self.lmid);
        push_u32(&mut v, self.rmid);
        let body = self.body.serialize();
        push_bytes(&mut v, body.as_slice());
        assert(v@ =~= packet_wire(self@));
        v
    }

    /// The data of a payload of more than four bytes that are all ASCII, as text.
    pub fn try_print_data(&self) -> (r: Option<String>)
        ensures
            match self@.body {
                Body::Payload(_, data) => if data.len() > 4 && (forall|i: int|
                    0 <= i < data.len() ==> data[i] < 0x80) {
                    r is Some && r->0@ == Seq::new(data.len(), |i: int| data[i] as char)
                } else {
                    r is None
                },
                _ => r is None,
            },
    {
        match &self.body {
            PTCPBody::Payload(p) => {
                if p.data.len() <= 4 {
                    return None;
                }
                let ghost data = p.data@;
                let mut s = String::new();
                let mut i: usize = 0;
                while i < p.data.len()
                    invariant
                        i <= p.data.len(),
                        data == p.data@,
                        data.len() > 4,
                        self@.body == Body::Payload(p.realm, data),
                        forall|j: int| 0 <= j < i ==> data[j] < 0x80,
                        s@ == Seq::new(i as nat, |j: int| data[j] as char),
                    decreases p.data.len() - i,
                {
                    let b: u8 = p.data[i];
                    if b >= 0x80 {
                        assert(data[i as int] >= 0x80);
                        return None;
                    }
                    s.push(b as char);
                    i = i + 1;
                    assert(s@ =~= Seq::new(i as nat, |j: int| data[j] as char));
                }
                Some(s)
            },
            _ => None,
        }
    }
}

/// Where a PTCP connection stands: bytes sent and received, messages counted, and the message
/// numbers of both sides. All of them wrap.
#[derive(Clone, Copy, Debug)]
pub struct PTCPSession {
    pub sent: u32,
    pub recv: u32,
    pub count: u32,
    pub id: u32,
    pub rmid: u32,
}

/// The packet that carries `body` next.
pub open spec fn next_packet(s: PTCPSession, body: Body) -> Packet {
    Packet {
        sent: s.sent,
        recv: s.recv,
        pid: if body is Sync {
            0x0002_FFFF
        } else {
            (0xFFFF - s.count % 0x1_0000) as u32
        },
        lmid: s.id,
        rmid: s.rmid,
        body,
    }
}

/// Whether a body counts as a message: synchronisation and acknowledgements do not.
pub open spec fn is_counted(body: Body) -> bool {
    !(body is Sync) && !(body is Empty)
}

/// The session after `body` has been sent.
pub open spec fn after_send(s: PTCPSession, body: Body) -> PTCPSession {
    PTCPSession {
        sent: ((s.sent + body_len(body)) % 0x1_0000_0000) as u32,
        id: ((s.id + 1) % 0x1_0000_0000) as u32,
        count: if is_counted(body) {
            ((s.count + 1) % 0x1_0000_0000) as u32
        } else {
            s.count
        },
        ..s
    }
}

/// The session after `p` has come in.
pub open spec fn after_recv(s: PTCPSession, p: Packet) -> PTCPSession {
    PTCPSession {
        recv: ((p.sent + body_len(p.body)) % 0x1_0000_0000) as u32,
        rmid: p.lmid,
        ..s
    }
}

impl PTCPSession {
    /// A session in which nothing has been sent.
    pub fn new() -> (s: PTCPSession)
        ensures
            s == (PTCPSession { sent: 0, recv: 0, count: 0, id: 0, rmid: 0 }),
    {
        PTCPSession { sent: 0, recv: 0, count: 0, id: 0, rmid: 0 }
    }

    /// Makes the packet that carries `body`, and counts it.
    pub fn send(&mut self, body: PTCPBody) -> (p: PTCPPacket)
        ensures
            p@ == next_packet(*old(self), body@),
            *final(self) == after_send(*old(self), body@),
    {
        let sent: u32 = self.sent;
        let recv: u32 = self.recv;
        let count: u32 = self.count;
        assert(count & 0xFFFF == count % 0x1_0000) by (bit_vector);
        let pid: u32 = match body {
            PTCPBody::Sync => 0x0002_FFFF,
            _ => 0xFFFF - (count & 0xFFFF),
        };
        let lmid: u32 = self.id;
        let rmid: u32 = self.rmid;
        let body_size: u32 = (body.len() as u64 % 0x1_0000_0000) as u32;
        self.sent = self.sent.wrapping_add(body_size);
        self.id = self.id.wrapping_add(1);
        self.count = match body {
            PTCPBody::Sync => self.count,
            PTCPBody::Empty => self.count,
            _ => self.count.wrapping_add(1),
        };
        PTCPPacket { sent, recv, pid, lmid, rmid, body }
    }

    /// Takes note of a packet that has come in, and hands it back.
    pub fn recv(&mut self, packet: PTCPPacket) -> (p: PTCPPacket)
        ensures
            p == packet,
            *final(self) == after_recv(*old(self), packet@),
    {
        let body_size: u32 = (packet.body.len() as u64 % 0x1_0000_0000) as u32;
        self.recv = packet.sent.wrapping_add(body_size);
        self.rmid = packet.lmid;
        packet
    }
}

/// A payload for the log: its length, its realm and its first bytes.
pub open spec fn payload_text(realm: u32, data: Seq<u8>) -> Seq<char> {
    "length: "@ + dec(data.len()) + ", realm: 0x"@ + hex_fixed(realm as nat, 8) + ", data: ["@
        + hex_dump(
        if data.len() > 16 {
            data.take(16)
        } else {
            data
        },
        " "@,
    ) + (if data.len() > 16 {
        " ...]"@
    } else {
        "]"@
    })
}

/// A body for the log.
pub open spec fn body_text(b: Body) -> Seq<char> {
    match b {
        Body::Sync => "Sync"@,
        Body::Command(data) => "Command(["@ + hex_dump(data, " "@) + "])"@,
        Body::Payload(realm, data) => payload_text(realm, data),
        Body::Bind(realm, port) => "Bind { realm: 0x"@ + hex_fixed(realm as nat, 8) + ", port: "@
            + dec(port as nat) + " }"@,
        Body::Status(realm, status) => "Status { realm: 0x"@ + hex_fixed(realm as nat, 8)
            + ", status: "@ + status + " }"@,
        Body::Heartbeat => "Heartbeat"@,
        Body::Empty => "Empty"@,
    }
}

/// A packet for the log.
pub open spec fn packet_text(p: Packet) -> Seq<char> {
    "PTCPPacket { sent: "@ + dec(p.sent as nat) + ", recv: "@ + dec(p.recv as nat) + ", pid: 0x"@
        + hex_fixed(p.pid as nat, 8) + ", lmid: 0x"@ + hex_fixed(p.lmid as nat, 8) + ", rmid: 0x"@
        + hex_fixed(p.rmid as nat, 8) + ", body: "@ + body_text(p.body) + " }"@
}

impl PTCPPayload {
    /// The payload for the log.
    pub fn describe(&self) -> (s: String)
        ensures
            s@ == payload_text(self.realm, self.data@),
    {
        let mut s = String::new();
        s.append("length: ");
        push_dec(&mut s, self.data.len() as u64);
        s.append(", realm: 0x");
        push_hex_fixed(&mut s, self.realm as u64, 8);
        s.append(", data: [");
        if self.data.len() > 16 {
            let first = slice_subrange(self.data.as_slice(), 0, 16);
            assert(first@ =~= self.data@.take(16));
            push_hex_dump(&mut s, first, " ");
            s.append(" ...]");
        } else {
            push_hex_dump(&mut s, self.data.as_slice(), " ");
            s.append("]");
        }
        s
    }
}

impl PTCPBody {
    /// The body for the log.
    pub fn describe(&self) -> (s: String)
        ensures
            s@ == body_text(self@),
    {
        let mut s = String::new();
        match self {
            PTCPBody::Sync => s.append("Sync"),
            PTCPBody::Command(data) => {
                s.append("Command([");
                push_hex_dump(&mut s, data.as_slice(), " ");
                s.append("])");
            },
            PTCPBody::Payload(payload) => {
                return payload.describe();
            },
            PTCPBody::Bind(realm, port) => {
                s.append("Bind { realm: 0x");
                push_hex_fixed(&mut s, *realm as u64, 8);
                s.append(", port: ");
                push_dec(&mut s, *port as u64);
                s.append(" }");
            },
            PTCPBody::Status(realm, status) => {
                s.append("Status { realm: 0x");
                push_hex_fixed(&mut s, *realm as u64, 8);
                s.append(", status: ");
                s.append(status.as_str());
                s.append(" }");
            },
            PTCPBody::Heartbeat => s.append("Heartbeat"),
            PTCPBody::Empty => s.append("Empty"),
        }
        assert(s@ =~= body_text(self@));
        s
    }
}

impl PTCPPacket {
    /// The packet for the log.
    pub fn describe(&self) -> (s: String)
        ensures
            s@ == packet_text(self@),
    {
        let mut s = String::new();
        s.append("PTCPPacket { sent: ");
        push_dec(&mut s, self.sent as u64);
        s.append(", recv: ");
        push_dec(&mut s, self.recv as u64);
        s.append(", pid: 0x");
        push_hex_fixed(&mut s, self.pid as u64, 8);
        s.append(", lmid: 0x");
        push_hex_fixed(&mut s, self.lmid as u64, 8);
        s.append(", rmid: 0x");
        push_hex_fixed(&mut s, self.rmid as u64, 8);
        s.append(", body: ");
        s.append(self.body.describe().as_str());
        s.append(" }");
        s
    }
}

} // verus!
