//! Where each byte of a PTCP packet stands.
use vstd::prelude::*;
use vstd::utf8::encode_utf8;

use crate::bytes::{be32, hex_dump, u32_at};
use crate::error::{Error, ErrorKind};
use crate::report_laws::{contains, lemma_contains};
use crate::text::{dec, hex_fixed, trim};
use crate::transport::course_laws::begins;
use crate::transport::ptcp::{
    after_recv, after_send, body_of, body_wire, datagram_of, is_status_text, next_packet, packet_of,
    packet_wire, payload_of, payload_wire, text_of, until_zero, zeros, Body, PTCPBody, PTCPPacket,
    PTCPPayload, PTCPReadError, PTCPSession, Packet,
};
use crate::transport::ptcp_laws::law_wire_length;

verus! {

/// The bytes of `d` from `i` on are those of `n`, the most significant first.
pub open spec fn word_at(d: Seq<u8>, i: int, n: int) -> bool {
    &&& 0 <= i
    &&& i + 4 <= d.len()
    &&& n == d[i] * 16777216 + d[i + 1] * 65536 + d[i + 2] * 256 + d[i + 3]
}

/// The bytes of `d` from `i` up to `j` are zero.
pub open spec fn zero_between(d: Seq<u8>, i: int, j: int) -> bool {
    j <= d.len() && forall|k: int| i <= k < j ==> #[trigger] d[k] == 0
}

/// The bytes of `d` from `i` on begin with `part`.
pub open spec fn stands_at(d: Seq<u8>, i: int, part: Seq<u8>) -> bool {
    i + part.len() <= d.len() && forall|k: int| 0 <= k < part.len() ==> #[trigger] part[k] == d[i + k]
}

/// The four bytes of `d` from `i` on spell a word.
pub open spec fn spells(d: Seq<u8>, i: int, a: char, b: char, c: char, e: char) -> bool {
    &&& i + 4 <= d.len()
    &&& d[i] as char == a
    &&& d[i + 1] as char == b
    &&& d[i + 2] as char == c
    &&& d[i + 3] as char == e
}

/// A number is written with its most significant byte first, and four bytes are read so.
pub proof fn law_numbers_are_big_endian(n: u32, d: Seq<u8>, i: int)
    ensures
        be32(n).len() == 4,
        word_at(be32(n), 0, n as int),
        0 <= i && i + 4 <= d.len() ==> word_at(d, i, u32_at(d, i) as int),
{
}

proof fn lemma_word(d: Seq<u8>, i: int, n: u32)
    requires
        0 <= i,
        i + 4 <= d.len(),
        d.subrange(i, i + 4) == be32(n),
    ensures
        word_at(d, i, n as int),
{
    let s = d.subrange(i, i + 4);
    assert(s[0] == d[i] && s[1] == d[i + 1] && s[2] == d[i + 2] && s[3] == d[i + 3]);
}

proof fn lemma_read_word(d: Seq<u8>, i: int, n: u32)
    requires
        word_at(d, i, n as int),
    ensures
        u32_at(d, i) == n,
{
}

/// A payload on the wire: the tag 0x10, the length in the three bytes behind it, the realm, four
/// zeros, and the bytes of the payload as they are.
pub proof fn law_payload_layout(realm: u32, data: Seq<u8>)
    requires
        data.len() < 0x100_0000,
    ensures
        ({
            let w = payload_wire(realm, data);
            &&& w.len() == 12 + data.len()
            &&& w[0] == 0x10
            &&& w[1] * 65536 + w[2] * 256 + w[3] == data.len()
            &&& word_at(w, 4, realm as int)
            &&& zero_between(w, 8, 12)
            &&& stands_at(w, 12, data)
        }),
{
    let n = data.len() as u32;
    let h = 0x1000_0000u32 | n;
    assert(h == 0x1000_0000u32 + n) by (bit_vector)
        requires
            h == 0x1000_0000u32 | n,
            n < 0x100_0000u32,
    ;
    let w = payload_wire(realm, data);
    assert(w.subrange(0, 4) =~= be32(h));
    lemma_word(w, 0, h);
    assert(w.subrange(4, 8) =~= be32(realm));
    lemma_word(w, 4, realm);
}

/// Whatever bytes have the form of a payload are read as one, with that realm and those bytes; and
/// nothing else is.
pub proof fn law_payload_is_recognised(d: Seq<u8>, realm: u32, data: Seq<u8>)
    requires
        data.len() < 0x1_0000_0000,
    ensures
        payload_of(d) == Ok::<(u32, Seq<u8>), Seq<char>>((realm, data)) <==> {
            &&& d.len() == 12 + data.len()
            &&& d[0] == 0x10
            &&& d[2] * 256 + d[3] == data.len()
            &&& word_at(d, 4, realm as int)
            &&& zero_between(d, 8, 12)
            &&& stands_at(d, 12, data)
        },
        payload_of(d) is Ok && d.len() < 0x1_0000_0000 ==> d.len() < 12 + 0x1_0000,
{
    if d.len() >= 12 {
        assert(zero_between(d, 8, 12) <==> u32_at(d, 8) == 0) by {
            if u32_at(d, 8) == 0 {
                assert(d[8] == 0 && d[9] == 0 && d[10] == 0 && d[11] == 0);
            }
            if zero_between(d, 8, 12) {
                assert(d[8] == 0 && d[9] == 0 && d[10] == 0 && d[11] == 0);
            }
        }
        assert(word_at(d, 4, u32_at(d, 4) as int));
        if stands_at(d, 12, data) && d.len() == 12 + data.len() {
            assert forall|k: int| 0 <= k < data.len() implies d.skip(12)[k] == data[k] by {
                assert(data[k] == d[12 + k]);
            }
            assert(d.skip(12) =~= data);
        }
    }
}

/// What the other bodies look like on the wire.
pub proof fn law_body_layout(realm: u32, port: u32, status: Seq<char>, data: Seq<u8>)
    ensures
        body_wire(Body::Empty).len() == 0,
        body_wire(Body::Sync) == seq![0u8, 3, 1, 0],
        body_wire(Body::Command(data)) == data,
        body_wire(Body::Payload(realm, data)) == payload_wire(realm, data),
        ({
            let w = body_wire(Body::Bind(realm, port));
            &&& w.len() == 20
            &&& w[0] == 0x11
            &&& zero_between(w, 1, 4)
            &&& word_at(w, 4, realm as int)
            &&& zero_between(w, 8, 12)
            &&& word_at(w, 12, port as int)
            &&& w[16] == 127
            &&& zero_between(w, 17, 19)
            &&& w[19] == 1
        }),
        ({
            let w = body_wire(Body::Status(realm, status));
            &&& w.len() == 12 + encode_utf8(status).len()
            &&& w[0] == 0x12
            &&& zero_between(w, 1, 4)
            &&& word_at(w, 4, realm as int)
            &&& zero_between(w, 8, 12)
            &&& stands_at(w, 12, encode_utf8(status))
        }),
        ({
            let w = body_wire(Body::Heartbeat);
            &&& w.len() == 12
            &&& w[0] == 0x13
            &&& zero_between(w, 1, 12)
        }),
{
    let w = body_wire(Body::Bind(realm, port));
    assert(w.subrange(4, 8) =~= be32(realm));
    assert(w.subrange(12, 16) =~= be32(port));
    lemma_word(w, 4, realm);
    lemma_word(w, 12, port);
    let w = body_wire(Body::Status(realm, status));
    assert(w.subrange(4, 8) =~= be32(realm));
    lemma_word(w, 4, realm);
}

proof fn lemma_until_zero(d: Seq<u8>, raw: Seq<u8>)
    requires
        stands_at(d, 0, raw),
        forall|i: int| 0 <= i < raw.len() ==> raw[i] != 0,
        d.len() == raw.len() || d[raw.len() as int] == 0,
    ensures
        until_zero(d) == raw,
    decreases raw.len(),
{
    if raw.len() > 0 {
        assert(raw[0] == d[0]);
        let rest = raw.skip(1);
        assert forall|k: int| 0 <= k < rest.len() implies #[trigger] rest[k] == d.skip(1)[0 + k] by {
            assert(raw[k + 1] == d[0 + (k + 1)]);
        }
        lemma_until_zero(d.skip(1), rest);
        assert(seq![d[0]] + rest =~= raw);
    } else {
        assert(until_zero(d) =~= raw);
    }
}

/// What the first byte says that a body is: nothing at all is an acknowledgement, 0x00 synchronises,
/// 0x11 binds, 0x13 is a heartbeat, and what is not known is a command as it stands.
pub proof fn law_body_is_recognised(d: Seq<u8>)
    ensures
        d.len() == 0 <==> body_of(d) == Ok::<Body, Seq<char>>(Body::Empty),
        0 < d.len() < 4 ==> body_of(d) is Err,
        d.len() >= 4 && d[0] == 0x00 ==> body_of(d) == Ok::<Body, Seq<char>>(Body::Sync),
        d.len() >= 4 && d[0] == 0x13 ==> body_of(d) == Ok::<Body, Seq<char>>(Body::Heartbeat),
        4 <= d.len() < 16 && d[0] == 0x11 ==> body_of(d) is Err,
        d.len() >= 16 && d[0] == 0x11 ==> body_of(d) is Ok && body_of(d)->Ok_0 is Bind && word_at(
            d,
            4,
            body_of(d)->Ok_0->Bind_0 as int,
        ) && word_at(d, 12, body_of(d)->Ok_0->Bind_1 as int),
        d.len() >= 4 && d[0] == 0x10 ==> (body_of(d) matches Ok(b) ==> b is Payload),
        4 <= d.len() < 12 && d[0] == 0x12 ==> body_of(d) is Err,
        d.len() >= 4 && d[0] != 0x00 && d[0] != 0x10 && d[0] != 0x11 && d[0] != 0x12 && d[0] != 0x13
            ==> body_of(d) == Ok::<Body, Seq<char>>(Body::Command(d)),
{
}

/// Bytes that have the form of a payload are the body with that realm and those bytes.
pub proof fn law_payload_body_is_recognised(d: Seq<u8>, realm: u32, data: Seq<u8>)
    requires
        d.len() == 12 + data.len(),
        d[0] == 0x10,
        d[2] * 256 + d[3] == data.len(),
        word_at(d, 4, realm as int),
        zero_between(d, 8, 12),
        stands_at(d, 12, data),
    ensures
        body_of(d) == Ok::<Body, Seq<char>>(Body::Payload(realm, data)),
{
    law_payload_is_recognised(d, realm, data);
}

/// A status is what follows its header up to a zero or the end, without white space around it, if
/// that begins with `CONN` or `DISC`; otherwise the whole is a command.
#[verifier::rlimit(40)]
pub proof fn law_status_is_recognised(d: Seq<u8>, realm: u32, status: Seq<char>)
    requires
        d.len() >= 12 + encode_utf8(status).len(),
        d[0] == 0x12,
        word_at(d, 4, realm as int),
        stands_at(d, 12, encode_utf8(status)),
        d.len() == 12 + encode_utf8(status).len() || d[12
            + encode_utf8(status).len() as int] == 0,
        forall|i: int| 0 <= i < encode_utf8(status).len() ==> encode_utf8(status)[i] != 0,
    ensures
        ({
            let told = spells(d, 12, 'C', 'O', 'N', 'N') || spells(d, 12, 'D', 'I', 'S', 'C');
            body_of(d) == Ok::<Body, Seq<char>>(
                if told && zero_between(d, 1, 4) && zero_between(d, 8, 12) {
                    Body::Status(realm, trim(status))
                } else {
                    Body::Command(d)
                },
            )
        }),
{
    let raw = encode_utf8(status);
    let rest = d.skip(12);
    assert forall|k: int| 0 <= k < raw.len() implies #[trigger] raw[k] == rest[0 + k] by {
        assert(raw[k] == d[12 + k]);
    }
    lemma_until_zero(rest, raw);
    lemma_read_word(d, 4, realm);
    vstd::utf8::encode_utf8_valid_utf8(status);
    vstd::utf8::encode_utf8_decode_utf8(status);
    assert(text_of(raw) == status);
    assert(zero_between(d, 1, 4) <==> d.subrange(1, 4) == zeros(3)) by {
        if d.subrange(1, 4) == zeros(3) {
            let z = d.subrange(1, 4);
            assert(z[0] == d[1] && z[1] == d[2] && z[2] == d[3]);
            assert(zeros(3)[0] == 0 && zeros(3)[1] == 0 && zeros(3)[2] == 0);
        }
        if zero_between(d, 1, 4) {
            assert(d.subrange(1, 4) =~= zeros(3));
        }
    }
    assert(zero_between(d, 8, 12) <==> d.subrange(8, 12) == zeros(4)) by {
        if d.subrange(8, 12) == zeros(4) {
            let z = d.subrange(8, 12);
            assert(z[0] == d[8] && z[1] == d[9] && z[2] == d[10] && z[3] == d[11]);
            assert(zeros(4)[0] == 0 && zeros(4)[1] == 0 && zeros(4)[2] == 0 && zeros(4)[3] == 0);
        }
        if zero_between(d, 8, 12) {
            assert(d.subrange(8, 12) =~= zeros(4));
        }
    }
    lemma_told(d, raw);
}

proof fn lemma_told(d: Seq<u8>, raw: Seq<u8>)
    requires
        d.len() >= 12 + raw.len(),
        stands_at(d, 12, raw),
        d.len() == 12 + raw.len() || d[12 + raw.len() as int] == 0,
    ensures
        is_status_text(raw) <==> spells(d, 12, 'C', 'O', 'N', 'N') || spells(
            d,
            12,
            'D',
            'I',
            'S',
            'C',
        ),
{
    let conn = seq![0x43u8, 0x4f, 0x4e, 0x4e];
    let disc = seq![0x44u8, 0x49, 0x53, 0x43];
    if raw.len() >= 4 {
        let t = raw.take(4);
        assert forall|k: int| 0 <= k < 4 implies raw[k] == d[12 + k] by {}
        assert(raw[0] == d[12] && raw[1] == d[13] && raw[2] == d[14] && raw[3] == d[15]);
        assert(t[0] == raw[0] && t[1] == raw[1] && t[2] == raw[2] && t[3] == raw[3]);
        assert(conn[0] == 0x43 && conn[1] == 0x4f && conn[2] == 0x4e && conn[3] == 0x4e);
        assert(disc[0] == 0x44 && disc[1] == 0x49 && disc[2] == 0x53 && disc[3] == 0x43);
        if spells(d, 12, 'C', 'O', 'N', 'N') {
            assert(t =~= conn);
        }
        if spells(d, 12, 'D', 'I', 'S', 'C') {
            assert(t =~= disc);
        }
    }
}

/// A packet on the wire: `PTCP`, the five numbers of the header, then the body.
pub proof fn law_packet_layout(p: Packet)
    ensures
        ({
            let w = packet_wire(p);
            &&& w.len() == 24 + body_wire(p.body).len()
            &&& spells(w, 0, 'P', 'T', 'C', 'P')
            &&& word_at(w, 4, p.sent as int)
            &&& word_at(w, 8, p.recv as int)
            &&& word_at(w, 12, p.pid as int)
            &&& word_at(w, 16, p.lmid as int)
            &&& word_at(w, 20, p.rmid as int)
            &&& stands_at(w, 24, body_wire(p.body))
        }),
{
    let w = packet_wire(p);
    assert(w.subrange(4, 8) =~= be32(p.sent));
    assert(w.subrange(8, 12) =~= be32(p.recv));
    assert(w.subrange(12, 16) =~= be32(p.pid));
    assert(w.subrange(16, 20) =~= be32(p.lmid));
    assert(w.subrange(20, 24) =~= be32(p.rmid));
    lemma_word(w, 4, p.sent);
    lemma_word(w, 8, p.recv);
    lemma_word(w, 12, p.pid);
    lemma_word(w, 16, p.lmid);
    lemma_word(w, 20, p.rmid);
}

/// Whatever begins with `PTCP`, the five numbers of the header and a body is read as that packet,
/// off a socket or not; and nothing else is.
pub proof fn law_packet_is_recognised(d: Seq<u8>, p: Packet)
    ensures
        packet_of(d) == Ok::<Packet, Seq<char>>(p) <==> {
            &&& spells(d, 0, 'P', 'T', 'C', 'P')
            &&& word_at(d, 4, p.sent as int)
            &&& word_at(d, 8, p.recv as int)
            &&& word_at(d, 12, p.pid as int)
            &&& word_at(d, 16, p.lmid as int)
            &&& word_at(d, 20, p.rmid as int)
            &&& body_of(d.skip(24)) == Ok::<Body, Seq<char>>(p.body)
        },
        datagram_of(d) == Ok::<Packet, Seq<char>>(p) <==> packet_of(d) == Ok::<Packet, Seq<char>>(p),
{
    if d.len() >= 24 {
        let m = seq![0x50u8, 0x54, 0x43, 0x50];
        let t = d.take(4);
        assert(t[0] == d[0] && t[1] == d[1] && t[2] == d[2] && t[3] == d[3]);
        assert(m[0] == 0x50 && m[1] == 0x54 && m[2] == 0x43 && m[3] == 0x50);
        if spells(d, 0, 'P', 'T', 'C', 'P') {
            assert(t =~= m);
        }
    }
}

/// What some bodies that are sent one after the other make of a session.
pub open spec fn after_sending(s: PTCPSession, bodies: Seq<Body>) -> PTCPSession
    decreases bodies.len(),
{
    if bodies.len() == 0 {
        s
    } else {
        after_send(after_sending(s, bodies.drop_last()), bodies.last())
    }
}

/// How many bytes some bodies have on the wire.
pub open spec fn bytes_in(bodies: Seq<Body>) -> nat
    decreases bodies.len(),
{
    if bodies.len() == 0 {
        0
    } else {
        bytes_in(bodies.drop_last()) + body_wire(bodies.last()).len()
    }
}

/// How many of some bodies are messages: all but synchronisation and acknowledgements.
pub open spec fn messages_in(bodies: Seq<Body>) -> nat
    decreases bodies.len(),
{
    if bodies.len() == 0 {
        0
    } else {
        let rest = messages_in(bodies.drop_last());
        match bodies.last() {
            Body::Sync | Body::Empty => rest,
            _ => rest + 1,
        }
    }
}

/// The header of the next packet tells what has gone before in the session: how many bytes were
/// sent, how many packets, and how many messages, these downwards from 65535 and again from there
/// after 65536 of them. Synchronisation has a packet number of its own.
pub proof fn law_header_tells_what_was_sent(bodies: Seq<Body>, body: Body)
    ensures
        ({
            let fresh = PTCPSession { sent: 0, recv: 0, count: 0, id: 0, rmid: 0 };
            let p = next_packet(after_sending(fresh, bodies), body);
            &&& p.body == body
            &&& p.sent == bytes_in(bodies) % 0x1_0000_0000
            &&& p.lmid == bodies.len() % 0x1_0000_0000
            &&& p.recv == 0
            &&& p.rmid == 0
            &&& body is Sync ==> p.pid == 0x0002_FFFF
            &&& !(body is Sync) ==> p.pid == 0xFFFF - messages_in(bodies) % 0x1_0000
        }),
{
    lemma_after_sending(bodies);
}

#[verifier::rlimit(40)]
proof fn lemma_after_sending(bodies: Seq<Body>)
    ensures
        ({
            let fresh = PTCPSession { sent: 0, recv: 0, count: 0, id: 0, rmid: 0 };
            let s = after_sending(fresh, bodies);
            &&& s.sent == bytes_in(bodies) % 0x1_0000_0000
            &&& s.id == bodies.len() % 0x1_0000_0000
            &&& s.count == messages_in(bodies) % 0x1_0000_0000
            &&& s.recv == 0
            &&& s.rmid == 0
        }),
    decreases bodies.len(),
{
    if bodies.len() > 0 {
        let rest = bodies.drop_last();
        let body = bodies.last();
        lemma_after_sending(rest);
        law_wire_length(body);
        lemma_wraps(bytes_in(rest), body_wire(body).len());
        lemma_wraps(rest.len(), 1);
        lemma_wraps(messages_in(rest), 1);
        let fresh = PTCPSession { sent: 0, recv: 0, count: 0, id: 0, rmid: 0 };
        let before = after_sending(fresh, rest);
        assert(after_sending(fresh, bodies) == after_send(before, body));
        assert(bodies.len() == rest.len() + 1);
        assert(bytes_in(bodies) == bytes_in(rest) + body_wire(body).len());
    }
}

proof fn lemma_wraps(a: nat, b: nat)
    ensures
        (a % 0x1_0000_0000 + b) % 0x1_0000_0000 == (a + b) % 0x1_0000_0000,
{
}

/// A packet that came in is acknowledged by the next one that goes out: its header tells the number
/// of bytes that the sender had sent by then, and repeats the sender's message number.
pub proof fn law_header_acknowledges(s: PTCPSession, p: Packet, between: Seq<Body>, body: Body)
    ensures
        ({
            let q = next_packet(after_sending(after_recv(s, p), between), body);
            &&& q.recv == (p.sent + body_wire(p.body).len()) % 0x1_0000_0000
            &&& q.rmid == p.lmid
        }),
    decreases between.len(),
{
    law_wire_length(p.body);
    if between.len() > 0 {
        law_header_acknowledges(s, p, between.drop_last(), body);
    }
}

/// The bytes of a payload: the tag 0x10, the length, the realm, four zeros, and what it carries.
pub proof fn law_payloads_are_written(p: &PTCPPayload, v: Vec<u8>)
    requires
        call_ensures(PTCPPayload::serialize, (p,), v),
        p.data@.len() < 0x100_0000,
    ensures
        v@.len() == 12 + p.data@.len(),
        v@[0] == 0x10,
        v@[1] * 65536 + v@[2] * 256 + v@[3] == p.data@.len(),
        word_at(v@, 4, p.realm as int),
        zero_between(v@, 8, 12),
        stands_at(v@, 12, p.data@),
{
    law_payload_layout(p.realm, p.data@);
}

/// Bytes are read as a payload exactly where they have that form, and then with that realm and with
/// what follows the first twelve of them.
pub proof fn law_payloads_are_read(d: &[u8], r: Result<PTCPPayload, PTCPReadError>)
    requires
        call_ensures(PTCPPayload::parse, (d,), r),
        d@.len() < 0x1_0000_0000,
    ensures
        r is Ok <==> {
            &&& d@.len() >= 12
            &&& d@[0] == 0x10
            &&& d@[2] * 256 + d@[3] == d@.len() - 12
            &&& zero_between(d@, 8, 12)
        },
        r matches Ok(p) ==> word_at(d@, 4, p.realm as int) && p.data@.len() == d@.len() - 12
            && stands_at(d@, 12, p.data@),
        r matches Err(e) ==> e is Malformed,
{
    if d@.len() >= 12 {
        law_payload_is_recognised(d@, u32_at(d@, 4), d@.skip(12));
        assert(stands_at(d@, 12, d@.skip(12)));
        assert(word_at(d@, 4, u32_at(d@, 4) as int));
    }
    if let Ok(p) = r {
        law_payload_is_recognised(d@, p.realm, p.data@);
    }
}

/// The bytes of a packet: `PTCP`, the five numbers of the header, the body.
pub proof fn law_packets_are_written(p: &PTCPPacket, v: Vec<u8>)
    requires
        call_ensures(PTCPPacket::serialize, (p,), v),
    ensures
        v@.len() == 24 + body_wire(p.body@).len(),
        spells(v@, 0, 'P', 'T', 'C', 'P'),
        word_at(v@, 4, p.sent as int),
        word_at(v@, 8, p.recv as int),
        word_at(v@, 12, p.pid as int),
        word_at(v@, 16, p.lmid as int),
        word_at(v@, 20, p.rmid as int),
        stands_at(v@, 24, body_wire(p.body@)),
{
    law_packet_layout(p@);
}

/// A datagram is read as a packet with the five numbers of its header and with the body behind it;
/// it has to begin with `PTCP`.
pub proof fn law_datagrams_are_read(d: &[u8], r: Result<PTCPPacket, PTCPReadError>)
    requires
        call_ensures(PTCPPacket::from_datagram, (d,), r) || call_ensures(
            PTCPPacket::parse,
            (d,),
            r,
        ),
    ensures
        r is Ok <==> d@.len() >= 24 && spells(d@, 0, 'P', 'T', 'C', 'P') && body_of(
            d@.skip(24),
        ) is Ok,
        r matches Ok(p) ==> {
            &&& word_at(d@, 4, p.sent as int)
            &&& word_at(d@, 8, p.recv as int)
            &&& word_at(d@, 12, p.pid as int)
            &&& word_at(d@, 16, p.lmid as int)
            &&& word_at(d@, 20, p.rmid as int)
            &&& body_of(d@.skip(24)) == Ok::<Body, Seq<char>>(p.body@)
        },
        r matches Err(e) ==> e is Malformed,
{
    if let Ok(p) = r {
        law_packet_is_recognised(d@, p@);
    } else if d@.len() >= 24 && body_of(d@.skip(24)) is Ok {
        let p = Packet {
            sent: u32_at(d@, 4),
            recv: u32_at(d@, 8),
            pid: u32_at(d@, 12),
            lmid: u32_at(d@, 16),
            rmid: u32_at(d@, 20),
            body: body_of(d@.skip(24))->Ok_0,
        };
        law_packet_is_recognised(d@, p);
    }
}

/// A body is written and read as the laws on bodies say.
pub proof fn law_bodies_are_written_and_read(
    b: &PTCPBody,
    v: Vec<u8>,
    d: &[u8],
    r: Result<PTCPBody, PTCPReadError>,
)
    requires
        call_ensures(PTCPBody::serialize, (b,), v),
        call_ensures(PTCPBody::parse, (d,), r),
    ensures
        v@ == body_wire(b@),
        match r {
            Ok(read) => body_of(d@) == Ok::<Body, Seq<char>>(read@),
            Err(e) => body_of(d@) is Err && e is Malformed,
        },
{
}

/// Sending takes the numbers of the header from the session and counts the packet in it; receiving
/// notes how far the sender is.
pub proof fn law_the_session_counts(
    s: &mut PTCPSession,
    body: PTCPBody,
    p: PTCPPacket,
    t: &mut PTCPSession,
    came: PTCPPacket,
    noted: PTCPPacket,
)
    requires
        call_ensures(PTCPSession::send, (s, body), p),
        call_ensures(PTCPSession::recv, (t, came), noted),
    ensures
        p@.body == body@,
        p@.sent == old(s).sent,
        p@.recv == old(s).recv,
        p@.lmid == old(s).id,
        p@.rmid == old(s).rmid,
        p@.pid == if body@ is Sync {
            0x0002_FFFF
        } else {
            0xFFFF - old(s).count % 0x1_0000
        },
        final(s).sent == (old(s).sent + body_wire(body@).len()) % 0x1_0000_0000,
        final(s).id == (old(s).id + 1) % 0x1_0000_0000,
        final(s).count == if body@ is Sync || body@ is Empty {
            old(s).count as int
        } else {
            (old(s).count + 1) % 0x1_0000_0000
        },
        final(s).recv == old(s).recv,
        final(s).rmid == old(s).rmid,
        noted == came,
        final(t).recv == (came@.sent + body_wire(came@.body).len()) % 0x1_0000_0000,
        final(t).rmid == came@.lmid,
        final(t).sent == old(t).sent,
        final(t).id == old(t).id,
        final(t).count == old(t).count,
{
    law_wire_length(body@);
    law_wire_length(came@.body);
}

/// What is made of a failure to read: only a connection that was reset or is not there is dead; a
/// read for which nothing came has timed out; and as an error each says what went wrong.
pub proof fn law_failures_to_read(
    e: PTCPReadError,
    fatal: bool,
    silence: PTCPReadError,
    error: Error,
)
    requires
        call_ensures(PTCPReadError::is_fatal, (&e,), fatal),
        call_ensures(PTCPReadError::timed_out, (), silence),
        call_ensures(PTCPReadError::into_error, (e,), error),
    ensures
        e is Malformed ==> !fatal,
        e matches PTCPReadError::Io(f) ==> (fatal <==> f.kind == ErrorKind::ConnectionReset
            || f.kind == ErrorKind::NotConnected),
        silence matches PTCPReadError::Io(f) && f.kind == ErrorKind::TimedOut && f.message@
            == "UDP recv timeout after 30s"@,
        e matches PTCPReadError::Io(f) ==> error@ == f@,
        e matches PTCPReadError::Malformed(m) ==> error.kind == ErrorKind::InvalidData
            && error.message@ == m@,
{
}

/// The text in a payload is shown where it has more than four bytes and all of them are ASCII.
pub proof fn law_text_in_payloads_is_shown(p: &PTCPPacket, r: Option<String>)
    requires
        call_ensures(PTCPPacket::try_print_data, (p,), r),
    ensures
        r is Some <==> (p@.body matches Body::Payload(_, data) && data.len() > 4 && forall|i: int|
            0 <= i < data.len() ==> #[trigger] data[i] < 0x80),
        r matches Some(text) ==> (p@.body matches Body::Payload(_, data) && text@.len() == data.len()
            && forall|i: int| 0 <= i < data.len() ==> #[trigger] text@[i] == data[i] as char),
{
}

/// Bytes in a log are two hexadecimal digits each, with a separator between them.
pub proof fn law_bytes_are_shown(d: Seq<u8>, b: u8, sep: Seq<char>)
    ensures
        hex_dump(Seq::empty(), sep).len() == 0,
        hex_dump(seq![b], sep) == hex_fixed(b as nat, 2),
        d.len() > 0 ==> hex_dump(d.push(b), sep) == hex_dump(d, sep) + sep + hex_fixed(b as nat, 2),
{
    let parts = d.map_values(|x: u8| hex_fixed(x as nat, 2));
    let more = d.push(b).map_values(|x: u8| hex_fixed(x as nat, 2));
    assert(more =~= parts.push(hex_fixed(b as nat, 2)));
    assert(more.drop_last() =~= parts);
    assert(seq![b].map_values(|x: u8| hex_fixed(x as nat, 2)) =~= seq![hex_fixed(b as nat, 2)]);
    assert(Seq::<u8>::empty().map_values(|x: u8| hex_fixed(x as nat, 2)) =~= Seq::empty());
}

/// A packet in a log: the numbers of its header and its body.
#[verifier::rlimit(40)]
pub proof fn law_packets_are_shown(p: &PTCPPacket, s: String, text: String)
    requires
        call_ensures(PTCPPacket::describe, (p,), s),
        call_ensures(PTCPBody::describe, (&p.body,), text),
    ensures
        contains(s@, "sent: "@ + dec(p.sent as nat)),
        contains(s@, ", recv: "@ + dec(p.recv as nat)),
        contains(s@, ", pid: 0x"@ + hex_fixed(p.pid as nat, 8)),
        contains(s@, ", lmid: 0x"@ + hex_fixed(p.lmid as nat, 8)),
        contains(s@, ", rmid: 0x"@ + hex_fixed(p.rmid as nat, 8)),
        contains(s@, ", body: "@ + text@),
        p@.body is Sync ==> text@ == "Sync"@,
        p@.body is Heartbeat ==> text@ == "Heartbeat"@,
        p@.body is Empty ==> text@ == "Empty"@,
        p@.body matches Body::Bind(realm, port) ==> text@ == "Bind { realm: 0x"@ + hex_fixed(
            realm as nat,
            8,
        ) + ", port: "@ + dec(port as nat) + " }"@,
        p@.body matches Body::Status(realm, status) ==> text@ == "Status { realm: 0x"@ + hex_fixed(
            realm as nat,
            8,
        ) + ", status: "@ + status + " }"@,
        p@.body matches Body::Command(data) ==> text@ == "Command(["@ + hex_dump(data, " "@)
            + "])"@,
{
    reveal_strlit("PTCPPacket { sent: ");
    reveal_strlit("PTCPPacket { ");
    reveal_strlit("sent: ");
    let p0 = "PTCPPacket { "@;
    assert("PTCPPacket { sent: "@ =~= p0 + "sent: "@);
    let p1 = p0 + "sent: "@ + dec(p.sent as nat);
    let p2 = p1 + ", recv: "@ + dec(p.recv as nat);
    let p3 = p2 + ", pid: 0x"@ + hex_fixed(p.pid as nat, 8);
    let p4 = p3 + ", lmid: 0x"@ + hex_fixed(p.lmid as nat, 8);
    let p5 = p4 + ", rmid: 0x"@ + hex_fixed(p.rmid as nat, 8);
    let p6 = p5 + ", body: "@ + text@;
    assert(s@ == p6 + " }"@);
    assert(begins(s@, p6));
    lemma_contains(s@, p5, ", body: "@, text@);
    lemma_contains(s@, p4, ", rmid: 0x"@, hex_fixed(p.rmid as nat, 8));
    lemma_contains(s@, p3, ", lmid: 0x"@, hex_fixed(p.lmid as nat, 8));
    lemma_contains(s@, p2, ", pid: 0x"@, hex_fixed(p.pid as nat, 8));
    lemma_contains(s@, p1, ", recv: "@, dec(p.recv as nat));
    lemma_contains(s@, p0, "sent: "@, dec(p.sent as nat));
}

} // verus!
