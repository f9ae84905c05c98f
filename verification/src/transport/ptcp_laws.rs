//! What PTCP promises as a whole.
use vstd::prelude::*;
use vstd::utf8::encode_utf8;

use crate::bytes::{be32, lemma_u32_at, u32_at};
use crate::text::trim;
use crate::transport::ptcp::{
    after_recv, after_send, body_len, body_of, body_wire, is_counted, is_status_text, magic,
    next_packet, packet_of, packet_wire, payload_of, payload_wire, status_of, until_zero,
    zeros, Body, Packet, PTCPSession,
};

verus! {

/// A body is as long on the wire as it is counted.
pub proof fn law_wire_length(b: Body)
    ensures
        body_wire(b).len() == body_len(b),
{
}

/// A payload of up to 65535 bytes is read back as it was written.
pub proof fn law_payload_roundtrip(realm: u32, data: Seq<u8>)
    requires
        data.len() < 0x1_0000,
    ensures
        payload_of(payload_wire(realm, data)) == Ok::<(u32, Seq<u8>), Seq<char>>((realm, data)),
{
    let n = data.len() as u32;
    let h = 0x1000_0000u32 | n;
    assert(h == 0x1000_0000u32 + n) by (bit_vector)
        requires
            h == 0x1000_0000u32 | n,
            n < 0x1_0000u32,
    ;
    let w = payload_wire(realm, data);
    assert(w.subrange(0, 4) =~= be32(h));
    assert(w[0] == be32(h)[0] && w[2] == be32(h)[2] && w[3] == be32(h)[3]);
    assert(w.subrange(4, 8) =~= be32(realm));
    lemma_u32_at(w, 4, realm);
    assert(w[8] == 0 && w[9] == 0 && w[10] == 0 && w[11] == 0);
    assert(w.skip(12) =~= data);
}

/// The bodies that are read back as they were written. Payloads must fit the sixteen-bit length; a
/// command must not look like anything else; a status must be one that is acted on, without a
/// zero and without white space around it.
pub open spec fn survives(b: Body) -> bool {
    match b {
        Body::Payload(_, data) => data.len() < 0x1_0000,
        Body::Command(data) => {
            &&& data.len() >= 4
            &&& data[0] != 0x00 && data[0] != 0x10 && data[0] != 0x11 && data[0] != 0x13
            &&& data[0] == 0x12 ==> data.len() >= 12 && status_of(data) is None
        },
        Body::Status(_, status) => {
            let raw = encode_utf8(status);
            &&& is_status_text(raw)
            &&& forall|i: int| 0 <= i < raw.len() ==> raw[i] != 0
            &&& trim(status) == status
        },
        _ => true,
    }
}

proof fn lemma_until_zero(d: Seq<u8>)
    requires
        forall|i: int| 0 <= i < d.len() ==> d[i] != 0,
    ensures
        until_zero(d) == d,
    decreases d.len(),
{
    if d.len() > 0 {
        lemma_until_zero(d.skip(1));
        assert(seq![d[0]] + d.skip(1) =~= d);
    }
}

/// What is written as a body is read back as that body.
pub proof fn law_body_roundtrip(b: Body)
    requires
        survives(b),
    ensures
        body_of(body_wire(b)) == Ok::<Body, Seq<char>>(b),
{
    let w = body_wire(b);
    match b {
        Body::Payload(realm, data) => {
            law_payload_roundtrip(realm, data);
            let n = data.len() as u32;
            let h = 0x1000_0000u32 | n;
            assert(h == 0x1000_0000u32 + n) by (bit_vector)
                requires
                    h == 0x1000_0000u32 | n,
                    n < 0x1_0000u32,
            ;
            assert(w[0] == be32(h)[0]);
        },
        Body::Bind(realm, port) => {
            assert(w[0] == 0x11);
            assert(w.subrange(4, 8) =~= be32(realm));
            assert(w.subrange(12, 16) =~= be32(port));
            lemma_u32_at(w, 4, realm);
            lemma_u32_at(w, 12, port);
        },
        Body::Status(realm, status) => {
            let raw = encode_utf8(status);
            assert(w[0] == 0x12);
            assert(w.subrange(4, 8) =~= be32(realm));
            lemma_u32_at(w, 4, realm);
            assert(w.subrange(1, 4) =~= zeros(3));
            assert(w.subrange(8, 12) =~= zeros(4));
            assert(w.skip(12) =~= raw);
            lemma_until_zero(raw);
            vstd::utf8::encode_utf8_valid_utf8(status);
            vstd::utf8::encode_utf8_decode_utf8(status);
            if status.len() == 0 {
                assert(raw.len() == 0);
            }
        },
        _ => {},
    }
}

/// The six words in front of a body are read back as they were written.
proof fn lemma_header(sent: u32, recv: u32, pid: u32, lmid: u32, rmid: u32, tail: Seq<u8>)
    ensures
        ({
            let w = magic() + be32(sent) + be32(recv) + be32(pid) + be32(lmid) + be32(rmid) + tail;
            &&& w.len() == 24 + tail.len()
            &&& w.take(4) == magic()
            &&& u32_at(w, 4) == sent
            &&& u32_at(w, 8) == recv
            &&& u32_at(w, 12) == pid
            &&& u32_at(w, 16) == lmid
            &&& u32_at(w, 20) == rmid
            &&& w.skip(24) == tail
        }),
{
    let w = magic() + be32(sent) + be32(recv) + be32(pid) + be32(lmid) + be32(rmid) + tail;
    assert(w.take(4) =~= magic());
    assert(w.subrange(4, 8) =~= be32(sent));
    assert(w.subrange(8, 12) =~= be32(recv));
    assert(w.subrange(12, 16) =~= be32(pid));
    assert(w.subrange(16, 20) =~= be32(lmid));
    assert(w.subrange(20, 24) =~= be32(rmid));
    lemma_u32_at(w, 4, sent);
    lemma_u32_at(w, 8, recv);
    lemma_u32_at(w, 12, pid);
    lemma_u32_at(w, 16, lmid);
    lemma_u32_at(w, 20, rmid);
    assert(w.skip(24) =~= tail);
}

/// What is written as a packet is read back as that packet.
pub proof fn law_packet_roundtrip(p: Packet)
    requires
        survives(p.body),
    ensures
        packet_of(packet_wire(p)) == Ok::<Packet, Seq<char>>(p),
{
    law_body_roundtrip(p.body);
    lemma_header(p.sent, p.recv, p.pid, p.lmid, p.rmid, body_wire(p.body));
}

/// The packet number of a message is its count, downwards from 65535; so it stays within sixteen
/// bits however many messages have been sent, and starts again after 65536 of them.
pub proof fn law_pid_counts_down(s: PTCPSession, a: Body, b: Body)
    requires
        is_counted(a),
        !(b is Sync),
    ensures
        next_packet(s, a).pid <= 0xFFFF,
        next_packet(after_send(s, a), b).pid == if next_packet(s, a).pid == 0 {
            0xFFFF
        } else {
            (next_packet(s, a).pid - 1) as u32
        },
{
}

/// Synchronisation and acknowledgements do not use up a packet number.
pub proof fn law_uncounted_keep_pid(s: PTCPSession, a: Body, b: Body)
    requires
        !is_counted(a),
    ensures
        next_packet(after_send(s, a), b).pid == next_packet(s, b).pid,
{
}

/// The bytes of successive packets follow on each other, and their message numbers too, modulo
/// 2^32.
pub proof fn law_sent_is_contiguous(s: PTCPSession, a: Body, b: Body)
    ensures
        next_packet(after_send(s, a), b).sent == (next_packet(s, a).sent + body_wire(a).len())
            % 0x1_0000_0000,
        next_packet(after_send(s, a), b).lmid == (next_packet(s, a).lmid + 1) % 0x1_0000_0000,
{
    law_wire_length(a);
}

/// Every packet acknowledges the one that came in last: it tells how far that one reached and
/// repeats its message number. Receiving leaves what has been sent alone, and sending what has
/// been received.
pub proof fn law_ack(s: PTCPSession, p: Packet, body: Body)
    ensures
        next_packet(after_recv(s, p), body).recv == (p.sent + body_wire(p.body).len())
            % 0x1_0000_0000,
        next_packet(after_recv(s, p), body).rmid == p.lmid,
        after_recv(s, p).sent == s.sent,
        after_recv(s, p).count == s.count,
        after_recv(s, p).id == s.id,
        after_send(s, body).recv == s.recv,
        after_send(s, body).rmid == s.rmid,
{
    law_wire_length(p.body);
}

} // verus!
