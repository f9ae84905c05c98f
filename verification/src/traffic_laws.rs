//! What the tunnel does with what a client sends and with what the camera sends.
use vstd::prelude::*;

use crate::buffer::{flushed_frames, frames_of, inserted, Packet as Arrival};
use crate::config::DropPolicy;
use crate::error::ErrorKind;
use crate::health::HealthCounters;
use crate::jitter_laws::{has_left, law_only_time_lets_packets_leave};
use crate::realm_laws::line;
use crate::realms::{routed_all, RealmTable};
use crate::routing_laws::{has_room, law_a_frame_reaches_its_lane, one_more};
use crate::shutdown::ShutdownReason;
use crate::text::starts_with;
use crate::transport::course_laws::begins;
use crate::transport::ptcp::{
    body_wire, Body, PTCPBody, PTCPEvent, PTCPPacket, PTCPReadError, PTCPSession,
};
use crate::transport::ptcp_laws::law_wire_length;
use crate::tunnel::{
    acknowledge, after_read_error, after_write, counted_in, counted_jitter, counted_out, dh_writer,
    jittered, total_bytes, DhReader, Noted, WriterNext,
};

verus! {

/// So many more, as a counter holds it.
pub open spec fn raised(n: u64, more: nat) -> int {
    (n + more) % 0x1_0000_0000_0000_0000
}

/// What goes to the camera for what a client does: a new client is bound to the port that it wants to
/// reach, one that is gone is reported as `DISC`, its bytes go as they are. Each packet continues the
/// session. Only bytes are counted, and only the end of a client ends its realm.
pub proof fn law_what_goes_to_the_camera(
    session: &mut PTCPSession,
    event: PTCPEvent,
    remote_port: u32,
    health: &mut HealthCounters,
    r: (PTCPPacket, Option<u32>),
)
    requires
        call_ensures(dh_writer, (session, event, remote_port, health), r),
    ensures
        r.0@.body == match event {
            PTCPEvent::Heartbeat => Body::Heartbeat,
            PTCPEvent::Connect(realm) => Body::Bind(realm, remote_port),
            PTCPEvent::Disconnect(realm) => Body::Status(realm, "DISC"@),
            PTCPEvent::Data(realm, data) => Body::Payload(realm, data@),
        },
        r.1 == match event {
            PTCPEvent::Disconnect(realm) => Some(realm),
            _ => None,
        },
        r.0@.sent == old(session).sent,
        r.0@.recv == old(session).recv,
        r.0@.lmid == old(session).id,
        r.0@.rmid == old(session).rmid,
        r.0@.pid == 0xFFFF - old(session).count % 0x1_0000,
        final(session).sent == (old(session).sent + body_wire(r.0@.body).len()) % 0x1_0000_0000,
        final(session).id == (old(session).id + 1) % 0x1_0000_0000,
        final(session).count == (old(session).count + 1) % 0x1_0000_0000,
        final(session).recv == old(session).recv,
        final(session).rmid == old(session).rmid,
        *final(health) == *old(health) || event is Data,
        event matches PTCPEvent::Data(_, data) ==> {
            &&& final(health).bytes_to_device == raised(old(health).bytes_to_device, data@.len())
            &&& final(health).packets_to_device == one_more(old(health).packets_to_device)
            &&& *final(health) == (HealthCounters {
                bytes_to_device: final(health).bytes_to_device,
                packets_to_device: final(health).packets_to_device,
                ..*old(health)
            })
        },
{
    law_wire_length(r.0@.body);
}

/// A camera that refuses what is sent ends the run, to be restarted, and the clients stay as they
/// are. After any other outcome the tunnel goes on, and a realm that is over is gone.
pub proof fn law_only_a_refusal_ends_the_run<W>(
    table: &mut RealmTable<W>,
    over: Option<u32>,
    failure: Option<ErrorKind>,
    next: WriterNext<W>,
)
    requires
        call_ensures(after_write::<W>, (table, over, failure), next),
        old(table).wf(),
    ensures
        failure == Some(ErrorKind::ConnectionRefused) <==> next is End,
        next matches WriterNext::End(reason) ==> reason == ShutdownReason::Restart && final(table)@
            == old(table)@,
        next is Go ==> match over {
            Some(realm) => {
                &&& !final(table)@.open.contains_key(realm)
                &&& !final(table)@.waiters.contains_key(realm)
                &&& old(table)@.open.contains_key(realm) ==> {
                    let lane = old(table)@.open[realm];
                    &&& final(table)@.lanes[lane].channel.closed
                    &&& final(table)@.lanes[lane].channel.queue
                        == old(table)@.lanes[lane].channel.queue
                }
                &&& forall|other: u32|
                    #![trigger final(table)@.open.contains_key(other)]
                    other != realm && old(table)@.open.contains_key(other) ==> {
                        &&& final(table)@.open.contains_key(other)
                        &&& final(table)@.open[other] == old(table)@.open[other]
                        &&& final(table)@.lanes[old(table)@.open[other]]
                            == old(table)@.lanes[old(table)@.open[other]]
                    }
            },
            None => final(table)@ == old(table)@,
        },
{
}

/// Only a dead connection ends the run after a read: one that was reset or that is not there.
pub proof fn law_only_a_dead_connection_ends_the_run(
    e: &PTCPReadError,
    reason: Option<ShutdownReason>,
)
    requires
        call_ensures(after_read_error, (e,), reason),
    ensures
        reason is Some ==> reason == Some(ShutdownReason::Restart),
        *e is Malformed ==> reason is None,
        *e matches PTCPReadError::Io(f) ==> (reason is Some <==> f.kind
            == ErrorKind::ConnectionReset || f.kind == ErrorKind::NotConnected),
{
}

/// Every packet that carries something is acknowledged by an empty one, which tells how far it
/// reached and repeats its number. One that carries nothing is noted and not acknowledged.
pub proof fn law_packets_are_acknowledged(
    session: &mut PTCPSession,
    packet: PTCPPacket,
    r: (PTCPPacket, Option<PTCPPacket>),
)
    requires
        call_ensures(acknowledge, (session, packet), r),
    ensures
        r.0 == packet,
        r.1 is None <==> packet@.body is Empty,
        final(session).recv == (packet@.sent + body_wire(packet@.body).len()) % 0x1_0000_0000,
        final(session).rmid == packet@.lmid,
        final(session).sent == old(session).sent,
        final(session).count == old(session).count,
        r.1 is None ==> final(session).id == old(session).id,
        r.1 matches Some(ack) ==> {
            &&& ack@.body is Empty
            &&& ack@.recv == (packet@.sent + body_wire(packet@.body).len()) % 0x1_0000_0000
            &&& ack@.rmid == packet@.lmid
            &&& ack@.sent == old(session).sent
            &&& ack@.lmid == old(session).id
            &&& ack@.pid == 0xFFFF - old(session).count % 0x1_0000
            &&& final(session).id == (old(session).id + 1) % 0x1_0000_0000
        },
{
    law_wire_length(packet@.body);
    law_wire_length(Body::Empty);
}

/// What the camera says of a realm. `CONN` calls whoever waits for the realm, and the realm stays as
/// it is; what begins with `DISC` hangs it up; anything else is only reported. Packets without status
/// or payload change nothing.
#[verifier::rlimit(40)]
pub proof fn law_statuses_are_acted_on<W>(
    reader: &mut DhReader,
    table: &mut RealmTable<W>,
    health: &mut HealthCounters,
    seq: u32,
    body: PTCPBody,
    now: u128,
    note: Noted<W>,
)
    requires
        call_ensures(DhReader::act::<W>, (reader, table, health, seq, body, now), note),
        !(body is Payload),
        old(table).wf(),
    ensures
        final(reader)@ == old(reader)@,
        *final(health) == *old(health),
        !(body is Status) ==> note is Nothing && final(table)@ == old(table)@,
        body matches PTCPBody::Status(realm, status) ==> if status@ == "CONN"@ {
            &&& note matches Noted::Ready(r, waiter) && r == realm && (waiter is Some
                <==> old(table)@.waiters.contains_key(realm)) && (waiter matches Some(w) ==> w
                == old(table)@.waiters[realm])
            &&& !final(table)@.waiters.contains_key(realm)
            &&& final(table)@.open == old(table)@.open
            &&& final(table)@.lanes == old(table)@.lanes
            &&& forall|other: u32|
                #![trigger final(table)@.waiters.contains_key(other)]
                other != realm && old(table)@.waiters.contains_key(other)
                    ==> final(table)@.waiters.contains_key(other)
                    && final(table)@.waiters[other] == old(table)@.waiters[other]
        } else if begins(status@, "DISC"@) {
            &&& note == Noted::<W>::Over(realm, old(table)@.open.contains_key(realm))
            &&& !final(table)@.open.contains_key(realm)
            &&& final(table)@.waiters == old(table)@.waiters
            &&& old(table)@.open.contains_key(realm) ==> {
                let lane = old(table)@.open[realm];
                &&& final(table)@.lanes[lane].channel.closed
                &&& final(table)@.lanes[lane].channel.queue
                    == old(table)@.lanes[lane].channel.queue
            }
            &&& forall|other: u32|
                #![trigger final(table)@.open.contains_key(other)]
                other != realm && old(table)@.open.contains_key(other) ==> {
                    &&& final(table)@.open.contains_key(other)
                    &&& final(table)@.open[other] == old(table)@.open[other]
                    &&& final(table)@.lanes[old(table)@.open[other]]
                        == old(table)@.lanes[old(table)@.open[other]]
                }
        } else {
            &&& note matches Noted::Status(r, s) && r == realm && s@ == status@
            &&& final(table)@ == old(table)@
        },
{
    if let PTCPBody::Status(realm, status) = body {
        let text = status@;
        let disc = "DISC"@;
        if begins(text, disc) {
            assert(text.take(disc.len() as int) =~= disc);
        }
        if starts_with(text, disc) {
            assert forall|i: int| 0 <= i < disc.len() implies text[i] == #[trigger] disc[i] by {
                assert(text.take(disc.len() as int)[i] == disc[i]);
            }
        }
    }
}

/// The counters tell how many payloads came from the camera, and how many bytes in them.
pub open spec fn counts_arrival(h: HealthCounters, g: HealthCounters, data: Seq<u8>) -> bool {
    &&& g.bytes_from_device == raised(h.bytes_from_device, data.len())
    &&& g.packets_from_device == one_more(h.packets_from_device)
}

/// Without a jitter buffer every payload goes at once to the lane of its realm, if that is open and
/// has room: it is the last in line there. It is counted whether or not.
pub proof fn law_payloads_pass_through<W>(
    reader: &mut DhReader,
    table: &mut RealmTable<W>,
    health: &mut HealthCounters,
    seq: u32,
    body: PTCPBody,
    now: u128,
    note: Noted<W>,
    realm: u32,
    data: Seq<u8>,
)
    requires
        call_ensures(DhReader::act::<W>, (reader, table, health, seq, body, now), note),
        body@ == Body::Payload(realm, data),
        old(table).wf(),
        old(reader)@.jitter is None,
    ensures
        note == Noted::<W>::Payload(realm),
        final(reader)@ == old(reader)@,
        counts_arrival(*old(health), *final(health), data),
        final(table)@.open == old(table)@.open,
        final(table)@.waiters == old(table)@.waiters,
        !old(table)@.open.contains_key(realm) ==> final(table)@ == old(table)@,
        old(table)@.open.contains_key(realm) && has_room(
            old(table)@.lanes[old(table)@.open[realm]],
            old(reader)@.capacity as nat,
            old(reader)@.drop_policy,
        ) ==> {
            let id = old(table)@.open[realm];
            &&& line(final(table)@.lanes[id]) == line(old(table)@.lanes[id]).push(data)
            &&& final(health).drops_newest == old(health).drops_newest
            &&& final(health).drops_oldest == old(health).drops_oldest
        },
{
    let r = old(reader)@;
    let t = old(table)@;
    let h = *old(health);
    let h1 = counted_in(h, data, false);
    let fs = seq![(realm, data)];
    assert(fs.drop_last() =~= Seq::empty());
    assert(routed_all(t, h1, fs.drop_last(), r.capacity as nat, r.drop_policy) == (t, h1));
    assert(fs.last() == (realm, data));
    if t.open.contains_key(realm) {
        law_a_frame_reaches_its_lane(t, h1, realm, data, r.capacity as nat, r.drop_policy);
    }
}

/// With a jitter buffer a payload goes into it, with its number and the time; what leaves it goes to
/// the lanes, in the order in which it leaves. Everything is counted: what came, what left, what came
/// too late, and how many packets are held at most.
#[verifier::rlimit(40)]
pub proof fn law_payloads_are_buffered<W>(
    reader: &mut DhReader,
    table: &mut RealmTable<W>,
    health: &mut HealthCounters,
    seq: u32,
    body: PTCPBody,
    now: u128,
    note: Noted<W>,
    realm: u32,
    data: Seq<u8>,
) -> (out: Seq<(u32, Seq<u8>)>)
    requires
        call_ensures(DhReader::act::<W>, (reader, table, health, seq, body, now), note),
        body@ == Body::Payload(realm, data),
        old(reader)@.jitter is Some,
    ensures
        note == Noted::<W>::Payload(realm),
        final(reader)@.jitter is Some,
        final(reader)@.capacity == old(reader)@.capacity,
        final(reader)@.drop_policy == old(reader)@.drop_policy,
        inserted(
            old(reader)@.jitter->0,
            Arrival { realm, seq, data, at: now as nat },
            final(reader)@.jitter->0,
            out,
        ),
        old(reader)@.last_late_dropped == old(reader)@.jitter->0.late_dropped
            && final(reader)@.jitter->0.late_dropped <= u64::MAX
            ==> final(reader)@.last_late_dropped == final(reader)@.jitter->0.late_dropped,
        exists|h: HealthCounters|
            {
                &&& (final(table)@, *final(health)) == #[trigger] routed_all(
                    old(table)@,
                    h,
                    out,
                    old(reader)@.capacity as nat,
                    old(reader)@.drop_policy,
                )
                &&& counts_arrival(*old(health), h, data)
                &&& h.jitter_in_packets == one_more(old(health).jitter_in_packets)
                &&& h.jitter_in_bytes == raised(old(health).jitter_in_bytes, data.len())
                &&& h.jitter_out_packets == raised(old(health).jitter_out_packets, out.len())
                &&& h.jitter_out_bytes == raised(old(health).jitter_out_bytes, total_bytes(out))
                &&& final(reader)@.jitter->0.queue.len() <= u64::MAX ==> {
                    &&& h.jitter_max_depth >= old(health).jitter_max_depth
                    &&& h.jitter_max_depth >= final(reader)@.jitter->0.queue.len()
                    &&& h.jitter_max_depth == old(health).jitter_max_depth || h.jitter_max_depth
                        == final(reader)@.jitter->0.queue.len()
                }
                &&& old(reader)@.last_late_dropped == old(reader)@.jitter->0.late_dropped
                    ==> h.jitter_late_drops == raised(
                    old(health).jitter_late_drops,
                    (final(reader)@.jitter->0.late_dropped
                        - old(reader)@.jitter->0.late_dropped) as nat,
                )
                &&& h.drops_newest == old(health).drops_newest
                &&& h.drops_oldest == old(health).drops_oldest
                &&& h.bytes_to_device == old(health).bytes_to_device
                &&& h.packets_to_device == old(health).packets_to_device
            },
{
    let r = old(reader)@;
    let s = r.jitter->0;
    let p = Arrival { realm, seq, data, at: now as nat };
    let (s1, out) = jittered(s, p);
    let h1 = counted_in(*old(health), data, true);
    let h2 = counted_jitter(h1, r.last_late_dropped, s1);
    let h3 = counted_out(h2, out);
    assert((final(table)@, *final(health)) == routed_all(
        old(table)@,
        h3,
        out,
        r.capacity as nat,
        r.drop_policy,
    ));
    out
}

/// What is held back for long enough goes to the lanes when the clock ticks, in the order in which it
/// is held; nothing else does.
pub proof fn law_ticks_let_frames_go<W>(
    reader: &mut DhReader,
    table: &mut RealmTable<W>,
    health: &mut HealthCounters,
    now: u128,
) -> (gone: Seq<Arrival>)
    requires
        call_ensures(DhReader::tick::<W>, (reader, table, health, now), ()),
        old(reader)@.jitter is Some,
    ensures
        final(reader)@.jitter is Some,
        gone + final(reader)@.jitter->0.queue == old(reader)@.jitter->0.queue,
        forall|i: int|
            0 <= i < gone.len() && old(reader)@.jitter->0.max_delay > 0 ==> (#[trigger] gone[i]).at
                + old(reader)@.jitter->0.max_delay <= now,
        final(reader)@.jitter->0.queue.len() > 0 ==> now < final(reader)@.jitter->0.queue[0].at
            + old(reader)@.jitter->0.max_delay,
        exists|h: HealthCounters, out: Seq<(u32, Seq<u8>)>|
            {
                &&& (final(table)@, *final(health)) == #[trigger] routed_all(
                    old(table)@,
                    h,
                    out,
                    old(reader)@.capacity as nat,
                    old(reader)@.drop_policy,
                )
                &&& has_left(gone, out, now as nat, old(reader)@.jitter->0.max_delay)
                &&& h.jitter_out_packets == raised(old(health).jitter_out_packets, gone.len())
                &&& h.jitter_out_bytes == raised(old(health).jitter_out_bytes, total_bytes(out))
            },
{
    let s = old(reader)@.jitter->0;
    let gone = law_only_time_lets_packets_leave(s, now as nat);
    let out = flushed_frames(s, now as nat);
    let h = counted_out(*old(health), out);
    assert((final(table)@, *final(health)) == routed_all(
        old(table)@,
        h,
        out,
        old(reader)@.capacity as nat,
        old(reader)@.drop_policy,
    ));
    assert forall|i: int| 0 <= i < gone.len() && s.max_delay > 0 implies (#[trigger] gone[i]).at
        + s.max_delay <= now by {
        assert(out[i] == (gone[i].realm, gone[i].data));
    }
    gone
}

/// At the end of a run everything that is still held back goes to the lanes, in the order in which it
/// is held, and nothing stays.
pub proof fn law_the_end_lets_everything_go<W>(
    reader: &mut DhReader,
    table: &mut RealmTable<W>,
    health: &mut HealthCounters,
    stats: Option<String>,
)
    requires
        call_ensures(DhReader::finish::<W>, (reader, table, health), stats),
    ensures
        stats is Some <==> old(reader)@.jitter is Some,
        old(reader)@.jitter is None ==> final(table)@ == old(table)@ && *final(health)
            == *old(health),
        old(reader)@.jitter matches Some(s) ==> {
            &&& final(reader)@.jitter is Some
            &&& final(reader)@.jitter->0.queue.len() == 0
            &&& exists|h: HealthCounters, out: Seq<(u32, Seq<u8>)>|
                {
                    &&& (final(table)@, *final(health)) == #[trigger] routed_all(
                        old(table)@,
                        h,
                        out,
                        old(reader)@.capacity as nat,
                        old(reader)@.drop_policy,
                    )
                    &&& out.len() == s.queue.len()
                    &&& forall|i: int|
                        0 <= i < out.len() ==> #[trigger] out[i] == (
                            s.queue[i].realm,
                            s.queue[i].data,
                        )
                    &&& h.jitter_out_packets == raised(
                        old(health).jitter_out_packets,
                        s.queue.len(),
                    )
                }
        },
{
    if let Some(s) = old(reader)@.jitter {
        let out = frames_of(s.queue);
        let h = counted_out(*old(health), out);
        assert((final(table)@, *final(health)) == routed_all(
            old(table)@,
            h,
            out,
            old(reader)@.capacity as nat,
            old(reader)@.drop_policy,
        ));
    }
}

/// The bytes of some frames are the bytes of each of them, added up.
pub proof fn law_bytes_add_up(frames: Seq<(u32, Seq<u8>)>, realm: u32, data: Seq<u8>)
    ensures
        total_bytes(Seq::empty()) == 0,
        total_bytes(frames.push((realm, data))) == total_bytes(frames) + data.len(),
{
    assert(frames.push((realm, data)).drop_last() =~= frames);
}

/// A reader with a time to hold packets for has a jitter buffer that holds them for so long; one
/// without has none.
pub proof fn law_readers_hold_for_the_time_set(
    buffer_ms: u64,
    policy: DropPolicy,
    capacity: usize,
    health: &mut HealthCounters,
    r: DhReader,
)
    requires
        call_ensures(DhReader::new, (buffer_ms, policy, capacity, health), r),
    ensures
        r@.capacity == capacity,
        r@.drop_policy == policy,
        buffer_ms == 0 ==> r@.jitter is None && *final(health) == *old(health),
        buffer_ms > 0 ==> {
            &&& r@.jitter is Some
            &&& r@.jitter->0.max_delay == buffer_ms * 1_000_000
            &&& r@.jitter->0.queue.len() == 0
            &&& r@.jitter->0.last_released is None
            &&& r@.jitter->0.late_dropped == r@.last_late_dropped
            &&& final(health).jitter_enabled
            &&& *final(health) == (HealthCounters { jitter_enabled: true, ..*old(health) })
        },
{
}

} // verus!
