//! The traffic of a tunnel: what goes to the camera, and what comes from it.
use vstd::prelude::*;

use crate::buffer::{
    accepts, admitted, flushed, flushed_frames, frames, frames_of, stats_text, JitterBuffer,
    JitterState, Packet as Arrival,
};
use crate::config::DropPolicy;
use crate::error::ErrorKind;
use crate::health::{update_max, wrapped, HealthCounters};
use crate::realms::{disconnected, hung_up, routed_all, RealmTable, Removed, Table};
use crate::shutdown::ShutdownReason;
use crate::text::{copy, has_prefix, same, starts_with, to_chars};
use crate::time::{Duration, NANOS_PER_MILLI};
use crate::transport::ptcp::{
    after_recv, after_send, next_packet, Body, Event, PTCPBody, PTCPEvent, PTCPPacket,
    PTCPPayload, PTCPReadError, PTCPSession, Packet,
};

verus! {

/// What goes to the camera for an event.
pub open spec fn event_body(e: Event, remote_port: u32) -> Body {
    match e {
        Event::Heartbeat => Body::Heartbeat,
        Event::Connect(realm) => Body::Bind(realm, remote_port),
        Event::Disconnect(realm) => Body::Status(realm, "DISC"@),
        Event::Data(realm, data) => Body::Payload(realm, data),
    }
}

/// The counters after an event has gone out.
pub open spec fn counted_event(h: HealthCounters, e: Event) -> HealthCounters {
    match e {
        Event::Data(_, data) => HealthCounters {
            bytes_to_device: wrapped(h.bytes_to_device, data.len()),
            packets_to_device: wrapped(h.packets_to_device, 1),
            ..h
        },
        _ => h,
    }
}

/// Makes the packet for an event, and counts it. Tells which realm is over once it is sent.
pub fn dh_writer(
    session: &mut PTCPSession,
    event: PTCPEvent,
    remote_port: u32,
    health: &mut HealthCounters,
) -> (r: (PTCPPacket, Option<u32>))
    ensures
        r.0@ == next_packet(*old(session), event_body(event@, remote_port)),
        *final(session) == after_send(*old(session), event_body(event@, remote_port)),
        *final(health) == counted_event(*old(health), event@),
        r.1 == match event@ {
            Event::Disconnect(realm) => Some(realm),
            _ => None,
        },
{
    match event {
        PTCPEvent::Heartbeat => (session.send(PTCPBody::Heartbeat), None),
        PTCPEvent::Connect(realm) => (session.send(PTCPBody::Bind(realm, remote_port)), None),
        PTCPEvent::Disconnect(realm) => (
            session.send(PTCPBody::Status(realm, copy("DISC"))),
            Some(realm),
        ),
        PTCPEvent::Data(realm, data) => {
            health.bytes_to_device = health.bytes_to_device.wrapping_add(data.len() as u64);
            health.packets_to_device = health.packets_to_device.wrapping_add(1);
            (session.send(PTCPBody::Payload(PTCPPayload { realm, data })), None)
        },
    }
}

/// What follows an attempt to send.
pub enum WriterNext<W> {
    /// Go on. Where a realm was over, what was taken away with it.
    Go(Option<Removed<W>>),
    /// The camera refuses what is sent: the run ends, to be restarted.
    End(ShutdownReason),
}

/// What follows an attempt to send. A refused connection ends the run; any other failure is passed
/// over. A realm that is over is forgotten then.
pub fn after_write<W>(
    table: &mut RealmTable<W>,
    over: Option<u32>,
    failure: Option<ErrorKind>,
) -> (next: WriterNext<W>)
    requires
        old(table).wf(),
    ensures
        final(table).wf(),
        next is End <==> failure == Some(ErrorKind::ConnectionRefused),
        next matches WriterNext::End(reason) ==> reason == ShutdownReason::Restart,
        next is End ==> final(table)@ == old(table)@,
        next matches WriterNext::Go(removed) ==> match over {
            Some(realm) => {
                &&& final(table)@ == disconnected(old(table)@, realm)
                &&& removed matches Some(r) && r.lane == old(table)@.open.contains_key(realm)
                    && r.waiter == (if old(table)@.waiters.contains_key(realm) {
                    Some(old(table)@.waiters[realm])
                } else {
                    None
                })
            },
            None => removed is None && final(table)@ == old(table)@,
        },
{
    match failure {
        Some(ErrorKind::ConnectionRefused) => WriterNext::End(ShutdownReason::Restart),
        _ => match over {
            Some(realm) => WriterNext::Go(Some(table.disconnect(realm))),
            None => WriterNext::Go(None),
        },
    }
}

/// Why the run ends after a read failed, if it does: only a dead connection ends it.
pub fn after_read_error(e: &PTCPReadError) -> (reason: Option<ShutdownReason>)
    ensures
        reason == match *e {
            PTCPReadError::Io(f) => if f.kind == ErrorKind::ConnectionReset || f.kind
                == ErrorKind::NotConnected {
                Some(ShutdownReason::Restart)
            } else {
                None
            },
            PTCPReadError::Malformed(_) => None,
        },
{
    if e.is_fatal() {
        Some(ShutdownReason::Restart)
    } else {
        None
    }
}

/// Takes note of a packet that has come, and makes the acknowledgement. One that carries nothing is
/// not acknowledged.
pub fn acknowledge(session: &mut PTCPSession, packet: PTCPPacket) -> (r: (
    PTCPPacket,
    Option<PTCPPacket>,
))
    ensures
        r.0 == packet,
        ({
            let noted = after_recv(*old(session), packet@);
            if packet@.body is Empty {
                r.1 is None && *final(session) == noted
            } else {
                r.1 is Some && r.1->0@ == next_packet(noted, Body::Empty) && *final(session)
                    == after_send(noted, Body::Empty)
            }
        }),
{
    let packet = session.recv(packet);
    match packet.body {
        PTCPBody::Empty => (packet, None),
        _ => {
            let ack = session.send(PTCPBody::Empty);
            (packet, Some(ack))
        },
    }
}

/// How many bytes some frames have.
pub open spec fn total_bytes(frames: Seq<(u32, Seq<u8>)>) -> nat
    decreases frames.len(),
{
    if frames.len() == 0 {
        0
    } else {
        total_bytes(frames.drop_last()) + frames.last().1.len()
    }
}

/// The counters after some frames have left the jitter buffer.
pub open spec fn counted_out(h: HealthCounters, frames: Seq<(u32, Seq<u8>)>) -> HealthCounters {
    HealthCounters {
        jitter_out_packets: wrapped(h.jitter_out_packets, frames.len()),
        jitter_out_bytes: wrapped(h.jitter_out_bytes, total_bytes(frames)),
        ..h
    }
}

/// What comes from the camera and is on its way to the clients.
pub struct DhReader {
    jitter: Option<JitterBuffer>,
    last_late_dropped: u64,
    drop_policy: DropPolicy,
    capacity: usize,
}

/// What is on its way, as contracts speak of it.
pub struct Incoming {
    pub jitter: Option<JitterState>,
    pub last_late_dropped: u64,
    pub drop_policy: DropPolicy,
    pub capacity: usize,
}

impl View for DhReader {
    type V = Incoming;

    closed spec fn view(&self) -> Incoming {
        Incoming {
            jitter: match self.jitter {
                Some(jb) => Some(jb@),
                None => None,
            },
            last_late_dropped: self.last_late_dropped,
            drop_policy: self.drop_policy,
            capacity: self.capacity,
        }
    }
}

/// The jitter buffer after a packet has come, and what leaves it.
pub open spec fn jittered(s: JitterState, p: Arrival) -> (JitterState, Seq<(u32, Seq<u8>)>) {
    if accepts(s, p.seq) {
        (flushed(admitted(s, p), p.at), flushed_frames(admitted(s, p), p.at))
    } else {
        (admitted(s, p), Seq::empty())
    }
}

/// The counters after a payload has come.
pub open spec fn counted_in(h: HealthCounters, data: Seq<u8>, buffered: bool) -> HealthCounters {
    let h1 = HealthCounters {
        bytes_from_device: wrapped(h.bytes_from_device, data.len()),
        packets_from_device: wrapped(h.packets_from_device, 1),
        ..h
    };
    if buffered {
        HealthCounters {
            jitter_in_packets: wrapped(h.jitter_in_packets, 1),
            jitter_in_bytes: wrapped(h.jitter_in_bytes, data.len()),
            ..h1
        }
    } else {
        h1
    }
}

/// The counters after the jitter buffer has taken a packet in: what came too late, and how deep it
/// has been.
pub open spec fn counted_jitter(h: HealthCounters, last_late: u64, s: JitterState) -> HealthCounters {
    HealthCounters {
        jitter_late_drops: if s.late_dropped > last_late {
            wrapped(h.jitter_late_drops, (s.late_dropped - last_late) as nat)
        } else {
            h.jitter_late_drops
        },
        jitter_max_depth: if s.queue.len() > h.jitter_max_depth {
            s.queue.len() as u64
        } else {
            h.jitter_max_depth
        },
        ..h
    }
}

/// What a payload does to everything.
pub open spec fn payload_came<W>(
    r: Incoming,
    t: Table<W>,
    h: HealthCounters,
    seq: u32,
    realm: u32,
    data: Seq<u8>,
    now: nat,
) -> (Incoming, Table<W>, HealthCounters) {
    let h1 = counted_in(h, data, r.jitter is Some);
    match r.jitter {
        Some(s) => {
            let (s1, out) = jittered(s, Arrival { realm, seq, data, at: now });
            let h2 = counted_jitter(h1, r.last_late_dropped, s1);
            let r1 = Incoming {
                jitter: Some(s1),
                last_late_dropped: if s1.late_dropped > r.last_late_dropped {
                    s1.late_dropped as u64
                } else {
                    r.last_late_dropped
                },
                ..r
            };
            let h3 = counted_out(h2, out);
            let (t1, h4) = routed_all(t, h3, out, r.capacity as nat, r.drop_policy);
            (r1, t1, h4)
        },
        None => {
            let (t1, h2) = routed_all(
                t,
                h1,
                seq![(realm, data)],
                r.capacity as nat,
                r.drop_policy,
            );
            (r, t1, h2)
        },
    }
}

/// Whether a status says that a realm is over.
pub open spec fn says_disconnected(status: Seq<char>) -> bool {
    starts_with(status, "DISC"@)
}

/// What a packet from the camera meant.
pub enum Noted<W> {
    /// A realm is ready: who waited for it, if anyone did.
    Ready(u32, Option<W>),
    /// A realm is over: whether it was open.
    Over(u32, bool),
    /// Some other status of a realm.
    Status(u32, String),
    /// A payload went on its way.
    Payload(u32),
    /// Nothing to do.
    Nothing,
}

fn byte_count(packets: &Vec<(u32, Vec<u8>)>) -> (n: u64)
    ensures
        n == wrapped(0, total_bytes(frames(packets@))),
{
    let ghost fs = frames(packets@);
    let mut n: u64 = 0;
    let mut i: usize = 0;
    assert(fs.take(0) =~= Seq::empty());
    while i < packets.len()
        invariant
            i <= packets.len(),
            fs == frames(packets@),
            n == wrapped(0, total_bytes(fs.take(i as int))),
        decreases packets.len() - i,
    {
        let len: u64 = packets[i].1.len() as u64;
        proof {
            let next = fs.take(i + 1);
            assert(next.drop_last() =~= fs.take(i as int));
            assert(next.last() == fs[i as int]);
            assert(fs[i as int] == (packets@[i as int].0, packets@[i as int].1@));
            assert(total_bytes(next) == total_bytes(fs.take(i as int)) + len);
        }
        n = n.wrapping_add(len);
        i = i + 1;
    }
    assert(fs.take(i as int) =~= fs);
    n
}

fn count_out(health: &mut HealthCounters, packets: &Vec<(u32, Vec<u8>)>)
    ensures
        *final(health) == counted_out(*old(health), frames(packets@)),
{
    let bytes: u64 = byte_count(packets);
    health.jitter_out_packets = health.jitter_out_packets.wrapping_add(packets.len() as u64);
    health.jitter_out_bytes = health.jitter_out_bytes.wrapping_add(bytes);
}

impl DhReader {
    /// The jitter buffer is in order.
    pub closed spec fn wf(&self) -> bool {
        self.jitter matches Some(jb) ==> jb.wf()
    }

    /// A reader with a jitter buffer of so many milliseconds, or with none for zero.
    pub fn new(
        buffer_ms: u64,
        drop_policy: DropPolicy,
        capacity: usize,
        health: &mut HealthCounters,
    ) -> (r: DhReader)
        ensures
            r.wf(),
            r@ == (Incoming {
                jitter: if buffer_ms > 0 {
                    Some(
                        JitterState {
                            queue: Seq::empty(),
                            last_released: None,
                            max_delay: (buffer_ms * NANOS_PER_MILLI) as nat,
                            packets_in: 0,
                            packets_out: 0,
                            late_dropped: 0,
                            wraparounds: 0,
                            crossing: false,
                        },
                    )
                } else {
                    None
                },
                last_late_dropped: 0,
                drop_policy,
                capacity,
            }),
            *final(health) == (HealthCounters {
                jitter_enabled: buffer_ms > 0 || old(health).jitter_enabled,
                ..*old(health)
            }),
    {
        let jitter = if buffer_ms > 0 {
            health.jitter_enabled = true;
            Some(JitterBuffer::new(Duration::from_millis(buffer_ms)))
        } else {
            None
        };
        DhReader { jitter, last_late_dropped: 0, drop_policy, capacity }
    }

    /// Whether frames are held back to be put in order.
    pub fn is_buffering(&self) -> (b: bool)
        ensures
            b == (self@.jitter is Some),
    {
        self.jitter.is_some()
    }

    /// Whether another payload can be taken in: the jitter buffer counts them.
    pub fn has_room(&self) -> (b: bool)
        ensures
            b == (self@.jitter matches Some(s) ==> s.packets_in < u64::MAX),
    {
        match &self.jitter {
            Some(jb) => jb.has_room(),
            None => true,
        }
    }

    /// Sends a payload on its way. `now` is the time in nanoseconds, on the clock of `tick`.
    pub fn payload<W>(
        &mut self,
        table: &mut RealmTable<W>,
        health: &mut HealthCounters,
        seq: u32,
        payload: PTCPPayload,
        now: u128,
    )
        requires
            old(self).wf(),
            old(table).wf(),
            old(self)@.jitter matches Some(s) ==> s.packets_in < u64::MAX,
        ensures
            final(self).wf(),
            final(table).wf(),
            (final(self)@, final(table)@, *final(health)) == payload_came(
                old(self)@,
                old(table)@,
                *old(health),
                seq,
                payload.realm,
                payload.data@,
                now as nat,
            ),
    {
        let ghost r0 = self@;
        let ghost h0 = *health;
        let realm: u32 = payload.realm;
        let len: u64 = payload.data.len() as u64;
        health.bytes_from_device = health.bytes_from_device.wrapping_add(len);
        health.packets_from_device = health.packets_from_device.wrapping_add(1);
        let mut jitter: Option<JitterBuffer> = None;
        std::mem::swap(&mut jitter, &mut self.jitter);
        match jitter {
            Some(mut buffer) => {
                health.jitter_in_packets = health.jitter_in_packets.wrapping_add(1);
                health.jitter_in_bytes = health.jitter_in_bytes.wrapping_add(len);
                let ready = buffer.insert_at(seq, realm, payload.data, now);
                let late_now: u64 = buffer.late_dropped();
                if late_now > self.last_late_dropped {
                    health.jitter_late_drops = health.jitter_late_drops.wrapping_add(
                        late_now - self.last_late_dropped,
                    );
                    self.last_late_dropped = late_now;
                }
                let depth: u64 = buffer.buffered_len() as u64;
                update_max(&mut health.jitter_max_depth, depth);
                self.jitter = Some(buffer);
                count_out(health, &ready);
                table.send_to_clients(ready, self.drop_policy, self.capacity, health);
            },
            None => {
                let mut packets: Vec<(u32, Vec<u8>)> = Vec::new();
                packets.push((realm, payload.data));
                assert(frames(packets@) =~= seq![(realm, payload.data@)]);
                table.send_to_clients(packets, self.drop_policy, self.capacity, health);
            },
        }
    }

    /// Acts on what a packet from the camera carries. `seq` is where the packet stands in what the
    /// camera has sent.
    pub fn act<W>(
        &mut self,
        table: &mut RealmTable<W>,
        health: &mut HealthCounters,
        seq: u32,
        body: PTCPBody,
        now: u128,
    ) -> (note: Noted<W>)
        requires
            old(self).wf(),
            old(table).wf(),
            old(self)@.jitter matches Some(s) ==> s.packets_in < u64::MAX,
        ensures
            final(self).wf(),
            final(table).wf(),
            match body@ {
                Body::Status(realm, status) => {
                    &&& final(self)@ == old(self)@
                    &&& *final(health) == *old(health)
                    &&& if status == "CONN"@ {
                        &&& final(table)@ == (Table {
                            waiters: old(table)@.waiters.remove(realm),
                            ..old(table)@
                        })
                        &&& note == Noted::Ready(
                            realm,
                            if old(table)@.waiters.contains_key(realm) {
                                Some(old(table)@.waiters[realm])
                            } else {
                                None
                            },
                        )
                    } else if says_disconnected(status) {
                        &&& final(table)@ == hung_up(old(table)@, realm)
                        &&& note == Noted::<W>::Over(realm, old(table)@.open.contains_key(realm))
                    } else {
                        &&& final(table)@ == old(table)@
                        &&& note matches Noted::Status(r, s) && r == realm && s@ == status
                    }
                },
                Body::Payload(realm, data) => {
                    &&& (final(self)@, final(table)@, *final(health)) == payload_came(
                        old(self)@,
                        old(table)@,
                        *old(health),
                        seq,
                        realm,
                        data,
                        now as nat,
                    )
                    &&& note == Noted::<W>::Payload(realm)
                },
                _ => {
                    &&& note is Nothing
                    &&& final(self)@ == old(self)@
                    &&& final(table)@ == old(table)@
                    &&& *final(health) == *old(health)
                },
            },
    {
        match body {
            PTCPBody::Status(realm, status) => {
                let text = to_chars(status.as_str());
                let disc = to_chars("DISC");
                if same(status.as_str(), "CONN") {
                    Noted::Ready(realm, table.take_waiter(realm))
                } else if has_prefix(text.as_slice(), disc.as_slice()) {
                    Noted::Over(realm, table.hang_up(realm))
                } else {
                    Noted::Status(realm, status)
                }
            },
            PTCPBody::Payload(payload) => {
                let realm: u32 = payload.realm;
                self.payload(table, health, seq, payload, now);
                Noted::Payload(realm)
            },
            _ => Noted::Nothing,
        }
    }

    /// Lets the frames go that have been held back for long enough.
    pub fn tick<W>(&mut self, table: &mut RealmTable<W>, health: &mut HealthCounters, now: u128)
        requires
            old(self).wf(),
            old(table).wf(),
        ensures
            final(self).wf(),
            final(table).wf(),
            match old(self)@.jitter {
                Some(s) => {
                    let out = flushed_frames(s, now as nat);
                    &&& final(self)@ == (Incoming {
                        jitter: Some(flushed(s, now as nat)),
                        ..old(self)@
                    })
                    &&& (final(table)@, *final(health)) == routed_all(
                        old(table)@,
                        counted_out(*old(health), out),
                        out,
                        old(self)@.capacity as nat,
                        old(self)@.drop_policy,
                    )
                },
                None => final(self)@ == old(self)@ && final(table)@ == old(table)@
                    && *final(health) == *old(health),
            },
    {
        let mut jitter: Option<JitterBuffer> = None;
        std::mem::swap(&mut jitter, &mut self.jitter);
        if let Some(mut buffer) = jitter {
            let ready = buffer.tick_at(now);
            self.jitter = Some(buffer);
            count_out(health, &ready);
            table.send_to_clients(ready, self.drop_policy, self.capacity, health);
        }
    }

    /// Lets every frame go at the end of the run, and reports what the jitter buffer has done.
    pub fn finish<W>(&mut self, table: &mut RealmTable<W>, health: &mut HealthCounters) -> (stats:
        Option<String>)
        requires
            old(self).wf(),
            old(table).wf(),
        ensures
            final(self).wf(),
            final(table).wf(),
            match old(self)@.jitter {
                Some(s) => {
                    let out = frames_of(s.queue);
                    let emptied = JitterState {
                        queue: Seq::empty(),
                        packets_out: s.packets_out + s.queue.len(),
                        ..s
                    };
                    &&& final(self)@ == (Incoming { jitter: Some(emptied), ..old(self)@ })
                    &&& (final(table)@, *final(health)) == routed_all(
                        old(table)@,
                        counted_out(*old(health), out),
                        out,
                        old(self)@.capacity as nat,
                        old(self)@.drop_policy,
                    )
                    &&& stats matches Some(text) && text@ == stats_text(emptied)
                },
                None => stats is None && final(self)@ == old(self)@ && final(table)@
                    == old(table)@ && *final(health) == *old(health),
            },
    {
        let mut jitter: Option<JitterBuffer> = None;
        std::mem::swap(&mut jitter, &mut self.jitter);
        match jitter {
            Some(mut buffer) => {
                let remaining = buffer.flush_all();
                let stats = buffer.log_stats();
                self.jitter = Some(buffer);
                count_out(health, &remaining);
                table.send_to_clients(remaining, self.drop_policy, self.capacity, health);
                Some(stats)
            },
            None => None,
        }
    }
}

} // verus!
