//! The jitter buffer: it holds packets for a while so that they leave in sequence order.
use std::collections::BTreeMap;

use vstd::prelude::*;
use vstd::string::StringExecFns;

use crate::seq_order::{
    after, lemma_wrapping_sub_is_offset, offset, seq_after, seq_before, seq_before_or_eq, SEQ_HALF,
};
use crate::sorted_keys::{
    count, first_key, has, increasing, keys_of, lemma_insert_position, lemma_keys_of,
    lemma_keys_of_is, lemma_position, lemma_tail_set, peek, position, put, take,
};
use crate::text::{dec, push_dec};
use crate::time::{Clock, Duration};

verus! {

/// A buffered packet: the realm it is for, its sequence number, its bytes, and when it came
/// (nanoseconds on the buffer's clock).
pub struct Held {
    pub realm: u32,
    pub seq: u32,
    pub data: Vec<u8>,
    pub at: u128,
}

/// What a buffered packet stands for.
#[verifier::ext_equal]
pub struct Packet {
    pub realm: u32,
    pub seq: u32,
    pub data: Seq<u8>,
    pub at: nat,
}

impl View for Held {
    type V = Packet;

    open spec fn view(&self) -> Packet {
        Packet { realm: self.realm, seq: self.seq, data: self.data@, at: self.at as nat }
    }
}

/// What a jitter buffer stands for.
#[verifier::ext_equal]
pub struct JitterState {
    /// The buffered packets, in the order in which they will leave.
    pub queue: Seq<Packet>,
    /// The sequence number of the packet that left last.
    pub last_released: Option<u32>,
    /// How long a packet is held, in nanoseconds.
    pub max_delay: nat,
    pub packets_in: nat,
    pub packets_out: nat,
    pub late_dropped: nat,
    pub wraparounds: nat,
    /// The last accepted packet lay across the wraparound from the last released one.
    pub crossing: bool,
}

/// Frames as they are handed out: the realm and the bytes.
pub open spec fn frames(v: Seq<(u32, Vec<u8>)>) -> Seq<(u32, Seq<u8>)> {
    v.map_values(|f: (u32, Vec<u8>)| (f.0, f.1@))
}

/// The frames of some packets.
pub open spec fn frames_of(q: Seq<Packet>) -> Seq<(u32, Seq<u8>)> {
    q.map_values(|p: Packet| (p.realm, p.data))
}

/// The offsets of the packets of `q` from `base`.
pub open spec fn offsets(q: Seq<Packet>, base: u32) -> Seq<u32> {
    q.map_values(|p: Packet| offset(p.seq, base) as u32)
}

/// The packets stand in the order of their offsets from the first of them.
pub open spec fn ordered(q: Seq<Packet>) -> bool {
    q.len() > 0 ==> increasing(offsets(q, q[0].seq))
}

/// How far the packet behind the one at `i` is from it.
pub open spec fn gap(q: Seq<Packet>, i: int) -> int {
    offset(q[i + 1].seq, q[i].seq)
}

/// No packet is more than half the sequence space ahead of the one before it.
pub open spec fn close_knit(q: Seq<Packet>) -> bool {
    forall|i: int| 0 <= i < q.len() - 1 ==> #[trigger] gap(q, i) <= SEQ_HALF
}

/// A packet with sequence number `seq` is buffered.
pub open spec fn holds(q: Seq<Packet>, seq: u32) -> bool {
    exists|i: int| 0 <= i < q.len() && q[i].seq == seq
}

/// How many packets lie nearer to the head of `q` than `seq` does.
pub open spec fn rank(q: Seq<Packet>, seq: u32) -> nat {
    position(offsets(q, q[0].seq), offset(seq, q[0].seq) as u32)
}

/// `seq` comes before every order that starts at the head of `q`, so it becomes the new head.
pub open spec fn precedes(q: Seq<Packet>, seq: u32) -> bool {
    q.len() > 0 && after(q[0].seq, seq)
}

/// The queue counted from `seq` on, where `seq` precedes it: the packets that lie between `seq`
/// and the old head move to the front. (There are none unless the queue spans half of the
/// sequence space.)
pub open spec fn turned(q: Seq<Packet>, seq: u32) -> Seq<Packet> {
    if precedes(q, seq) {
        q.skip(rank(q, seq) as int) + q.take(rank(q, seq) as int)
    } else {
        q
    }
}

/// The queue with one more packet in its place.
pub open spec fn enqueue(q: Seq<Packet>, p: Packet) -> Seq<Packet> {
    if q.len() == 0 {
        seq![p]
    } else if precedes(q, p.seq) {
        seq![p] + turned(q, p.seq)
    } else {
        q.insert(rank(q, p.seq) as int, p)
    }
}

/// A packet is late when one that does not come before it has left already.
pub open spec fn is_late(s: JitterState, seq: u32) -> bool {
    s.last_released matches Some(last) && !after(seq, last)
}

/// Whether `seq` lies across the wraparound from the last released packet.
pub open spec fn crosses(s: JitterState, seq: u32) -> bool {
    s.last_released matches Some(last) && seq < last
}

/// The state once the arrival of `seq`, which is not late, has been counted.
pub open spec fn counted(s: JitterState, seq: u32) -> JitterState {
    JitterState {
        packets_in: s.packets_in + 1,
        wraparounds: if crosses(s, seq) && !s.crossing {
            s.wraparounds + 1
        } else {
            s.wraparounds
        },
        crossing: if s.last_released is Some {
            crosses(s, seq)
        } else {
            s.crossing
        },
        ..s
    }
}

/// A packet is accepted unless it is late or its number is buffered already.
pub open spec fn accepts(s: JitterState, seq: u32) -> bool {
    !is_late(s, seq) && !holds(s.queue, seq)
}

/// The state after a packet has come in, before anything leaves.
pub open spec fn admitted(s: JitterState, p: Packet) -> JitterState {
    if is_late(s, p.seq) {
        JitterState { packets_in: s.packets_in + 1, late_dropped: s.late_dropped + 1, ..s }
    } else if holds(s.queue, p.seq) {
        JitterState { queue: turned(s.queue, p.seq), ..counted(s, p.seq) }
    } else {
        JitterState { queue: enqueue(s.queue, p), ..counted(s, p.seq) }
    }
}

/// A packet is due once it has been held for `delay`.
pub open spec fn is_due(p: Packet, now: nat, delay: nat) -> bool {
    if now >= p.at {
        now - p.at >= delay
    } else {
        delay == 0
    }
}

/// How many packets at the front of the queue are due. One that is not due holds back those
/// behind it.
pub open spec fn due(q: Seq<Packet>, now: nat, delay: nat) -> nat
    decreases q.len(),
{
    if q.len() == 0 || !is_due(q[0], now, delay) {
        0
    } else {
        1 + due(q.skip(1), now, delay)
    }
}

/// The state after the first `n` packets have left.
pub open spec fn popped(s: JitterState, n: nat) -> JitterState {
    JitterState {
        queue: s.queue.skip(n as int),
        last_released: if n > 0 {
            Some(s.queue[n - 1].seq)
        } else {
            s.last_released
        },
        packets_out: s.packets_out + n,
        ..s
    }
}

/// The state after everything that is due has left.
pub open spec fn flushed(s: JitterState, now: nat) -> JitterState {
    popped(s, due(s.queue, now, s.max_delay))
}

/// What leaves.
pub open spec fn flushed_frames(s: JitterState, now: nat) -> Seq<(u32, Seq<u8>)> {
    frames_of(s.queue.take(due(s.queue, now, s.max_delay) as int))
}

/// What taking in `p` does: the state becomes `t` and `out` leaves.
pub open spec fn inserted(
    s: JitterState,
    p: Packet,
    t: JitterState,
    out: Seq<(u32, Seq<u8>)>,
) -> bool {
    if accepts(s, p.seq) {
        t == flushed(admitted(s, p), p.at) && out == flushed_frames(admitted(s, p), p.at)
    } else {
        t == admitted(s, p) && out == Seq::<(u32, Seq<u8>)>::empty()
    }
}

/// What is reported of a buffer.
pub open spec fn stats_text(s: JitterState) -> Seq<char> {
    "JitterBuffer stats: in="@ + dec(s.packets_in) + ", out="@ + dec(s.packets_out)
        + ", dropped="@ + dec(s.late_dropped) + ", buffered="@ + dec(s.queue.len())
        + ", wraparounds="@ + dec(s.wraparounds)
}

/// Holds packets for a while so that they can be put back in order.
///
/// A packet is filed under its offset from the head's sequence number, so that the order is right
/// across the wraparound. When an earlier packet arrives the others are filed anew, relative to
/// it.
pub struct JitterBuffer {
    /// The sequence number of the head.
    pub base_seq: Option<u32>,
    buffer: BTreeMap<u32, Held>,
    /// The sequence number of the packet that left last.
    pub last_released_seq: Option<u32>,
    max_delay: Duration,
    packets_in: u64,
    packets_out: u64,
    late_dropped: u64,
    /// How many times the sequence has been seen to wrap.
    pub wraparound_count: u64,
    wraparound_crossing_active: bool,
    clock: Clock,
}

/// The packets of `m` in the order of their keys.
spec fn queue_of(m: Map<u32, Held>) -> Seq<Held> {
    keys_of(m.dom()).map_values(|k: u32| m[k])
}

spec fn held_offsets(q: Seq<Held>, base: u32) -> Seq<u32> {
    q.map_values(|h: Held| offset(h.seq, base) as u32)
}

spec fn packets(q: Seq<Held>) -> Seq<Packet> {
    q.map_values(|h: Held| h@)
}

/// `m` holds exactly the packets of `q`, each under its offset from `base`.
spec fn files(m: Map<u32, Held>, q: Seq<Held>, base: u32) -> bool {
    &&& held_offsets(q, base).to_set() == m.dom()
    &&& forall|i: int| 0 <= i < q.len() ==> #[trigger] m[offset(q[i].seq, base) as u32] == q[i]
}

proof fn lemma_files_order(m: Map<u32, Held>, q: Seq<Held>, base: u32)
    requires
        files(m, q, base),
        increasing(held_offsets(q, base)),
    ensures
        queue_of(m) == q,
        keys_of(m.dom()) == held_offsets(q, base),
{
    lemma_keys_of_is(m.dom(), held_offsets(q, base));
    assert(queue_of(m) =~= q) by {
        assert forall|i: int| 0 <= i < q.len() implies queue_of(m)[i] == q[i] by {
            assert(held_offsets(q, base)[i] == offset(q[i].seq, base) as u32);
        }
    }
}

proof fn lemma_filed(m: Map<u32, Held>, base: u32)
    requires
        m.dom().finite(),
        forall|k: u32| m.contains_key(k) ==> k == offset(#[trigger] m[k].seq, base),
    ensures
        files(m, queue_of(m), base),
        increasing(held_offsets(queue_of(m), base)),
        keys_of(m.dom()) == held_offsets(queue_of(m), base),
        queue_of(m).len() == m.dom().len(),
{
    lemma_keys_of(m.dom());
    let ks = keys_of(m.dom());
    let q = queue_of(m);
    assert forall|i: int| 0 <= i < q.len() implies ks[i] == offset(q[i].seq, base) by {
        assert(ks.to_set().contains(ks[i]));
        assert(m.contains_key(ks[i]));
    }
    assert(held_offsets(q, base) =~= ks);
}

proof fn lemma_files_insert(m: Map<u32, Held>, q: Seq<Held>, base: u32, h: Held)
    requires
        files(m, q, base),
        increasing(held_offsets(q, base)),
        !m.contains_key(offset(h.seq, base) as u32),
    ensures
        ({
            let k = offset(h.seq, base) as u32;
            let q2 = q.insert(position(held_offsets(q, base), k) as int, h);
            &&& files(m.insert(k, h), q2, base)
            &&& increasing(held_offsets(q2, base))
            &&& position(held_offsets(q, base), k) <= q.len()
        }),
{
    let k = offset(h.seq, base) as u32;
    let ks = held_offsets(q, base);
    lemma_position(ks, k);
    let p = position(ks, k) as int;
    let q2 = q.insert(p, h);
    let m2 = m.insert(k, h);
    if ks.contains(k) {
        assert(ks.to_set().contains(k));
    }
    lemma_insert_position(ks, k);
    assert(held_offsets(q2, base) =~= ks.insert(p, k));
    assert(m2.dom() =~= m.dom().insert(k));
    assert forall|i: int| 0 <= i < q2.len() implies #[trigger] m2[offset(q2[i].seq, base) as u32]
        == q2[i] by {
        if i < p {
            assert(q2[i] == q[i]);
            assert(ks[i] == offset(q[i].seq, base) as u32);
            assert(ks.contains(ks[i]));
        } else if i > p {
            assert(q2[i] == q[i - 1]);
            assert(ks[i - 1] == offset(q[i - 1].seq, base) as u32);
            assert(ks.contains(ks[i - 1]));
        }
    }
}

proof fn lemma_files_pop(m: Map<u32, Held>, q: Seq<Held>, base: u32)
    requires
        files(m, q, base),
        increasing(held_offsets(q, base)),
        q.len() > 0,
    ensures
        files(m.remove(offset(q[0].seq, base) as u32), q.skip(1), base),
        increasing(held_offsets(q.skip(1), base)),
        m.contains_key(offset(q[0].seq, base) as u32),
{
    let ks = held_offsets(q, base);
    lemma_tail_set(ks);
    let k0 = offset(q[0].seq, base) as u32;
    let t = q.skip(1);
    assert(held_offsets(t, base) =~= ks.skip(1));
    assert(ks[0] == k0);
    assert(ks.to_set().contains(ks[0]));
    let m2 = m.remove(k0);
    assert(m2.dom() =~= m.dom().remove(k0));
    assert forall|i: int| 0 <= i < t.len() implies #[trigger] m2[offset(t[i].seq, base) as u32]
        == t[i] by {
        assert(t[i] == q[i + 1]);
        assert(ks[i + 1] == offset(q[i + 1].seq, base) as u32);
        assert(ks[0] < ks[i + 1]);
    }
}

/// Counting from `new_base` instead of `base` turns the order round.
proof fn lemma_turn(q: Seq<Held>, base: u32, new_base: u32, k: int)
    requires
        increasing(held_offsets(q, base)),
        k == position(held_offsets(q, base), offset(new_base, base) as u32),
    ensures
        increasing(held_offsets(q.skip(k) + q.take(k), new_base)),
        held_offsets(q.skip(k) + q.take(k), new_base).to_set() == held_offsets(
            q,
            new_base,
        ).to_set(),
        0 <= k <= q.len(),
{
    let ks = held_offsets(q, base);
    let d = offset(new_base, base) as u32;
    lemma_position(ks, d);
    let t = q.skip(k) + q.take(k);
    let js = held_offsets(t, new_base);
    assert forall|i: int| 0 <= i < t.len() implies js[i] == (if i < q.len() - k {
        ks[i + k] - d
    } else {
        ks[i + k - q.len()] - d + 0x1_0000_0000
    }) by {
        if i < q.len() - k {
            assert(t[i] == q[i + k]);
        } else {
            assert(t[i] == q[i + k - q.len()]);
        }
    }
    let os = held_offsets(q, new_base);
    assert forall|x: u32| js.to_set().contains(x) == os.to_set().contains(x) by {
        if js.contains(x) {
            let i = choose|i: int| 0 <= i < js.len() && js[i] == x;
            if i < q.len() - k {
                assert(os[i + k] == x);
            } else {
                assert(os[i + k - q.len()] == x);
            }
        }
        if os.contains(x) {
            let i = choose|i: int| 0 <= i < os.len() && os[i] == x;
            if i >= k {
                assert(js[i - k] == x);
            } else {
                assert(js[i - k + q.len()] == x);
            }
        }
    }
    assert(js.to_set() =~= os.to_set());
}

impl View for JitterBuffer {
    type V = JitterState;

    closed spec fn view(&self) -> JitterState {
        JitterState {
            queue: packets(queue_of(self.buffer@)),
            last_released: self.last_released_seq,
            max_delay: self.max_delay.nanos(),
            packets_in: self.packets_in as nat,
            packets_out: self.packets_out as nat,
            late_dropped: self.late_dropped as nat,
            wraparounds: self.wraparound_count as nat,
            crossing: self.wraparound_crossing_active,
        }
    }
}

impl JitterBuffer {
    /// Every packet is filed under its offset from `base`.
    spec fn filed(&self, base: u32) -> bool {
        forall|k: u32|
            self.buffer@.contains_key(k) ==> k == offset(#[trigger] self.buffer@[k].seq, base)
    }

    /// The packets are filed relative to the head, none is more than half the sequence space ahead
    /// of the one before it, and no more packets have gone than have come.
    pub closed spec fn wf(&self) -> bool {
        &&& self.buffer@.dom().finite()
        &&& match self.base_seq {
            Some(base) => self.filed(base) && self.buffer@.contains_key(0),
            None => self.buffer@.dom().len() == 0,
        }
        &&& self.packets_out + self.late_dropped + self.buffer@.dom().len() <= self.packets_in
        &&& self.wraparound_count <= self.packets_in
        &&& close_knit(self@.queue)
    }

    /// Everything but the filing is as in `other`.
    spec fn same_record(&self, other: &JitterBuffer) -> bool {
        &&& self.last_released_seq == other.last_released_seq
        &&& self.max_delay == other.max_delay
        &&& self.packets_in == other.packets_in
        &&& self.packets_out == other.packets_out
        &&& self.late_dropped == other.late_dropped
        &&& self.wraparound_count == other.wraparound_count
        &&& self.wraparound_crossing_active == other.wraparound_crossing_active
        &&& self.clock == other.clock
    }

    /// The number relative to which the packets are filed.
    pub closed spec fn base(&self) -> Option<u32> {
        self.base_seq
    }

    /// In every state the base is the head's sequence number, the packets stand in order, none of
    /// them more than half the sequence space ahead of the one before it, and every packet that has
    /// left, was dropped as late or is still buffered had come in.
    pub proof fn law_invariant(&self)
        requires
            self.wf(),
        ensures
            self.base() == (if self@.queue.len() > 0 {
                Some(self@.queue[0].seq)
            } else {
                None::<u32>
            }),
            ordered(self@.queue),
            close_knit(self@.queue),
            self@.packets_out + self@.late_dropped + self@.queue.len() <= self@.packets_in,
            self@.wraparounds <= self@.packets_in,
            self@.packets_in <= u64::MAX,
    {
        lemma_keys_of(self.buffer@.dom());
        match self.base_seq {
            Some(base) => {
                lemma_filed(self.buffer@, base);
                let ks = keys_of(self.buffer@.dom());
                assert(ks.to_set().contains(0));
                assert(ks[0] == 0);
                assert(self@.queue[0].seq == base);
                assert(offsets(self@.queue, base) =~= ks);
            },
            None => {},
        }
    }

    /// An empty buffer that holds packets for `max_delay`.
    pub fn new(max_delay: Duration) -> (jb: JitterBuffer)
        ensures
            jb.wf(),
            jb@ == (JitterState {
                queue: Seq::empty(),
                last_released: None,
                max_delay: max_delay.nanos(),
                packets_in: 0,
                packets_out: 0,
                late_dropped: 0,
                wraparounds: 0,
                crossing: false,
            }),
    {
        let jb = JitterBuffer {
            base_seq: None,
            buffer: BTreeMap::new(),
            last_released_seq: None,
            max_delay,
            packets_in: 0,
            packets_out: 0,
            late_dropped: 0,
            wraparound_count: 0,
            wraparound_crossing_active: false,
            clock: Clock::start(),
        };
        proof {
            assert(jb.buffer@.dom() =~= Set::empty());
            lemma_keys_of(jb.buffer@.dom());
        }
        jb
    }

    /// The key under which `seq` is filed.
    fn normalize(&self, seq: u32) -> (k: u32)
        ensures
            k == match self.base_seq {
                Some(base) => offset(seq, base),
                None => 0,
            },
    {
        match self.base_seq {
            Some(base) => {
                proof {
                    lemma_wrapping_sub_is_offset(seq, base);
                }
                seq.wrapping_sub(base)
            },
            None => 0,
        }
    }

    /// Files the packets anew, relative to `new_base`.
    fn rebase(&mut self, new_base: u32)
        requires
            old(self).buffer@.dom().finite(),
            old(self).base_seq matches Some(base) && old(self).filed(base),
        ensures
            final(self).base_seq == Some(new_base),
            final(self).filed(new_base),
            final(self).buffer@.dom().finite(),
            final(self).buffer@.dom().len() == old(self).buffer@.dom().len(),
            final(self).same_record(old(self)),
            ({
                let base = old(self).base_seq.unwrap();
                let q = queue_of(old(self).buffer@);
                let k = position(held_offsets(q, base), offset(new_base, base) as u32) as int;
                queue_of(final(self).buffer@) == q.skip(k) + q.take(k)
            }),
    {
        let ghost base = self.base_seq.unwrap();
        let ghost m0 = self.buffer@;
        let ghost q = queue_of(m0);
        let ghost k = position(held_offsets(q, base), offset(new_base, base) as u32) as int;
        proof {
            lemma_filed(m0, base);
            lemma_turn(q, base, new_base, k);
        }
        let mut refiled: BTreeMap<u32, Held> = BTreeMap::new();
        let ghost mut n: int = 0;
        proof {
            assert(q.skip(0) =~= q);
            assert(held_offsets(q.take(0), new_base).to_set() =~= refiled@.dom());
        }
        loop
            invariant
                0 <= n <= q.len(),
                files(self.buffer@, q.skip(n), base),
                increasing(held_offsets(q.skip(n), base)),
                increasing(held_offsets(q, base)),
                files(refiled@, q.take(n), new_base),
                self.same_record(old(self)),
                self.base_seq == old(self).base_seq,
                self.buffer@.dom().finite(),
            ensures
                n == q.len(),
            decreases q.len() - n,
        {
            proof {
                lemma_files_order(self.buffer@, q.skip(n), base);
                lemma_keys_of(self.buffer@.dom());
            }
            match first_key(&self.buffer) {
                Some(key) => {
                    proof {
                        assert(q.skip(n)[0] == q[n]);
                        assert(held_offsets(q.skip(n), base)[0] == key);
                        lemma_files_pop(self.buffer@, q.skip(n), base);
                        assert(q.skip(n).skip(1) =~= q.skip(n + 1));
                    }
                    if let Some(held) = take(&mut self.buffer, key) {
                        proof {
                            assert(held == q[n]);
                            lemma_wrapping_sub_is_offset(held.seq, new_base);
                            lemma_files_push(refiled@, q, n, base, new_base);
                        }
                        let new_key: u32 = held.seq.wrapping_sub(new_base);
                        put(&mut refiled, new_key, held);
                        proof {
                            n = n + 1;
                        }
                    }
                },
                None => {
                    proof {
                        assert(held_offsets(q.skip(n), base).len() == 0);
                    }
                    break;
                },
            }
        }
        self.buffer = refiled;
        self.base_seq = Some(new_base);
        proof {
            assert(q.take(n) =~= q);
            let t = q.skip(k) + q.take(k);
            assert forall|i: int| 0 <= i < t.len() implies #[trigger] self.buffer@[offset(
                t[i].seq,
                new_base,
            ) as u32] == t[i] by {
                if i < q.len() - k {
                    assert(t[i] == q[i + k]);
                } else {
                    assert(t[i] == q[i + k - q.len()]);
                }
            }
            lemma_files_order(self.buffer@, t, new_base);
            lemma_files_keys(self.buffer@, t, new_base);
            lemma_keys_of(self.buffer@.dom());
        }
    }

    /// Takes in a packet that has just arrived and returns the frames that are due.
    pub fn insert(&mut self, seq: u32, realm: u32, data: Vec<u8>) -> (out: Vec<(u32, Vec<u8>)>)
        requires
            old(self).wf(),
            old(self)@.packets_in < u64::MAX,
        ensures
            final(self).wf(),
            exists|now: nat| #[trigger]
                inserted(
                    old(self)@,
                    Packet { realm, seq, data: data@, at: now },
                    final(self)@,
                    frames(out@),
                ),
    {
        let now: u128 = self.clock.nanos();
        self.insert_at(seq, realm, data, now)
    }

    /// Takes in a packet that arrived at `now` and returns the frames that are due then.
    pub fn insert_at(&mut self, seq: u32, realm: u32, data: Vec<u8>, now: u128) -> (out: Vec<
        (u32, Vec<u8>),
    >)
        requires
            old(self).wf(),
            old(self)@.packets_in < u64::MAX,
        ensures
            final(self).wf(),
            inserted(
                old(self)@,
                Packet { realm, seq, data: data@, at: now as nat },
                final(self)@,
                frames(out@),
            ),
    {
        let ghost s0 = self@;
        let ghost p = Packet { realm, seq, data: data@, at: now as nat };
        proof {
            self.law_invariant();
            lemma_keys_of(self.buffer@.dom());
        }
        self.packets_in = self.packets_in + 1;
        if let Some(last) = self.last_released_seq {
            if seq_before_or_eq(seq, last) {
                self.late_dropped = self.late_dropped + 1;
                let out: Vec<(u32, Vec<u8>)> = Vec::new();
                proof {
                    assert(self@ =~= admitted(s0, p));
                    assert(frames(out@) =~= Seq::empty());
                }
                return out;
            }
            let wraparound_crossing = seq < last && seq_after(seq, last);
            if wraparound_crossing {
                if !self.wraparound_crossing_active {
                    self.wraparound_count = self.wraparound_count + 1;
                    self.wraparound_crossing_active = true;
                }
            } else {
                self.wraparound_crossing_active = false;
            }
        }
        assert(self@ =~= counted(s0, seq));
        if self.file(seq, realm, data, now) {
            assert(self@ =~= admitted(s0, p));
            self.flush(now)
        } else {
            let out: Vec<(u32, Vec<u8>)> = Vec::new();
            proof {
                assert(self@ =~= admitted(s0, p));
                assert(frames(out@) =~= Seq::empty());
            }
            out
        }
    }

    /// Files a packet that is not late in its place, unless its number is filed already. An earlier
    /// number than the head's becomes the base all the same.
    fn file(&mut self, seq: u32, realm: u32, data: Vec<u8>, now: u128) -> (added: bool)
        requires
            old(self).wf(),
            old(self).packets_out + old(self).late_dropped + old(self).buffer@.dom().len()
                < old(self).packets_in,
        ensures
            final(self).wf(),
            added == !holds(old(self)@.queue, seq),
            final(self)@ == (JitterState {
                queue: if added {
                    enqueue(
                        old(self)@.queue,
                        Packet { realm, seq, data: data@, at: now as nat },
                    )
                } else {
                    turned(old(self)@.queue, seq)
                },
                ..old(self)@
            }),
    {
        let ghost s0 = self@;
        let ghost p = Packet { realm, seq, data: data@, at: now as nat };
        proof {
            self.law_invariant();
            lemma_keys_of(self.buffer@.dom());
        }
        let ghost q = queue_of(self.buffer@);
        proof {
            assert(packets(q) == s0.queue);
            if let Some(base) = self.base_seq {
                lemma_filed(self.buffer@, base);
                assert(offsets(packets(q), base) =~= held_offsets(q, base));
            }
        }
        match self.base_seq {
            None => {
                self.base_seq = Some(seq);
                proof {
                    assert(q.len() == 0);
                    assert(held_offsets(q, seq).to_set() =~= self.buffer@.dom());
                }
            },
            Some(base) => {
                if seq_before(seq, base) {
                    self.rebase(seq);
                    proof {
                        lemma_filed(self.buffer@, seq);
                        lemma_position(held_offsets(q, base), offset(seq, base) as u32);
                        let k = rank(s0.queue, seq) as int;
                        assert(packets(q.skip(k) + q.take(k)) =~= packets(q).skip(k) + packets(
                            q,
                        ).take(k));
                    }
                }
            },
        }
        let ghost base = self.base_seq.unwrap();
        let ghost q1 = queue_of(self.buffer@);
        proof {
            assert(packets(q1) =~= turned(s0.queue, seq));
            assert(files(self.buffer@, q1, base));
            lemma_holds(self.buffer@, q1, base, seq);
            lemma_turned_holds(s0.queue, seq);
        }
        let key: u32 = self.normalize(seq);
        proof {
            lemma_turned_close_knit(s0.queue, seq);
        }
        if has(&self.buffer, key) {
            return false;
        }
        let ghost held = Held { realm, seq, data, at: now };
        proof {
            lemma_files_insert(self.buffer@, q1, base, held);
        }
        put(&mut self.buffer, key, Held { realm, seq, data, at: now });
        proof {
            let pos = position(held_offsets(q1, base), key) as int;
            let q2 = q1.insert(pos, held);
            lemma_files_order(self.buffer@, q2, base);
            lemma_files_keys(self.buffer@, q2, base);
            lemma_keys_of(self.buffer@.dom());
            assert(packets(q2) =~= packets(q1).insert(pos, p));
            if s0.queue.len() == 0 {
                assert(pos == 0);
                assert(packets(q2) =~= seq![p]);
            } else if precedes(s0.queue, seq) {
                assert(key == 0);
                assert(pos == 0);
                assert(packets(q2) =~= seq![p] + turned(s0.queue, seq));
            } else {
                assert(held_offsets(q1, base) =~= offsets(s0.queue, s0.queue[0].seq));
            }
            assert(self@.queue =~= enqueue(s0.queue, p));
            lemma_enqueue_close_knit(s0.queue, p);
            assert(key == 0 || self.buffer@.contains_key(0));
        }
        true
    }

    /// Lets the packets go that are due at `now`, and makes the first that stays the head.
    fn flush(&mut self, now: u128) -> (out: Vec<(u32, Vec<u8>)>)
        requires
            old(self).wf(),
        ensures
            final(self).wf(),
            final(self)@ == flushed(old(self)@, now as nat),
            frames(out@) == flushed_frames(old(self)@, now as nat),
    {
        let ghost s0 = self@;
        let ghost delay = s0.max_delay;
        let mut out: Vec<(u32, Vec<u8>)> = Vec::new();
        let ghost mut n: nat = 0;
        proof {
            assert(self@ =~= popped(s0, 0));
            assert(frames(out@) =~= frames_of(s0.queue.take(0)));
        }
        loop
            invariant
                self.wf(),
                close_knit(s0.queue),
                n <= s0.queue.len(),
                delay == s0.max_delay,
                self@ == popped(s0, n),
                frames(out@) == frames_of(s0.queue.take(n as int)),
                forall|i: int| 0 <= i < n ==> is_due(#[trigger] s0.queue[i], now as nat, delay),
            ensures
                n == s0.queue.len() || !is_due(s0.queue[n as int], now as nat, delay),
            decreases s0.queue.len() - n,
        {
            let ghost q = queue_of(self.buffer@);
            proof {
                self.law_invariant();
                lemma_keys_of(self.buffer@.dom());
            }
            let key = match first_key(&self.buffer) {
                Some(key) => key,
                None => {
                    break;
                },
            };
            proof {
                assert(self.base_seq is Some);
                let base = self.base_seq.unwrap();
                lemma_filed(self.buffer@, base);
                lemma_files_pop(self.buffer@, q, base);
                assert(held_offsets(q, base)[0] == key);
                assert(self@.queue[0] == q[0]@);
                assert(s0.queue[n as int] == q[0]@);
                assert(packets(q) =~= s0.queue.skip(n as int));
            }
            let held_for: u128 = match peek(&self.buffer, key) {
                Some(held) => now.saturating_sub(held.at),
                None => {
                    break;
                },
            };
            if held_for < self.max_delay.as_nanos() {
                break;
            }
            let held = match take(&mut self.buffer, key) {
                Some(held) => held,
                None => {
                    break;
                },
            };
            self.last_released_seq = Some(held.seq);
            self.packets_out = self.packets_out + 1;
            proof {
                assert(is_due(s0.queue[n as int], now as nat, delay));
                lemma_files_order(self.buffer@, q.skip(1), self.base_seq.unwrap());
                lemma_files_keys(self.buffer@, q.skip(1), self.base_seq.unwrap());
                lemma_keys_of(self.buffer@.dom());
            }
            let ghost out0 = out@;
            out.push((held.realm, held.data));
            proof {
                assert(frames(out@) =~= frames(out0).push((held.realm, held.data@)));
                assert(frames_of(s0.queue.take(n as int + 1)) =~= frames_of(s0.queue.take(n as int)).push(
                    (held.realm, held.data@),
                ));
            }
            self.settle_head();
            proof {
                assert(packets(q.skip(1)) =~= packets(q).skip(1));
                assert(s0.queue.skip(n as int).skip(1) =~= s0.queue.skip(n as int + 1));
                n = n + 1;
                assert(self@ =~= popped(s0, n));
                lemma_skip_close_knit(s0.queue, n as int);
            }
        }
        proof {
            lemma_due(s0.queue, now as nat, delay, n);
        }
        out
    }

    /// Makes the first packet the head again after the old head has gone.
    fn settle_head(&mut self)
        requires
            old(self).buffer@.dom().finite(),
            old(self).base_seq matches Some(base) && old(self).filed(base),
        ensures
            queue_of(final(self).buffer@) == queue_of(old(self).buffer@),
            final(self).buffer@.dom().len() == old(self).buffer@.dom().len(),
            final(self).same_record(old(self)),
            final(self).buffer@.dom().finite(),
            match final(self).base_seq {
                Some(base) => final(self).filed(base) && final(self).buffer@.contains_key(0),
                None => final(self).buffer@.dom().len() == 0,
            },
    {
        let ghost q = queue_of(self.buffer@);
        proof {
            lemma_filed(self.buffer@, self.base_seq.unwrap());
            lemma_keys_of(self.buffer@.dom());
        }
        match (first_key(&self.buffer), self.base_seq) {
            (Some(key), Some(base)) => {
                let new_base: u32 = base.wrapping_add(key);
                proof {
                    assert(held_offsets(q, base)[0] == key);
                    assert(q[0].seq == new_base);
                    assert(offset(new_base, base) == key);
                    lemma_position(held_offsets(q, base), key);
                    assert(position(held_offsets(q, base), key) == 0);
                    assert(q.skip(0) + q.take(0) =~= q);
                }
                if new_base != base {
                    self.rebase(new_base);
                }
                proof {
                    lemma_filed(self.buffer@, new_base);
                    lemma_keys_of(self.buffer@.dom());
                    assert(held_offsets(q, new_base)[0] == 0);
                    assert(keys_of(self.buffer@.dom()).to_set().contains(0));
                }
            },
            _ => {
                self.base_seq = None;
            },
        }
    }

    /// Lets the packets go that are due now.
    pub fn tick(&mut self) -> (out: Vec<(u32, Vec<u8>)>)
        requires
            old(self).wf(),
        ensures
            final(self).wf(),
            exists|now: nat|
                final(self)@ == #[trigger] flushed(old(self)@, now) && frames(out@)
                    == flushed_frames(old(self)@, now),
    {
        let now: u128 = self.clock.nanos();
        self.tick_at(now)
    }

    /// Lets the packets go that are due at `now`.
    pub fn tick_at(&mut self, now: u128) -> (out: Vec<(u32, Vec<u8>)>)
        requires
            old(self).wf(),
        ensures
            final(self).wf(),
            final(self)@ == flushed(old(self)@, now as nat),
            frames(out@) == flushed_frames(old(self)@, now as nat),
    {
        self.flush(now)
    }

    /// Lets every packet go, in order. What left last is not recorded.
    pub fn flush_all(&mut self) -> (out: Vec<(u32, Vec<u8>)>)
        requires
            old(self).wf(),
        ensures
            final(self).wf(),
            frames(out@) == frames_of(old(self)@.queue),
            final(self)@ == (JitterState {
                queue: Seq::empty(),
                packets_out: old(self)@.packets_out + old(self)@.queue.len(),
                ..old(self)@
            }),
    {
        let ghost s0 = self@;
        let ghost m0 = self.buffer@;
        let ghost q = queue_of(self.buffer@);
        let ghost base = match self.base_seq {
            Some(b) => b,
            None => 0,
        };
        let mut out: Vec<(u32, Vec<u8>)> = Vec::new();
        let ghost mut n: int = 0;
        proof {
            lemma_keys_of(m0.dom());
            lemma_filed(m0, base);
            assert(q.skip(0) =~= q);
            assert(frames(out@) =~= frames_of(packets(q.take(0))));
        }
        loop
            invariant
                0 <= n <= q.len(),
                files(self.buffer@, q.skip(n), base),
                increasing(held_offsets(q.skip(n), base)),
                self.last_released_seq == old(self).last_released_seq,
                self.max_delay == old(self).max_delay,
                self.packets_in == old(self).packets_in,
                self.packets_out == old(self).packets_out + n,
                self.late_dropped == old(self).late_dropped,
                self.wraparound_count == old(self).wraparound_count,
                self.wraparound_crossing_active == old(self).wraparound_crossing_active,
                old(self).wf(),
                q.len() == old(self).buffer@.dom().len(),
                frames(out@) == frames_of(packets(q.take(n))),
            ensures
                n == q.len(),
                self.buffer@.dom().len() == 0,
                self.buffer@.dom().finite(),
            decreases q.len() - n,
        {
            proof {
                lemma_files_order(self.buffer@, q.skip(n), base);
                lemma_keys_of(self.buffer@.dom());
            }
            let key = match first_key(&self.buffer) {
                Some(key) => key,
                None => {
                    proof {
                        assert(held_offsets(q.skip(n), base).len() == 0);
                    }
                    break;
                },
            };
            proof {
                assert(q.skip(n)[0] == q[n]);
                assert(held_offsets(q.skip(n), base)[0] == key);
                lemma_files_pop(self.buffer@, q.skip(n), base);
                assert(q.skip(n).skip(1) =~= q.skip(n + 1));
            }
            if let Some(held) = take(&mut self.buffer, key) {
                let ghost out0 = out@;
                out.push((held.realm, held.data));
                self.packets_out = self.packets_out + 1;
                proof {
                    assert(frames(out@) =~= frames(out0).push((held.realm, held.data@)));
                    assert(frames_of(packets(q.take(n + 1))) =~= frames_of(
                        packets(q.take(n)),
                    ).push((held.realm, held.data@)));
                    n = n + 1;
                }
            }
        }
        self.base_seq = None;
        proof {
            lemma_keys_of(self.buffer@.dom());
            assert(q.take(n) =~= q);
            assert(self@.queue =~= Seq::empty());
        }
        out
    }

    /// The line that reports what the buffer has done.
    pub fn log_stats(&self) -> (s: String)
        requires
            self.wf(),
        ensures
            s@ == stats_text(self@),
    {
        proof {
            lemma_keys_of(self.buffer@.dom());
        }
        let mut s = String::new();
        s.append("JitterBuffer stats: in=");
        push_dec(&mut s, self.packets_in);
        s.append(", out=");
        push_dec(&mut s, self.packets_out);
        s.append(", dropped=");
        push_dec(&mut s, self.late_dropped);
        s.append(", buffered=");
        push_dec(&mut s, self.buffered_len() as u64);
        s.append(", wraparounds=");
        push_dec(&mut s, self.wraparound_count);
        s
    }

    /// How many packets have been dropped because they came late.
    pub fn late_dropped(&self) -> (n: u64)
        ensures
            n == self@.late_dropped,
    {
        self.late_dropped
    }

    /// Whether another packet can be counted.
    pub fn has_room(&self) -> (b: bool)
        ensures
            b == (self@.packets_in < u64::MAX),
    {
        self.packets_in < u64::MAX
    }

    /// How many packets are buffered.
    pub fn buffered_len(&self) -> (n: usize)
        requires
            self.wf(),
        ensures
            n == self@.queue.len(),
    {
        proof {
            lemma_keys_of(self.buffer@.dom());
        }
        count(&self.buffer)
    }
}

proof fn lemma_skip_close_knit(q: Seq<Packet>, n: int)
    requires
        close_knit(q),
        0 <= n <= q.len(),
    ensures
        close_knit(q.skip(n)),
{
    assert forall|i: int| 0 <= i < q.skip(n).len() - 1 implies #[trigger] gap(q.skip(n), i)
        <= SEQ_HALF by {
        assert(gap(q, i + n) <= SEQ_HALF);
    }
}

proof fn lemma_turned_close_knit(q: Seq<Packet>, seq: u32)
    requires
        ordered(q),
        close_knit(q),
    ensures
        close_knit(turned(q, seq)),
        precedes(q, seq) ==> offset(turned(q, seq)[0].seq, seq) < SEQ_HALF,
{
    if precedes(q, seq) {
        let ks = offsets(q, q[0].seq);
        let h = offset(seq, q[0].seq) as u32;
        lemma_position(ks, h);
        let k = rank(q, seq) as int;
        let t = turned(q, seq);
        let n = q.len() as int;
        assert(ks[0] == 0);
        if k < n {
            assert(t[0] == q[k]);
            assert(ks[k] >= h);
        } else {
            assert(t[0] == q[0]);
        }
        assert forall|i: int| 0 <= i < t.len() - 1 implies #[trigger] gap(t, i) <= SEQ_HALF by {
            if i + 1 < n - k {
                assert(t[i] == q[i + k] && t[i + 1] == q[i + k + 1]);
                assert(gap(q, i + k) <= SEQ_HALF);
            } else if i + 1 == n - k {
                assert(t[i] == q[n - 1] && t[i + 1] == q[0]);
                assert(ks[n - 1] >= h);
            } else {
                assert(t[i] == q[i + k - n] && t[i + 1] == q[i + 1 + k - n]);
                assert(gap(q, i + k - n) <= SEQ_HALF);
            }
        }
    }
}

pub proof fn lemma_enqueue_close_knit(q: Seq<Packet>, p: Packet)
    requires
        ordered(q),
        close_knit(q),
    ensures
        close_knit(enqueue(q, p)),
{
    let out = enqueue(q, p);
    if q.len() == 0 {
    } else if precedes(q, p.seq) {
        lemma_turned_close_knit(q, p.seq);
        let t = turned(q, p.seq);
        assert forall|i: int| 0 <= i < out.len() - 1 implies #[trigger] gap(out, i) <= SEQ_HALF by {
            assert(out[i + 1] == t[i]);
            if i > 0 {
                assert(out[i] == t[i - 1]);
                assert(gap(t, i - 1) <= SEQ_HALF);
            }
        }
    } else {
        let ks = offsets(q, q[0].seq);
        let h = offset(p.seq, q[0].seq) as u32;
        lemma_position(ks, h);
        let r = rank(q, p.seq) as int;
        assert(h <= SEQ_HALF);
        assert(ks[0] == 0);
        assert forall|i: int| 0 <= i < out.len() - 1 implies #[trigger] gap(out, i) <= SEQ_HALF by {
            if i + 1 < r {
                assert(out[i] == q[i] && out[i + 1] == q[i + 1]);
                assert(gap(q, i) <= SEQ_HALF);
            } else if i + 1 == r {
                assert(out[i] == q[i] && out[i + 1] == p);
                assert(ks[i] < h);
            } else if i == r {
                assert(out[i] == p && out[i + 1] == q[i]);
                assert(ks[i] >= h);
                if r > 0 {
                    assert(gap(q, r - 1) <= SEQ_HALF);
                    assert(ks[r - 1] < h);
                }
            } else {
                assert(out[i] == q[i - 1] && out[i + 1] == q[i]);
                assert(gap(q, i - 1) <= SEQ_HALF);
            }
        }
    }
}

/// `seq` is filed exactly when a packet with that number is queued.
proof fn lemma_holds(m: Map<u32, Held>, q: Seq<Held>, base: u32, seq: u32)
    requires
        files(m, q, base),
    ensures
        m.contains_key(offset(seq, base) as u32) <==> holds(packets(q), seq),
{
    let ks = held_offsets(q, base);
    let k = offset(seq, base) as u32;
    if m.contains_key(k) {
        assert(ks.to_set().contains(k));
        let i = choose|i: int| 0 <= i < ks.len() && ks[i] == k;
        assert(packets(q)[i].seq == seq);
    }
    if holds(packets(q), seq) {
        let i = choose|i: int| 0 <= i < packets(q).len() && packets(q)[i].seq == seq;
        assert(ks[i] == k);
        assert(ks.to_set().contains(k));
    }
}

proof fn lemma_turned_holds(q: Seq<Packet>, seq: u32)
    requires
        ordered(q),
    ensures
        holds(turned(q, seq), seq) <==> holds(q, seq),
{
    if precedes(q, seq) {
        lemma_position(offsets(q, q[0].seq), offset(seq, q[0].seq) as u32);
        let k = rank(q, seq) as int;
        let t = turned(q, seq);
        if holds(q, seq) {
            let i = choose|i: int| 0 <= i < q.len() && q[i].seq == seq;
            if i >= k {
                assert(t[i - k] == q[i]);
            } else {
                assert(t[i - k + q.len()] == q[i]);
            }
        }
        if holds(t, seq) {
            let i = choose|i: int| 0 <= i < t.len() && t[i].seq == seq;
            if i < q.len() - k {
                assert(t[i] == q[i + k]);
            } else {
                assert(t[i] == q[i + k - q.len()]);
            }
        }
    }
}

proof fn lemma_due(q: Seq<Packet>, now: nat, delay: nat, n: nat)
    requires
        n <= q.len(),
        forall|i: int| 0 <= i < n ==> is_due(#[trigger] q[i], now, delay),
        n == q.len() || !is_due(q[n as int], now, delay),
    ensures
        due(q, now, delay) == n,
    decreases n,
{
    if n > 0 {
        assert(is_due(q[0], now, delay));
        assert forall|i: int| 0 <= i < n - 1 implies is_due(#[trigger] q.skip(1)[i], now, delay) by {
            assert(q.skip(1)[i] == q[i + 1]);
        }
        lemma_due(q.skip(1), now, delay, (n - 1) as nat);
    }
}

proof fn lemma_files_keys(m: Map<u32, Held>, q: Seq<Held>, base: u32)
    requires
        files(m, q, base),
    ensures
        m.dom().finite(),
        forall|k: u32| m.contains_key(k) ==> k == offset(#[trigger] m[k].seq, base),
{
    let ks = held_offsets(q, base);
    assert forall|k: u32| m.contains_key(k) implies k == offset(#[trigger] m[k].seq, base) by {
        assert(ks.to_set().contains(k));
        let i = choose|i: int| 0 <= i < ks.len() && ks[i] == k;
        assert(m[offset(q[i].seq, base) as u32] == q[i]);
    }
}

/// One more packet of `q` filed under its offset from `new_base`.
proof fn lemma_files_push(m: Map<u32, Held>, q: Seq<Held>, n: int, base: u32, new_base: u32)
    requires
        files(m, q.take(n), new_base),
        increasing(held_offsets(q, base)),
        0 <= n < q.len(),
    ensures
        files(m.insert(offset(q[n].seq, new_base) as u32, q[n]), q.take(n + 1), new_base),
{
    let k = offset(q[n].seq, new_base) as u32;
    let m2 = m.insert(k, q[n]);
    let before = held_offsets(q.take(n), new_base);
    let now = held_offsets(q.take(n + 1), new_base);
    assert(now =~= before.push(k));
    assert forall|x: u32| now.to_set().contains(x) == m2.dom().contains(x) by {
        if now.contains(x) {
            let i = choose|i: int| 0 <= i < now.len() && now[i] == x;
            if i < n {
                assert(before[i] == x);
                assert(before.to_set().contains(x));
            }
        }
        if before.to_set().contains(x) {
            let i = choose|i: int| 0 <= i < before.len() && before[i] == x;
            assert(now[i] == x);
        }
        assert(now[n] == k);
    }
    assert(now.to_set() =~= m2.dom());
    let ks = held_offsets(q, base);
    assert forall|i: int| 0 <= i < q.take(n + 1).len() implies #[trigger] m2[offset(
        q.take(n + 1)[i].seq,
        new_base,
    ) as u32] == q.take(n + 1)[i] by {
        if i < n {
            assert(q.take(n)[i] == q[i]);
            assert(ks[i] < ks[n]);
            assert(m[offset(q.take(n)[i].seq, new_base) as u32] == q[i]);
        }
    }
}

} // verus!
