//! What becomes of each packet that comes into the jitter buffer.
use vstd::prelude::*;

use crate::buffer::{
    accepts, admitted, due, enqueue, flushed, flushed_frames, frames, frames_of, holds, inserted,
    is_due, is_late, offsets, ordered, precedes, rank, turned, JitterBuffer, JitterState, Packet,
};
use crate::buffer_laws::{
    law_enqueue_keeps_all, leaving, lemma_due_bound, lemma_enqueue_in_window, sorted_in,
};
use crate::report_laws::{contains, lemma_contains};
use crate::seq_order::{after, offset, seq_after, seq_before, seq_before_or_eq, SEQ_HALF};
use crate::sorted_keys::lemma_position;
use crate::text::dec;
use crate::time::Duration;

verus! {

/// How many steps forward it is from one sequence number to another.
pub open spec fn steps(from: u32, to: u32) -> int {
    (to - from) % 0x1_0000_0000
}

/// A packet with this number is among some packets.
pub open spec fn is_among(q: Seq<Packet>, seq: u32) -> bool {
    exists|i: int| 0 <= i < q.len() && (#[trigger] q[i]).seq == seq
}

/// What has left stands in `gone`, and only what has been held for the delay is in it.
pub open spec fn has_left(gone: Seq<Packet>, out: Seq<(u32, Seq<u8>)>, now: nat, delay: nat) -> bool {
    &&& out.len() == gone.len()
    &&& forall|i: int|
        0 <= i < gone.len() ==> #[trigger] out[i] == (gone[i].realm, gone[i].data) && (delay == 0
            || gone[i].at + delay <= now)
}

/// The packets are in the order of their distance from `w`, which is less than half the sequence
/// space.
pub open spec fn in_order_from(q: Seq<Packet>, w: u32) -> bool {
    &&& forall|i: int| 0 <= i < q.len() ==> steps(w, (#[trigger] q[i]).seq) < 0x8000_0000
    &&& forall|i: int, j: int|
        0 <= i < j < q.len() ==> steps(w, (#[trigger] q[i]).seq) < steps(w, (#[trigger] q[j]).seq)
}

/// A number follows another when it is ahead of it by less than half of the space.
pub proof fn law_following(a: u32, b: u32)
    ensures
        after(a, b) <==> 0 < steps(b, a) < 0x8000_0000,
{
    lemma_steps(b, a);
}

proof fn lemma_steps(from: u32, to: u32)
    ensures
        steps(from, to) == offset(to, from),
{
}

/// Every packet is counted. One that does not follow what left last is late: it is counted as such
/// and changes nothing else. Nothing else is late, however far ahead it is, and before anything has
/// left nothing is.
pub proof fn law_only_what_was_overtaken_is_late(
    s: JitterState,
    p: Packet,
    t: JitterState,
    out: Seq<(u32, Seq<u8>)>,
)
    requires
        inserted(s, p, t, out),
    ensures
        ({
            let late = s.last_released matches Some(last) && !(0 < steps(last, p.seq)
                < 0x8000_0000);
            &&& t.packets_in == s.packets_in + 1
            &&& t.max_delay == s.max_delay
            &&& t.late_dropped == s.late_dropped + (if late {
                1int
            } else {
                0
            })
            &&& late ==> out.len() == 0 && t == (JitterState {
                packets_in: t.packets_in,
                late_dropped: t.late_dropped,
                ..s
            })
        }),
{
    if let Some(last) = s.last_released {
        law_following(p.seq, last);
    }
}

/// A number that follows what left last is not late; and where nothing has left, none is.
pub proof fn law_what_follows_is_not_late(s: JitterState, seq: u32)
    ensures
        s.last_released is None ==> !is_late(s, seq),
        s.last_released matches Some(last) ==> (is_late(s, seq) <==> !(0 < steps(last, seq)
            < 0x8000_0000)),
{
    if let Some(last) = s.last_released {
        law_following(seq, last);
    }
}

/// A packet whose number is buffered already changes nothing of what is buffered, and nothing
/// leaves.
pub proof fn law_a_repeated_packet_adds_nothing(
    s: JitterState,
    p: Packet,
    t: JitterState,
    out: Seq<(u32, Seq<u8>)>,
)
    requires
        inserted(s, p, t, out),
        ordered(s.queue),
        is_among(s.queue, p.seq),
    ensures
        out.len() == 0,
        t.queue.to_multiset() == s.queue.to_multiset(),
        t.packets_out == s.packets_out,
        t.last_released == s.last_released,
{
    let i = choose|i: int| 0 <= i < s.queue.len() && (#[trigger] s.queue[i]).seq == p.seq;
    assert(holds(s.queue, p.seq));
    if !is_late(s, p.seq) {
        lemma_turned(s.queue, p.seq);
    }
}

proof fn lemma_turned(q: Seq<Packet>, seq: u32)
    requires
        ordered(q),
    ensures
        turned(q, seq).to_multiset() == q.to_multiset(),
{
    broadcast use vstd::seq_lib::group_to_multiset_ensures;

    if precedes(q, seq) {
        lemma_position(offsets(q, q[0].seq), offset(seq, q[0].seq) as u32);
        let k = rank(q, seq) as int;
        assert(q =~= q.take(k) + q.skip(k));
        vstd::seq_lib::lemma_multiset_commutative(q.take(k), q.skip(k));
        vstd::seq_lib::lemma_multiset_commutative(q.skip(k), q.take(k));
        assert(turned(q, seq).to_multiset() =~= q.to_multiset());
    }
}

proof fn lemma_gone(s: JitterState, now: nat)
    ensures
        ({
            let gone = leaving(s, now);
            let t = flushed(s, now);
            &&& has_left(gone, flushed_frames(s, now), now, s.max_delay)
            &&& gone + t.queue == s.queue
            &&& t.queue.len() > 0 && s.max_delay > 0 ==> now < t.queue[0].at + s.max_delay
            &&& s.max_delay == 0 ==> t.queue.len() == 0
            &&& t.packets_out == s.packets_out + gone.len()
            &&& t.last_released == if gone.len() > 0 {
                Some(gone.last().seq)
            } else {
                s.last_released
            }
        }),
{
    let n = due(s.queue, now, s.max_delay);
    lemma_due_bound(s.queue, now, s.max_delay);
    let gone = leaving(s, now);
    let out = flushed_frames(s, now);
    assert forall|i: int| 0 <= i < gone.len() implies #[trigger] out[i] == (
        gone[i].realm,
        gone[i].data,
    ) && (s.max_delay == 0 || gone[i].at + s.max_delay <= now) by {
        assert(gone[i] == s.queue[i]);
        assert(is_due(s.queue[i], now, s.max_delay));
    }
    assert(gone + flushed(s, now).queue =~= s.queue);
}

/// A packet that follows what left last, and whose number is not buffered, is taken in: with what
/// was buffered it makes up what leaves and what stays. What leaves has been held for the delay; the
/// first that stays has not. What left last is on record.
#[verifier::rlimit(40)]
pub proof fn law_a_new_packet_is_taken_in(
    s: JitterState,
    p: Packet,
    t: JitterState,
    out: Seq<(u32, Seq<u8>)>,
) -> (gone: Seq<Packet>)
    requires
        inserted(s, p, t, out),
        ordered(s.queue),
        s.last_released matches Some(last) ==> 0 < steps(last, p.seq) < 0x8000_0000,
        !is_among(s.queue, p.seq),
    ensures
        (gone + t.queue).to_multiset() == s.queue.to_multiset().insert(p),
        has_left(gone, out, p.at, s.max_delay),
        t.queue.len() > 0 ==> p.at < t.queue[0].at + s.max_delay,
        t.packets_out == s.packets_out + gone.len(),
        t.late_dropped == s.late_dropped,
        t.last_released == if gone.len() > 0 {
            Some(gone.last().seq)
        } else {
            s.last_released
        },
        forall|w: u32| #[trigger]
            in_order_from(s.queue, w) && steps(w, p.seq) < 0x8000_0000 ==> in_order_from(
                gone + t.queue,
                w,
            ),
{
    if let Some(last) = s.last_released {
        law_following(p.seq, last);
    }
    if holds(s.queue, p.seq) {
        let i = choose|i: int| 0 <= i < s.queue.len() && s.queue[i].seq == p.seq;
        assert(s.queue[i].seq == p.seq);
    }
    assert(accepts(s, p.seq));
    let m = admitted(s, p);
    law_enqueue_keeps_all(s.queue, p);
    lemma_gone(m, p.at);
    let gone = leaving(m, p.at);
    assert(gone + t.queue == enqueue(s.queue, p));
    assert forall|w: u32| #[trigger]
        in_order_from(s.queue, w) && steps(w, p.seq) < 0x8000_0000 implies in_order_from(
        gone + t.queue,
        w,
    ) by {
        lemma_in_order(s.queue, w);
        lemma_steps(w, p.seq);
        lemma_enqueue_in_window(s.queue, p, w);
        lemma_in_order(gone + t.queue, w);
    }
    gone
}

proof fn lemma_in_order(q: Seq<Packet>, w: u32)
    ensures
        in_order_from(q, w) <==> sorted_in(q, w),
{
    let ks = offsets(q, w);
    assert forall|i: int| 0 <= i < q.len() implies ks[i] == steps(w, (#[trigger] q[i]).seq) by {
        lemma_steps(w, q[i].seq);
    }
    if sorted_in(q, w) {
        assert forall|i: int| 0 <= i < q.len() implies steps(w, (#[trigger] q[i]).seq)
            < 0x8000_0000 by {
            assert(offset(q[i].seq, w) < SEQ_HALF);
            assert(ks[i] == steps(w, q[i].seq));
        }
        assert forall|i: int, j: int| 0 <= i < j < q.len() implies steps(w, (#[trigger] q[i]).seq)
            < steps(w, (#[trigger] q[j]).seq) by {
            assert(ks[i] == steps(w, q[i].seq) && ks[j] == steps(w, q[j].seq));
            assert(ks[i] < ks[j]);
        }
    }
    if in_order_from(q, w) {
        assert forall|i: int| 0 <= i < q.len() implies offset(#[trigger] q[i].seq, w) < SEQ_HALF by {
            assert(steps(w, q[i].seq) < 0x8000_0000);
            lemma_steps(w, q[i].seq);
        }
        assert forall|i: int, j: int| 0 <= i < j < ks.len() implies ks[i] < ks[j] by {
            assert(steps(w, q[i].seq) < steps(w, q[j].seq));
            assert(ks[i] == steps(w, q[i].seq) && ks[j] == steps(w, q[j].seq));
        }
    }
}

/// When what is due is asked for, what leaves and what stays make up what was buffered, in its
/// order. What leaves has been held for the delay; the first that stays has not. What left last is
/// on record, and nothing else changes.
pub proof fn law_only_time_lets_packets_leave(s: JitterState, now: nat) -> (gone: Seq<Packet>)
    ensures
        ({
            let t = flushed(s, now);
            &&& gone + t.queue == s.queue
            &&& has_left(gone, flushed_frames(s, now), now, s.max_delay)
            &&& t.queue.len() > 0 ==> now < t.queue[0].at + s.max_delay
            &&& t == (JitterState {
                queue: t.queue,
                packets_out: s.packets_out + gone.len(),
                last_released: if gone.len() > 0 {
                    Some(gone.last().seq)
                } else {
                    s.last_released
                },
                ..s
            })
        }),
{
    lemma_gone(s, now);
    leaving(s, now)
}

/// The wraparound is counted when a packet that is not late has a lower number than what left last
/// and the one before it that was not late had not.
pub proof fn law_wraparounds_are_counted(
    s: JitterState,
    p: Packet,
    t: JitterState,
    out: Seq<(u32, Seq<u8>)>,
)
    requires
        inserted(s, p, t, out),
        s.last_released matches Some(last) ==> 0 < steps(last, p.seq) < 0x8000_0000,
    ensures
        s.last_released is None ==> t.wraparounds == s.wraparounds && t.crossing == s.crossing,
        s.last_released matches Some(last) ==> t.crossing == (p.seq < last) && t.wraparounds
            == s.wraparounds + (if p.seq < last && !s.crossing {
            1int
        } else {
            0
        }),
{
    if let Some(last) = s.last_released {
        law_following(p.seq, last);
    }
}

/// A packet whose number follows what left last, and is not buffered, is never lost: once it has come
/// in it is held, or its realm and its bytes are among what leaves.
#[verifier::rlimit(40)]
pub proof fn law_no_packet_in_time_is_lost(
    jb: &mut JitterBuffer,
    seq: u32,
    realm: u32,
    data: Vec<u8>,
    now: u128,
    out: Vec<(u32, Vec<u8>)>,
)
    requires
        call_ensures(JitterBuffer::insert_at, (jb, seq, realm, data, now), out),
        old(jb).wf(),
        old(jb)@.last_released matches Some(last) ==> 0 < steps(last, seq) < 0x8000_0000,
        !is_among(old(jb)@.queue, seq),
    ensures
        final(jb)@.late_dropped == old(jb)@.late_dropped,
        final(jb)@.packets_in == old(jb)@.packets_in + 1,
        final(jb)@.packets_out + final(jb)@.queue.len() == old(jb)@.packets_out
            + old(jb)@.queue.len() + 1,
        ({
            ||| exists|i: int|
                0 <= i < final(jb)@.queue.len() && #[trigger] final(jb)@.queue[i] == (Packet {
                    realm,
                    seq,
                    data: data@,
                    at: now as nat,
                })
            ||| exists|i: int|
                0 <= i < out@.len() && (#[trigger] out@[i]).0 == realm && out@[i].1@ == data@
        }),
{
    broadcast use vstd::seq_lib::group_to_multiset_ensures;

    let s = old(jb)@;
    let t = final(jb)@;
    let p = Packet { realm, seq, data: data@, at: now as nat };
    old(jb).law_invariant();
    let fs = frames(out@);
    let gone = law_a_new_packet_is_taken_in(s, p, t, fs);
    let all = gone + t.queue;
    assert(all.to_multiset().count(p) > 0);
    assert(all.contains(p));
    assert(all.to_multiset().len() == s.queue.to_multiset().len() + 1);
    assert(all.len() == s.queue.len() + 1);
    let k = choose|k: int| 0 <= k < all.len() && all[k] == p;
    if k < gone.len() {
        assert(fs[k] == (gone[k].realm, gone[k].data));
        assert(out@[k].0 == realm && out@[k].1@ == data@);
    } else {
        assert(t.queue[k - gone.len()] == p);
    }
}

/// At the end everything that is held leaves, in its order.
pub proof fn law_everything_leaves_at_the_end(jb: &mut JitterBuffer, out: Vec<(u32, Vec<u8>)>)
    requires
        call_ensures(JitterBuffer::flush_all, (jb,), out),
    ensures
        final(jb)@.queue.len() == 0,
        final(jb)@.packets_out == old(jb)@.packets_out + old(jb)@.queue.len(),
        final(jb)@.late_dropped == old(jb)@.late_dropped,
        out@.len() == old(jb)@.queue.len(),
        forall|i: int|
            0 <= i < out@.len() ==> (#[trigger] out@[i]).0 == old(jb)@.queue[i].realm && out@[i].1@
                == old(jb)@.queue[i].data,
{
    let fs = frames(out@);
    assert(fs.len() == frames_of(old(jb)@.queue).len());
    assert forall|i: int| 0 <= i < out@.len() implies (#[trigger] out@[i]).0
        == old(jb)@.queue[i].realm && out@[i].1@ == old(jb)@.queue[i].data by {
        assert(fs[i] == (out@[i].0, out@[i].1@));
        assert(fs[i] == frames_of(old(jb)@.queue)[i]);
    }
}

/// A new buffer holds nothing, has let nothing go, and holds packets for as long as it is told.
pub proof fn law_a_new_buffer_is_empty(max_delay: Duration, jb: JitterBuffer)
    requires
        call_ensures(JitterBuffer::new, (max_delay,), jb),
    ensures
        jb@.queue.len() == 0,
        jb@.last_released is None,
        jb@.max_delay == max_delay.nanos(),
        jb@.packets_in == 0,
        jb@.packets_out == 0,
        jb@.late_dropped == 0,
        jb@.wraparounds == 0,
{
}

/// The three comparisons of sequence numbers.
pub proof fn law_comparing_numbers(a: u32, b: u32, later: bool, earlier: bool, not_later: bool)
    requires
        call_ensures(seq_after, (a, b), later),
        call_ensures(seq_before, (a, b), earlier),
        call_ensures(seq_before_or_eq, (a, b), not_later),
    ensures
        later <==> 0 < steps(b, a) < 0x8000_0000,
        earlier <==> 0 < steps(a, b) < 0x8000_0000,
        not_later <==> !later,
        a == b ==> !later && !earlier,
{
    law_following(a, b);
    law_following(b, a);
}

/// What is reported of a buffer: what came, what left, what came too late, what is held, and how
/// often the numbers began anew.
pub proof fn law_buffers_are_reported(jb: &JitterBuffer, s: String, late: u64, held: usize)
    requires
        call_ensures(JitterBuffer::log_stats, (jb,), s),
        call_ensures(JitterBuffer::late_dropped, (jb,), late),
        call_ensures(JitterBuffer::buffered_len, (jb,), held),
    ensures
        late == jb@.late_dropped,
        held == jb@.queue.len(),
        contains(s@, "in="@ + dec(jb@.packets_in)),
        contains(s@, ", out="@ + dec(jb@.packets_out)),
        contains(s@, ", dropped="@ + dec(jb@.late_dropped)),
        contains(s@, ", buffered="@ + dec(jb@.queue.len())),
        contains(s@, ", wraparounds="@ + dec(jb@.wraparounds)),
{
    reveal_strlit("JitterBuffer stats: in=");
    reveal_strlit("JitterBuffer stats: ");
    reveal_strlit("in=");
    let t = jb@;
    let p0 = "JitterBuffer stats: "@;
    assert("JitterBuffer stats: in="@ =~= p0 + "in="@);
    let p1 = p0 + "in="@ + dec(t.packets_in);
    let p2 = p1 + ", out="@ + dec(t.packets_out);
    let p3 = p2 + ", dropped="@ + dec(t.late_dropped);
    let p4 = p3 + ", buffered="@ + dec(t.queue.len());
    let p5 = p4 + ", wraparounds="@ + dec(t.wraparounds);
    assert(s@ == p5);
    lemma_contains(s@, p4, ", wraparounds="@, dec(t.wraparounds));
    lemma_contains(s@, p3, ", buffered="@, dec(t.queue.len()));
    lemma_contains(s@, p2, ", dropped="@, dec(t.late_dropped));
    lemma_contains(s@, p1, ", out="@, dec(t.packets_out));
    lemma_contains(s@, p0, "in="@, dec(t.packets_in));
}

/// When a buffer is asked for what is due, out comes what stands first in it and has been held for
/// the delay; the rest stays, in its order.
pub proof fn law_ticks_hand_out_what_is_due(
    jb: &mut JitterBuffer,
    now: u128,
    out: Vec<(u32, Vec<u8>)>,
)
    requires
        call_ensures(JitterBuffer::tick_at, (jb, now), out),
    ensures
        out@.len() + final(jb)@.queue.len() == old(jb)@.queue.len(),
        final(jb)@.queue == old(jb)@.queue.skip(out@.len() as int),
        forall|i: int|
            0 <= i < out@.len() ==> (#[trigger] out@[i]).0 == old(jb)@.queue[i].realm && out@[i].1@
                == old(jb)@.queue[i].data && (old(jb)@.max_delay == 0 || old(jb)@.queue[i].at
                + old(jb)@.max_delay <= now),
        final(jb)@.queue.len() > 0 ==> now < final(jb)@.queue[0].at + old(jb)@.max_delay,
        out@.len() > 0 ==> final(jb)@.last_released == Some(
            old(jb)@.queue[out@.len() - 1].seq,
        ),
        out@.len() == 0 ==> final(jb)@ == old(jb)@,
{
    let s = old(jb)@;
    let t = final(jb)@;
    let gone = law_only_time_lets_packets_leave(s, now as nat);
    let fs = frames(out@);
    assert(gone.len() == fs.len() && fs.len() == out@.len());
    assert(t.queue =~= s.queue.skip(gone.len() as int)) by {
        assert((gone + t.queue).skip(gone.len() as int) =~= t.queue);
    }
    assert forall|i: int| 0 <= i < out@.len() implies (#[trigger] out@[i]).0 == s.queue[i].realm
        && out@[i].1@ == s.queue[i].data && (s.max_delay == 0 || s.queue[i].at + s.max_delay
        <= now) by {
        assert(fs[i] == (out@[i].0, out@[i].1@));
        assert(fs[i] == (gone[i].realm, gone[i].data));
        assert((gone + t.queue)[i] == gone[i]);
    }
    if gone.len() > 0 {
        assert((gone + t.queue)[gone.len() - 1] == gone.last());
    } else {
        assert(gone + t.queue =~= t.queue);
        assert(t =~= s);
    }
}

} // verus!
