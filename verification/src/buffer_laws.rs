//! What the jitter buffer promises as a whole.
use vstd::prelude::*;

use crate::buffer::{
    accepts, admitted, close_knit, counted, crosses, due, enqueue, flushed, flushed_frames,
    frames_of, gap, holds, inserted, is_due, is_late, lemma_enqueue_close_knit, offsets, ordered,
    precedes, rank, turned, JitterState, Packet,
};
use crate::seq_order::{after, offset, SEQ_HALF};
use crate::sorted_keys::{
    increasing, lemma_increasing_unique, lemma_insert_position, lemma_position, position,
};

verus! {

/// The packets lie in the window of half the sequence space that starts at `w`.
pub open spec fn in_window(q: Seq<Packet>, w: u32) -> bool {
    forall|i: int| 0 <= i < q.len() ==> offset(#[trigger] q[i].seq, w) < SEQ_HALF
}

/// The packets lie in the window that starts at `w`, in the order of their offsets from there.
pub open spec fn sorted_in(q: Seq<Packet>, w: u32) -> bool {
    increasing(offsets(q, w)) && in_window(q, w)
}

/// In a window no packet lies behind the head.
proof fn lemma_head_is_first(q: Seq<Packet>, w: u32, i: int)
    requires
        close_knit(q),
        in_window(q, w),
        0 <= i < q.len(),
    ensures
        offset(q[0].seq, w) <= offset(q[i].seq, w),
    decreases i,
{
    if i > 0 {
        lemma_head_is_first(q, w, i - 1);
        assert(gap(q, i - 1) <= SEQ_HALF);
        assert(offset(q[i].seq, w) < SEQ_HALF && offset(q[i - 1].seq, w) < SEQ_HALF);
    }
}

proof fn lemma_sorted_in(q: Seq<Packet>, w: u32)
    requires
        ordered(q),
        close_knit(q),
        in_window(q, w),
    ensures
        sorted_in(q, w),
{
    let ks = offsets(q, w);
    assert forall|i: int, j: int| 0 <= i < j < ks.len() implies ks[i] < ks[j] by {
        lemma_head_is_first(q, w, i);
        lemma_head_is_first(q, w, j);
        let hs = offsets(q, q[0].seq);
        assert(hs[i] < hs[j]);
        assert(offset(q[i].seq, w) < SEQ_HALF && offset(q[j].seq, w) < SEQ_HALF);
    }
}

/// Packets that lie within a window leave in sequence order: each comes after those before it. The
/// window may span the wraparound.
pub proof fn law_leaves_in_sequence_order(q: Seq<Packet>, w: u32)
    requires
        ordered(q),
        close_knit(q),
        in_window(q, w),
    ensures
        forall|i: int, j: int| 0 <= i < j < q.len() ==> after(#[trigger] q[j].seq, #[trigger] q[i].seq),
{
    lemma_sorted_in(q, w);
    assert forall|i: int, j: int| 0 <= i < j < q.len() implies after(
        #[trigger] q[j].seq,
        #[trigger] q[i].seq,
    ) by {
        assert(offsets(q, w)[i] < offsets(q, w)[j]);
    }
}

/// Taking in a packet keeps every packet of the queue in it, adds the new one, and adds nothing
/// else.
pub proof fn law_enqueue_keeps_all(q: Seq<Packet>, p: Packet)
    requires
        ordered(q),
    ensures
        enqueue(q, p).to_multiset() == q.to_multiset().insert(p),
{
    broadcast use vstd::seq_lib::group_to_multiset_ensures;

    if q.len() == 0 {
        assert(seq![p] =~= q.push(p));
    } else {
        lemma_position(offsets(q, q[0].seq), offset(p.seq, q[0].seq) as u32);
        let k = rank(q, p.seq) as int;
        if precedes(q, p.seq) {
            assert(q =~= q.take(k) + q.skip(k));
            vstd::seq_lib::lemma_multiset_commutative(q.take(k), q.skip(k));
            vstd::seq_lib::lemma_multiset_commutative(q.skip(k), q.take(k));
            assert(turned(q, p.seq).to_multiset() =~= q.to_multiset());
            vstd::seq_lib::lemma_multiset_commutative(seq![p], turned(q, p.seq));
            assert(seq![p] =~= Seq::<Packet>::empty().push(p));
            assert(enqueue(q, p).to_multiset() =~= q.to_multiset().insert(p));
        } else {
            assert(enqueue(q, p).to_multiset() =~= q.to_multiset().insert(p));
        }
    }
}

/// In a window, a packet goes to its place in the order, whichever packet came first.
pub proof fn lemma_enqueue_in_window(q: Seq<Packet>, p: Packet, w: u32)
    requires
        sorted_in(q, w),
        offset(p.seq, w) < SEQ_HALF,
        !holds(q, p.seq),
    ensures
        enqueue(q, p) == q.insert(position(offsets(q, w), offset(p.seq, w) as u32) as int, p),
        position(offsets(q, w), offset(p.seq, w) as u32) <= q.len(),
        sorted_in(enqueue(q, p), w),
        offsets(enqueue(q, p), w).to_set() == offsets(q, w).to_set().insert(
            offset(p.seq, w) as u32,
        ),
{
    let ks = offsets(q, w);
    let k = offset(p.seq, w) as u32;
    lemma_position(ks, k);
    let n = position(ks, k) as int;
    if ks.contains(k) {
        let i = choose|i: int| 0 <= i < ks.len() && ks[i] == k;
        assert(q[i].seq == p.seq);
    }
    lemma_insert_position(ks, k);
    let out = q.insert(n, p);
    if q.len() == 0 {
        assert(out =~= seq![p]);
    } else {
        let head = q[0].seq;
        let hs = offsets(q, head);
        let h = offset(p.seq, head) as u32;
        assert forall|i: int| 0 <= i < q.len() implies hs[i] == ks[i] - ks[0] by {
            assert(ks[i] == offset(q[i].seq, w));
            assert(i > 0 ==> ks[0] < ks[i]);
        }
        assert(increasing(hs));
        lemma_position(hs, h);
        let r = rank(q, p.seq) as int;
        if precedes(q, p.seq) {
            assert(k < ks[0]);
            assert(n == 0);
            assert forall|i: int| 0 <= i < q.len() implies hs[i] < h by {
                assert(ks[i] == offset(q[i].seq, w));
            }
            if r < q.len() {
                assert(hs[r] < h);
            }
            assert(turned(q, p.seq) =~= q);
            assert(out =~= seq![p] + q);
        } else {
            assert(k > ks[0]);
            assert(h == k - ks[0]);
            if r < n {
                assert(hs[r] == ks[r] - ks[0]);
            }
            if n < r {
                assert(hs[n] == ks[n] - ks[0]);
            }
            assert(r == n);
        }
    }
    assert(offsets(out, w) =~= ks.insert(n, k));
    assert forall|i: int| 0 <= i < out.len() implies offset(#[trigger] out[i].seq, w) < SEQ_HALF by {
        if i < n {
            assert(out[i] == q[i]);
        } else if i > n {
            assert(out[i] == q[i - 1]);
        }
    }
}

/// Taking in a packet keeps the queue in order, and no packet of it comes to lie more than half the
/// sequence space ahead of the one before it.
pub proof fn law_enqueue_keeps_order(q: Seq<Packet>, p: Packet)
    requires
        ordered(q),
        close_knit(q),
        !holds(q, p.seq),
    ensures
        ordered(enqueue(q, p)),
        close_knit(enqueue(q, p)),
{
    lemma_enqueue_close_knit(q, p);
    let out = enqueue(q, p);
    if q.len() > 0 {
        let head = q[0].seq;
        let ks = offsets(q, head);
        let h = offset(p.seq, head) as u32;
        lemma_position(ks, h);
        let r = rank(q, p.seq) as int;
        assert(ks[0] == 0);
        if ks.contains(h) {
            let i = choose|i: int| 0 <= i < ks.len() && ks[i] == h;
            assert(q[i].seq == p.seq);
        }
        if precedes(q, p.seq) {
            let n = q.len() as int;
            let os = offsets(out, p.seq);
            assert forall|i: int| 0 < i <= n implies #[trigger] os[i] == (if i - 1 < n - r {
                ks[i - 1 + r] - h
            } else {
                ks[i - 1 + r - n] - h + 0x1_0000_0000
            }) by {
                if i - 1 < n - r {
                    assert(out[i] == q[i - 1 + r]);
                    assert(ks[i - 1 + r] >= h);
                } else {
                    assert(out[i] == q[i - 1 + r - n]);
                    assert(ks[i - 1 + r - n] < h);
                }
            }
            assert(os[0] == 0);
            assert forall|i: int, j: int| 0 <= i < j < os.len() implies os[i] < os[j] by {
                if i == 0 {
                    if j - 1 < n - r {
                        assert(ks.contains(ks[j - 1 + r]));
                    }
                } else if j - 1 < n - r {
                    assert(ks[i - 1 + r] < ks[j - 1 + r]);
                } else if i - 1 >= n - r {
                    assert(ks[i - 1 + r - n] < ks[j - 1 + r - n]);
                } else {
                    assert(ks[j - 1 + r - n] < h <= ks[i - 1 + r]);
                }
            }
        } else {
            lemma_insert_position(ks, h);
            assert(r > 0) by {
                assert(ks.contains(ks[0]));
                assert(h != 0);
            }
            assert(out[0] == q[0]);
            assert(offsets(out, head) =~= ks.insert(r, h));
        }
    }
}

/// What a packet brings, whenever it came.
pub open spec fn content(p: Packet) -> (u32, u32, Seq<u8>) {
    (p.realm, p.seq, p.data)
}

pub open spec fn contents(q: Seq<Packet>) -> Seq<(u32, u32, Seq<u8>)> {
    q.map_values(|p: Packet| content(p))
}

/// No two packets have the same number.
pub open spec fn distinct(ps: Seq<Packet>) -> bool {
    forall|i: int, j: int| 0 <= i < j < ps.len() ==> #[trigger] ps[i].seq != #[trigger] ps[j].seq
}

/// The state and what has left after some packets have come in, one after the other.
pub open spec fn inserted_all(s: JitterState, ps: Seq<Packet>) -> (
    JitterState,
    Seq<(u32, Seq<u8>)>,
)
    decreases ps.len(),
{
    if ps.len() == 0 {
        (s, Seq::empty())
    } else {
        let (t, out) = inserted_all(s, ps.drop_last());
        let p = ps.last();
        if accepts(t, p.seq) {
            (flushed(admitted(t, p), p.at), out + flushed_frames(admitted(t, p), p.at))
        } else {
            (admitted(t, p), out)
        }
    }
}

/// Each of the packets is new to the buffer and lies in the window that starts at `w`.
pub open spec fn are_new(s: JitterState, ps: Seq<Packet>, w: u32) -> bool {
    &&& distinct(ps)
    &&& in_window(ps, w)
    &&& forall|i: int| 0 <= i < ps.len() ==> accepts(s, (#[trigger] ps[i]).seq)
}

/// When any of the packets comes in, nothing that is buffered or has come in is due.
pub open spec fn none_due(s: JitterState, ps: Seq<Packet>) -> bool {
    forall|p: Packet, i: int|
        0 <= i < ps.len() && (s.queue.contains(p) || ps.contains(p)) ==> !(#[trigger] is_due(
            p,
            (#[trigger] ps[i]).at,
            s.max_delay,
        ))
}

/// The order of arrival does not matter: the same packets, in whatever order and whenever they come,
/// are buffered in the same order as long as nothing is due. So the same frames leave in the end.
pub proof fn law_arrival_order_is_irrelevant(
    s: JitterState,
    a: Seq<Packet>,
    b: Seq<Packet>,
    w: u32,
)
    requires
        ordered(s.queue),
        close_knit(s.queue),
        in_window(s.queue, w),
        are_new(s, a, w),
        are_new(s, b, w),
        none_due(s, a),
        none_due(s, b),
        contents(a).to_multiset() == contents(b).to_multiset(),
    ensures
        contents(inserted_all(s, a).0.queue) == contents(inserted_all(s, b).0.queue),
        frames_of(inserted_all(s, a).0.queue) == frames_of(inserted_all(s, b).0.queue),
        inserted_all(s, a).1 == Seq::<(u32, Seq<u8>)>::empty(),
        inserted_all(s, b).1 == Seq::<(u32, Seq<u8>)>::empty(),
{
    lemma_sorted_in(s.queue, w);
    lemma_inserted_all(s, a, w);
    lemma_inserted_all(s, b, w);
    let q = s.queue;
    let x = inserted_all(s, a).0.queue;
    let y = inserted_all(s, b).0.queue;
    lemma_same_numbers(a, b, w);
    lemma_same_numbers(b, a, w);
    assert(offsets(x, w).to_set() =~= offsets(y, w).to_set());
    lemma_increasing_unique(offsets(x, w), offsets(y, w));
    assert(x.len() == offsets(x, w).len() == y.len());
    assert forall|i: int| 0 <= i < x.len() implies content(x[i]) == content(y[i]) by {
        assert(offsets(x, w)[i] == offsets(y, w)[i]);
        assert(offset(x[i].seq, w) == offset(y[i].seq, w));
        assert(x[i].seq == y[i].seq);
        assert(x.contains(x[i]) && y.contains(y[i]));
        if q.contains(x[i]) {
            lemma_same_number_same_packet(q, w, x[i], y[i]);
            if b.contains(y[i]) {
                let k = choose|k: int| 0 <= k < b.len() && b[k] == y[i];
                assert(accepts(s, b[k].seq));
            }
        } else {
            let j = choose|j: int| 0 <= j < a.len() && a[j] == x[i];
            assert(accepts(s, a[j].seq));
            lemma_same_number_same_packet(q, w, y[i], x[i]);
            assert(b.contains(y[i]));
            lemma_same_content(a, b, x[i], y[i]);
        }
    }
    assert(contents(x) =~= contents(y));
    assert forall|i: int| 0 <= i < x.len() implies frames_of(x)[i] == frames_of(y)[i] by {
        assert(content(x[i]) == content(y[i]));
    }
    assert(frames_of(x) =~= frames_of(y));
}

/// What one of two lots with the same contents brings, the other brings too.
proof fn lemma_content_in_both(a: Seq<Packet>, b: Seq<Packet>, p: Packet) -> (r: Packet)
    requires
        contents(a).to_multiset() == contents(b).to_multiset(),
        a.contains(p),
    ensures
        b.contains(r),
        content(r) == content(p),
{
    broadcast use vstd::seq_lib::group_to_multiset_ensures;

    let i = choose|i: int| 0 <= i < a.len() && a[i] == p;
    assert(contents(a)[i] == content(p));
    assert(contents(a).contains(content(p)));
    assert(contents(a).to_multiset().count(content(p)) > 0);
    assert(contents(b).contains(content(p)));
    let j = choose|j: int| 0 <= j < contents(b).len() && contents(b)[j] == content(p);
    assert(b.contains(b[j]));
    b[j]
}

proof fn lemma_same_content(a: Seq<Packet>, b: Seq<Packet>, x: Packet, y: Packet)
    requires
        contents(a).to_multiset() == contents(b).to_multiset(),
        distinct(a),
        a.contains(x),
        b.contains(y),
        x.seq == y.seq,
    ensures
        content(x) == content(y),
{
    let z = lemma_content_in_both(b, a, y);
    let i = choose|i: int| 0 <= i < a.len() && a[i] == x;
    let j = choose|j: int| 0 <= j < a.len() && a[j] == z;
    assert(content(z) == content(y));
    assert(a[i].seq == a[j].seq);
}

proof fn lemma_same_numbers(a: Seq<Packet>, b: Seq<Packet>, w: u32)
    requires
        contents(a).to_multiset() == contents(b).to_multiset(),
    ensures
        offsets(a, w).to_set().subset_of(offsets(b, w).to_set()),
{
    assert forall|k: u32| offsets(a, w).to_set().contains(k) implies offsets(
        b,
        w,
    ).to_set().contains(k) by {
        let i = choose|i: int| 0 <= i < offsets(a, w).len() && offsets(a, w)[i] == k;
        assert(a.contains(a[i]));
        let r = lemma_content_in_both(a, b, a[i]);
        assert(content(r) == content(a[i]));
        let j = choose|j: int| 0 <= j < b.len() && b[j] == r;
        assert(offsets(b, w)[j] == k);
        assert(offsets(b, w).contains(k));
    }
}

/// New packets that come in while nothing is due are all buffered.
proof fn lemma_inserted_all(s: JitterState, ps: Seq<Packet>, w: u32)
    requires
        sorted_in(s.queue, w),
        are_new(s, ps, w),
        none_due(s, ps),
    ensures
        ({
            let (t, out) = inserted_all(s, ps);
            &&& sorted_in(t.queue, w)
            &&& offsets(t.queue, w).to_set() == offsets(s.queue, w).to_set().union(
                offsets(ps, w).to_set(),
            )
            &&& forall|p: Packet| #[trigger]
                t.queue.contains(p) ==> s.queue.contains(p) || ps.contains(p)
            &&& t.last_released == s.last_released
            &&& t.max_delay == s.max_delay
            &&& out == Seq::<(u32, Seq<u8>)>::empty()
        }),
    decreases ps.len(),
{
    let (t, out) = inserted_all(s, ps);
    if ps.len() == 0 {
        assert(offsets(ps, w).to_set() =~= Set::empty());
        assert(offsets(t.queue, w).to_set() =~= offsets(s.queue, w).to_set().union(
            offsets(ps, w).to_set(),
        ));
    } else {
        let before = ps.drop_last();
        let p = ps.last();
        let n = before.len() as int;
        assert(p == ps[n]);
        assert forall|i: int| 0 <= i < n implies before[i] == ps[i] by {}
        assert forall|r: Packet, i: int|
            0 <= i < before.len() && (s.queue.contains(r) || before.contains(r)) implies !(
        #[trigger] is_due(r, (#[trigger] before[i]).at, s.max_delay)) by {
            if before.contains(r) {
                let k = choose|k: int| 0 <= k < before.len() && before[k] == r;
                assert(ps[k] == r);
                assert(ps.contains(r));
            }
            assert(before[i] == ps[i]);
        }
        assert forall|i: int| 0 <= i < before.len() implies accepts(s, (#[trigger] before[i]).seq) by {
            assert(before[i] == ps[i]);
        }
        assert(are_new(s, before, w));
        lemma_inserted_all(s, before, w);
        let (m, _) = inserted_all(s, before);
        assert(accepts(s, ps[n].seq));
        let k = offset(p.seq, w) as u32;
        if holds(m.queue, p.seq) {
            let i = choose|i: int| 0 <= i < m.queue.len() && m.queue[i].seq == p.seq;
            assert(m.queue.contains(m.queue[i]));
            if s.queue.contains(m.queue[i]) {
                let j = choose|j: int| 0 <= j < s.queue.len() && s.queue[j] == m.queue[i];
                assert(s.queue[j].seq == p.seq);
            } else {
                let j = choose|j: int| 0 <= j < before.len() && before[j] == m.queue[i];
                assert(ps[j].seq == ps[n].seq);
            }
        }
        assert(offset(ps[n].seq, w) < SEQ_HALF);
        lemma_enqueue_in_window(m.queue, p, w);
        let q = enqueue(m.queue, p);
        let at = position(offsets(m.queue, w), k) as int;
        assert forall|r: Packet| #[trigger] q.contains(r) implies s.queue.contains(r)
            || ps.contains(r) by {
            let i = choose|i: int| 0 <= i < q.len() && q[i] == r;
            if i == at {
                assert(ps[n] == r);
            } else {
                let j = if i < at {
                    i
                } else {
                    i - 1
                };
                assert(m.queue[j] == r);
                assert(m.queue.contains(r));
                if !s.queue.contains(r) {
                    let e = choose|e: int| 0 <= e < before.len() && before[e] == r;
                    assert(ps[e] == r);
                }
            }
        }
        assert(admitted(m, p).queue == q);
        assert(q.contains(q[0]));
        assert(!is_due(q[0], ps[n].at, s.max_delay));
        assert(due(q, p.at, s.max_delay) == 0);
        assert(q.skip(0) =~= q);
        assert(t.queue == q);
        assert(q.take(0) =~= Seq::empty());
        assert(frames_of(q.take(0)) =~= Seq::empty());
        assert(out =~= Seq::empty());
        let all = offsets(ps, w);
        assert forall|x: u32| all.to_set().contains(x) == offsets(before, w).to_set().insert(
            k,
        ).contains(x) by {
            if all.contains(x) {
                let i = choose|i: int| 0 <= i < all.len() && all[i] == x;
                if i < n {
                    assert(offsets(before, w)[i] == x);
                }
            }
            if offsets(before, w).contains(x) {
                let i = choose|i: int|
                    0 <= i < offsets(before, w).len() && offsets(before, w)[i] == x;
                assert(all[i] == x);
            }
            assert(all[n] == k);
        }
        assert(offsets(q, w).to_set() =~= offsets(s.queue, w).to_set().union(all.to_set()));
    }
}

proof fn lemma_same_number_same_packet(q: Seq<Packet>, w: u32, x: Packet, y: Packet)
    requires
        sorted_in(q, w),
        x.seq == y.seq,
    ensures
        q.contains(x) && q.contains(y) ==> x == y,
        q.contains(x) ==> holds(q, x.seq),
{
    if q.contains(x) {
        let i = choose|i: int| 0 <= i < q.len() && q[i] == x;
        assert(q[i].seq == x.seq);
        if q.contains(y) {
            let j = choose|j: int| 0 <= j < q.len() && q[j] == y;
            assert(offsets(q, w)[i] == offsets(q, w)[j]);
        }
    }
}

/// Nothing is lost on the way out: what leaves and what stays make up the queue, in its order.
pub proof fn law_flush_splits_the_queue(s: JitterState, now: nat)
    ensures
        flushed_frames(s, now) == frames_of(leaving(s, now)),
        flushed_frames(s, now) + frames_of(flushed(s, now).queue) == frames_of(s.queue),
        flushed(s, now).packets_out + flushed(s, now).queue.len() == s.packets_out + s.queue.len(),
{
    lemma_due_bound(s.queue, now, s.max_delay);
    assert(flushed_frames(s, now) + frames_of(flushed(s, now).queue) =~= frames_of(s.queue));
}

pub proof fn lemma_due_bound(q: Seq<Packet>, now: nat, delay: nat)
    ensures
        due(q, now, delay) <= q.len(),
        forall|i: int| 0 <= i < due(q, now, delay) ==> is_due(#[trigger] q[i], now, delay),
        due(q, now, delay) < q.len() ==> !is_due(q[due(q, now, delay) as int], now, delay),
    decreases q.len(),
{
    if q.len() > 0 && is_due(q[0], now, delay) {
        lemma_due_bound(q.skip(1), now, delay);
        let n = due(q.skip(1), now, delay);
        assert forall|i: int| 0 <= i < due(q, now, delay) implies is_due(
            #[trigger] q[i],
            now,
            delay,
        ) by {
            if i > 0 {
                assert(q.skip(1)[i - 1] == q[i]);
            }
        }
        if n < q.skip(1).len() {
            assert(q.skip(1)[n as int] == q[n as int + 1]);
        }
    }
}

/// No packet leaves before it has been held for the delay, and once every packet has been held
/// that long none stays.
pub proof fn law_delay_is_kept(s: JitterState, now: nat)
    ensures
        forall|i: int|
            0 <= i < s.queue.len() - flushed(s, now).queue.len() ==> is_due(
                #[trigger] s.queue[i],
                now,
                s.max_delay,
            ),
        (forall|i: int| 0 <= i < s.queue.len() ==> is_due(#[trigger] s.queue[i], now, s.max_delay))
            ==> flushed(s, now).queue == Seq::<Packet>::empty(),
{
    lemma_due_bound(s.queue, now, s.max_delay);
}

/// The sequence number that was released last is refused, and so is every number that it comes
/// after.
pub proof fn law_released_is_late(s: JitterState, seq: u32, last: u32)
    requires
        s.last_released == Some(last),
        seq == last || after(last, seq),
    ensures
        is_late(s, seq),
        !accepts(s, seq),
{
}

/// Everything that is buffered comes after what left last.
pub open spec fn ahead(s: JitterState) -> bool {
    s.last_released matches Some(last) ==> forall|i: int|
        0 <= i < s.queue.len() ==> after(#[trigger] s.queue[i].seq, last)
}

/// What is buffered and what left last lie in the window of half the sequence space that starts at
/// `w`, everything in its place.
pub open spec fn settled(s: JitterState, w: u32) -> bool {
    &&& ordered(s.queue)
    &&& close_knit(s.queue)
    &&& in_window(s.queue, w)
    &&& ahead(s)
    &&& s.last_released matches Some(last) ==> offset(last, w) < SEQ_HALF
}

/// What is buffered comes after what left last: it stays so when a packet of the window comes in,
/// whether it is accepted or not, and when packets leave.
pub proof fn law_buffered_follows_released(s: JitterState, p: Packet, now: nat, w: u32)
    requires
        settled(s, w),
        offset(p.seq, w) < SEQ_HALF,
    ensures
        settled(admitted(s, p), w),
        settled(flushed(s, now), w),
{
    let q = s.queue;
    lemma_sorted_in(q, w);
    if !is_late(s, p.seq) {
        if holds(q, p.seq) {
            let i = choose|i: int| 0 <= i < q.len() && q[i].seq == p.seq;
            lemma_head_is_first(q, w, i);
            assert(offset(q[0].seq, w) < SEQ_HALF);
            assert(!precedes(q, p.seq));
        } else {
            lemma_enqueue_in_window(q, p, w);
            law_enqueue_keeps_order(q, p);
            let n = position(offsets(q, w), offset(p.seq, w) as u32) as int;
            let out = enqueue(q, p);
            if let Some(last) = s.last_released {
                assert forall|i: int| 0 <= i < out.len() implies after(
                    #[trigger] out[i].seq,
                    last,
                ) by {
                    if i < n {
                        assert(out[i] == q[i]);
                    } else if i > n {
                        assert(out[i] == q[i - 1]);
                    }
                }
            }
        }
    }
    let n = due(q, now, s.max_delay) as int;
    lemma_due_bound(q, now, s.max_delay);
    law_leaves_in_sequence_order(q, w);
    let rest = q.skip(n);
    assert forall|i: int| 0 <= i < rest.len() - 1 implies #[trigger] gap(rest, i) <= SEQ_HALF by {
        assert(gap(q, i + n) <= SEQ_HALF);
    }
    if rest.len() > 0 {
        let ks = offsets(q, w);
        let rs = offsets(rest, rest[0].seq);
        assert forall|i: int, j: int| 0 <= i < j < rs.len() implies rs[i] < rs[j] by {
            assert(rest[i] == q[i + n] && rest[j] == q[j + n] && rest[0] == q[n]);
            assert(ks[i + n] < ks[j + n]);
            assert(i > 0 ==> ks[n] < ks[i + n]);
            assert(ks[n] < ks[j + n]);
        }
    }
}

/// Something that happens to the buffer: a packet comes in, or what is due is asked for.
pub enum Happening {
    Came(Packet),
    Tick(nat),
}

/// What leaves when everything that is due does.
pub open spec fn leaving(s: JitterState, now: nat) -> Seq<Packet> {
    s.queue.take(due(s.queue, now, s.max_delay) as int)
}

/// The state after something has happened, and what left.
pub open spec fn happened(s: JitterState, e: Happening) -> (JitterState, Seq<Packet>) {
    match e {
        Happening::Came(p) => if accepts(s, p.seq) {
            (flushed(admitted(s, p), p.at), leaving(admitted(s, p), p.at))
        } else {
            (admitted(s, p), Seq::empty())
        },
        Happening::Tick(now) => (flushed(s, now), leaving(s, now)),
    }
}

/// The state after some things have happened, one after the other, and everything that left.
pub open spec fn all_happened(s: JitterState, es: Seq<Happening>) -> (JitterState, Seq<Packet>)
    decreases es.len(),
{
    if es.len() == 0 {
        (s, Seq::empty())
    } else {
        let (t, out) = all_happened(s, es.drop_last());
        let (u, more) = happened(t, es.last());
        (u, out + more)
    }
}

/// Whatever comes in and however often what is due is asked for, as long as it all lies in one
/// window: over all the calls the packets leave in sequence order, behind what had left before, and
/// what is still buffered comes after all of them. Nothing leaves twice, and nothing leaves behind a
/// packet that follows it.
pub proof fn law_calls_leave_in_sequence_order(s: JitterState, es: Seq<Happening>, w: u32)
    requires
        settled(s, w),
        forall|i: int|
            0 <= i < es.len() ==> (#[trigger] es[i] matches Happening::Came(p) ==> offset(p.seq, w)
                < SEQ_HALF),
    ensures
        ({
            let (t, out) = all_happened(s, es);
            &&& settled(t, w)
            &&& forall|i: int, j: int|
                0 <= i < j < out.len() ==> after(#[trigger] out[j].seq, #[trigger] out[i].seq)
            &&& forall|i: int, k: int|
                0 <= i < out.len() && 0 <= k < t.queue.len() ==> after(
                    #[trigger] t.queue[k].seq,
                    #[trigger] out[i].seq,
                )
            &&& s.last_released matches Some(last) ==> forall|i: int|
                0 <= i < out.len() ==> after(#[trigger] out[i].seq, last)
        }),
{
    lemma_all_happened(s, es, w);
    let (t, out) = all_happened(s, es);
    if out.len() > 0 {
        assert forall|i: int, k: int| 0 <= i < out.len() && 0 <= k < t.queue.len() implies after(
            #[trigger] t.queue[k].seq,
            #[trigger] out[i].seq,
        ) by {
            assert(after(t.queue[k].seq, out.last().seq));
            assert(offset(t.queue[k].seq, w) < SEQ_HALF);
            assert(offset(out[i].seq, w) < SEQ_HALF);
            assert(offset(out[out.len() - 1].seq, w) < SEQ_HALF);
            if i < out.len() - 1 {
                assert(after(out[out.len() - 1].seq, out[i].seq));
            }
        }
    }
}

/// What has left by now: in order within the window, the last of it on record.
spec fn on_record(s: JitterState, t: JitterState, out: Seq<Packet>, w: u32) -> bool {
    &&& in_window(out, w)
    &&& forall|i: int, j: int|
        0 <= i < j < out.len() ==> after(#[trigger] out[j].seq, #[trigger] out[i].seq)
    &&& t.last_released == if out.len() > 0 {
        Some(out.last().seq)
    } else {
        s.last_released
    }
    &&& s.last_released matches Some(last) ==> forall|i: int|
        0 <= i < out.len() ==> after(#[trigger] out[i].seq, last)
}

proof fn lemma_all_happened(s: JitterState, es: Seq<Happening>, w: u32)
    requires
        settled(s, w),
        forall|i: int|
            0 <= i < es.len() ==> (#[trigger] es[i] matches Happening::Came(p) ==> offset(p.seq, w)
                < SEQ_HALF),
    ensures
        settled(all_happened(s, es).0, w),
        on_record(s, all_happened(s, es).0, all_happened(s, es).1, w),
    decreases es.len(),
{
    if es.len() > 0 {
        let before = es.drop_last();
        assert forall|i: int| 0 <= i < before.len() implies (
        #[trigger] before[i] matches Happening::Came(p) ==> offset(p.seq, w) < SEQ_HALF) by {
            assert(before[i] == es[i]);
        }
        lemma_all_happened(s, before, w);
        let (t, out) = all_happened(s, before);
        assert(es.last() == es[es.len() - 1]);
        match es.last() {
            Happening::Came(p) => {
                law_buffered_follows_released(t, p, p.at, w);
                let m = admitted(t, p);
                if accepts(t, p.seq) {
                    law_buffered_follows_released(m, p, p.at, w);
                    lemma_more_leave(s, m, out, p.at, w);
                } else {
                    assert(out + Seq::<Packet>::empty() =~= out);
                }
            },
            Happening::Tick(now) => {
                if t.queue.len() > 0 {
                    let p = t.queue[0];
                    assert(offset(t.queue[0].seq, w) < SEQ_HALF);
                    law_buffered_follows_released(t, p, now, w);
                } else {
                    assert(due(t.queue, now, t.max_delay) == 0);
                    assert(flushed(t, now).queue =~= t.queue);
                }
                lemma_more_leave(s, t, out, now, w);
            },
        }
    }
}

proof fn lemma_more_leave(
    s: JitterState,
    t: JitterState,
    out: Seq<Packet>,
    now: nat,
    w: u32,
)
    requires
        settled(s, w),
        settled(t, w),
        on_record(s, t, out, w),
    ensures
        on_record(s, flushed(t, now), out + leaving(t, now), w),
{
    let n = due(t.queue, now, t.max_delay) as int;
    lemma_due_bound(t.queue, now, t.max_delay);
    let more = leaving(t, now);
    let all = out + more;
    law_leaves_in_sequence_order(t.queue, w);
    assert forall|i: int| 0 <= i < all.len() implies offset(#[trigger] all[i].seq, w) < SEQ_HALF by {
        if i < out.len() {
            assert(all[i] == out[i]);
        } else {
            assert(all[i] == t.queue[i - out.len()]);
        }
    }
    assert forall|i: int, j: int| 0 <= i < j < all.len() implies after(
        #[trigger] all[j].seq,
        #[trigger] all[i].seq,
    ) by {
        assert(offset(all[i].seq, w) < SEQ_HALF && offset(all[j].seq, w) < SEQ_HALF);
        if j < out.len() {
            assert(all[i] == out[i] && all[j] == out[j]);
        } else {
            assert(all[j] == t.queue[j - out.len()]);
            if i < out.len() {
                assert(all[i] == out[i]);
                let last = out[out.len() - 1];
                assert(after(t.queue[j - out.len()].seq, last.seq));
                assert(offset(last.seq, w) < SEQ_HALF);
                if i < out.len() - 1 {
                    assert(after(last.seq, out[i].seq));
                }
            } else {
                assert(all[i] == t.queue[i - out.len()]);
            }
        }
    }
    if let Some(first) = s.last_released {
        assert forall|i: int| 0 <= i < all.len() implies after(#[trigger] all[i].seq, first) by {
            assert(offset(all[i].seq, w) < SEQ_HALF);
            if i < out.len() {
                assert(all[i] == out[i]);
            } else {
                assert(all[i] == t.queue[i - out.len()]);
                if out.len() > 0 {
                    let last = out[out.len() - 1];
                    assert(after(t.queue[i - out.len()].seq, last.seq));
                    assert(after(last.seq, first));
                    assert(offset(last.seq, w) < SEQ_HALF);
                } else {
                    assert(after(t.queue[i - out.len()].seq, first));
                }
            }
        }
    }
    if n > 0 {
        assert(all.last() == t.queue[n - 1]);
    } else {
        assert(all =~= out);
    }
}

/// A refused packet does not change what is buffered, and lets nothing go: a late one leaves the
/// queue alone, a duplicate leaves the same packets in it.
pub proof fn law_refused_changes_nothing(
    s: JitterState,
    p: Packet,
    t: JitterState,
    out: Seq<(u32, Seq<u8>)>,
)
    requires
        ordered(s.queue),
        !accepts(s, p.seq),
        inserted(s, p, t, out),
    ensures
        out.len() == 0,
        t.queue.to_multiset() == s.queue.to_multiset(),
        is_late(s, p.seq) ==> t.queue == s.queue && t.late_dropped == s.late_dropped + 1,
        !is_late(s, p.seq) ==> t.late_dropped == s.late_dropped,
        t.packets_out == s.packets_out,
        t.last_released == s.last_released,
{
    broadcast use vstd::seq_lib::group_to_multiset_ensures;

    if !is_late(s, p.seq) && precedes(s.queue, p.seq) {
        let q = s.queue;
        lemma_position(offsets(q, q[0].seq), offset(p.seq, q[0].seq) as u32);
        let k = rank(q, p.seq) as int;
        assert(q =~= q.take(k) + q.skip(k));
        vstd::seq_lib::lemma_multiset_commutative(q.take(k), q.skip(k));
        vstd::seq_lib::lemma_multiset_commutative(q.skip(k), q.take(k));
        assert(turned(q, p.seq).to_multiset() =~= q.to_multiset());
    }
}

/// A wraparound is counted once: as long as nothing else leaves, the packets behind the first one
/// across the boundary do not count again.
pub proof fn law_wraparound_counts_once(s: JitterState, a: u32, b: u32)
    requires
        crosses(s, a),
        crosses(s, b),
    ensures
        counted(counted(s, a), b).wraparounds == counted(s, a).wraparounds,
        counted(s, a).wraparounds <= s.wraparounds + 1,
{
}

/// Without a delay a packet that is not late leaves at once, when nothing is buffered.
pub proof fn law_no_delay_passes_through(
    s: JitterState,
    p: Packet,
    t: JitterState,
    out: Seq<(u32, Seq<u8>)>,
)
    requires
        s.queue.len() == 0,
        s.max_delay == 0,
        !is_late(s, p.seq),
        inserted(s, p, t, out),
    ensures
        out == seq![(p.realm, p.data)],
        t.queue.len() == 0,
        t.last_released == Some(p.seq),
{
    let mid = admitted(s, p);
    assert(mid.queue == seq![p]);
    assert(mid.queue.skip(1).len() == 0);
    assert(due(mid.queue, p.at, 0) == 1) by {
        reveal_with_fuel(due, 2);
    }
    assert(out =~= seq![(p.realm, p.data)]);
}

} // verus!
