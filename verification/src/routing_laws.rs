//! Where frames go, and what becomes of them there.
use vstd::prelude::*;

use crate::buffer::frames;
use crate::channel::{
    contents, counted_fate, pushed, Channel, ClientChannel, Fate, Pushed, Received,
};
use crate::config::DropPolicy;
use crate::health::{wrapped, HealthCounters};
use crate::realm_laws::line;
use crate::realms::{
    consistent, counted_delivery, disconnected, finished, first_unused, forwarded, hung_up, is_used,
    registered, routed, routed_all, Delivery, Forwarded, LaneState, RealmTable, Removed, Table,
};

verus! {

/// One more, as a counter holds it: after the largest number comes zero.
pub open spec fn one_more(n: u64) -> int {
    if n == 0xFFFF_FFFF_FFFF_FFFF {
        0
    } else {
        n + 1
    }
}

/// The counters are as before, but for one more frame that was dropped because it was the newest.
pub open spec fn newest_dropped(h: HealthCounters, g: HealthCounters) -> bool {
    &&& g.drops_newest == one_more(h.drops_newest)
    &&& g == (HealthCounters { drops_newest: g.drops_newest, ..h })
}

/// The counters are as before, but for one more frame that was dropped because it was the oldest.
pub open spec fn oldest_dropped(h: HealthCounters, g: HealthCounters) -> bool {
    &&& g.drops_oldest == one_more(h.drops_oldest)
    &&& g == (HealthCounters { drops_oldest: g.drops_oldest, ..h })
}

/// A counter that is raised by one goes up by one, and from its largest value to zero.
pub proof fn law_counters_count(n: u64)
    ensures
        wrapped(n, 1) == one_more(n),
{
}

/// An open channel with room takes a frame in, at the end of its queue.
pub proof fn law_room_means_queued(c: Channel, data: Seq<u8>, capacity: nat, policy: DropPolicy)
    requires
        !c.closed,
        c.queue.len() < capacity,
    ensures
        ({
            let (after, fate) = pushed(c, data, capacity, policy);
            &&& fate is Queued
            &&& after.queue.len() == c.queue.len() + 1
            &&& after.queue.last() == data
            &&& forall|i: int| 0 <= i < c.queue.len() ==> after.queue[i] == #[trigger] c.queue[i]
            &&& !after.closed
        }),
{
}

/// What an open channel without room does is what its policy says: the frame waits, or it is
/// dropped, or the oldest is dropped for it.
pub proof fn law_policies_differ_when_full(c: Channel, data: Seq<u8>, capacity: nat)
    requires
        !c.closed,
        c.queue.len() >= capacity,
        c.queue.len() > 0,
    ensures
        pushed(c, data, capacity, DropPolicy::Block) == (c, Fate::Wait(data)),
        pushed(c, data, capacity, DropPolicy::DropNewest) == (c, Fate::DroppedNewest),
        ({
            let (after, fate) = pushed(c, data, capacity, DropPolicy::DropOldestKeepLatest);
            &&& fate is DroppedOldest
            &&& after.queue.len() == c.queue.len()
            &&& after.queue.last() == data
            &&& forall|i: int|
                0 < i < c.queue.len() ==> after.queue[i - 1] == #[trigger] c.queue[i]
            &&& !after.closed
        }),
{
}

/// Exactly the frames that are dropped are counted, each where it belongs.
pub proof fn law_drops_are_counted(h: HealthCounters, data: Seq<u8>)
    ensures
        counted_fate(h, Fate::Queued) == h,
        counted_fate(h, Fate::Ignored) == h,
        counted_fate(h, Fate::Wait(data)) == h,
        newest_dropped(h, counted_fate(h, Fate::DroppedNewest)),
        oldest_dropped(h, counted_fate(h, Fate::DroppedOldest)),
        counted_delivery(h, Delivery::Queued) == h,
        counted_delivery(h, Delivery::Ignored) == h,
        counted_delivery(h, Delivery::Parked) == h,
        newest_dropped(h, counted_delivery(h, Delivery::DroppedNewest)),
        oldest_dropped(h, counted_delivery(h, Delivery::DroppedOldest)),
{
}

/// What some frames hold is what each of them holds.
pub proof fn law_contents(v: Seq<Vec<u8>>)
    ensures
        contents(v).len() == v.len(),
        forall|i: int| 0 <= i < v.len() ==> #[trigger] contents(v)[i] == v[i]@,
{
}

/// Who a frame's lane has room for: its channel, where nobody waits, and otherwise the line of those
/// who wait.
pub open spec fn has_room(l: LaneState, capacity: nat, policy: DropPolicy) -> bool {
    if l.backlog.len() > 0 {
        l.backlog.len() < capacity
    } else {
        l.channel.queue.len() < capacity || (policy == DropPolicy::Block && capacity > 0)
    }
}

/// Every frame for an open realm reaches that realm's lane. Where there is room it ends up last in
/// line there, behind everything that came before it, and nothing is dropped or counted. Without
/// room one frame is dropped and counted: the oldest, where the policy is to keep the latest and
/// nobody waits, and otherwise the frame itself. Nothing else changes, and no other lane.
#[verifier::rlimit(40)]
pub proof fn law_a_frame_reaches_its_lane<W>(
    t: Table<W>,
    h: HealthCounters,
    realm: u32,
    data: Seq<u8>,
    capacity: nat,
    policy: DropPolicy,
)
    requires
        consistent(t),
        t.open.contains_key(realm),
    ensures
        ({
            let (after, g) = routed(t, h, (realm, data), capacity, policy);
            let old_lane = t.lanes[t.open[realm]];
            let new_lane = after.lanes[t.open[realm]];
            &&& after.open == t.open
            &&& after.waiters == t.waiters
            &&& after.next == t.next
            &&& after.lanes.dom() == t.lanes.dom()
            &&& forall|id: u64|
                #![trigger after.lanes[id]]
                id != t.open[realm] && t.lanes.contains_key(id) ==> after.lanes[id] == t.lanes[id]
            &&& !new_lane.channel.closed
            &&& has_room(old_lane, capacity, policy) ==> line(new_lane) == line(old_lane).push(data)
                && g == h
            &&& old_lane.backlog.len() == 0 && old_lane.channel.queue.len() < capacity
                ==> new_lane.channel.queue == old_lane.channel.queue.push(data)
            &&& !has_room(old_lane, capacity, policy) && policy == DropPolicy::DropOldestKeepLatest
                && old_lane.backlog.len() == 0 && old_lane.channel.queue.len() > 0 ==> line(
                new_lane,
            ) == line(old_lane).skip(1).push(data) && oldest_dropped(h, g)
            &&& !has_room(old_lane, capacity, policy) && (policy != DropPolicy::DropOldestKeepLatest
                || old_lane.backlog.len() > 0) ==> new_lane == old_lane && newest_dropped(h, g)
        }),
{
    let (after, g) = routed(t, h, (realm, data), capacity, policy);
    let old_lane = t.lanes[t.open[realm]];
    let new_lane = after.lanes[t.open[realm]];
    assert(t.lanes.contains_key(t.open[realm]));
    assert(after.lanes.dom() =~= t.lanes.dom());
    if has_room(old_lane, capacity, policy) {
        assert(line(new_lane) =~= line(old_lane).push(data));
    } else if policy == DropPolicy::DropOldestKeepLatest && old_lane.backlog.len() == 0
        && old_lane.channel.queue.len() > 0 {
        assert(line(new_lane) =~= line(old_lane).skip(1).push(data));
    }
}

/// Whoever still waits for a confirmation, and wherever: it has no influence on where frames go.
pub proof fn law_waiting_does_not_matter<W>(
    t: Table<W>,
    waiters: Map<u32, W>,
    h: HealthCounters,
    frames: Seq<(u32, Seq<u8>)>,
    capacity: nat,
    policy: DropPolicy,
)
    ensures
        ({
            let u = Table { waiters, ..t };
            let (a, g) = routed_all(t, h, frames, capacity, policy);
            let (b, k) = routed_all(u, h, frames, capacity, policy);
            a.lanes == b.lanes && a.open == b.open && g == k
        }),
    decreases frames.len(),
{
    if frames.len() > 0 {
        law_waiting_does_not_matter(t, waiters, h, frames.drop_last(), capacity, policy);
    }
}

/// The frames for one realm, in their order.
pub open spec fn frames_for(frames: Seq<(u32, Seq<u8>)>, realm: u32) -> Seq<Seq<u8>>
    decreases frames.len(),
{
    if frames.len() == 0 {
        Seq::empty()
    } else if frames.last().0 == realm {
        frames_for(frames.drop_last(), realm).push(frames.last().1)
    } else {
        frames_for(frames.drop_last(), realm)
    }
}

/// Of a lot of frames each realm gets those that are for it, all of them and in their order, as long
/// as its channel has room.
pub proof fn law_each_realm_gets_its_frames<W>(
    t: Table<W>,
    h: HealthCounters,
    frames: Seq<(u32, Seq<u8>)>,
    capacity: nat,
    policy: DropPolicy,
    realm: u32,
)
    requires
        consistent(t),
        t.open.contains_key(realm),
        t.lanes[t.open[realm]].backlog.len() == 0,
        t.lanes[t.open[realm]].channel.queue.len() + frames_for(frames, realm).len() <= capacity,
    ensures
        ({
            let after = routed_all(t, h, frames, capacity, policy).0;
            let old_lane = t.lanes[t.open[realm]];
            let new_lane = after.lanes[t.open[realm]];
            &&& after.open == t.open
            &&& new_lane.channel.queue == old_lane.channel.queue + frames_for(frames, realm)
            &&& new_lane.backlog.len() == 0
            &&& !new_lane.channel.closed
        }),
    decreases frames.len(),
{
    let after = routed_all(t, h, frames, capacity, policy).0;
    let old_lane = t.lanes[t.open[realm]];
    assert(!old_lane.channel.closed);
    if frames.len() == 0 {
        assert(old_lane.channel.queue + frames_for(frames, realm) =~= old_lane.channel.queue);
    } else {
        let rest = frames.drop_last();
        law_each_realm_gets_its_frames(t, h, rest, capacity, policy, realm);
        let before = routed_all(t, h, rest, capacity, policy).0;
        let (r, data) = frames.last();
        if r == realm {
            assert(after.lanes[t.open[realm]].channel.queue =~= old_lane.channel.queue + frames_for(
                frames,
                realm,
            ));
        } else if t.open.contains_key(r) {
            assert(t.open[r] != t.open[realm]);
        }
    }
}

/// A realm that is entered is in use: it has an empty, open lane of its own that no one had before,
/// and whoever waits for it is noted.
pub proof fn law_an_entered_realm_is_reachable<W>(t: Table<W>, realm: u32, waiter: W)
    requires
        consistent(t),
        t.next < u64::MAX,
    ensures
        ({
            let after = registered(t, realm, waiter);
            let lane = after.lanes[after.open[realm]];
            &&& after.open.contains_key(realm)
            &&& after.lanes.contains_key(after.open[realm])
            &&& !t.lanes.contains_key(after.open[realm])
            &&& lane.channel.queue.len() == 0
            &&& !lane.channel.closed
            &&& lane.backlog.len() == 0
            &&& after.waiters.contains_key(realm)
            &&& after.waiters[realm] == waiter
            &&& is_used(after, realm)
            &&& forall|other: u32|
                #![trigger after.open.contains_key(other)]
                other != realm ==> after.open.contains_key(other) == t.open.contains_key(other) && (
                t.open.contains_key(other) ==> after.open[other] == t.open[other])
            &&& forall|id: u64|
                #![trigger after.lanes[id]]
                t.lanes.contains_key(id) ==> after.lanes.contains_key(id) && after.lanes[id]
                    == t.lanes[id]
        }),
{
}

/// A realm that hangs up is no longer open; its lane takes nothing more in and gives out what its
/// channel holds. Who waits for it goes only when it is disconnected, and then the realm is free
/// again. No other realm notices.
pub proof fn law_a_gone_realm_is_free<W>(t: Table<W>, realm: u32)
    requires
        consistent(t),
    ensures
        ({
            let a = hung_up(t, realm);
            let b = disconnected(t, realm);
            &&& !a.open.contains_key(realm)
            &&& a.waiters == t.waiters
            &&& !is_used(b, realm)
            &&& b.open == a.open
            &&& b.lanes == a.lanes
            &&& forall|other: u32|
                #![trigger b.waiters.contains_key(other)]
                other != realm ==> b.waiters.contains_key(other) == t.waiters.contains_key(other)
            &&& t.open.contains_key(realm) ==> {
                let lane = a.lanes[t.open[realm]];
                &&& lane.channel.closed
                &&& lane.channel.queue == t.lanes[t.open[realm]].channel.queue
                &&& lane.backlog.len() == 0
            }
            &&& !t.open.contains_key(realm) ==> a == t
            &&& forall|id: u64|
                #![trigger a.lanes[id]]
                t.lanes.contains_key(id) && (t.open.contains_key(realm) ==> id != t.open[realm])
                    ==> a.lanes.contains_key(id) && a.lanes[id] == t.lanes[id]
        }),
{
}

/// A realm is in use while it is open or someone waits for it, and not otherwise.
pub proof fn law_use_of_a_realm<W>(t: Table<W>, realm: u32)
    ensures
        t.open.contains_key(realm) ==> is_used(t, realm),
        t.waiters.contains_key(realm) ==> is_used(t, realm),
        !t.open.contains_key(realm) && !t.waiters.contains_key(realm) ==> !is_used(t, realm),
{
}

/// Of some candidates the first that is not in use is taken, and none only where all are in use.
pub proof fn law_the_first_unused_is_taken<W>(t: Table<W>, candidates: Seq<u32>)
    ensures
        match first_unused(t, candidates) {
            Some(realm) => exists|k: int|
                #![trigger candidates[k]]
                0 <= k < candidates.len() && candidates[k] == realm && !is_used(t, realm) && forall|
                    i: int,
                |
                    0 <= i < k ==> is_used(t, #[trigger] candidates[i]),
            None => forall|i: int|
                0 <= i < candidates.len() ==> is_used(t, #[trigger] candidates[i]),
        },
    decreases candidates.len(),
{
    if candidates.len() > 0 {
        if !is_used(t, candidates[0]) {
            assert(candidates[0] == first_unused(t, candidates)->0);
        } else {
            let rest = candidates.skip(1);
            law_the_first_unused_is_taken(t, rest);
            match first_unused(t, rest) {
                Some(realm) => {
                    let k = choose|k: int|
                        #![trigger rest[k]]
                        0 <= k < rest.len() && rest[k] == realm && !is_used(t, realm) && forall|
                            i: int,
                        |
                            0 <= i < k ==> is_used(t, #[trigger] rest[i]);
                    assert(candidates[k + 1] == realm);
                    assert forall|i: int| 0 <= i < k + 1 implies is_used(
                        t,
                        #[trigger] candidates[i],
                    ) by {
                        if i > 0 {
                            assert(rest[i - 1] == candidates[i]);
                        }
                    }
                },
                None => {
                    assert forall|i: int| 0 <= i < candidates.len() implies is_used(
                        t,
                        #[trigger] candidates[i],
                    ) by {
                        if i > 0 {
                            assert(rest[i - 1] == candidates[i]);
                        }
                    }
                },
            }
        }
    }
}

/// A waiting frame moves into the channel of an open lane as soon as there is room, the first in
/// line first; it stays while there is none.
pub proof fn law_waiting_frames_move_up(l: LaneState, capacity: nat)
    ensures
        ({
            let (after, f) = forwarded(l, capacity);
            &&& l.channel.closed ==> f == Forwarded::Closed
            &&& !l.channel.closed && l.backlog.len() == 0 ==> f == Forwarded::Idle
            &&& !l.channel.closed && l.backlog.len() > 0 && l.channel.queue.len() >= capacity ==> f
                == Forwarded::Blocked
            &&& !l.channel.closed && l.backlog.len() > 0 && l.channel.queue.len() < capacity ==> {
                &&& f == Forwarded::Moved
                &&& after.channel.queue.last() == l.backlog[0]
                &&& after.channel.queue.len() == l.channel.queue.len() + 1
                &&& after.backlog.len() == l.backlog.len() - 1
                &&& after.channel.closed == l.channel.closed
            }
            &&& f != Forwarded::Moved ==> after == l
        }),
{
}

/// A lane is removed when it is closed, and only it.
pub proof fn law_only_closed_lanes_are_removed<W>(t: Table<W>, lane: u64)
    ensures
        ({
            let after = finished(t, lane);
            &&& t.lanes.contains_key(lane) && !t.lanes[lane].channel.closed ==> after == t
            &&& t.lanes.contains_key(lane) && t.lanes[lane].channel.closed ==> !after.lanes.contains_key(
                lane,
            )
            &&& after.open == t.open
            &&& after.waiters == t.waiters
            &&& forall|id: u64|
                #![trigger after.lanes.contains_key(id)]
                id != lane ==> after.lanes.contains_key(id) == t.lanes.contains_key(id) && (
                t.lanes.contains_key(id) ==> after.lanes[id] == t.lanes[id])
        }),
{
}

/// A frame that comes for an open realm whose lane is empty of waiting frames and has room is put in
/// the channel of that lane, behind what is there, whoever waits for whatever. Every other lane stays
/// as it is. What comes for a realm that is not open changes nothing.
pub proof fn law_routing_reaches_the_lane<W>(
    table: &mut RealmTable<W>,
    realm: u32,
    data: Vec<u8>,
    policy: DropPolicy,
    capacity: usize,
    health: &mut HealthCounters,
)
    requires
        call_ensures(
            RealmTable::<W>::route,
            (table, realm, data, policy, capacity, health),
            (),
        ),
        old(table).wf(),
    ensures
        final(table)@.open == old(table)@.open,
        final(table)@.waiters == old(table)@.waiters,
        !old(table)@.open.contains_key(realm) ==> final(table)@ == old(table)@ && *final(health)
            == *old(health),
        old(table)@.open.contains_key(realm) ==> {
            let id = old(table)@.open[realm];
            &&& has_room(old(table)@.lanes[id], capacity as nat, policy) ==> line(
                final(table)@.lanes[id],
            ) == line(old(table)@.lanes[id]).push(data@) && *final(health) == *old(health)
            &&& old(table)@.lanes[id].backlog.len() == 0 && old(table)@.lanes[id].channel.queue.len()
                < capacity ==> final(table)@.lanes[id].channel.queue
                == old(table)@.lanes[id].channel.queue.push(data@)
            &&& forall|other: u64|
                #![trigger final(table)@.lanes[other]]
                other != id && old(table)@.lanes.contains_key(other) ==> final(table)@.lanes[other]
                    == old(table)@.lanes[other]
        },
{
    if old(table)@.open.contains_key(realm) {
        law_a_frame_reaches_its_lane(
            old(table)@,
            *old(health),
            realm,
            data@,
            capacity as nat,
            policy,
        );
    }
}

/// The frames of a lot that are for a realm.
pub open spec fn packets_for(packets: Seq<(u32, Vec<u8>)>, realm: u32) -> Seq<Seq<u8>>
    decreases packets.len(),
{
    if packets.len() == 0 {
        Seq::empty()
    } else if packets.last().0 == realm {
        packets_for(packets.drop_last(), realm).push(packets.last().1@)
    } else {
        packets_for(packets.drop_last(), realm)
    }
}

proof fn lemma_packets_for(packets: Seq<(u32, Vec<u8>)>, realm: u32)
    ensures
        packets_for(packets, realm) == frames_for(frames(packets), realm),
    decreases packets.len(),
{
    if packets.len() > 0 {
        lemma_packets_for(packets.drop_last(), realm);
        assert(frames(packets).drop_last() =~= frames(packets.drop_last()));
        assert(frames(packets).last() == (packets.last().0, packets.last().1@));
    }
}

/// Of what is sent to the clients each realm gets its own, all of it and in order, as long as its
/// channel has room.
pub proof fn law_clients_get_their_frames<W>(
    table: &mut RealmTable<W>,
    packets: Vec<(u32, Vec<u8>)>,
    policy: DropPolicy,
    capacity: usize,
    health: &mut HealthCounters,
    realm: u32,
)
    requires
        call_ensures(
            RealmTable::<W>::send_to_clients,
            (table, packets, policy, capacity, health),
            (),
        ),
        old(table).wf(),
        old(table)@.open.contains_key(realm),
        old(table)@.lanes[old(table)@.open[realm]].backlog.len() == 0,
        old(table)@.lanes[old(table)@.open[realm]].channel.queue.len() + packets_for(
            packets@,
            realm,
        ).len() <= capacity,
    ensures
        final(table)@.open == old(table)@.open,
        final(table)@.lanes[old(table)@.open[realm]].channel.queue
            == old(table)@.lanes[old(table)@.open[realm]].channel.queue + packets_for(
            packets@,
            realm,
        ),
{
    lemma_packets_for(packets@, realm);
    law_each_realm_gets_its_frames(
        old(table)@,
        *old(health),
        frames(packets@),
        capacity as nat,
        policy,
        realm,
    );
}

/// The frames of a lane are taken out of its channel in the order in which they stand there. A lane
/// that is open has more to come; one that is closed ends with its last frame.
pub proof fn law_frames_are_taken_in_order<W>(
    table: &mut RealmTable<W>,
    id: u64,
    r: Received,
)
    requires
        call_ensures(RealmTable::<W>::take_frame, (table, id), r),
        old(table)@.lanes.contains_key(id),
    ensures
        final(table)@.open == old(table)@.open,
        final(table)@.waiters == old(table)@.waiters,
        old(table)@.lanes[id].channel.queue.len() > 0 ==> {
            &&& r matches Received::Data(d) && line(old(table)@.lanes[id]) == seq![d@] + line(
                final(table)@.lanes[id],
            )
            &&& final(table)@.lanes[id].channel.closed == old(table)@.lanes[id].channel.closed
        },
        old(table)@.lanes[id].channel.queue.len() == 0 ==> final(table)@ == old(table)@ && (
        r is Closed <==> old(table)@.lanes[id].channel.closed) && !(r is Data),
        forall|other: u64|
            #![trigger final(table)@.lanes[other]]
            other != id && old(table)@.lanes.contains_key(other) ==> final(table)@.lanes[other]
                == old(table)@.lanes[other],
{
    if let Received::Data(d) = r {
        assert(line(old(table)@.lanes[id]) =~= seq![d@] + line(final(table)@.lanes[id]));
    }
}

/// A frame that has waited for too long is the first of those that wait; it is dropped and counted,
/// and the others stay in line.
pub proof fn law_giving_up_drops_one<W>(
    table: &mut RealmTable<W>,
    id: u64,
    health: &mut HealthCounters,
    dropped: bool,
)
    requires
        call_ensures(RealmTable::<W>::give_up, (table, id, health), dropped),
        old(table)@.lanes.contains_key(id),
    ensures
        dropped <==> old(table)@.lanes[id].backlog.len() > 0,
        !dropped ==> final(table)@ == old(table)@ && *final(health) == *old(health),
        dropped ==> {
            &&& final(table)@.lanes[id].channel == old(table)@.lanes[id].channel
            &&& old(table)@.lanes[id].backlog == seq![old(table)@.lanes[id].backlog[0]]
                + final(table)@.lanes[id].backlog
            &&& newest_dropped(*old(health), *final(health))
        },
{
    if dropped {
        assert(old(table)@.lanes[id].backlog =~= seq![old(table)@.lanes[id].backlog[0]]
            + final(table)@.lanes[id].backlog);
    }
}

/// Whoever waits for a realm is handed out once, and the realm stays open.
pub proof fn law_waiters_are_called_once<W>(table: &mut RealmTable<W>, realm: u32, w: Option<W>)
    requires
        call_ensures(RealmTable::<W>::take_waiter, (table, realm), w),
    ensures
        w is Some <==> old(table)@.waiters.contains_key(realm),
        w is Some ==> w->0 == old(table)@.waiters[realm],
        !final(table)@.waiters.contains_key(realm),
        final(table)@.open == old(table)@.open,
        final(table)@.lanes == old(table)@.lanes,
        forall|other: u32|
            #![trigger final(table)@.waiters.contains_key(other)]
            other != realm ==> final(table)@.waiters.contains_key(other)
                == old(table)@.waiters.contains_key(other),
{
}

/// A channel takes a frame as its policy says, and counts what it drops.
pub proof fn law_channels_take_frames(
    c: &mut ClientChannel,
    data: Vec<u8>,
    capacity: usize,
    policy: DropPolicy,
    health: &mut HealthCounters,
    r: Pushed,
)
    requires
        call_ensures(ClientChannel::push, (c, data, capacity, policy, health), r),
        !old(c)@.closed,
    ensures
        old(c)@.queue.len() < capacity ==> r is Queued && final(c)@.queue == old(c)@.queue.push(
            data@,
        ) && *final(health) == *old(health),
        old(c)@.queue.len() >= capacity && policy == DropPolicy::Block ==> final(c)@ == old(c)@
            && *final(health) == *old(health) && (r matches Pushed::Wait(d) && d@ == data@),
        old(c)@.queue.len() >= capacity && policy == DropPolicy::DropNewest ==> final(c)@ == old(c)@
            && newest_dropped(*old(health), *final(health)) && r is DroppedNewest,
        old(c)@.queue.len() >= capacity && old(c)@.queue.len() > 0 && policy
            == DropPolicy::DropOldestKeepLatest ==> final(c)@.queue == old(c)@.queue.skip(1).push(
            data@,
        ) && oldest_dropped(*old(health), *final(health)) && r is DroppedOldest,
{
    if old(c)@.queue.len() >= capacity && policy == DropPolicy::Block {
        assert(r@ == Fate::Wait(data@));
    }
}

/// What is told of a table: whether a realm is in use, which lane it has, and whether a lane is
/// closed or gone.
pub proof fn law_tables_tell<W>(
    table: &RealmTable<W>,
    realm: u32,
    used: bool,
    lane: Option<u64>,
    id: u64,
    gone: bool,
)
    requires
        call_ensures(RealmTable::<W>::is_used, (table, realm), used),
        call_ensures(RealmTable::<W>::lane_of, (table, realm), lane),
        call_ensures(RealmTable::<W>::is_closed, (table, id), gone),
    ensures
        used <==> table@.open.contains_key(realm) || table@.waiters.contains_key(realm),
        lane is Some <==> table@.open.contains_key(realm),
        lane is Some ==> lane->0 == table@.open[realm],
        gone <==> !table@.lanes.contains_key(id) || table@.lanes[id].channel.closed,
{
}

/// Disconnecting a realm tells what there was of it, and leaves nothing of it but a closed lane.
pub proof fn law_disconnecting_tells_what_there_was<W>(
    table: &mut RealmTable<W>,
    realm: u32,
    r: Removed<W>,
)
    requires
        call_ensures(RealmTable::<W>::disconnect, (table, realm), r),
        old(table).wf(),
    ensures
        r.lane <==> old(table)@.open.contains_key(realm),
        r.waiter is Some <==> old(table)@.waiters.contains_key(realm),
        r.waiter is Some ==> r.waiter->0 == old(table)@.waiters[realm],
        !final(table)@.open.contains_key(realm),
        !final(table)@.waiters.contains_key(realm),
        r.lane ==> final(table)@.lanes[old(table)@.open[realm]].channel.closed
            && final(table)@.lanes[old(table)@.open[realm]].channel.queue
            == old(table)@.lanes[old(table)@.open[realm]].channel.queue,
{
}

} // verus!
