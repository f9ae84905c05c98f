//! What holds of the open connections, whatever happens to them.
use vstd::prelude::*;

use crate::config::DropPolicy;
use crate::health::HealthCounters;
use crate::realms::{
    abandoned, consistent, delivered, disconnected, first_unused, forwarded, hung_up, is_used,
    registered, routed, routed_all, Delivery, Forwarded, LaneState, Table,
};

verus! {

/// The frames of a lane in the order in which they will reach the client.
pub open spec fn line(l: LaneState) -> Seq<Seq<u8>> {
    l.channel.queue + l.backlog
}

/// A frame goes to the end of its lane or is dropped; nothing overtakes anything.
pub proof fn law_frames_keep_their_order(
    l: LaneState,
    data: Seq<u8>,
    capacity: nat,
    policy: DropPolicy,
)
    ensures
        ({
            let (after, d) = delivered(l, data, capacity, policy);
            match d {
                Delivery::Queued | Delivery::Parked => line(after) == line(l).push(data),
                Delivery::DroppedOldest => line(after) == line(l).skip(1).push(data),
                Delivery::DroppedNewest | Delivery::Ignored => line(after) == line(l),
            }
        }),
{
    let (after, d) = delivered(l, data, capacity, policy);
    match d {
        Delivery::Queued | Delivery::Parked => {
            assert(line(after) =~= line(l).push(data));
        },
        Delivery::DroppedOldest => {
            assert(line(after) =~= line(l).skip(1).push(data));
        },
        _ => {
            assert(line(after) =~= line(l));
        },
    }
}

/// Moving a waiting frame into the channel loses nothing and changes no order.
pub proof fn law_forwarding_keeps_the_line(l: LaneState, capacity: nat)
    ensures
        line(forwarded(l, capacity).0) == line(l),
        forwarded(l, capacity).1 == Forwarded::Moved ==> forwarded(l, capacity).0.backlog.len()
            == l.backlog.len() - 1,
{
    assert(line(forwarded(l, capacity).0) =~= line(l));
}

/// However full a lane is, at most so many frames wait in it as its channel has room for.
pub proof fn law_waiting_frames_are_bounded(
    l: LaneState,
    data: Seq<u8>,
    capacity: nat,
    policy: DropPolicy,
)
    requires
        l.backlog.len() <= capacity,
    ensures
        delivered(l, data, capacity, policy).0.backlog.len() <= capacity,
{
}

proof fn lemma_routed_all<W>(
    t: Table<W>,
    h: HealthCounters,
    frames: Seq<(u32, Seq<u8>)>,
    capacity: nat,
    policy: DropPolicy,
)
    ensures
        ({
            let after = routed_all(t, h, frames, capacity, policy).0;
            after.open == t.open && after.waiters == t.waiters && after.next == t.next
        }),
    decreases frames.len(),
{
    if frames.len() > 0 {
        lemma_routed_all(t, h, frames.drop_last(), capacity, policy);
    }
}

/// Whatever comes for other realms, however slow their clients are, the lane of a realm is as it
/// was.
pub proof fn law_realms_do_not_hold_each_other_up<W>(
    t: Table<W>,
    h: HealthCounters,
    frames: Seq<(u32, Seq<u8>)>,
    capacity: nat,
    policy: DropPolicy,
    realm: u32,
)
    requires
        consistent(t),
        t.open.contains_key(realm),
        forall|i: int| 0 <= i < frames.len() ==> (#[trigger] frames[i]).0 != realm,
    ensures
        ({
            let after = routed_all(t, h, frames, capacity, policy).0;
            &&& after.open == t.open
            &&& after.lanes[t.open[realm]] == t.lanes[t.open[realm]]
        }),
    decreases frames.len(),
{
    lemma_routed_all(t, h, frames, capacity, policy);
    if frames.len() > 0 {
        let rest = frames.drop_last();
        assert forall|i: int| 0 <= i < rest.len() implies (#[trigger] rest[i]).0 != realm by {
            assert(rest[i] == frames[i]);
        }
        law_realms_do_not_hold_each_other_up(t, h, rest, capacity, policy, realm);
        lemma_routed_all(t, h, rest, capacity, policy);
        assert(frames.last().0 != realm);
    }
}

/// What comes for a realm that is gone changes nothing.
pub proof fn law_nothing_for_a_gone_realm<W>(
    t: Table<W>,
    h: HealthCounters,
    realm: u32,
    data: Seq<u8>,
    capacity: nat,
    policy: DropPolicy,
)
    ensures
        routed(hung_up(t, realm), h, (realm, data), capacity, policy) == (hung_up(t, realm), h),
{
}

/// When a realm goes, the frames that are queued for its client stay to be written, and every other
/// realm keeps its lane as it is.
pub proof fn law_hanging_up_loses_nothing_queued<W>(t: Table<W>, realm: u32, other: u32)
    requires
        consistent(t),
        t.open.contains_key(realm),
        t.open.contains_key(other),
        other != realm,
    ensures
        ({
            let after = disconnected(t, realm);
            let id = t.open[realm];
            &&& !after.open.contains_key(realm)
            &&& !after.waiters.contains_key(realm)
            &&& after.lanes[id].channel.queue == t.lanes[id].channel.queue
            &&& after.lanes[id].channel.closed
            &&& after.open.contains_key(other)
            &&& after.open[other] == t.open[other]
            &&& after.lanes[t.open[other]] == t.lanes[t.open[other]]
        }),
{
}

/// A connection with an unused realm takes nothing away from the others.
pub proof fn law_unused_realm_replaces_nothing<W>(t: Table<W>, realm: u32, waiter: W, other: u32)
    requires
        consistent(t),
        !is_used(t, realm),
        is_used(t, other),
    ensures
        ({
            let after = registered(t, realm, waiter);
            &&& after.open.contains_key(other) == t.open.contains_key(other)
            &&& t.open.contains_key(other) ==> after.open[other] == t.open[other]
                && after.lanes[t.open[other]] == t.lanes[t.open[other]]
            &&& after.waiters.contains_key(other) == t.waiters.contains_key(other)
            &&& t.waiters.contains_key(other) ==> after.waiters[other] == t.waiters[other]
        }),
{
    if t.open.contains_key(other) {
        assert(t.lanes.contains_key(t.open[other]));
    }
}

/// A lane that was given to a realm, and that no other realm has: it is open there, or it is closed,
/// or it is gone.
pub open spec fn belongs<W>(t: Table<W>, realm: u32, lane: u64) -> bool {
    &&& lane < t.next
    &&& forall|r: u32| #[trigger] t.open.contains_key(r) && t.open[r] == lane ==> r == realm
    &&& t.lanes.contains_key(lane) ==> t.lanes[lane].channel.closed || (t.open.contains_key(realm)
        && t.open[realm] == lane)
}

/// The lane of a new connection belongs to its realm, and so it stays, whoever hangs up, connects
/// with an unused realm or is sent frames.
pub proof fn law_a_lane_stays_with_its_realm<W>(
    t: Table<W>,
    realm: u32,
    waiter: W,
    lane: u64,
    other: u32,
    h: HealthCounters,
    frames: Seq<(u32, Seq<u8>)>,
    capacity: nat,
    policy: DropPolicy,
)
    requires
        consistent(t),
        t.next < u64::MAX,
    ensures
        belongs(registered(t, realm, waiter), realm, t.next),
        belongs(t, realm, lane) ==> {
            &&& belongs(hung_up(t, other), realm, lane)
            &&& belongs(disconnected(t, other), realm, lane)
            &&& !is_used(t, other) ==> belongs(registered(t, other, waiter), realm, lane)
            &&& belongs(routed_all(t, h, frames, capacity, policy).0, realm, lane)
        },
{
    let new = registered(t, realm, waiter);
    assert forall|r: u32| #[trigger] new.open.contains_key(r) && new.open[r] == t.next implies r
        == realm by {
        if r != realm {
            assert(t.open.contains_key(r));
            assert(t.lanes.contains_key(t.open[r]));
        }
    }
    if belongs(t, realm, lane) {
        let gone = hung_up(t, other);
        assert forall|r: u32| #[trigger] gone.open.contains_key(r) && gone.open[r]
            == lane implies r == realm by {
            assert(t.open.contains_key(r));
        }
        if t.open.contains_key(other) {
            assert(t.lanes.contains_key(t.open[other]));
        }
        let gone = disconnected(t, other);
        assert forall|r: u32| #[trigger] gone.open.contains_key(r) && gone.open[r]
            == lane implies r == realm by {
            assert(t.open.contains_key(r));
        }
        if !is_used(t, other) {
            let more = registered(t, other, waiter);
            assert forall|r: u32| #[trigger] more.open.contains_key(r) && more.open[r]
                == lane implies r == realm by {
                if r != other {
                    assert(t.open.contains_key(r));
                }
            }
        }
        lemma_routed_all(t, h, frames, capacity, policy);
        lemma_routed_lane(t, h, frames, capacity, policy, lane);
        let sent = routed_all(t, h, frames, capacity, policy).0;
        assert forall|r: u32| #[trigger] sent.open.contains_key(r) && sent.open[r]
            == lane implies r == realm by {
            assert(t.open.contains_key(r));
        }
    }
}

/// Frames make no lane and close none.
proof fn lemma_routed_lane<W>(
    t: Table<W>,
    h: HealthCounters,
    frames: Seq<(u32, Seq<u8>)>,
    capacity: nat,
    policy: DropPolicy,
    lane: u64,
)
    requires
        consistent(t),
    ensures
        ({
            let after = routed_all(t, h, frames, capacity, policy).0;
            &&& after.lanes.contains_key(lane) == t.lanes.contains_key(lane)
            &&& t.lanes.contains_key(lane) ==> after.lanes[lane].channel.closed
                == t.lanes[lane].channel.closed
        }),
    decreases frames.len(),
{
    if frames.len() > 0 {
        let rest = frames.drop_last();
        lemma_routed_lane(t, h, rest, capacity, policy, lane);
        lemma_routed_all(t, h, rest, capacity, policy);
        let realm = frames.last().0;
        if t.open.contains_key(realm) {
            assert(t.lanes.contains_key(t.open[realm]));
        }
    }
}

/// A connection that is entered and abandoned leaves no trace but a used up lane number.
pub proof fn law_abandoning_undoes_registering<W>(t: Table<W>, realm: u32, waiter: W)
    requires
        consistent(t),
        !is_used(t, realm),
        t.next < u64::MAX,
    ensures
        abandoned(registered(t, realm, waiter), realm, t.next) == (Table {
            next: (t.next + 1) as u64,
            ..t
        }),
{
    let after = abandoned(registered(t, realm, waiter), realm, t.next);
    assert(after.open =~= t.open);
    assert(after.waiters =~= t.waiters);
    assert(!t.lanes.contains_key(t.next));
    assert(after.lanes =~= t.lanes);
}

/// Among candidates of which one is unused, an unused one is found.
pub proof fn law_an_unused_candidate_is_found<W>(t: Table<W>, candidates: Seq<u32>, i: int)
    requires
        0 <= i < candidates.len(),
        !is_used(t, candidates[i]),
    ensures
        first_unused(t, candidates) matches Some(realm) && !is_used(t, realm)
            && candidates.contains(realm),
    decreases candidates.len(),
{
    if is_used(t, candidates[0]) {
        let rest = candidates.skip(1);
        assert(rest[i - 1] == candidates[i]);
        law_an_unused_candidate_is_found(t, rest, i - 1);
        let realm = first_unused(t, rest)->0;
        let k = choose|k: int| 0 <= k < rest.len() && rest[k] == realm;
        assert(candidates[k + 1] == realm);
    } else {
        assert(candidates[0] == first_unused(t, candidates)->0);
    }
}

} // verus!
