//! The open connections: each client has a realm, a lane for its frames, and at first someone who
//! waits for the camera's confirmation.
use std::collections::{HashMap, VecDeque};
use vstd::prelude::*;
use vstd::std_specs::hash::spec_keys_iter;
use vstd::std_specs::iter::IteratorSpec;

use crate::buffer::frames;
use crate::channel::{
    contents, count_blocked, counted_fate, pushed, Channel, ClientChannel, Fate, Pushed, Received,
    BLOCK_TIMEOUT_SECS,
};
use crate::config::DropPolicy;
use crate::health::HealthCounters;
use crate::random::random_u32;
use crate::time::{Duration, NANOS_PER_SEC};

verus! {

broadcast use vstd::std_specs::hash::group_hash_axioms;

/// The frames on their way to one client: those in its channel, and behind them those that wait for
/// room there.
pub struct Lane {
    pub channel: ClientChannel,
    backlog: VecDeque<Vec<u8>>,
}

/// A lane, as contracts speak of it.
pub struct LaneState {
    pub channel: Channel,
    pub backlog: Seq<Seq<u8>>,
}

impl View for Lane {
    type V = LaneState;

    closed spec fn view(&self) -> LaneState {
        LaneState { channel: self.channel@, backlog: contents(self.backlog@) }
    }
}

/// What became of a frame for a lane.
#[derive(Clone, Copy, Debug, PartialEq, Eq, Structural)]
pub enum Delivery {
    Queued,
    DroppedOldest,
    DroppedNewest,
    Ignored,
    /// It waits for room in the channel.
    Parked,
}

/// What became of a frame that waits.
#[derive(Clone, Copy, Debug, PartialEq, Eq, Structural)]
pub enum Forwarded {
    /// It is in the channel.
    Moved,
    /// There is no room yet.
    Blocked,
    /// No frame waits.
    Idle,
    /// The channel is closed.
    Closed,
}

/// An empty lane.
pub open spec fn empty_lane() -> LaneState {
    LaneState {
        channel: Channel { queue: Seq::empty(), closed: false },
        backlog: Seq::empty(),
    }
}

/// A frame joins those that wait, unless there are too many of them.
pub open spec fn parked(l: LaneState, data: Seq<u8>, capacity: nat) -> (LaneState, Delivery) {
    if l.backlog.len() < capacity {
        (LaneState { backlog: l.backlog.push(data), ..l }, Delivery::Parked)
    } else {
        (l, Delivery::DroppedNewest)
    }
}

/// What a frame does to a lane, and what becomes of it. It never has to be waited for.
pub open spec fn delivered(
    l: LaneState,
    data: Seq<u8>,
    capacity: nat,
    policy: DropPolicy,
) -> (LaneState, Delivery) {
    if l.backlog.len() > 0 {
        parked(l, data, capacity)
    } else {
        let (channel, fate) = pushed(l.channel, data, capacity, policy);
        let after = LaneState { channel, ..l };
        match fate {
            Fate::Queued => (after, Delivery::Queued),
            Fate::DroppedOldest => (after, Delivery::DroppedOldest),
            Fate::DroppedNewest => (after, Delivery::DroppedNewest),
            Fate::Ignored => (after, Delivery::Ignored),
            Fate::Wait(_) => parked(after, data, capacity),
        }
    }
}

/// The counters after a delivery.
pub open spec fn counted_delivery(h: HealthCounters, d: Delivery) -> HealthCounters {
    match d {
        Delivery::DroppedNewest => counted_fate(h, Fate::DroppedNewest),
        Delivery::DroppedOldest => counted_fate(h, Fate::DroppedOldest),
        _ => h,
    }
}

/// A closed lane: what is in the channel still comes out, what waits is gone.
pub open spec fn closed_lane(l: LaneState) -> LaneState {
    LaneState { channel: Channel { closed: true, ..l.channel }, backlog: Seq::empty() }
}

/// What comes of trying to move the first waiting frame into the channel.
pub open spec fn forwarded(l: LaneState, capacity: nat) -> (LaneState, Forwarded) {
    if l.channel.closed {
        (l, Forwarded::Closed)
    } else if l.backlog.len() == 0 {
        (l, Forwarded::Idle)
    } else if l.channel.queue.len() < capacity {
        (
            LaneState {
                channel: Channel { queue: l.channel.queue.push(l.backlog[0]), ..l.channel },
                backlog: l.backlog.skip(1),
            },
            Forwarded::Moved,
        )
    } else {
        (l, Forwarded::Blocked)
    }
}

impl Lane {
    fn new() -> (l: Lane)
        ensures
            l@ == empty_lane(),
    {
        let l = Lane { channel: ClientChannel::new(), backlog: VecDeque::new() };
        assert(l@.backlog =~= Seq::empty());
        l
    }

    fn park(&mut self, data: Vec<u8>, capacity: usize, health: &mut HealthCounters) -> (d: Delivery)
        ensures
            (final(self)@, d) == parked(old(self)@, data@, capacity as nat),
            *final(health) == counted_delivery(*old(health), d),
    {
        let ghost before = self@.backlog;
        if self.backlog.len() < capacity {
            self.backlog.push_back(data);
            assert(self@.backlog =~= before.push(data@));
            Delivery::Parked
        } else {
            count_blocked(health);
            Delivery::DroppedNewest
        }
    }

    /// Puts a frame on the lane.
    pub fn deliver(
        &mut self,
        data: Vec<u8>,
        capacity: usize,
        policy: DropPolicy,
        health: &mut HealthCounters,
    ) -> (d: Delivery)
        ensures
            (final(self)@, d) == delivered(old(self)@, data@, capacity as nat, policy),
            *final(health) == counted_delivery(*old(health), d),
    {
        if self.backlog.len() > 0 {
            return self.park(data, capacity, health);
        }
        match self.channel.push(data, capacity, policy, health) {
            Pushed::Queued => Delivery::Queued,
            Pushed::DroppedOldest => Delivery::DroppedOldest,
            Pushed::DroppedNewest => Delivery::DroppedNewest,
            Pushed::Ignored => Delivery::Ignored,
            Pushed::Wait(data) => self.park(data, capacity, health),
        }
    }

    /// Tries to move the first waiting frame into the channel.
    pub fn forward(&mut self, capacity: usize) -> (f: Forwarded)
        ensures
            (final(self)@, f) == forwarded(old(self)@, capacity as nat),
    {
        let ghost before = self@;
        if self.channel.is_closed() {
            return Forwarded::Closed;
        }
        if self.backlog.len() == 0 {
            return Forwarded::Idle;
        }
        if self.channel.len() >= capacity {
            return Forwarded::Blocked;
        }
        if let Some(data) = self.backlog.pop_front() {
            assert(self@.backlog =~= before.backlog.skip(1));
            let mut unused = HealthCounters::default();
            let _ = self.channel.push(data, capacity, DropPolicy::Block, &mut unused);
        }
        Forwarded::Moved
    }

    /// Drops the first waiting frame, which has waited for too long.
    pub fn give_up(&mut self, health: &mut HealthCounters) -> (dropped: bool)
        ensures
            dropped == (old(self)@.backlog.len() > 0),
            dropped ==> final(self)@ == (LaneState {
                backlog: old(self)@.backlog.skip(1),
                ..old(self)@
            }) && *final(health) == counted_delivery(*old(health), Delivery::DroppedNewest),
            !dropped ==> final(self)@ == old(self)@ && *final(health) == *old(health),
    {
        let ghost before = self@.backlog;
        if self.backlog.pop_front().is_some() {
            assert(self@.backlog =~= before.skip(1));
            count_blocked(health);
            true
        } else {
            false
        }
    }

    fn close(&mut self)
        ensures
            final(self)@ == closed_lane(old(self)@),
    {
        self.channel.close();
        self.backlog.clear();
        assert(self@.backlog =~= Seq::empty());
    }
}

/// Since when the first waiting frame of a lane has been kept out of its channel.
#[derive(Clone, Copy, Debug, PartialEq, Eq, Structural)]
pub struct Patience {
    pub since: Option<u128>,
}

/// What follows an attempt to forward a frame.
#[derive(Clone, Copy, Debug, PartialEq, Eq)]
pub enum ForwardNext {
    /// Try again at once.
    Again,
    /// Try again when something has changed.
    Wait,
    /// Try again when something has changed, or after this long.
    WaitFor(Duration),
    /// The frame has waited for too long: drop it.
    GiveUp,
    /// There is nothing more to forward.
    End,
}

/// How long a frame has been kept out by `now`.
pub open spec fn kept_out(p: Patience, now: u128) -> nat {
    match p.since {
        Some(since) => if now >= since {
            (now - since) as nat
        } else {
            0
        },
        None => 0,
    }
}

/// How long a frame may be kept out.
pub open spec fn block_timeout() -> nat {
    (BLOCK_TIMEOUT_SECS * NANOS_PER_SEC) as nat
}

impl Patience {
    /// No frame is kept out.
    pub fn new() -> (p: Patience)
        ensures
            p.since is None,
    {
        Patience { since: None }
    }

    /// What follows an attempt to forward a frame, which was made at `now`. A frame may be kept out
    /// for five seconds from the first attempt that found no room.
    pub fn after_forward(&mut self, f: Forwarded, now: u128) -> (next: ForwardNext)
        ensures
            match f {
                Forwarded::Moved => next is Again && final(self).since is None,
                Forwarded::Idle => next is Wait && final(self).since is None,
                Forwarded::Closed => next is End && final(self).since is None,
                Forwarded::Blocked => if kept_out(*old(self), now) >= block_timeout() {
                    next is GiveUp && final(self).since is None
                } else {
                    &&& next matches ForwardNext::WaitFor(left) && left.nanos() == block_timeout()
                        - kept_out(*old(self), now)
                    &&& final(self).since == Some(
                        match old(self).since {
                            Some(since) => since,
                            None => now,
                        },
                    )
                },
            },
    {
        match f {
            Forwarded::Moved => {
                self.since = None;
                ForwardNext::Again
            },
            Forwarded::Idle => {
                self.since = None;
                ForwardNext::Wait
            },
            Forwarded::Closed => {
                self.since = None;
                ForwardNext::End
            },
            Forwarded::Blocked => {
                let since: u128 = match self.since {
                    Some(since) => since,
                    None => now,
                };
                let kept: u128 = if now >= since {
                    now - since
                } else {
                    0
                };
                let limit: u128 = BLOCK_TIMEOUT_SECS as u128 * NANOS_PER_SEC;
                if kept >= limit {
                    self.since = None;
                    ForwardNext::GiveUp
                } else {
                    self.since = Some(since);
                    ForwardNext::WaitFor(Duration::from_nanos_saturating(limit - kept))
                }
            },
        }
    }
}

/// The open connections. `W` is who waits for the camera's confirmation.
pub struct RealmTable<W> {
    open: HashMap<u32, u64>,
    lanes: HashMap<u64, Lane>,
    waiters: HashMap<u32, W>,
    next: u64,
}

/// The open connections, as contracts speak of them: which lane each realm has, the lanes, and who
/// waits. A lane outlives its realm until its frames are written.
#[verifier::reject_recursive_types(W)]
pub struct Table<W> {
    pub open: Map<u32, u64>,
    pub lanes: Map<u64, LaneState>,
    pub waiters: Map<u32, W>,
    pub next: u64,
}

impl<W> View for RealmTable<W> {
    type V = Table<W>;

    closed spec fn view(&self) -> Table<W> {
        Table {
            open: self.open@,
            lanes: self.lanes@.map_values(|l: Lane| l@),
            waiters: self.waiters@,
            next: self.next,
        }
    }
}

/// Every realm has a lane of its own, which is not closed; no lane has a number that is still to be
/// given out.
pub open spec fn consistent<W>(t: Table<W>) -> bool {
    &&& forall|r: u32| #[trigger]
        t.open.contains_key(r) ==> t.lanes.contains_key(t.open[r])
            && !t.lanes[t.open[r]].channel.closed
    &&& forall|r: u32, s: u32|
        t.open.contains_key(r) && t.open.contains_key(s) && #[trigger] t.open[r]
            == #[trigger] t.open[s] ==> r == s
    &&& forall|id: u64| #[trigger] t.lanes.contains_key(id) ==> id < t.next
}

/// Whether a realm is taken.
pub open spec fn is_used<W>(t: Table<W>, realm: u32) -> bool {
    t.open.contains_key(realm) || t.waiters.contains_key(realm)
}

/// The first of some numbers that no realm has.
pub open spec fn first_unused<W>(t: Table<W>, candidates: Seq<u32>) -> Option<u32>
    decreases candidates.len(),
{
    if candidates.len() == 0 {
        None
    } else if !is_used(t, candidates[0]) {
        Some(candidates[0])
    } else {
        first_unused(t, candidates.skip(1))
    }
}

/// A new connection.
pub open spec fn registered<W>(t: Table<W>, realm: u32, waiter: W) -> Table<W> {
    Table {
        open: t.open.insert(realm, t.next),
        lanes: t.lanes.insert(t.next, empty_lane()),
        waiters: t.waiters.insert(realm, waiter),
        next: (t.next + 1) as u64,
    }
}

/// The realm is gone and its lane is closed. Who waits for it stays.
pub open spec fn hung_up<W>(t: Table<W>, realm: u32) -> Table<W> {
    if t.open.contains_key(realm) {
        let id = t.open[realm];
        Table {
            open: t.open.remove(realm),
            lanes: t.lanes.insert(id, closed_lane(t.lanes[id])),
            ..t
        }
    } else {
        t
    }
}

/// The realm is gone, its lane is closed, and nobody waits for it any more.
pub open spec fn disconnected<W>(t: Table<W>, realm: u32) -> Table<W> {
    Table { waiters: t.waiters.remove(realm), ..hung_up(t, realm) }
}

/// The table without a lane, where that is closed.
pub open spec fn finished<W>(t: Table<W>, lane: u64) -> Table<W> {
    if t.lanes.contains_key(lane) && t.lanes[lane].channel.closed {
        Table { lanes: t.lanes.remove(lane), ..t }
    } else {
        t
    }
}

/// The connection that never came about: its realm, who waits for it and its lane are gone. The
/// lane may have been closed before, when the camera hung up.
pub open spec fn abandoned<W>(t: Table<W>, realm: u32, lane: u64) -> Table<W> {
    finished(disconnected(t, realm), lane)
}

/// What one frame for a realm does. A frame for no realm is dropped.
pub open spec fn routed<W>(
    t: Table<W>,
    h: HealthCounters,
    frame: (u32, Seq<u8>),
    capacity: nat,
    policy: DropPolicy,
) -> (Table<W>, HealthCounters) {
    if t.open.contains_key(frame.0) {
        let id = t.open[frame.0];
        let (lane, d) = delivered(t.lanes[id], frame.1, capacity, policy);
        (Table { lanes: t.lanes.insert(id, lane), ..t }, counted_delivery(h, d))
    } else {
        (t, h)
    }
}

/// What some frames do, one after the other.
pub open spec fn routed_all<W>(
    t: Table<W>,
    h: HealthCounters,
    frames: Seq<(u32, Seq<u8>)>,
    capacity: nat,
    policy: DropPolicy,
) -> (Table<W>, HealthCounters)
    decreases frames.len(),
{
    if frames.len() == 0 {
        (t, h)
    } else {
        let (t1, h1) = routed_all(t, h, frames.drop_last(), capacity, policy);
        routed(t1, h1, frames.last(), capacity, policy)
    }
}

/// The table with a lane in a new state.
pub open spec fn with_lane<W>(t: Table<W>, id: u64, lane: LaneState) -> Table<W> {
    Table { lanes: t.lanes.insert(id, lane), ..t }
}

/// What was taken away with a realm.
pub struct Removed<W> {
    /// There was a lane.
    pub lane: bool,
    /// Who waited.
    pub waiter: Option<W>,
}

impl<W> RealmTable<W> {
    /// Every realm has a lane of its own, which is not closed.
    pub open spec fn wf(&self) -> bool {
        consistent(self@)
    }

    /// No connections.
    pub fn new() -> (t: RealmTable<W>)
        ensures
            t.wf(),
            t@ == (Table {
                open: Map::<u32, u64>::empty(),
                lanes: Map::<u64, LaneState>::empty(),
                waiters: Map::<u32, W>::empty(),
                next: 0,
            }),
    {
        let t = RealmTable {
            open: HashMap::new(),
            lanes: HashMap::new(),
            waiters: HashMap::new(),
            next: 0,
        };
        assert(t@.lanes =~= Map::<u64, LaneState>::empty());
        t
    }

    /// How many realms there are.
    pub fn realm_count(&self) -> (n: usize)
        ensures
            n == self@.open.len(),
    {
        self.open.len()
    }

    /// How many wait for a confirmation.
    pub fn waiter_count(&self) -> (n: usize)
        ensures
            n == self@.waiters.len(),
    {
        self.waiters.len()
    }

    /// Whether another connection can be given a lane.
    pub fn has_room(&self) -> (b: bool)
        ensures
            b == (self@.next < u64::MAX),
    {
        self.next < u64::MAX
    }

    /// Whether a realm is taken.
    pub fn is_used(&self, realm: u32) -> (b: bool)
        ensures
            b == is_used(self@, realm),
    {
        self.open.contains_key(&realm) || self.waiters.contains_key(&realm)
    }

    /// The first of some numbers that no realm has.
    pub fn pick_unused(&self, candidates: &[u32]) -> (r: Option<u32>)
        ensures
            r == first_unused(self@, candidates@),
    {
        let mut i: usize = 0;
        assert(candidates@.skip(0) =~= candidates@);
        while i < candidates.len()
            invariant
                i <= candidates.len(),
                first_unused(self@, candidates@) == first_unused(
                    self@,
                    candidates@.skip(i as int),
                ),
            decreases candidates.len() - i,
        {
            assert(candidates@.skip(i as int).skip(1) =~= candidates@.skip(i + 1));
            if !self.is_used(candidates[i]) {
                return Some(candidates[i]);
            }
            i = i + 1;
        }
        None
    }

    /// Draws a number that no realm has, in at most `max_attempts` draws.
    pub fn allocate_unique_realm_id(&self, max_attempts: usize) -> (r: Option<u32>)
        ensures
            exists|drawn: Seq<u32>|
                drawn.len() == max_attempts && r == #[trigger] first_unused(self@, drawn),
            r matches Some(realm) ==> !is_used(self@, realm),
            r is None ==> max_attempts == 0 || exists|realm: u32| #[trigger] is_used(self@, realm),
    {
        let mut drawn: Vec<u32> = Vec::new();
        let mut i: usize = 0;
        while i < max_attempts
            invariant
                i <= max_attempts,
                drawn@.len() == i,
            decreases max_attempts - i,
        {
            drawn.push(random_u32());
            i = i + 1;
        }
        proof {
            lemma_first_unused(self@, drawn@);
        }
        self.pick_unused(drawn.as_slice())
    }

    /// Enters a new connection, and tells the number of its lane.
    pub fn register(&mut self, realm: u32, waiter: W) -> (id: u64)
        requires
            old(self).wf(),
            old(self)@.next < u64::MAX,
        ensures
            final(self).wf(),
            final(self)@ == registered(old(self)@, realm, waiter),
            id == old(self)@.next,
    {
        let ghost before = self@;
        let id: u64 = self.next;
        self.next = self.next + 1;
        self.lanes.insert(id, Lane::new());
        self.open.insert(realm, id);
        self.waiters.insert(realm, waiter);
        proof {
            assert(self@.lanes =~= before.lanes.insert(id, empty_lane()));
            lemma_registered(before, realm, waiter);
        }
        id
    }

    /// Takes away who waits for a realm.
    pub fn take_waiter(&mut self, realm: u32) -> (w: Option<W>)
        ensures
            w == if old(self)@.waiters.contains_key(realm) {
                Some(old(self)@.waiters[realm])
            } else {
                None
            },
            final(self)@ == (Table { waiters: old(self)@.waiters.remove(realm), ..old(self)@ }),
            old(self).wf() ==> final(self).wf(),
    {
        let ghost before = self@.waiters;
        let w = self.waiters.remove(&realm);
        assert(self@.waiters =~= before.remove(realm));
        w
    }

    /// Closes the lane of a realm and forgets the realm, and tells whether there was one.
    pub fn hang_up(&mut self, realm: u32) -> (removed: bool)
        requires
            old(self).wf(),
        ensures
            final(self).wf(),
            final(self)@ == hung_up(old(self)@, realm),
            removed == old(self)@.open.contains_key(realm),
    {
        let ghost before = self@;
        match self.open.remove(&realm) {
            Some(id) => {
                assert(before.open.contains_key(realm) && before.open[realm] == id);
                assert(before.lanes.contains_key(id));
                if let Some(mut lane) = self.lanes.remove(&id) {
                    lane.close();
                    self.lanes.insert(id, lane);
                    assert(self@.lanes =~= before.lanes.insert(
                        id,
                        closed_lane(before.lanes[id]),
                    ));
                }
                assert(self@.open =~= before.open.remove(realm));
                true
            },
            None => {
                assert(self@.open =~= before.open);
                false
            },
        }
    }

    /// Closes the lane of a realm, and forgets the realm and who waits for it.
    pub fn disconnect(&mut self, realm: u32) -> (r: Removed<W>)
        requires
            old(self).wf(),
        ensures
            final(self).wf(),
            final(self)@ == disconnected(old(self)@, realm),
            r.lane == old(self)@.open.contains_key(realm),
            r.waiter == if old(self)@.waiters.contains_key(realm) {
                Some(old(self)@.waiters[realm])
            } else {
                None
            },
    {
        let lane = self.hang_up(realm);
        let waiter = self.take_waiter(realm);
        Removed { lane, waiter }
    }

    /// Forgets a connection that never came about, and its lane.
    pub fn abandon(&mut self, realm: u32, lane: u64)
        requires
            old(self).wf(),
        ensures
            final(self).wf(),
            final(self)@ == abandoned(old(self)@, realm, lane),
    {
        let _ = self.disconnect(realm);
        self.finish(lane);
    }

    /// The number of the lane of a realm.
    pub fn lane_of(&self, realm: u32) -> (r: Option<u64>)
        ensures
            r == if self@.open.contains_key(realm) {
                Some(self@.open[realm])
            } else {
                None
            },
    {
        match self.open.get(&realm) {
            Some(id) => Some(*id),
            None => None,
        }
    }

    /// Whether a lane is closed. One that is gone counts as closed.
    pub fn is_closed(&self, id: u64) -> (b: bool)
        ensures
            b == (!self@.lanes.contains_key(id) || self@.lanes[id].channel.closed),
    {
        match self.lanes.get(&id) {
            Some(lane) => lane.channel.is_closed(),
            None => true,
        }
    }

    /// Takes the next frame from a lane. A lane that is gone has nothing more.
    pub fn take_frame(&mut self, id: u64) -> (r: Received)
        requires
            old(self).wf(),
        ensures
            final(self).wf(),
            match r {
                Received::Data(d) => old(self)@.lanes.contains_key(id)
                    && old(self)@.lanes[id].channel.queue.len() > 0 && d@
                    == old(self)@.lanes[id].channel.queue[0] && final(self)@ == with_lane(
                    old(self)@,
                    id,
                    LaneState {
                        channel: Channel {
                            queue: old(self)@.lanes[id].channel.queue.skip(1),
                            ..old(self)@.lanes[id].channel
                        },
                        ..old(self)@.lanes[id]
                    },
                ),
                Received::Empty => old(self)@.lanes.contains_key(id)
                    && old(self)@.lanes[id].channel.queue.len() == 0
                    && !old(self)@.lanes[id].channel.closed && final(self)@ == old(self)@,
                Received::Closed => (old(self)@.lanes.contains_key(id)
                    ==> old(self)@.lanes[id].channel.queue.len() == 0
                    && old(self)@.lanes[id].channel.closed) && final(self)@ == old(self)@,
            },
    {
        let ghost before = self@;
        match self.lanes.remove(&id) {
            Some(mut lane) => {
                let r = lane.channel.recv();
                let ghost after = lane@;
                self.lanes.insert(id, lane);
                proof {
                    assert(self@.lanes =~= before.lanes.insert(id, after));
                    lemma_with_lane(before, id, after);
                    assert(r is Data || self@.lanes =~= before.lanes);
                }
                r
            },
            None => {
                assert(self@.lanes =~= before.lanes);
                Received::Closed
            },
        }
    }

    /// Tries to move the first waiting frame of a lane into its channel.
    pub fn forward(&mut self, id: u64, capacity: usize) -> (f: Forwarded)
        requires
            old(self).wf(),
        ensures
            final(self).wf(),
            if old(self)@.lanes.contains_key(id) {
                let (lane, outcome) = forwarded(old(self)@.lanes[id], capacity as nat);
                f == outcome && final(self)@ == with_lane(old(self)@, id, lane)
            } else {
                f == Forwarded::Closed && final(self)@ == old(self)@
            },
    {
        let ghost before = self@;
        match self.lanes.remove(&id) {
            Some(mut lane) => {
                let f = lane.forward(capacity);
                let ghost after = lane@;
                self.lanes.insert(id, lane);
                proof {
                    assert(self@.lanes =~= before.lanes.insert(id, after));
                    lemma_with_lane(before, id, after);
                }
                f
            },
            None => {
                assert(self@.lanes =~= before.lanes);
                Forwarded::Closed
            },
        }
    }

    /// Drops the first waiting frame of a lane, which has waited for too long.
    pub fn give_up(&mut self, id: u64, health: &mut HealthCounters) -> (dropped: bool)
        requires
            old(self).wf(),
        ensures
            final(self).wf(),
            dropped == (old(self)@.lanes.contains_key(id) && old(self)@.lanes[id].backlog.len()
                > 0),
            dropped ==> final(self)@ == with_lane(
                old(self)@,
                id,
                LaneState {
                    backlog: old(self)@.lanes[id].backlog.skip(1),
                    ..old(self)@.lanes[id]
                },
            ) && *final(health) == counted_delivery(*old(health), Delivery::DroppedNewest),
            !dropped ==> final(self)@ == old(self)@ && *final(health) == *old(health),
    {
        let ghost before = self@;
        match self.lanes.remove(&id) {
            Some(mut lane) => {
                let dropped = lane.give_up(health);
                let ghost after = lane@;
                self.lanes.insert(id, lane);
                proof {
                    assert(self@.lanes =~= before.lanes.insert(id, after));
                    lemma_with_lane(before, id, after);
                    assert(dropped || self@.lanes =~= before.lanes);
                }
                dropped
            },
            None => {
                assert(self@.lanes =~= before.lanes);
                false
            },
        }
    }

    /// Forgets a lane that is closed.
    pub fn finish(&mut self, id: u64)
        requires
            old(self).wf(),
        ensures
            final(self).wf(),
            final(self)@ == finished(old(self)@, id),
    {
        let ghost before = self@;
        if self.is_closed(id) {
            let _ = self.lanes.remove(&id);
            assert(self@.lanes =~= before.lanes.remove(id));
            assert(before.lanes.contains_key(id) || self@.lanes =~= before.lanes);
        }
        proof {
            lemma_finished(before, id);
            assert(self@ == finished(before, id));
        }
    }

    /// Puts a frame on the lane of its realm.
    pub fn route(
        &mut self,
        realm: u32,
        data: Vec<u8>,
        drop_policy: DropPolicy,
        capacity: usize,
        health: &mut HealthCounters,
    )
        requires
            old(self).wf(),
        ensures
            final(self).wf(),
            (final(self)@, *final(health)) == routed(
                old(self)@,
                *old(health),
                (realm, data@),
                capacity as nat,
                drop_policy,
            ),
    {
        let ghost before = self@;
        let id: u64 = match self.lane_of(realm) {
            Some(id) => id,
            None => {
                return;
            },
        };
        assert(before.lanes.contains_key(id));
        if let Some(mut lane) = self.lanes.remove(&id) {
            let _ = lane.deliver(data, capacity, drop_policy, health);
            let ghost after = lane@;
            self.lanes.insert(id, lane);
            proof {
                assert(self@.lanes =~= before.lanes.insert(id, after));
                lemma_with_lane(before, id, after);
            }
        }
    }

    /// Puts some frames on the lanes of their realms. None of them has to be waited for.
    pub fn send_to_clients(
        &mut self,
        packets: Vec<(u32, Vec<u8>)>,
        drop_policy: DropPolicy,
        capacity: usize,
        health: &mut HealthCounters,
    )
        requires
            old(self).wf(),
        ensures
            final(self).wf(),
            (final(self)@, *final(health)) == routed_all(
                old(self)@,
                *old(health),
                frames(packets@),
                capacity as nat,
                drop_policy,
            ),
    {
        let ghost t0 = self@;
        let ghost h0 = *health;
        let ghost fs = frames(packets@);
        assert(fs.take(0) =~= Seq::empty());
        for frame in it: packets.into_iter()
            invariant
                self.wf(),
                it.seq() == packets@,
                fs == frames(packets@),
                (self@, *health) == routed_all(
                    t0,
                    h0,
                    fs.take(it.index() as int),
                    capacity as nat,
                    drop_policy,
                ),
        {
            proof {
                let i = it.index() as int;
                assert(fs[i] == (frame.0, frame.1@));
                assert(fs.take(i + 1).drop_last() =~= fs.take(i));
                assert(fs.take(i + 1).last() == fs[i]);
            }
            self.route(frame.0, frame.1, drop_policy, capacity, health);
        }
        assert(fs.take(fs.len() as int) =~= fs);
    }

    /// The realms there are, in no particular order.
    pub fn realms(&self) -> (v: Vec<u32>)
        ensures
            v@.to_set() == self@.open.dom(),
            v@.no_duplicates(),
    {
        let mut v: Vec<u32> = Vec::new();
        let ghost all = spec_keys_iter(&self.open).remaining();
        for realm in it: self.open.keys()
            invariant
                all == spec_keys_iter(&self.open).remaining(),
                it.seq() == all,
                v@.len() == it.index(),
                forall|k: int| 0 <= k < v@.len() ==> v@[k] == *(#[trigger] all[k]),
        {
            v.push(*realm);
        }
        assert(v@ =~= all.unref());
        v
    }

    /// Forgets every realm and everyone who waits. The lanes stay as they are.
    pub fn clear(&mut self)
        requires
            old(self).wf(),
        ensures
            final(self).wf(),
            final(self)@ == (Table {
                open: Map::<u32, u64>::empty(),
                waiters: Map::<u32, W>::empty(),
                ..old(self)@
            }),
    {
        let ghost before = self@;
        self.open.clear();
        self.waiters.clear();
        assert forall|k: u64| #[trigger] self@.lanes.contains_key(k) implies k < self@.next by {
            assert(before.lanes.contains_key(k));
        }
    }
}

/// A lane in a new state, open or closed as before, keeps the table consistent.
proof fn lemma_with_lane<W>(t: Table<W>, id: u64, lane: LaneState)
    requires
        consistent(t),
        t.lanes.contains_key(id),
        lane.channel.closed == t.lanes[id].channel.closed,
    ensures
        consistent(with_lane(t, id, lane)),
{
    let after = with_lane(t, id, lane);
    assert forall|r: u32| #[trigger] after.open.contains_key(r) implies after.lanes.contains_key(
        after.open[r],
    ) && !after.lanes[after.open[r]].channel.closed by {
        assert(t.open.contains_key(r));
    }
    assert forall|k: u64| #[trigger] after.lanes.contains_key(k) implies k < after.next by {
        assert(t.lanes.contains_key(k));
    }
}

/// No realm has a closed lane, so the table stays consistent without one.
proof fn lemma_finished<W>(t: Table<W>, lane: u64)
    requires
        consistent(t),
    ensures
        consistent(finished(t, lane)),
{
    let after = finished(t, lane);
    assert forall|r: u32| #[trigger] after.open.contains_key(r) implies after.lanes.contains_key(
        after.open[r],
    ) && !after.lanes[after.open[r]].channel.closed by {
        assert(t.open.contains_key(r));
    }
    assert forall|k: u64| #[trigger] after.lanes.contains_key(k) implies k < after.next by {
        assert(t.lanes.contains_key(k));
    }
}

proof fn lemma_registered<W>(t: Table<W>, realm: u32, waiter: W)
    requires
        consistent(t),
        t.next < u64::MAX,
    ensures
        consistent(registered(t, realm, waiter)),
{
    let after = registered(t, realm, waiter);
    assert forall|r: u32| #[trigger] after.open.contains_key(r) implies after.lanes.contains_key(
        after.open[r],
    ) && !after.lanes[after.open[r]].channel.closed by {
        if r != realm {
            assert(t.open.contains_key(r));
        }
    }
    assert forall|r: u32, s: u32|
        after.open.contains_key(r) && after.open.contains_key(s) && #[trigger] after.open[r]
            == #[trigger] after.open[s] implies r == s by {
        if r != realm {
            assert(t.open.contains_key(r));
            assert(t.lanes.contains_key(t.open[r]));
        }
        if s != realm {
            assert(t.open.contains_key(s));
            assert(t.lanes.contains_key(t.open[s]));
        }
    }
    assert forall|k: u64| #[trigger] after.lanes.contains_key(k) implies k < after.next by {
        if k != t.next {
            assert(t.lanes.contains_key(k));
        }
    }
}

/// What is picked is unused; where nothing is, every candidate is used.
proof fn lemma_first_unused<W>(t: Table<W>, candidates: Seq<u32>)
    ensures
        first_unused(t, candidates) matches Some(realm) ==> !is_used(t, realm),
        first_unused(t, candidates) is None && candidates.len() > 0 ==> is_used(t, candidates[0]),
    decreases candidates.len(),
{
    if candidates.len() > 0 {
        lemma_first_unused(t, candidates.skip(1));
    }
}

} // verus!
