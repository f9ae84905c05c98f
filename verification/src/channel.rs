//! The queue of frames for one client.
use std::collections::VecDeque;
use vstd::prelude::*;

use crate::config::DropPolicy;
use crate::health::{wrapped, HealthCounters};

verus! {

/// How long a frame waits for room before it is dropped, in seconds.
pub const BLOCK_TIMEOUT_SECS: u64 = 5;

/// The queue of frames for one client.
pub struct ClientChannel {
    queue: VecDeque<Vec<u8>>,
    closed: bool,
}

/// A queue, as contracts speak of it: its frames, the oldest first, and whether it is closed.
pub struct Channel {
    pub queue: Seq<Seq<u8>>,
    pub closed: bool,
}

/// What some frames hold.
pub open spec fn contents(frames: Seq<Vec<u8>>) -> Seq<Seq<u8>> {
    frames.map_values(|f: Vec<u8>| f@)
}

impl View for ClientChannel {
    type V = Channel;

    closed spec fn view(&self) -> Channel {
        Channel { queue: contents(self.queue@), closed: self.closed }
    }
}

/// What became of a frame.
pub enum Pushed {
    /// It is in the queue.
    Queued,
    /// It is in the queue, and the oldest frame is not any more.
    DroppedOldest,
    /// It was dropped.
    DroppedNewest,
    /// The channel is closed: it was dropped without being counted.
    Ignored,
    /// There is no room: it is handed back, to wait.
    Wait(Vec<u8>),
}

/// What became of a frame, as contracts speak of it.
pub enum Fate {
    Queued,
    DroppedOldest,
    DroppedNewest,
    Ignored,
    Wait(Seq<u8>),
}

impl View for Pushed {
    type V = Fate;

    open spec fn view(&self) -> Fate {
        match *self {
            Pushed::Queued => Fate::Queued,
            Pushed::DroppedOldest => Fate::DroppedOldest,
            Pushed::DroppedNewest => Fate::DroppedNewest,
            Pushed::Ignored => Fate::Ignored,
            Pushed::Wait(data) => Fate::Wait(data@),
        }
    }
}

/// What a frame does to a queue with room for `capacity` frames, and what becomes of it.
pub open spec fn pushed(c: Channel, data: Seq<u8>, capacity: nat, policy: DropPolicy) -> (
    Channel,
    Fate,
) {
    if c.closed {
        (c, Fate::Ignored)
    } else if c.queue.len() < capacity {
        (Channel { queue: c.queue.push(data), ..c }, Fate::Queued)
    } else {
        match policy {
            DropPolicy::Block => (c, Fate::Wait(data)),
            DropPolicy::DropNewest => (c, Fate::DroppedNewest),
            DropPolicy::DropOldestKeepLatest => if c.queue.len() > 0 {
                (Channel { queue: c.queue.skip(1).push(data), ..c }, Fate::DroppedOldest)
            } else {
                (Channel { queue: c.queue.push(data), ..c }, Fate::Queued)
            },
        }
    }
}

/// The counters after a frame has met its fate.
pub open spec fn counted_fate(h: HealthCounters, fate: Fate) -> HealthCounters {
    match fate {
        Fate::DroppedNewest => HealthCounters { drops_newest: wrapped(h.drops_newest, 1), ..h },
        Fate::DroppedOldest => HealthCounters { drops_oldest: wrapped(h.drops_oldest, 1), ..h },
        _ => h,
    }
}

/// What a client's writer gets.
pub enum Received {
    Data(Vec<u8>),
    /// Nothing yet.
    Empty,
    /// Nothing more.
    Closed,
}

impl ClientChannel {
    /// An empty queue.
    pub fn new() -> (c: ClientChannel)
        ensures
            c@ == (Channel { queue: Seq::empty(), closed: false }),
    {
        let c = ClientChannel { queue: VecDeque::new(), closed: false };
        assert(c@.queue =~= Seq::empty());
        c
    }

    /// Closes the channel: no frame gets in any more.
    pub fn close(&mut self)
        ensures
            final(self)@ == (Channel { closed: true, ..old(self)@ }),
    {
        self.closed = true;
    }

    /// Whether the channel is closed.
    pub fn is_closed(&self) -> (b: bool)
        ensures
            b == self@.closed,
    {
        self.closed
    }

    /// How many frames are in the queue.
    pub fn len(&self) -> (n: usize)
        ensures
            n == self@.queue.len(),
    {
        self.queue.len()
    }

    /// Puts a frame into the queue. Where it has to wait, it is handed back, and is to be pushed
    /// again when there may be room.
    pub fn push(
        &mut self,
        data: Vec<u8>,
        capacity: usize,
        drop_policy: DropPolicy,
        health: &mut HealthCounters,
    ) -> (r: Pushed)
        ensures
            (final(self)@, r@) == pushed(old(self)@, data@, capacity as nat, drop_policy),
            *final(health) == counted_fate(*old(health), r@),
    {
        let ghost before = self@.queue;
        if self.closed {
            return Pushed::Ignored;
        }
        if self.queue.len() < capacity {
            self.queue.push_back(data);
            assert(self@.queue =~= before.push(data@));
            return Pushed::Queued;
        }
        match drop_policy {
            DropPolicy::Block => Pushed::Wait(data),
            DropPolicy::DropNewest => {
                health.drops_newest = health.drops_newest.wrapping_add(1);
                Pushed::DroppedNewest
            },
            DropPolicy::DropOldestKeepLatest => {
                let dropped = self.queue.pop_front();
                self.queue.push_back(data);
                if dropped.is_some() {
                    health.drops_oldest = health.drops_oldest.wrapping_add(1);
                    assert(self@.queue =~= before.skip(1).push(data@));
                    Pushed::DroppedOldest
                } else {
                    assert(self@.queue =~= before.push(data@));
                    Pushed::Queued
                }
            },
        }
    }

    /// Takes the oldest frame. What is in the queue of a closed channel still comes out.
    pub fn recv(&mut self) -> (r: Received)
        ensures
            match r {
                Received::Data(d) => old(self)@.queue.len() > 0 && d@ == old(self)@.queue[0]
                    && final(self)@ == (Channel { queue: old(self)@.queue.skip(1), ..old(self)@ }),
                Received::Empty => old(self)@.queue.len() == 0 && !old(self)@.closed
                    && final(self)@ == old(self)@,
                Received::Closed => old(self)@.queue.len() == 0 && old(self)@.closed
                    && final(self)@ == old(self)@,
            },
    {
        let ghost before = self@.queue;
        match self.queue.pop_front() {
            Some(d) => {
                assert(self@.queue =~= before.skip(1));
                Received::Data(d)
            },
            None => {
                if self.closed {
                    Received::Closed
                } else {
                    Received::Empty
                }
            },
        }
    }
}

/// Counts a frame that has waited for too long and is dropped.
pub fn count_blocked(health: &mut HealthCounters)
    ensures
        *final(health) == counted_fate(*old(health), Fate::DroppedNewest),
{
    health.drops_newest = health.drops_newest.wrapping_add(1);
}

/// A queue with room for at least one frame never holds more than it has room for.
pub proof fn law_queue_is_bounded(c: Channel, data: Seq<u8>, capacity: nat, policy: DropPolicy)
    requires
        capacity > 0,
        c.queue.len() <= capacity,
    ensures
        pushed(c, data, capacity, policy).0.queue.len() <= capacity,
{
}

/// After it is closed a channel takes nothing in, and what it holds stays.
pub proof fn law_closed_takes_nothing(c: Channel, data: Seq<u8>, capacity: nat, policy: DropPolicy)
    requires
        c.closed,
    ensures
        pushed(c, data, capacity, policy) == (c, Fate::Ignored),
{
}

/// Frames leave in the order in which they came: a push changes nothing in front of the new frame
/// but, at most, that the oldest is gone.
pub proof fn law_first_in_first_out(c: Channel, data: Seq<u8>, capacity: nat, policy: DropPolicy)
    ensures
        ({
            let (after, fate) = pushed(c, data, capacity, policy);
            &&& fate is Queued ==> after.queue == c.queue.push(data)
            &&& fate is DroppedOldest ==> after.queue == c.queue.skip(1).push(data)
            &&& !(fate is Queued) && !(fate is DroppedOldest) ==> after.queue == c.queue
            &&& after.closed == c.closed
        }),
{
}

/// With `DropOldestKeepLatest` the latest frame is always in the queue of an open channel.
pub proof fn law_latest_is_kept(c: Channel, data: Seq<u8>, capacity: nat)
    requires
        !c.closed,
    ensures
        pushed(c, data, capacity, DropPolicy::DropOldestKeepLatest).0.queue.last() == data,
{
}

/// With `Block` no frame of an open channel is lost: it is queued, or handed back to wait.
pub proof fn law_block_loses_nothing(c: Channel, data: Seq<u8>, capacity: nat)
    requires
        !c.closed,
    ensures
        ({
            let (after, fate) = pushed(c, data, capacity, DropPolicy::Block);
            ||| fate is Queued && after.queue == c.queue.push(data)
            ||| fate == Fate::Wait(data) && after == c
        }),
{
}

} // verus!
