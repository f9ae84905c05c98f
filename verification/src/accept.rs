//! How a new client is let in.
use vstd::prelude::*;

use crate::realm_laws::belongs;
use crate::realms::{abandoned, consistent, RealmTable, Table};

verus! {

/// How many clients may wait for the camera at the same time.
#[derive(Debug)]
pub struct AcceptLimits {
    limit: usize,
    pending: usize,
}

impl AcceptLimits {
    /// How many may wait.
    pub closed spec fn limit(&self) -> nat {
        self.limit as nat
    }

    /// How many wait.
    pub closed spec fn pending(&self) -> nat {
        self.pending as nat
    }

    /// No more wait than may.
    pub closed spec fn wf(&self) -> bool {
        self.pending <= self.limit
    }

    /// In every state no more clients wait than may.
    pub proof fn law_pending_is_limited(&self)
        requires
            self.wf(),
        ensures
            self.pending() <= self.limit(),
    {
    }

    /// Room for so many, and for at least one.
    pub fn new(max_pending_realm_setups: usize) -> (l: AcceptLimits)
        ensures
            l.wf(),
            l.limit() == if max_pending_realm_setups == 0 {
                1
            } else {
                max_pending_realm_setups as nat
            },
            l.pending() == 0,
    {
        let limit: usize = if max_pending_realm_setups == 0 {
            1
        } else {
            max_pending_realm_setups
        };
        AcceptLimits { limit, pending: 0 }
    }

    /// Lets one more wait, if there is room. It has to be released.
    pub fn try_acquire(&mut self) -> (granted: bool)
        requires
            old(self).wf(),
        ensures
            final(self).wf(),
            granted == (old(self).pending() < old(self).limit()),
            final(self).pending() == if granted {
                old(self).pending() + 1
            } else {
                old(self).pending()
            },
            final(self).limit() == old(self).limit(),
    {
        if self.pending < self.limit {
            self.pending = self.pending + 1;
            true
        } else {
            false
        }
    }

    /// One no longer waits.
    pub fn release(&mut self)
        requires
            old(self).wf(),
            old(self).pending() > 0,
        ensures
            final(self).wf(),
            final(self).pending() == old(self).pending() - 1,
            final(self).limit() == old(self).limit(),
    {
        self.pending = self.pending - 1;
    }

    /// Whether any wait.
    pub fn is_idle(&self) -> (b: bool)
        ensures
            b == (self.pending() == 0),
    {
        self.pending == 0
    }
}

/// What came of letting a client in.
#[derive(Clone, Copy, Debug, PartialEq, Eq, Structural)]
pub enum SetupEvent {
    /// The request to connect could not be handed on.
    NotEnqueued,
    /// The camera confirmed the realm.
    Ready,
    /// The one who would have told was lost.
    Lost,
    /// The camera took too long.
    TimedOut,
}

/// The name under which what came of it is counted.
pub open spec fn setup_metric(event: SetupEvent) -> Option<Seq<char>> {
    match event {
        SetupEvent::NotEnqueued => None,
        SetupEvent::Ready => Some("realm_ready"@),
        SetupEvent::Lost => Some("realm_ready_failed"@),
        SetupEvent::TimedOut => Some("realm_ready_timeout"@),
    }
}

/// Whether the client is served now. Where it is not, nothing of its realm or of its lane is left.
/// Tells the name under which what came of it is counted.
pub fn settle_client<W>(
    table: &mut RealmTable<W>,
    realm: u32,
    lane: u64,
    event: SetupEvent,
) -> (r: (bool, Option<&'static str>))
    requires
        old(table).wf(),
    ensures
        final(table).wf(),
        r.0 == (event == SetupEvent::Ready),
        final(table)@ == if event == SetupEvent::Ready {
            old(table)@
        } else {
            abandoned(old(table)@, realm, lane)
        },
        match r.1 {
            Some(name) => setup_metric(event) == Some(name@),
            None => setup_metric(event) is None,
        },
{
    if event != SetupEvent::Ready {
        table.abandon(realm, lane);
    }
    match event {
        SetupEvent::Ready => (true, Some("realm_ready")),
        SetupEvent::NotEnqueued => (false, None),
        SetupEvent::Lost => (false, Some("realm_ready_failed")),
        SetupEvent::TimedOut => (false, Some("realm_ready_timeout")),
    }
}

/// Of a client that is not served neither the realm, nor anyone who waits for it, nor its lane is
/// left, whether or not the camera has hung up before. Every other realm keeps its lane as it is.
pub proof fn law_turned_away_leaves_nothing<W>(t: Table<W>, realm: u32, lane: u64, other: u32)
    requires
        consistent(t),
        belongs(t, realm, lane),
    ensures
        ({
            let after = abandoned(t, realm, lane);
            &&& !after.open.contains_key(realm)
            &&& !after.waiters.contains_key(realm)
            &&& !after.lanes.contains_key(lane)
            &&& other != realm && t.open.contains_key(other) ==> after.open.contains_key(other)
                && after.open[other] == t.open[other] && after.lanes.contains_key(t.open[other])
                && after.lanes[t.open[other]] == t.lanes[t.open[other]]
        }),
{
    if t.open.contains_key(other) {
        assert(t.lanes.contains_key(t.open[other]));
    }
}

} // verus!
