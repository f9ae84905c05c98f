//! Counters from which the health of the tunnel is read.
use vstd::prelude::*;
use vstd::string::StringExecFns;

use crate::text::{dec, push_dec};
use crate::time::Duration;

verus! {

/// What has happened since the last report. The counters wrap.
#[derive(Clone, Copy, Debug, PartialEq, Eq, Structural)]
pub struct HealthCounters {
    pub bytes_from_device: u64,
    pub bytes_to_device: u64,
    pub packets_from_device: u64,
    pub packets_to_device: u64,
    pub drops_newest: u64,
    pub drops_oldest: u64,
    pub jitter_enabled: bool,
    pub jitter_in_packets: u64,
    pub jitter_in_bytes: u64,
    pub jitter_out_packets: u64,
    pub jitter_out_bytes: u64,
    pub jitter_late_drops: u64,
    pub jitter_max_depth: u64,
    pub tcp_peer_disconnects: u64,
    pub tcp_peer_resets: u64,
    pub tcp_peer_reset_bursts: u64,
}

/// Counters at zero.
pub open spec fn no_counts(jitter_enabled: bool) -> HealthCounters {
    HealthCounters {
        bytes_from_device: 0,
        bytes_to_device: 0,
        packets_from_device: 0,
        packets_to_device: 0,
        drops_newest: 0,
        drops_oldest: 0,
        jitter_enabled,
        jitter_in_packets: 0,
        jitter_in_bytes: 0,
        jitter_out_packets: 0,
        jitter_out_bytes: 0,
        jitter_late_drops: 0,
        jitter_max_depth: 0,
        tcp_peer_disconnects: 0,
        tcp_peer_resets: 0,
        tcp_peer_reset_bursts: 0,
    }
}

impl Default for HealthCounters {
    fn default() -> (h: HealthCounters)
        ensures
            h == no_counts(false),
    {
        HealthCounters {
            bytes_from_device: 0,
            bytes_to_device: 0,
            packets_from_device: 0,
            packets_to_device: 0,
            drops_newest: 0,
            drops_oldest: 0,
            jitter_enabled: false,
            jitter_in_packets: 0,
            jitter_in_bytes: 0,
            jitter_out_packets: 0,
            jitter_out_bytes: 0,
            jitter_late_drops: 0,
            jitter_max_depth: 0,
            tcp_peer_disconnects: 0,
            tcp_peer_resets: 0,
            tcp_peer_reset_bursts: 0,
        }
    }
}

/// The sum of a counter and what is added to it, as a counter holds it.
pub open spec fn wrapped(counter: u64, more: nat) -> u64 {
    ((counter + more) % 0x1_0000_0000_0000_0000) as u64
}

/// Raises `counter` to `value`, where that is more.
pub fn update_max(counter: &mut u64, value: u64)
    ensures
        *final(counter) == if value > *old(counter) {
            value
        } else {
            *old(counter)
        },
{
    if value > *counter {
        *counter = value;
    }
}

/// The line that reports the counters of an interval.
pub open spec fn health_text(
    h: HealthCounters,
    realms: nat,
    waiters: nat,
    interval_secs: u64,
) -> Seq<char> {
    "Health realms="@ + dec(realms) + " waiters="@ + dec(waiters) + " bytes_in="@ + dec(
        h.bytes_from_device as nat,
    ) + " bytes_out="@ + dec(h.bytes_to_device as nat) + " in_Bps="@ + dec(
        (h.bytes_from_device / interval_secs) as nat,
    ) + " out_Bps="@ + dec((h.bytes_to_device / interval_secs) as nat) + " pkts_in="@ + dec(
        h.packets_from_device as nat,
    ) + " pkts_out="@ + dec(h.packets_to_device as nat) + " drops_newest="@ + dec(
        h.drops_newest as nat,
    ) + " drops_oldest="@ + dec(h.drops_oldest as nat) + " jitter_on="@ + (if h.jitter_enabled {
        "true"@
    } else {
        "false"@
    }) + " jitter_in_pkts="@ + dec(h.jitter_in_packets as nat) + " jitter_out_pkts="@ + dec(
        h.jitter_out_packets as nat,
    ) + " jitter_in_bytes="@ + dec(h.jitter_in_bytes as nat) + " jitter_out_bytes="@ + dec(
        h.jitter_out_bytes as nat,
    ) + " jitter_late_drops="@ + dec(h.jitter_late_drops as nat) + " jitter_max_depth="@ + dec(
        h.jitter_max_depth as nat,
    ) + " tcp_peer_disconnects="@ + dec(h.tcp_peer_disconnects as nat) + " tcp_peer_resets="@
        + dec(h.tcp_peer_resets as nat) + " tcp_peer_reset_bursts="@ + dec(
        h.tcp_peer_reset_bursts as nat,
    )
}

fn push_count(s: &mut String, name: &str, n: u64)
    ensures
        final(s)@ == old(s)@ + name@ + dec(n as nat),
{
    s.append(name);
    push_dec(s, n);
}

impl HealthCounters {
    /// Reports the counters of an interval and begins the next: every counter goes back to zero.
    pub fn report(&mut self, realms: usize, waiters: usize, interval_secs: u64) -> (s: String)
        requires
            interval_secs > 0,
        ensures
            s@ == health_text(*old(self), realms as nat, waiters as nat, interval_secs),
            *final(self) == no_counts(old(self).jitter_enabled),
    {
        let h = *self;
        let mut s = String::new();
        push_count(&mut s, "Health realms=", realms as u64);
        push_count(&mut s, " waiters=", waiters as u64);
        push_count(&mut s, " bytes_in=", h.bytes_from_device);
        push_count(&mut s, " bytes_out=", h.bytes_to_device);
        push_count(&mut s, " in_Bps=", h.bytes_from_device / interval_secs);
        push_count(&mut s, " out_Bps=", h.bytes_to_device / interval_secs);
        push_count(&mut s, " pkts_in=", h.packets_from_device);
        push_count(&mut s, " pkts_out=", h.packets_to_device);
        push_count(&mut s, " drops_newest=", h.drops_newest);
        push_count(&mut s, " drops_oldest=", h.drops_oldest);
        s.append(" jitter_on=");
        s.append(
            if h.jitter_enabled {
                "true"
            } else {
                "false"
            },
        );
        push_count(&mut s, " jitter_in_pkts=", h.jitter_in_packets);
        push_count(&mut s, " jitter_out_pkts=", h.jitter_out_packets);
        push_count(&mut s, " jitter_in_bytes=", h.jitter_in_bytes);
        push_count(&mut s, " jitter_out_bytes=", h.jitter_out_bytes);
        push_count(&mut s, " jitter_late_drops=", h.jitter_late_drops);
        push_count(&mut s, " jitter_max_depth=", h.jitter_max_depth);
        push_count(&mut s, " tcp_peer_disconnects=", h.tcp_peer_disconnects);
        push_count(&mut s, " tcp_peer_resets=", h.tcp_peer_resets);
        push_count(&mut s, " tcp_peer_reset_bursts=", h.tcp_peer_reset_bursts);
        let enabled = self.jitter_enabled;
        *self = HealthCounters::default();
        self.jitter_enabled = enabled;
        s
    }
}

/// The moments in `times` that are less than `window` before `now`.
pub open spec fn recent(times: Seq<u128>, now: u128, window: nat) -> Seq<u128>
    decreases times.len(),
{
    if times.len() == 0 {
        Seq::empty()
    } else if now - times.last() < window {
        recent(times.drop_last(), now, window).push(times.last())
    } else {
        recent(times.drop_last(), now, window)
    }
}

/// How many connections the clients have reset of late.
#[derive(Clone, Debug)]
pub struct ResetBurstTracker {
    window: Duration,
    threshold: u64,
    times: Vec<u128>,
}

/// A tracker, as contracts speak of it.
pub struct Resets {
    pub window: nat,
    pub threshold: u64,
    pub times: Seq<u128>,
}

impl View for ResetBurstTracker {
    type V = Resets;

    closed spec fn view(&self) -> Resets {
        Resets { window: self.window.nanos(), threshold: self.threshold, times: self.times@ }
    }
}

/// The resets within the window, the one that happens now among them.
pub open spec fn resets_now(t: Resets, now: u128) -> Seq<u128> {
    recent(t.times, now, t.window).push(now)
}

/// Whether so many resets are more than clients coming and going.
pub open spec fn is_burst(t: Resets, resets: nat) -> bool {
    t.threshold > 0 && resets > t.threshold
}

impl ResetBurstTracker {
    /// A tracker for a window of time. More resets in it than the threshold are a burst; a
    /// threshold of zero makes nothing one.
    pub fn new(window: Duration, threshold: u64) -> (t: ResetBurstTracker)
        ensures
            t@ == (Resets { window: window.nanos(), threshold, times: Seq::empty() }),
    {
        ResetBurstTracker { window, threshold, times: Vec::new() }
    }

    /// Takes note of a reset, and tells how many there have been in the window and whether that is
    /// a burst.
    pub fn record(&mut self, now: u128) -> (r: (usize, bool))
        ensures
            final(self)@ == (Resets { times: resets_now(old(self)@, now), ..old(self)@ }),
            r.0 == resets_now(old(self)@, now).len(),
            r.1 == is_burst(old(self)@, resets_now(old(self)@, now).len()),
    {
        let window: u128 = self.window.as_nanos();
        let mut kept: Vec<u128> = Vec::new();
        let mut i: usize = 0;
        assert(self.times@.take(0) =~= Seq::empty());
        while i < self.times.len()
            invariant
                i <= self.times.len(),
                *self == *old(self),
                window == self.window.nanos(),
                kept@ == recent(self.times@.take(i as int), now, window as nat),
            decreases self.times.len() - i,
        {
            let t: u128 = self.times[i];
            let ghost next = self.times@.take(i + 1);
            assert(next.drop_last() =~= self.times@.take(i as int));
            assert(next.last() == t);
            if t > now || now - t < window {
                kept.push(t);
            }
            i = i + 1;
        }
        assert(self.times@.take(i as int) =~= self.times@);
        kept.push(now);
        let count: usize = kept.len();
        self.times = kept;
        (count, self.threshold > 0 && count as u64 > self.threshold)
    }
}

/// A threshold of zero never makes a burst of anything.
pub proof fn law_zero_threshold_disables(t: Resets, resets: nat)
    requires
        t.threshold == 0,
    ensures
        !is_burst(t, resets),
{
}

proof fn lemma_all_recent(times: Seq<u128>, now: u128, window: nat)
    requires
        forall|i: int| 0 <= i < times.len() ==> now - #[trigger] times[i] < window,
    ensures
        recent(times, now, window) == times,
    decreases times.len(),
{
    if times.len() > 0 {
        lemma_all_recent(times.drop_last(), now, window);
        assert(times.drop_last().push(times.last()) =~= times);
    }
}

/// Resets that fall within one window all count.
pub proof fn law_resets_in_the_window_count(t: Resets, now: u128)
    requires
        forall|i: int| 0 <= i < t.times.len() ==> now - #[trigger] t.times[i] < t.window,
    ensures
        resets_now(t, now).len() == t.times.len() + 1,
{
    lemma_all_recent(t.times, now, t.window);
}

proof fn lemma_none_recent(times: Seq<u128>, now: u128, window: nat)
    requires
        forall|i: int| 0 <= i < times.len() ==> now - #[trigger] times[i] >= window,
    ensures
        recent(times, now, window).len() == 0,
    decreases times.len(),
{
    if times.len() > 0 {
        lemma_none_recent(times.drop_last(), now, window);
    }
}

/// Resets that are older than the window no longer count.
pub proof fn law_old_resets_are_forgotten(t: Resets, now: u128)
    requires
        forall|i: int| 0 <= i < t.times.len() ==> now - #[trigger] t.times[i] >= t.window,
    ensures
        resets_now(t, now) == seq![now],
{
    lemma_none_recent(t.times, now, t.window);
    assert(resets_now(t, now) =~= seq![now]);
}

} // verus!
