//! What settings mean, and what is reported.
use vstd::prelude::*;

use crate::config::{Config, DropPolicy};
use crate::fdlog::log_fd_snapshot;
use crate::health::{update_max, HealthCounters};
use crate::metrics::{bumped, count_of, Count, InMemoryMetrics};
use crate::options::{
    address_text, parse_drop_policy, parse_port_spec, rtsp_hint, verbosity, Options, PortSpec,
    PortSpecError, Verbosity,
};
use crate::text::{dec, find, lemma_find, parse_uint, split, IntError};
use crate::text_laws::{law_dec_means_the_number, law_numerals_are_read, occurs_at};
use crate::transport::course_laws::begins;
use crate::transport::message_laws::lemma_split_front;

verus! {

/// The part stands somewhere in the text.
pub open spec fn contains(text: Seq<char>, part: Seq<char>) -> bool {
    exists|i: int| #[trigger] occurs_at(text, part, i)
}

pub proof fn lemma_contains(text: Seq<char>, before: Seq<char>, label: Seq<char>, value: Seq<char>)
    requires
        begins(text, before + label + value),
    ensures
        contains(text, label + value),
        begins(text, before),
{
    let part = label + value;
    let all = before + label + value;
    let n = before.len() as int;
    assert forall|i: int| 0 <= i < part.len() implies text.subrange(n, n + part.len())[i]
        == part[i] by {
        assert(text[n + i] == all[n + i]);
    }
    assert(text.subrange(n, n + part.len()) =~= part);
    assert(occurs_at(text, part, n));
    assert forall|i: int| 0 <= i < before.len() implies text[i] == #[trigger] before[i] by {
        assert(text[i] == all[i]);
    }
}

/// A report names every counter with what it has counted, and the bytes also by the second; then
/// counting begins anew.
#[verifier::rlimit(40)]
pub proof fn law_reports_tell_every_counter(
    h: &mut HealthCounters,
    realms: usize,
    waiters: usize,
    interval_secs: u64,
    s: String,
)
    requires
        call_ensures(HealthCounters::report, (h, realms, waiters, interval_secs), s),
        interval_secs > 0,
    ensures
        begins(s@, "Health realms="@ + dec(realms as nat) + " waiters="@ + dec(waiters as nat)),
        contains(s@, " bytes_in="@ + dec(old(h).bytes_from_device as nat)),
        contains(s@, " bytes_out="@ + dec(old(h).bytes_to_device as nat)),
        contains(s@, " in_Bps="@ + dec((old(h).bytes_from_device / interval_secs) as nat)),
        contains(s@, " out_Bps="@ + dec((old(h).bytes_to_device / interval_secs) as nat)),
        contains(s@, " pkts_in="@ + dec(old(h).packets_from_device as nat)),
        contains(s@, " pkts_out="@ + dec(old(h).packets_to_device as nat)),
        contains(s@, " drops_newest="@ + dec(old(h).drops_newest as nat)),
        contains(s@, " drops_oldest="@ + dec(old(h).drops_oldest as nat)),
        contains(
            s@,
            " jitter_on="@ + (if old(h).jitter_enabled {
                "true"@
            } else {
                "false"@
            }),
        ),
        contains(s@, " jitter_in_pkts="@ + dec(old(h).jitter_in_packets as nat)),
        contains(s@, " jitter_out_pkts="@ + dec(old(h).jitter_out_packets as nat)),
        contains(s@, " jitter_in_bytes="@ + dec(old(h).jitter_in_bytes as nat)),
        contains(s@, " jitter_out_bytes="@ + dec(old(h).jitter_out_bytes as nat)),
        contains(s@, " jitter_late_drops="@ + dec(old(h).jitter_late_drops as nat)),
        contains(s@, " jitter_max_depth="@ + dec(old(h).jitter_max_depth as nat)),
        contains(s@, " tcp_peer_disconnects="@ + dec(old(h).tcp_peer_disconnects as nat)),
        contains(s@, " tcp_peer_resets="@ + dec(old(h).tcp_peer_resets as nat)),
        contains(s@, " tcp_peer_reset_bursts="@ + dec(old(h).tcp_peer_reset_bursts as nat)),
        is_at_zero(*final(h)),
        final(h).jitter_enabled == old(h).jitter_enabled,
{
    let o = *old(h);
    let p0 = "Health realms="@ + dec(realms as nat) + " waiters="@ + dec(waiters as nat);
    let p1 = p0 + " bytes_in="@ + dec(o.bytes_from_device as nat);
    let p2 = p1 + " bytes_out="@ + dec(o.bytes_to_device as nat);
    let p3 = p2 + " in_Bps="@ + dec((o.bytes_from_device / interval_secs) as nat);
    let p4 = p3 + " out_Bps="@ + dec((o.bytes_to_device / interval_secs) as nat);
    let p5 = p4 + " pkts_in="@ + dec(o.packets_from_device as nat);
    let p6 = p5 + " pkts_out="@ + dec(o.packets_to_device as nat);
    let p7 = p6 + " drops_newest="@ + dec(o.drops_newest as nat);
    let p8 = p7 + " drops_oldest="@ + dec(o.drops_oldest as nat);
    let on = if o.jitter_enabled {
        "true"@
    } else {
        "false"@
    };
    let p9 = p8 + " jitter_on="@ + on;
    let p10 = p9 + " jitter_in_pkts="@ + dec(o.jitter_in_packets as nat);
    let p11 = p10 + " jitter_out_pkts="@ + dec(o.jitter_out_packets as nat);
    let p12 = p11 + " jitter_in_bytes="@ + dec(o.jitter_in_bytes as nat);
    let p13 = p12 + " jitter_out_bytes="@ + dec(o.jitter_out_bytes as nat);
    let p14 = p13 + " jitter_late_drops="@ + dec(o.jitter_late_drops as nat);
    let p15 = p14 + " jitter_max_depth="@ + dec(o.jitter_max_depth as nat);
    let p16 = p15 + " tcp_peer_disconnects="@ + dec(o.tcp_peer_disconnects as nat);
    let p17 = p16 + " tcp_peer_resets="@ + dec(o.tcp_peer_resets as nat);
    let p18 = p17 + " tcp_peer_reset_bursts="@ + dec(o.tcp_peer_reset_bursts as nat);
    assert(s@ == p18);
    lemma_contains(s@, p17, " tcp_peer_reset_bursts="@, dec(o.tcp_peer_reset_bursts as nat));
    lemma_contains(s@, p16, " tcp_peer_resets="@, dec(o.tcp_peer_resets as nat));
    lemma_contains(s@, p15, " tcp_peer_disconnects="@, dec(o.tcp_peer_disconnects as nat));
    lemma_contains(s@, p14, " jitter_max_depth="@, dec(o.jitter_max_depth as nat));
    lemma_contains(s@, p13, " jitter_late_drops="@, dec(o.jitter_late_drops as nat));
    lemma_contains(s@, p12, " jitter_out_bytes="@, dec(o.jitter_out_bytes as nat));
    lemma_contains(s@, p11, " jitter_in_bytes="@, dec(o.jitter_in_bytes as nat));
    lemma_contains(s@, p10, " jitter_out_pkts="@, dec(o.jitter_out_packets as nat));
    lemma_contains(s@, p9, " jitter_in_pkts="@, dec(o.jitter_in_packets as nat));
    lemma_contains(s@, p8, " jitter_on="@, on);
    lemma_contains(s@, p7, " drops_oldest="@, dec(o.drops_oldest as nat));
    lemma_contains(s@, p6, " drops_newest="@, dec(o.drops_newest as nat));
    lemma_contains(s@, p5, " pkts_out="@, dec(o.packets_to_device as nat));
    lemma_contains(s@, p4, " pkts_in="@, dec(o.packets_from_device as nat));
    lemma_contains(s@, p3, " out_Bps="@, dec((o.bytes_to_device / interval_secs) as nat));
    lemma_contains(s@, p2, " in_Bps="@, dec((o.bytes_from_device / interval_secs) as nat));
    lemma_contains(s@, p1, " bytes_out="@, dec(o.bytes_to_device as nat));
    lemma_contains(s@, p0, " bytes_in="@, dec(o.bytes_from_device as nat));
}

/// Nothing has been counted.
pub open spec fn is_at_zero(h: HealthCounters) -> bool {
    &&& h.bytes_from_device == 0
    &&& h.bytes_to_device == 0
    &&& h.packets_from_device == 0
    &&& h.packets_to_device == 0
    &&& h.drops_newest == 0
    &&& h.drops_oldest == 0
    &&& h.jitter_in_packets == 0
    &&& h.jitter_in_bytes == 0
    &&& h.jitter_out_packets == 0
    &&& h.jitter_out_bytes == 0
    &&& h.jitter_late_drops == 0
    &&& h.jitter_max_depth == 0
    &&& h.tcp_peer_disconnects == 0
    &&& h.tcp_peer_resets == 0
    &&& h.tcp_peer_reset_bursts == 0
}

/// A maximum keeps the larger of two numbers.
pub proof fn law_maxima_are_kept(counter: &mut u64, value: u64)
    requires
        call_ensures(update_max, (counter, value), ()),
    ensures
        *final(counter) >= *old(counter),
        *final(counter) >= value,
        *final(counter) == *old(counter) || *final(counter) == value,
{
}

/// A name that was never counted has a count of zero.
pub proof fn law_nothing_is_counted_at_first(m: InMemoryMetrics, name: &str, n: u64)
    requires
        m@.len() == 0,
        call_ensures(InMemoryMetrics::counter, (&m, name), n),
    ensures
        n == 0,
{
}

proof fn lemma_port(n: u16)
    ensures
        ({
            let s = dec(n as nat);
            &&& parse_uint(s, 0xffff) == Ok::<nat, IntError>(n as nat)
            &&& forall|i: int| 0 <= i < s.len() ==> #[trigger] s[i] != ':'
        }),
{
    let s = dec(n as nat);
    law_dec_means_the_number(n as nat);
    law_numerals_are_read(s, 0xffff);
    assert forall|i: int| 0 <= i < s.len() implies #[trigger] s[i] != ':' by {
        assert('0' <= s[i] <= '9');
    }
}

/// A port specification: an address, the port to which clients connect there, and the port of the
/// camera that they reach. Without an address it is this machine's own.
pub proof fn law_port_specifications_are_read(
    address: Seq<char>,
    bind: u16,
    remote: u16,
    text: &str,
    r: Result<PortSpec, PortSpecError>,
    short: &str,
    q: Result<PortSpec, PortSpecError>,
)
    requires
        forall|i: int| 0 <= i < address.len() ==> #[trigger] address[i] != ':',
        text@ == address + seq![':'] + (dec(bind as nat) + seq![':'] + dec(remote as nat)),
        call_ensures(parse_port_spec, (text,), r),
        short@ == dec(bind as nat) + seq![':'] + dec(remote as nat),
        call_ensures(parse_port_spec, (short,), q),
    ensures
        r matches Ok(p) && p.bind_address@ == address && p.bind_port == bind && p.remote_port
            == remote,
        q matches Ok(p) && p.bind_address@ == "127.0.0.1"@ && p.bind_port == bind && p.remote_port
            == remote,
{
    let b = dec(bind as nat);
    let c = dec(remote as nat);
    lemma_port(bind);
    lemma_port(remote);
    lemma_split_front(address, ':', b + seq![':'] + c);
    lemma_split_front(b, ':', c);
    lemma_split_front(c, ':', Seq::empty());
    assert(split(text@, ':') =~= seq![address, b, c]);
    assert(split(short@, ':') =~= seq![b, c]);
}

/// The names of the policies.
pub proof fn law_policies_have_names(name: &str, r: Option<DropPolicy>)
    requires
        call_ensures(parse_drop_policy, (name,), r),
    ensures
        name@ == "block"@ <==> r == Some(DropPolicy::Block),
        name@ == "drop_newest"@ <==> r == Some(DropPolicy::DropNewest),
        name@ == "keep_latest"@ <==> r == Some(DropPolicy::DropOldestKeepLatest),
{
    reveal_strlit("block");
    reveal_strlit("drop_newest");
    reveal_strlit("keep_latest");
    assert("block"@.len() == 5);
    assert("drop_newest"@[0] == 'd' && "keep_latest"@[0] == 'k');
}

/// What is asked for is what is set: each option sets its own setting, and what cannot be asked for
/// stays as it is by default. Zero counts as one where there has to be one at least.
pub proof fn law_options_are_applied(o: &Options, by_default: Config, c: Config)
    requires
        call_ensures(Options::apply, (o, by_default), c),
    ensures
        c.jitter_buffer_ms == o.buffer_ms,
        c.drop_policy == o.drop_policy,
        c.health_interval_secs == o.health_interval_secs,
        o.heartbeat_interval_secs > 0 ==> c.heartbeat_interval_secs == o.heartbeat_interval_secs,
        o.heartbeat_interval_secs == 0 ==> c.heartbeat_interval_secs == 1,
        o.heartbeat_missed_limit > 0 ==> c.heartbeat_missed_limit == o.heartbeat_missed_limit,
        o.heartbeat_missed_limit == 0 ==> c.heartbeat_missed_limit == 1,
        c.heartbeat_timeout_grace_secs == o.heartbeat_timeout_grace_secs,
        c.enable_probe == o.enable_probe,
        c.probe_port == o.probe_port,
        o.max_pending_realm_setups > 0 ==> c.max_pending_realm_setups == o.max_pending_realm_setups,
        o.max_pending_realm_setups == 0 ==> c.max_pending_realm_setups == 1,
        c.reset_burst_warn_threshold_per_minute == o.reset_burst_warn_threshold_per_minute,
        c.restart_backoff_initial_secs == by_default.restart_backoff_initial_secs,
        c.restart_backoff_max_secs == by_default.restart_backoff_max_secs,
        c.restart_backoff_jitter_ms == by_default.restart_backoff_jitter_ms,
        c.restart_backoff_reset_after_secs == by_default.restart_backoff_reset_after_secs,
        c.handshake_timeout_secs == by_default.handshake_timeout_secs,
        c.realm_ready_timeout_secs == by_default.realm_ready_timeout_secs,
        c.channel_capacity == by_default.channel_capacity,
{
}

/// How much is logged, and where the camera's picture is.
pub proof fn law_hints(
    asked: u8,
    v: Verbosity,
    bind: u16,
    remote: u16,
    url: Option<String>,
    address: &str,
    text: String,
)
    requires
        call_ensures(verbosity, (asked,), v),
        call_ensures(rtsp_hint, (bind, remote), url),
        call_ensures(address_text, (address, bind), text),
    ensures
        v == Verbosity::Info <==> asked == 0,
        v == Verbosity::Debug <==> asked == 1,
        v == Verbosity::Trace <==> asked >= 2,
        url is Some <==> remote == 554,
        url is Some && bind == 554 ==> url->0@
            == "rtsp://127.0.0.1/cam/realmonitor?channel=1&subtype=0"@,
        url is Some && bind != 554 ==> url->0@ == "rtsp://127.0.0.1:"@ + dec(bind as nat)
            + "/cam/realmonitor?channel=1&subtype=0"@,
        text@ == address@ + seq![':'] + dec(bind as nat),
{
    reveal_strlit("rtsp://127.0.0.1/cam/realmonitor?channel=1&subtype=0");
    reveal_strlit("rtsp://127.0.0.1");
    reveal_strlit("rtsp://127.0.0.1:");
    reveal_strlit("/cam/realmonitor?channel=1&subtype=0");
    reveal_strlit(":");
    assert(":"@ =~= seq![':']);
    if let Some(u) = url {
        if bind == 554 {
            assert(u@ =~= "rtsp://127.0.0.1/cam/realmonitor?channel=1&subtype=0"@);
        } else {
            assert(u@ =~= "rtsp://127.0.0.1:"@ + dec(bind as nat)
                + "/cam/realmonitor?channel=1&subtype=0"@);
        }
    }
}

/// The time without a sign of the camera that is tolerated: the heartbeats that may be missed and the
/// grace period, or the longest time where that would be more.
pub proof fn law_tolerated_silence(c: &Config, n: u64)
    requires
        call_ensures(Config::ptcp_inactivity_timeout_secs, (c,), n),
    ensures
        ({
            let all = c.heartbeat_interval_secs * c.heartbeat_missed_limit
                + c.heartbeat_timeout_grace_secs;
            n == if all <= u64::MAX {
                all
            } else {
                u64::MAX as int
            }
        }),
{
    assert(c.heartbeat_interval_secs * c.heartbeat_missed_limit >= 0) by (nonlinear_arith);
}

/// A snapshot of file descriptors tells how many there are, or why it cannot, and how many channels.
pub proof fn law_snapshots(
    label: &str,
    fds: Result<usize, &str>,
    channels: usize,
    connecting: usize,
    s: String,
)
    requires
        call_ensures(log_fd_snapshot, (label, fds, channels, connecting), s),
    ensures
        begins(s@, "FD usage ["@ + label@ + "]: open_fds="@),
        fds matches Ok(n) ==> contains(s@, "]: open_fds="@ + dec(n as nat)),
        contains(s@, ", channels="@ + dec(channels as nat)),
        contains(s@, ", conn_channels="@ + dec(connecting as nat)),
{
    let p0 = "FD usage ["@ + label@;
    let open = match fds {
        Ok(n) => dec(n as nat),
        Err(e) => "unavailable ("@ + e@ + ")"@,
    };
    let p1 = p0 + "]: open_fds="@ + open;
    let p2 = p1 + ", channels="@ + dec(channels as nat);
    let p3 = p2 + ", conn_channels="@ + dec(connecting as nat);
    assert(s@ == p3);
    lemma_contains(s@, p2, ", conn_channels="@, dec(connecting as nat));
    lemma_contains(s@, p1, ", channels="@, dec(channels as nat));
    lemma_contains(s@, p0, "]: open_fds="@, open);
    let front = p0 + "]: open_fds="@;
    assert forall|i: int| 0 <= i < front.len() implies s@[i] == #[trigger] front[i] by {
        assert(s@[i] == p1[i]);
    }
}

/// The counts after a name has been counted so many times.
pub open spec fn counted_times(counts: Seq<Count>, name: Seq<char>, n: nat) -> Seq<Count>
    decreases n,
{
    if n == 0 {
        counts
    } else {
        bumped(counted_times(counts, name, (n - 1) as nat), name)
    }
}

/// A name that has been counted so many times, and nothing else, has that count.
pub proof fn law_counting_counts(name: Seq<char>, n: nat)
    requires
        n > 0,
    ensures
        counted_times(Seq::empty(), name, n) == seq![
            (name, (n % 0x1_0000_0000_0000_0000) as u64),
        ],
        count_of(counted_times(Seq::empty(), name, n), name) == n % 0x1_0000_0000_0000_0000,
    decreases n,
{
    if n == 1 {
        assert(counted_times(Seq::empty(), name, 0) == Seq::<Count>::empty());
        assert(counted_times(Seq::empty(), name, 1) =~= seq![(name, 1u64)]);
    } else {
        law_counting_counts(name, (n - 1) as nat);
        let before = counted_times(Seq::empty(), name, (n - 1) as nat);
        assert(before.skip(1) =~= Seq::empty());
        assert(counted_times(Seq::empty(), name, n) =~= seq![
            (name, (n % 0x1_0000_0000_0000_0000) as u64),
        ]);
    }
}

/// A port specification with too few or too many parts is refused, and so is one whose ports are no
/// numbers.
pub proof fn law_port_specifications_are_refused(text: &str, r: Result<PortSpec, PortSpecError>)
    requires
        call_ensures(parse_port_spec, (text,), r),
    ensures
        (forall|i: int| 0 <= i < text@.len() ==> #[trigger] text@[i] != ':') ==> r == Err::<
            PortSpec,
            PortSpecError,
        >(PortSpecError::Shape),
        split(text@, ':').len() > 3 ==> r == Err::<PortSpec, PortSpecError>(PortSpecError::Shape),
        r matches Ok(p) ==> split(text@, ':').len() == 2 || split(text@, ':').len() == 3,
        text@.len() > 0 && text@.last() == ':' ==> r is Err,
{
    if forall|i: int| 0 <= i < text@.len() ==> #[trigger] text@[i] != ':' {
        lemma_split_front(text@, ':', Seq::empty());
    }
    if text@.len() > 0 && text@.last() == ':' {
        lemma_last_part(text@, ':');
    }
}

proof fn lemma_last_part(s: Seq<char>, c: char)
    requires
        s.len() > 0,
        s.last() == c,
    ensures
        split(s, c).len() >= 2,
        split(s, c).last().len() == 0,
    decreases s.len(),
{
    let n = find(s, c) as int;
    lemma_find(s, c);
    assert(s[s.len() - 1] == c);
    let rest = s.skip(n + 1);
    if rest.len() == 0 {
        assert(split(rest, c) =~= seq![rest]);
    } else {
        assert(rest.last() == c);
        lemma_last_part(rest, c);
    }
    assert(split(s, c) =~= seq![s.take(n)] + split(rest, c));
    assert(split(s, c).last() == split(rest, c).last());
}

/// The settings without anything asked for.
pub proof fn law_default_settings(c: Config)
    requires
        call_ensures(Config::default, (), c),
    ensures
        c.heartbeat_interval_secs == 10,
        c.heartbeat_missed_limit == 1,
        c.heartbeat_timeout_grace_secs == 0,
        c.health_interval_secs == 60,
        !c.enable_probe,
        c.probe_port == 8080,
        c.restart_backoff_initial_secs == 1,
        c.restart_backoff_max_secs == 30,
        c.restart_backoff_jitter_ms == 500,
        c.restart_backoff_reset_after_secs == 60,
        c.handshake_timeout_secs == 15,
        c.realm_ready_timeout_secs == 10,
        c.max_pending_realm_setups == 128,
        c.reset_burst_warn_threshold_per_minute == 20,
        c.channel_capacity == 128,
        c.drop_policy == DropPolicy::Block,
        c.jitter_buffer_ms == 0,
{
}

} // verus!
