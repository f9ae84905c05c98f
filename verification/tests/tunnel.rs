use dh_p2p::accept::{settle_client, AcceptLimits, SetupEvent};
use dh_p2p::buffer::JitterBuffer;
use dh_p2p::channel::{count_blocked, ClientChannel, Pushed, Received};
use dh_p2p::clients::{connection_ended, process_reader, ClientInput, Report, StopReason};
use dh_p2p::config::{Config, DropPolicy};
use dh_p2p::error::{Error, ErrorKind};
use dh_p2p::fdlog::log_fd_snapshot;
use dh_p2p::health::{update_max, HealthCounters, ResetBurstTracker};
use dh_p2p::metrics::{InMemoryMetrics, Metrics};
use dh_p2p::options::{
    address_text, parse_drop_policy, parse_port_spec, rtsp_hint, verbosity, Options,
    PortSpecError, Verbosity, DEFAULT_PORT_SPEC,
};
use dh_p2p::probe::ProbeState;
use dh_p2p::realms::{ForwardNext, Forwarded, Patience, RealmTable};
use dh_p2p::run::{
    accept_client, after_start, awaits_signal, enter, farewell, heard, let_in_with, release_via, watch,
    Admission, Entry, ReleaseVia, StartOutcome,
};
use dh_p2p::shutdown::ShutdownReason;
use dh_p2p::supervisor::{Backoff, Next};
use dh_p2p::text::IntError;
use dh_p2p::time::Duration;
use dh_p2p::transport::ptcp::{
    PTCPBody, PTCPEvent, PTCPPacket, PTCPPayload, PTCPReadError, PTCPSession,
};
use dh_p2p::tunnel::{
    acknowledge, after_read_error, after_write, dh_writer, DhReader, Noted, WriterNext,
};

const SECOND: u128 = 1_000_000_000;

fn taken(channel: &mut ClientChannel) -> Option<Vec<u8>> {
    match channel.recv() {
        Received::Data(d) => Some(d),
        _ => None,
    }
}

fn lane_frame(table: &mut RealmTable<u8>, lane: u64) -> Option<Vec<u8>> {
    match table.take_frame(lane) {
        Received::Data(d) => Some(d),
        _ => None,
    }
}

#[test]
fn drop_policy_drop_newest_drops_when_full() {
    let mut table = RealmTable::<u8>::new();
    let lane = table.register(1, 0);
    let mut health = HealthCounters::default();

    table.send_to_clients(vec![(1, b"a".to_vec())], DropPolicy::DropNewest, 1, &mut health);
    table.send_to_clients(vec![(1, b"b".to_vec())], DropPolicy::DropNewest, 1, &mut health);

    assert_eq!(lane_frame(&mut table, lane).unwrap(), b"a");
    assert!(matches!(table.take_frame(lane), Received::Empty));
    assert_eq!(health.drops_newest, 1);
}

#[test]
fn drop_policy_drop_oldest_keep_latest_keeps_newest() {
    let mut channel = ClientChannel::new();
    let mut health = HealthCounters::default();
    let policy = DropPolicy::DropOldestKeepLatest;

    channel.push(b"a".to_vec(), 1, policy, &mut health);
    let pushed = channel.push(b"b".to_vec(), 1, policy, &mut health);

    assert!(matches!(pushed, Pushed::DroppedOldest));
    assert_eq!(taken(&mut channel).unwrap(), b"b");
    assert_eq!(health.drops_oldest, 1);
}

#[test]
fn drop_policy_block_waits_until_space_available() {
    let mut channel = ClientChannel::new();
    let mut health = HealthCounters::default();

    channel.push(b"a".to_vec(), 1, DropPolicy::Block, &mut health);
    // No room: the frame is handed back to wait.
    let waiting = match channel.push(b"b".to_vec(), 1, DropPolicy::Block, &mut health) {
        Pushed::Wait(data) => data,
        _ => panic!("push should wait while the buffer is full"),
    };

    assert_eq!(taken(&mut channel).unwrap(), b"a");
    assert!(matches!(
        channel.push(waiting, 1, DropPolicy::Block, &mut health),
        Pushed::Queued
    ));
    assert_eq!(taken(&mut channel).unwrap(), b"b");
    assert_eq!(health, HealthCounters::default());
}

#[test]
fn channel_close_prevents_push() {
    let mut channel = ClientChannel::new();
    let mut health = HealthCounters::default();

    channel.push(b"a".to_vec(), 10, DropPolicy::DropNewest, &mut health);
    channel.close();
    assert!(channel.is_closed());
    channel.push(b"b".to_vec(), 10, DropPolicy::DropNewest, &mut health);

    assert_eq!(taken(&mut channel).unwrap(), b"a");
    assert!(matches!(channel.recv(), Received::Closed));
}

#[test]
fn channel_close_unblocks_blocked_push() {
    let mut channel = ClientChannel::new();
    let mut health = HealthCounters::default();

    channel.push(b"a".to_vec(), 1, DropPolicy::Block, &mut health);
    let waiting = match channel.push(b"b".to_vec(), 1, DropPolicy::Block, &mut health) {
        Pushed::Wait(data) => data,
        _ => panic!("push should wait while the buffer is full"),
    };
    channel.close();
    assert!(matches!(
        channel.push(waiting, 1, DropPolicy::Block, &mut health),
        Pushed::Ignored
    ));
}

#[test]
fn channel_close_recv_returns_none_when_empty() {
    let mut channel = ClientChannel::new();
    channel.close();
    assert!(matches!(channel.recv(), Received::Closed));
}

#[test]
fn channel_close_drains_existing_data() {
    let mut channel = ClientChannel::new();
    let mut health = HealthCounters::default();

    channel.push(b"a".to_vec(), 10, DropPolicy::DropNewest, &mut health);
    channel.push(b"b".to_vec(), 10, DropPolicy::DropNewest, &mut health);
    channel.close();

    assert_eq!(taken(&mut channel).unwrap(), b"a");
    assert_eq!(taken(&mut channel).unwrap(), b"b");
    assert!(matches!(channel.recv(), Received::Closed));
}

fn set_up(table: &mut RealmTable<u8>, limits: &mut AcceptLimits, realm: u32) -> Option<PTCPEvent> {
    match let_in_with(limits, Some(realm)) {
        Admission::Admitted(realm) => Some(enter(table, realm, 0).1),
        _ => None,
    }
}

#[test]
fn client_setup_scheduling_is_not_serialized_by_ready_wait() {
    let mut cfg = Config::default();
    cfg.realm_ready_timeout_secs = 1;
    cfg.max_pending_realm_setups = 8;
    let mut table = RealmTable::<u8>::new();
    let mut limits = AcceptLimits::new(cfg.max_pending_realm_setups);

    // Neither realm is ready, and both clients are set up.
    let evt1 = set_up(&mut table, &mut limits, 0x1111_1111);
    let evt2 = set_up(&mut table, &mut limits, 0x2222_2222);

    assert!(matches!(evt1, Some(PTCPEvent::Connect(0x1111_1111))));
    assert!(matches!(evt2, Some(PTCPEvent::Connect(0x2222_2222))));
    assert_eq!(table.waiter_count(), 2);
}

#[test]
fn pending_realm_setup_limit_rejects_excess_clients() {
    let mut cfg = Config::default();
    cfg.realm_ready_timeout_secs = 1;
    cfg.max_pending_realm_setups = 1;
    let mut table = RealmTable::<u8>::new();
    let mut limits = AcceptLimits::new(cfg.max_pending_realm_setups);

    let evt1 = set_up(&mut table, &mut limits, 0x3333_3333);
    let evt2 = set_up(&mut table, &mut limits, 0x4444_4444);

    assert!(matches!(evt1, Some(PTCPEvent::Connect(0x3333_3333))));
    assert!(
        evt2.is_none(),
        "second client should be rejected while pending limit is full"
    );
}

#[test]
fn clients_beyond_the_limit_are_turned_away() {
    let mut table = RealmTable::<u8>::new();
    let mut limits = AcceptLimits::new(1);
    let first = accept_client(&mut table, &mut limits, 7);
    assert!(matches!(first, Entry::Entered(_, 0, PTCPEvent::Connect(_))));
    match accept_client(&mut table, &mut limits, 8) {
        Entry::TurnedAway(admission, waiter) => {
            assert_eq!(admission, Admission::TooMany);
            assert_eq!(admission.metric(), Some("realm_setup_rejected"));
            assert_eq!(waiter, 8);
        }
        _ => panic!("second client should be rejected while pending limit is full"),
    }
    limits.release();
    assert!(matches!(
        accept_client(&mut table, &mut limits, 9),
        Entry::Entered(_, 1, _)
    ));
    assert_eq!(table.realm_count(), 2);
}

#[test]
fn queue_never_grows_beyond_its_capacity() {
    for policy in [
        DropPolicy::Block,
        DropPolicy::DropNewest,
        DropPolicy::DropOldestKeepLatest,
    ] {
        let mut channel = ClientChannel::new();
        let mut health = HealthCounters::default();
        for i in 0..10u8 {
            channel.push(vec![i], 3, policy, &mut health);
            assert!(channel.len() <= 3);
        }
        let last = (0..3).map(|_| taken(&mut channel).unwrap()).last().unwrap();
        let keeps_latest = policy == DropPolicy::DropOldestKeepLatest;
        assert_eq!(last, if keeps_latest { vec![9] } else { vec![2] });
    }
}

#[test]
fn blocked_frames_are_counted_as_dropped() {
    let mut health = HealthCounters::default();
    count_blocked(&mut health);
    assert_eq!(health.drops_newest, 1);
    health.drops_newest = u64::MAX;
    count_blocked(&mut health);
    assert_eq!(health.drops_newest, 0);
}

#[test]
fn slow_client_does_not_hold_others_up() {
    let mut table = RealmTable::<u8>::new();
    let slow = table.register(1, 0);
    let fast = table.register(2, 0);
    let mut health = HealthCounters::default();
    for i in 0..6u8 {
        table.send_to_clients(
            vec![(1, vec![i]), (2, vec![i])],
            DropPolicy::Block,
            2,
            &mut health,
        );
        assert_eq!(lane_frame(&mut table, fast), Some(vec![i]));
    }
    // Two frames in the channel, two wait, two were dropped.
    assert_eq!(health.drops_newest, 2);
    assert_eq!(table.forward(slow, 2), Forwarded::Blocked);
    assert_eq!(lane_frame(&mut table, slow), Some(vec![0]));
    assert_eq!(table.forward(slow, 2), Forwarded::Moved);
    assert_eq!(table.forward(slow, 2), Forwarded::Blocked);
    assert!(table.give_up(slow, &mut health));
    assert_eq!(health.drops_newest, 3);
    assert!(!table.give_up(slow, &mut health));
    assert_eq!(lane_frame(&mut table, slow), Some(vec![1]));
    assert_eq!(lane_frame(&mut table, slow), Some(vec![2]));
    assert_eq!(lane_frame(&mut table, slow), None);
    assert_eq!(table.forward(slow, 2), Forwarded::Idle);
}

#[test]
fn frames_beyond_the_waiting_line_are_dropped() {
    let mut table = RealmTable::<u8>::new();
    let lane = table.register(1, 0);
    let mut health = HealthCounters::default();
    for n in 1..=3u8 {
        table.route(1, vec![n], DropPolicy::Block, 1, &mut health);
    }
    table.route(9, vec![4], DropPolicy::Block, 1, &mut health);
    assert_eq!(health.drops_newest, 1);
    assert_eq!(lane_frame(&mut table, lane), Some(vec![1]));
    assert_eq!(table.forward(lane, 1), Forwarded::Moved);
    assert_eq!(lane_frame(&mut table, lane), Some(vec![2]));
    assert_eq!(table.forward(lane, 1), Forwarded::Idle);
    assert_eq!(lane_frame(&mut table, lane), None);
}

#[test]
fn hanging_up_keeps_what_is_queued() {
    let mut table = RealmTable::<u8>::new();
    let gone = table.register(1, 10);
    let stays = table.register(2, 20);
    let mut health = HealthCounters::default();
    table.route(1, vec![1], DropPolicy::Block, 1, &mut health);
    table.route(1, vec![2], DropPolicy::Block, 1, &mut health);
    table.route(2, vec![3], DropPolicy::Block, 1, &mut health);

    let removed = table.disconnect(1);
    assert!(removed.lane);
    assert_eq!(removed.waiter, Some(10));
    assert_eq!(table.realms(), vec![2]);
    table.route(1, vec![9], DropPolicy::Block, 1, &mut health);
    assert!(table.is_closed(gone) && !table.is_closed(stays));
    assert_eq!(table.forward(gone, 1), Forwarded::Closed);
    assert_eq!(lane_frame(&mut table, gone), Some(vec![1]));
    assert!(matches!(table.take_frame(gone), Received::Closed));
    table.finish(gone);
    table.finish(stays);
    assert_eq!(lane_frame(&mut table, stays), Some(vec![3]));
    assert!(!table.disconnect(1).lane);
}

#[test]
fn unused_realm_is_found_among_the_candidates() {
    let mut table = RealmTable::<u8>::new();
    table.register(1, 0);
    table.register(2, 0);
    assert_eq!(table.pick_unused(&[1, 2, 3, 4]), Some(3));
    assert_eq!(table.pick_unused(&[1, 2]), None);
    assert_eq!(table.allocate_unique_realm_id(0), None);
    let drawn = table.allocate_unique_realm_id(64).unwrap();
    assert!(!table.is_used(drawn));
    assert!(table.is_used(1) && table.has_room());
    let mut limits = AcceptLimits::new(0);
    assert_eq!(let_in_with(&mut limits, None), Admission::NoRealm);
    assert_eq!(Admission::NoRealm.metric(), Some("realm_id_allocation_failed"));
    assert_eq!(let_in_with(&mut limits, Some(5)), Admission::Admitted(5));
    assert_eq!(let_in_with(&mut limits, Some(5)), Admission::TooMany);
    assert_eq!(Admission::Admitted(5).metric(), None);
}

#[test]
fn drawn_realms_differ() {
    let table = RealmTable::<u8>::new();
    let draws: Vec<u32> = (0..4)
        .map(|_| table.allocate_unique_realm_id(1).unwrap())
        .collect();
    assert!(draws.iter().any(|d| *d != draws[0]));
}

#[test]
fn client_that_is_not_served_leaves_nothing() {
    for (event, metric) in [
        (SetupEvent::NotEnqueued, None),
        (SetupEvent::Lost, Some("realm_ready_failed")),
        (SetupEvent::TimedOut, Some("realm_ready_timeout")),
    ] {
        let mut table = RealmTable::<u8>::new();
        let lane = table.register(5, 1);
        assert_eq!(settle_client(&mut table, 5, lane, event), (false, metric));
        assert_eq!((table.realm_count(), table.waiter_count()), (0, 0));
        assert!(table.is_closed(lane));
        assert!(!table.is_used(5));
    }
    let mut table = RealmTable::<u8>::new();
    let lane = table.register(5, 1);
    let served = settle_client(&mut table, 5, lane, SetupEvent::Ready);
    assert_eq!(served, (true, Some("realm_ready")));
    assert_eq!(table.realm_count(), 1);
}

#[test]
fn events_become_packets() {
    let mut session = PTCPSession::new();
    let mut health = HealthCounters::default();
    let (packet, over) = dh_writer(&mut session, PTCPEvent::Heartbeat, 554, &mut health);
    assert!(matches!(packet.body, PTCPBody::Heartbeat) && over.is_none());
    let (packet, _) = dh_writer(&mut session, PTCPEvent::Connect(7), 554, &mut health);
    assert!(matches!(packet.body, PTCPBody::Bind(7, 554)));
    let data = PTCPEvent::Data(7, vec![1, 2, 3]);
    let (packet, _) = dh_writer(&mut session, data, 554, &mut health);
    assert_eq!(packet.body.len(), 15);
    assert_eq!((health.bytes_to_device, health.packets_to_device), (3, 1));
    let (packet, over) = dh_writer(&mut session, PTCPEvent::Disconnect(7), 554, &mut health);
    match packet.body {
        PTCPBody::Status(realm, status) => assert_eq!((realm, status.as_str()), (7, "DISC")),
        _ => panic!("expected a status"),
    }
    assert_eq!(over, Some(7));
}

#[test]
fn refused_send_restarts_and_others_go_on() {
    let mut table = RealmTable::<u8>::new();
    table.register(7, 3);
    let refused = Some(ErrorKind::ConnectionRefused);
    assert!(matches!(
        after_write(&mut table, Some(7), refused),
        WriterNext::End(ShutdownReason::Restart)
    ));
    assert_eq!(table.realm_count(), 1);
    match after_write(&mut table, Some(7), Some(ErrorKind::TimedOut)) {
        WriterNext::Go(Some(removed)) => {
            assert!(removed.lane);
            assert_eq!(removed.waiter, Some(3));
        }
        _ => panic!("expected to go on"),
    }
    assert!(matches!(after_write(&mut table, None, None), WriterNext::Go(None)));
    assert_eq!(after_read_error(&PTCPReadError::timed_out()), None);
    let dead = PTCPReadError::Io(Error {
        kind: ErrorKind::NotConnected,
        message: String::new(),
    });
    assert_eq!(after_read_error(&dead), Some(ShutdownReason::Restart));
}

fn packet(sent: u32, body: PTCPBody) -> PTCPPacket {
    PTCPPacket {
        sent,
        recv: 0,
        pid: 0,
        lmid: 9,
        rmid: 0,
        body,
    }
}

#[test]
fn packets_are_acknowledged_unless_empty() {
    let mut session = PTCPSession::new();
    let (_, ack) = acknowledge(&mut session, packet(100, PTCPBody::Heartbeat));
    let ack = ack.unwrap();
    assert_eq!((ack.recv, ack.rmid), (112, 9));
    assert!(matches!(ack.body, PTCPBody::Empty));
    let (_, ack) = acknowledge(&mut session, packet(112, PTCPBody::Empty));
    assert!(ack.is_none());
    assert_eq!(session.recv, 112);
}

fn payload(realm: u32, data: &[u8]) -> PTCPBody {
    PTCPBody::Payload(PTCPPayload {
        realm,
        data: data.to_vec(),
    })
}

#[test]
fn statuses_of_the_camera_are_acted_on() {
    let mut table = RealmTable::<u8>::new();
    let mut health = HealthCounters::default();
    let mut reader = DhReader::new(0, DropPolicy::Block, 4, &mut health);
    let lane = table.register(7, 3);
    let status = |s: &str| PTCPBody::Status(7, s.to_string());
    let note = reader.act(&mut table, &mut health, 0, status("CONN"), 0);
    assert!(matches!(note, Noted::Ready(7, Some(3))));
    let note = reader.act(&mut table, &mut health, 0, status("CONN"), 0);
    assert!(matches!(note, Noted::Ready(7, None)));
    let note = reader.act(&mut table, &mut health, 0, status("CONNECTING"), 0);
    assert!(matches!(note, Noted::Status(7, _)));
    let note = reader.act(&mut table, &mut health, 0, status("DISCONNECTED"), 0);
    assert!(matches!(note, Noted::Over(7, true)));
    assert!(table.is_closed(lane));
    let note = reader.act(&mut table, &mut health, 0, status("DISC"), 0);
    assert!(matches!(note, Noted::Over(7, false)));
    let note = reader.act(&mut table, &mut health, 0, PTCPBody::Heartbeat, 0);
    assert!(matches!(note, Noted::Nothing));
    assert_eq!(health, HealthCounters::default());
}

#[test]
fn unbuffered_payloads_go_straight_to_the_client() {
    let mut table = RealmTable::<u8>::new();
    let mut health = HealthCounters::default();
    let mut reader = DhReader::new(0, DropPolicy::Block, 4, &mut health);
    assert!(!reader.is_buffering() && reader.has_room());
    let lane = table.register(7, 0);
    reader.act(&mut table, &mut health, 50, payload(7, b"xyz"), 0);
    reader.act(&mut table, &mut health, 10, payload(7, b"abc"), 0);
    assert_eq!(lane_frame(&mut table, lane).unwrap(), b"xyz");
    assert_eq!(lane_frame(&mut table, lane).unwrap(), b"abc");
    assert_eq!((health.bytes_from_device, health.packets_from_device), (6, 2));
    assert_eq!(health.jitter_in_packets, 0);
    assert!(reader.finish(&mut table, &mut health).is_none());
}

#[test]
fn buffered_payloads_are_put_in_order_and_counted() {
    let mut table = RealmTable::<u8>::new();
    let mut health = HealthCounters::default();
    let mut reader = DhReader::new(100, DropPolicy::Block, 8, &mut health);
    assert!(health.jitter_enabled && reader.is_buffering());
    let lane = table.register(7, 0);
    reader.act(&mut table, &mut health, 20, payload(7, b"second"), 0);
    reader.act(&mut table, &mut health, 10, payload(7, b"first"), 0);
    assert_eq!(lane_frame(&mut table, lane), None);
    assert_eq!(health.jitter_max_depth, 2);
    reader.tick(&mut table, &mut health, SECOND / 20);
    assert_eq!(health.jitter_out_packets, 0);
    reader.tick(&mut table, &mut health, SECOND);
    assert_eq!(lane_frame(&mut table, lane).unwrap(), b"first");
    assert_eq!(lane_frame(&mut table, lane).unwrap(), b"second");
    assert_eq!((health.jitter_out_packets, health.jitter_out_bytes), (2, 11));
    // Too late now.
    reader.act(&mut table, &mut health, 15, payload(7, b"late"), SECOND);
    assert_eq!(health.jitter_late_drops, 1);
    assert_eq!((health.jitter_in_packets, health.jitter_in_bytes), (3, 15));
    reader.act(&mut table, &mut health, 30, payload(7, b"last"), SECOND);
    let stats = reader.finish(&mut table, &mut health).unwrap();
    assert_eq!(
        stats,
        "JitterBuffer stats: in=4, out=3, dropped=1, buffered=0, wraparounds=0"
    );
    assert_eq!(lane_frame(&mut table, lane).unwrap(), b"last");
}

#[test]
fn held_packets_leave_by_the_clock() {
    let mut jb = JitterBuffer::new(Duration::from_millis(1));
    assert!(jb.insert(1, 1, vec![1]).is_empty() || jb.buffered_len() == 0);
    let started = std::time::Instant::now();
    while started.elapsed() < std::time::Duration::from_millis(5) {}
    jb.tick();
    assert_eq!(jb.buffered_len(), 0);
    assert!(jb.has_room());
}

#[test]
fn client_input_becomes_events() {
    match process_reader(5, ClientInput::Data(vec![1, 2])) {
        (Some(PTCPEvent::Data(5, data)), None) => assert_eq!(data, vec![1, 2]),
        _ => panic!("expected data"),
    }
    assert!(matches!(
        process_reader(5, ClientInput::Data(Vec::new())),
        (Some(PTCPEvent::Disconnect(5)), Some(StopReason::PeerClosed))
    ));
    assert!(matches!(
        process_reader(5, ClientInput::Failed(ErrorKind::Other)),
        (Some(PTCPEvent::Disconnect(5)), Some(StopReason::ReadError))
    ));
    assert!(matches!(
        process_reader(5, ClientInput::Shutdown),
        (None, Some(StopReason::Shutdown))
    ));
    assert_eq!(StopReason::PeerClosed.name(), "peer_closed");
    assert_eq!(StopReason::ReadError.name(), "read_error");
    assert_eq!(StopReason::Shutdown.name(), "shutdown_signal");
}

#[test]
fn resets_are_expected_until_they_burst() {
    let mut resets = ResetBurstTracker::new(Duration::from_secs(60), 2);
    let mut health = HealthCounters::default();
    let reset = Some(ErrorKind::ConnectionReset);
    for (now, expected) in [
        (0, Report::Expected),
        (SECOND, Report::Expected),
        (2 * SECOND, Report::Burst(3)),
        (70 * SECOND, Report::Expected),
    ] {
        let report = connection_ended(reset, now, &mut resets, &mut health);
        assert_eq!(report, expected, "{}", now);
    }
    assert_eq!(connection_ended(None, 0, &mut resets, &mut health), Report::Expected);
    let other = Some(ErrorKind::Other);
    assert_eq!(connection_ended(other, 0, &mut resets, &mut health), Report::Failure);
    assert_eq!(health.tcp_peer_disconnects, 5);
    assert_eq!(health.tcp_peer_resets, 4);
    assert_eq!(health.tcp_peer_reset_bursts, 1);
}

#[test]
fn reset_window_slides_and_zero_disables() {
    let mut resets = ResetBurstTracker::new(Duration::from_secs(60), 1);
    assert_eq!(resets.record(0), (1, false));
    assert_eq!(resets.record(59 * SECOND), (2, true));
    assert_eq!(resets.record(60 * SECOND), (2, true));
    assert_eq!(resets.record(1000 * SECOND), (1, false));
    let mut never = ResetBurstTracker::new(Duration::from_secs(60), 0);
    for i in 1..50 {
        assert_eq!(never.record(i as u128), (i, false));
    }
}

#[test]
fn health_is_reported_and_reset() {
    let mut health = HealthCounters::default();
    health.bytes_from_device = 121;
    health.drops_oldest = 4;
    health.jitter_enabled = true;
    update_max(&mut health.jitter_max_depth, 6);
    update_max(&mut health.jitter_max_depth, 5);
    assert_eq!(
        health.report(2, 1, 60),
        "Health realms=2 waiters=1 bytes_in=121 bytes_out=0 in_Bps=2 out_Bps=0 pkts_in=0 pkts_out=0 drops_newest=0 drops_oldest=4 jitter_on=true jitter_in_pkts=0 jitter_out_pkts=0 jitter_in_bytes=0 jitter_out_bytes=0 jitter_late_drops=0 jitter_max_depth=6 tcp_peer_disconnects=0 tcp_peer_resets=0 tcp_peer_reset_bursts=0"
    );
    let mut fresh = HealthCounters::default();
    fresh.jitter_enabled = true;
    assert_eq!(health, fresh);
}

fn pause_of(next: Next) -> u128 {
    match next {
        Next::Restart(d) => d.as_millis(),
        Next::Stop => panic!("expected a restart"),
    }
}

#[test]
fn restarts_wait_longer_and_longer() {
    let config = Config::default();
    let mut backoff = Backoff::new(&config);
    let short = Duration::from_secs(1);
    let restart = ShutdownReason::Restart;
    let waits: Vec<u128> = (0..7)
        .map(|_| pause_of(backoff.after_run_with(restart, short, &config, 7)))
        .collect();
    assert_eq!(waits, vec![1007, 2007, 4007, 8007, 16007, 30007, 30007]);
    let healthy = Duration::from_secs(60);
    let pause = pause_of(backoff.after_run_with(ShutdownReason::RestartWatchdog, healthy, &config, 0));
    assert_eq!(pause, 1000);
    assert_eq!(backoff.secs, 2);
    assert!(matches!(
        backoff.after_run_with(ShutdownReason::Stop, short, &config, 0),
        Next::Stop
    ));
}

#[test]
fn random_part_of_a_pause_is_bounded() {
    let mut config = Config::default();
    config.restart_backoff_jitter_ms = 3;
    let mut seen = Vec::new();
    for _ in 0..200 {
        let mut backoff = Backoff::new(&config);
        assert!(backoff.can_pause(Duration::from_secs(0), &config, 3));
        let pause = pause_of(backoff.after_run(
            ShutdownReason::Restart,
            Duration::from_secs(0),
            &config,
        ));
        assert!((1000..=1003).contains(&pause));
        seen.push(pause);
    }
    assert!(seen.iter().any(|p| *p != seen[0]));
    config.restart_backoff_initial_secs = u64::MAX;
    assert!(!Backoff::new(&config).can_pause(Duration::from_secs(0), &config, u64::MAX));
}

#[test]
fn restart_reasons_are_told_apart() {
    assert!(!ShutdownReason::Stop.is_restart());
    for reason in [
        ShutdownReason::Restart,
        ShutdownReason::RestartWatchdog,
        ShutdownReason::RestartPtcpSendRefused,
        ShutdownReason::RestartPtcpReadFatal,
    ] {
        assert!(reason.is_restart());
        assert_eq!(
            reason.is_ptcp_send_refused(),
            reason == ShutdownReason::RestartPtcpSendRefused
        );
    }
}

#[test]
fn silence_of_the_camera_restarts_the_tunnel() {
    let mut config = Config::default();
    config.heartbeat_missed_limit = 3;
    config.heartbeat_timeout_grace_secs = 5;
    let mut probe = ProbeState::default();
    let (metric, reason) = after_start(StartOutcome::Ready, &mut probe);
    assert_eq!((metric, reason), (Some("handshake_success"), None));
    assert!(probe.is_ready());
    assert_eq!(watch(&mut probe, &config, Duration::from_millis(34_999)), None);
    assert!(probe.is_ready());
    assert_eq!(
        watch(&mut probe, &config, Duration::from_secs(35)),
        Some(ShutdownReason::Restart)
    );
    assert_eq!((probe.ready_status(), probe.live_status()), (503, 200));
    heard(&mut probe);
    assert_eq!(probe.ready_status(), 200);
}

#[test]
fn failed_starts_are_restarted() {
    for (outcome, metric) in [
        (StartOutcome::NoSocket, None),
        (StartOutcome::HandshakeFailed, Some("handshake_fail")),
        (StartOutcome::HandshakeTimedOut, Some("handshake_timeout")),
    ] {
        let mut probe = ProbeState {
            handshake_ready: true,
            heartbeat_ok: true,
        };
        let restart = Some(ShutdownReason::Restart);
        assert_eq!(after_start(outcome, &mut probe), (metric, restart));
        assert!(!probe.is_ready());
    }
}

#[test]
fn every_realm_is_told_that_it_is_over() {
    let mut table = RealmTable::<u8>::new();
    for realm in [3, 1, 2] {
        table.register(realm, 0);
    }
    let mut told: Vec<u32> = farewell(&mut table)
        .into_iter()
        .map(|event| match event {
            PTCPEvent::Disconnect(realm) => realm,
            _ => panic!("expected a disconnect"),
        })
        .collect();
    told.sort_unstable();
    assert_eq!(told, vec![1, 2, 3]);
    assert_eq!((table.realm_count(), table.waiter_count()), (0, 0));
}

#[test]
fn end_of_a_run_depends_on_how_it_went() {
    assert_eq!(release_via(true, true), ReleaseVia::SameSocket);
    assert_eq!(release_via(false, true), ReleaseVia::NewSocket);
    assert_eq!(release_via(true, false), ReleaseVia::Nothing);
    assert!(awaits_signal(ShutdownReason::Stop));
    assert!(!awaits_signal(ShutdownReason::Restart));
}

#[test]
fn counters_are_kept_by_name() {
    let mut metrics = InMemoryMetrics::default();
    metrics.inc_counter("restart");
    metrics.inc_counter("client_accept");
    metrics.inc_counter("restart");
    assert_eq!(metrics.counter("restart"), 2);
    assert_eq!(metrics.counter("client_accept"), 1);
    assert_eq!(metrics.counter("other"), 0);
}

#[test]
fn descriptors_are_reported() {
    assert_eq!(
        log_fd_snapshot("periodic", Ok(12), 3, 4),
        "FD usage [periodic]: open_fds=12, channels=3, conn_channels=4"
    );
    assert_eq!(
        log_fd_snapshot("x", Err("denied"), 0, 0),
        "FD usage [x]: open_fds=unavailable (denied), channels=0, conn_channels=0"
    );
}

#[test]
fn port_specifications_are_read() {
    let spec = parse_port_spec(DEFAULT_PORT_SPEC).ok().unwrap();
    assert_eq!(spec.bind_address, "127.0.0.1");
    assert_eq!((spec.bind_port, spec.remote_port), (1554, 554));
    let spec = parse_port_spec("80:8080").ok().unwrap();
    assert_eq!(spec.bind_address, "127.0.0.1");
    assert_eq!((spec.bind_port, spec.remote_port), (80, 8080));
    let spec = parse_port_spec("0.0.0.0:1:2").ok().unwrap();
    assert_eq!(spec.bind_address, "0.0.0.0");
    for (text, expected) in [
        ("1554", PortSpecError::Shape),
        ("a:b:1:2", PortSpecError::Shape),
        ("x:1", PortSpecError::Number(IntError::InvalidDigit)),
        ("1:", PortSpecError::Number(IntError::Empty)),
        ("1:65536", PortSpecError::Number(IntError::TooLarge)),
    ] {
        assert_eq!(parse_port_spec(text).err(), Some(expected), "{}", text);
    }
    assert_eq!(PortSpecError::Shape.describe(), "Invalid port specification");
}

#[test]
fn options_make_usable_settings() {
    let options = Options {
        buffer_ms: 50,
        drop_policy: DropPolicy::DropNewest,
        health_interval_secs: 0,
        heartbeat_interval_secs: 0,
        heartbeat_missed_limit: 0,
        heartbeat_timeout_grace_secs: 10,
        enable_probe: true,
        probe_port: 9000,
        max_pending_realm_setups: 0,
        reset_burst_warn_threshold_per_minute: 0,
    };
    let config = options.apply(Config::default());
    assert_eq!(config.heartbeat_interval_secs, 1);
    assert_eq!(config.heartbeat_missed_limit, 1);
    assert_eq!(config.max_pending_realm_setups, 1);
    assert_eq!(config.health_interval_secs, 0);
    assert_eq!(config.jitter_buffer_ms, 50);
    assert_eq!(config.channel_capacity, 128);
    assert_eq!(config.ptcp_inactivity_timeout_secs(), 11);
    assert_eq!(parse_drop_policy("block"), Some(DropPolicy::Block));
    assert_eq!(parse_drop_policy("drop_newest"), Some(DropPolicy::DropNewest));
    assert_eq!(
        parse_drop_policy("keep_latest"),
        Some(DropPolicy::DropOldestKeepLatest)
    );
    assert_eq!(parse_drop_policy("Block"), None);
    assert_eq!(verbosity(0), Verbosity::Info);
    assert_eq!(verbosity(1), Verbosity::Debug);
    assert_eq!(verbosity(9), Verbosity::Trace);
}

#[test]
fn inactivity_timeout_saturates() {
    let mut config = Config::default();
    config.heartbeat_interval_secs = u64::MAX;
    config.heartbeat_missed_limit = 2;
    config.heartbeat_timeout_grace_secs = 1;
    assert_eq!(config.ptcp_inactivity_timeout_secs(), u64::MAX);
}

#[test]
fn addresses_are_shown() {
    assert_eq!(address_text("0.0.0.0", 8080), "0.0.0.0:8080");
    assert_eq!(
        rtsp_hint(1554, 554).unwrap(),
        "rtsp://127.0.0.1:1554/cam/realmonitor?channel=1&subtype=0"
    );
    assert_eq!(
        rtsp_hint(554, 554).unwrap(),
        "rtsp://127.0.0.1/cam/realmonitor?channel=1&subtype=0"
    );
    assert_eq!(rtsp_hint(1554, 80), None);
}

#[test]
fn frame_may_be_kept_out_for_five_seconds() {
    let mut patience = Patience::new();
    let five = ForwardNext::WaitFor(Duration::from_secs(5));
    let one = ForwardNext::WaitFor(Duration::from_secs(1));
    assert_eq!(patience.after_forward(Forwarded::Blocked, 10 * SECOND), five);
    assert_eq!(patience.after_forward(Forwarded::Blocked, 14 * SECOND), one);
    assert_eq!(
        patience.after_forward(Forwarded::Blocked, 15 * SECOND),
        ForwardNext::GiveUp
    );
    // The next frame has the whole time again, and so has one behind a frame that was moved.
    assert_eq!(patience.after_forward(Forwarded::Blocked, 15 * SECOND), five);
    assert_eq!(
        patience.after_forward(Forwarded::Moved, 19 * SECOND),
        ForwardNext::Again
    );
    assert_eq!(patience.after_forward(Forwarded::Blocked, 30 * SECOND), five);
    assert_eq!(
        patience.after_forward(Forwarded::Idle, 31 * SECOND),
        ForwardNext::Wait
    );
    assert_eq!(
        patience.after_forward(Forwarded::Closed, 32 * SECOND),
        ForwardNext::End
    );
}

#[test]
fn every_order_of_arrival_gives_the_same_frames() {
    let seqs = [u32::MAX - 7, u32::MAX, 3, 9];
    let mut orders = 0;
    for code in 0..256usize {
        let order: Vec<usize> = (0..4).map(|i| (code >> (2 * i)) & 3).collect();
        let mut seen = order.clone();
        seen.sort_unstable();
        if seen != vec![0, 1, 2, 3] {
            continue;
        }
        orders += 1;
        let mut jb = JitterBuffer::new(Duration::from_secs(1));
        for (at, i) in order.into_iter().enumerate() {
            let out = jb.insert_at(seqs[i], i as u32, vec![i as u8], at as u128);
            assert!(out.is_empty());
        }
        let all: Vec<(u32, Vec<u8>)> = (0..4).map(|i| (i as u32, vec![i as u8])).collect();
        assert_eq!(jb.flush_all(), all);
    }
    assert_eq!(orders, 24);
}

#[test]
fn hung_up_client_that_times_out_leaves_no_lane() {
    let mut table = RealmTable::<u8>::new();
    let lane = table.register(5, 1);
    let mut health = HealthCounters::default();
    table.route(5, vec![1], DropPolicy::Block, 4, &mut health);
    assert!(table.hang_up(5));
    let turned_away = (false, Some("realm_ready_timeout"));
    assert_eq!(
        settle_client(&mut table, 5, lane, SetupEvent::TimedOut),
        turned_away
    );
    assert_eq!((table.realm_count(), table.waiter_count()), (0, 0));
    // The frame went with the lane.
    assert_eq!(lane_frame(&mut table, lane), None);
}

#[test]
fn frames_leave_in_order_over_many_calls() {
    let mut jb = JitterBuffer::new(Duration::from_millis(10));
    let start = u32::MAX - 50;
    let mut left: Vec<u32> = Vec::new();
    let mut state: u32 = 12345;
    for step in 0..400u32 {
        state = state.wrapping_mul(1_103_515_245).wrapping_add(12345);
        let seq = start.wrapping_add((step / 4 * 3 + (state >> 16) % 40) % 400);
        let at = step as u128 * 1_000_000;
        let offset = seq.wrapping_sub(start);
        left.extend(jb.insert_at(seq, offset, vec![1], at).iter().map(|f| f.0));
        if step % 3 == 0 {
            left.extend(jb.tick_at(at).iter().map(|f| f.0));
        }
    }
    left.extend(jb.flush_all().iter().map(|f| f.0));
    assert!(left.len() > 50);
    assert!(left.windows(2).all(|w| w[0] < w[1]));
}
