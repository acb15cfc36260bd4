use plug2proxy::framing::FrameRead;
use plug2proxy::qomt::connection::{
    accept_connection_id, format_qomt_diagnostics, path_metrics_prefer_udp,
    reconnect_delay_with_jitter, GenerationEvent, GenerationStep, InitialFilter, InitialHeader,
    InitialStep, PathSample, QomtUdpReconnectPolicy, QomtUdpState, UdpGeneration,
    UdpSupervisor,
};
use plug2proxy::qomt::datagram_router::{
    PreparedDatagram, QomtDatagramRouter, QomtDatagramSendOutcome, QomtDatagramStats,
    RegistrationError, TryReceive, QOMT_DATAGRAM_ASSOCIATION_QUEUE_CAPACITY,
    QOMT_DATAGRAM_ENVELOPE_SIZE, QOMT_DATAGRAM_WIRE_VERSION,
};
use plug2proxy::qomt::packet_stream::{
    check_frame, check_ready, ready_bytes, CloseStep, DecodeStep, IncomingLane, PollStep,
    QomtPacketDelivery, QomtPacketDropReason, QomtPacketSendOutcome, QomtPacketStream, SendStep,
    UdpPacketStreamError, WriterStep,
};
use plug2proxy::quic_connection::state::State;
use plug2proxy::quic_connection::underlay::QuicPathMetrics;
use plug2proxy::quic_connection::QuicDatagramSendError;
use plug2proxy::time::TimeSpan;

fn metrics(rtt_millis: u64, min_rtt_millis: Option<u64>) -> QuicPathMetrics {
    QuicPathMetrics {
        rtt: TimeSpan::from_millis(rtt_millis),
        min_rtt: min_rtt_millis.map(TimeSpan::from_millis),
        rttvar: TimeSpan::from_millis(0),
        dgram_sent: 0,
        dgram_recv: 0,
        dgram_lost: 0,
    }
}

#[test]
fn rtt_policy_uses_one_fixed_threshold() {
    assert!(!path_metrics_prefer_udp(
        metrics(29, Some(20)),
        metrics(20, Some(20)),
    ));
    assert!(path_metrics_prefer_udp(
        metrics(30, Some(20)),
        metrics(24, Some(20)),
    ));
    assert!(!path_metrics_prefer_udp(
        metrics(30, Some(20)),
        metrics(25, Some(20)),
    ));
}

#[test]
fn rtt_policy_requires_a_baseline_and_strict_udp_advantage() {
    assert!(!path_metrics_prefer_udp(
        metrics(30, None),
        metrics(20, Some(20)),
    ));
    assert!(!path_metrics_prefer_udp(
        metrics(30, Some(20)),
        metrics(25, Some(20)),
    ));
}

#[test]
fn unknown_paths_are_not_preferred() {
    let known = metrics(30, Some(20));
    let faster_udp = metrics(24, Some(20));
    let sample = |main, udp| PathSample { main, udp };
    assert!(!sample(None, Some(faster_udp)).rtt_prefers_udp());
    assert!(!sample(Some(known), None).rtt_prefers_udp());
    assert!(sample(Some(known), Some(faster_udp)).rtt_prefers_udp());
}

fn faster() -> PathSample {
    PathSample {
        main: Some(metrics(30, Some(20))),
        udp: Some(metrics(24, Some(20))),
    }
}

fn slower() -> PathSample {
    PathSample {
        main: Some(metrics(30, Some(20))),
        udp: Some(metrics(25, Some(20))),
    }
}

#[test]
fn short_packets_follow_the_last_comparison_of_the_paths() {
    let mut stream = QomtPacketStream::new(1);
    let at = |millis: u64| TimeSpan::from_millis(1_000 + millis);
    assert!(!stream.should_use_udp(10, Some(100), at(0), slower()));
    assert!(!stream.should_use_udp(10, Some(100), at(99), faster()));
    assert!(stream.should_use_udp(10, Some(100), at(100), faster()));
    assert!(stream.should_use_udp(10, Some(100), at(150), slower()));
    assert!(!stream.should_use_udp(10, Some(100), at(200), slower()));
    assert!(stream.should_use_udp(1_024, Some(1_024), at(200), slower()));
    assert!(!stream.should_use_udp(1_025, Some(1_024), at(200), faster()));
}

fn encode_datagram(association_id: u64, payload: &[u8]) -> Vec<u8> {
    let mut datagram = Vec::with_capacity(QOMT_DATAGRAM_ENVELOPE_SIZE + payload.len());
    datagram.push(QOMT_DATAGRAM_WIRE_VERSION);
    datagram.extend_from_slice(&association_id.to_be_bytes());
    datagram.extend_from_slice(payload);
    datagram
}

#[test]
fn registration_rejects_duplicates_and_unregisters_on_drop() {
    let mut router = QomtDatagramRouter::new();
    let association_id = 42;
    let registration = router.register(association_id).unwrap();

    assert_eq!(router.route_count(), 1);

    let duplicate_error = match router.register(association_id) {
        Ok(_) => panic!("duplicate association registration unexpectedly succeeded"),
        Err(error) => error,
    };
    assert_eq!(duplicate_error, RegistrationError::AlreadyExists);
    assert_eq!(router.route_count(), 1);

    let payload = b"registered association";
    router.dispatch(encode_datagram(association_id, payload));
    assert_eq!(
        router.try_receive(registration),
        TryReceive::Datagram(payload.to_vec())
    );
    assert_eq!(router.stats().received, 1);

    router.unregister(registration);

    assert_eq!(router.route_count(), 0);
    assert!(matches!(
        router.try_receive(registration),
        TryReceive::Disconnected
    ));
}

#[test]
fn malformed_and_unknown_datagrams_are_dropped_and_counted() {
    let mut router = QomtDatagramRouter::new();

    router.dispatch(Vec::new());

    let mut wrong_version = encode_datagram(7, b"payload");
    wrong_version[0] = QOMT_DATAGRAM_WIRE_VERSION.wrapping_add(1);
    router.dispatch(wrong_version);

    router.dispatch(encode_datagram(7, b"unknown association"));

    assert_eq!(
        router.stats(),
        QomtDatagramStats {
            dropped_unknown_association: 1,
            dropped_malformed: 2,
            ..QomtDatagramStats::default()
        }
    );
}

#[test]
fn full_association_queue_drops_and_counts_the_excess_datagram() {
    let mut router = QomtDatagramRouter::new();
    let association_id = 9;
    let registration = router.register(association_id).unwrap();

    for sequence in 0..=QOMT_DATAGRAM_ASSOCIATION_QUEUE_CAPACITY {
        router.dispatch(encode_datagram(association_id, &sequence.to_be_bytes()));
    }

    assert_eq!(
        router.waiting_count(registration),
        QOMT_DATAGRAM_ASSOCIATION_QUEUE_CAPACITY
    );
    assert_eq!(
        router.stats(),
        QomtDatagramStats {
            received: QOMT_DATAGRAM_ASSOCIATION_QUEUE_CAPACITY as u64,
            dropped_receive_queue_full: 1,
            ..QomtDatagramStats::default()
        }
    );
}

#[test]
fn associations_do_not_see_each_other() {
    let mut router = QomtDatagramRouter::new();
    let first = router.register(1).unwrap();
    let second = router.register(2).unwrap();
    router.dispatch(encode_datagram(2, b"two"));
    assert_eq!(router.try_receive(first), TryReceive::Empty);
    assert_eq!(router.try_receive(second), TryReceive::Datagram(b"two".to_vec()));
}

#[test]
fn datagrams_need_a_socket_and_room() {
    let mut router = QomtDatagramRouter::new();
    assert_eq!(router.max_payload_len(Some(100)), None);
    assert!(matches!(
        router.prepare_send(5, b"x", Some(100)),
        PreparedDatagram::Unavailable
    ));
    let generation = router.activate();
    assert_eq!(router.max_payload_len(Some(100)), Some(91));
    assert_eq!(router.max_payload_len(None), None);
    assert!(matches!(
        router.prepare_send(5, &[0; 92], Some(100)),
        PreparedDatagram::TooLarge
    ));
    match router.prepare_send(5, b"x", Some(100)) {
        PreparedDatagram::Send(datagram) => assert_eq!(datagram, encode_datagram(5, b"x")),
        _ => panic!("there is room"),
    }
    assert_eq!(router.on_sent(Ok(())), QomtDatagramSendOutcome::Queued);
    assert_eq!(
        router.on_sent(Err(QuicDatagramSendError::QueueFull)),
        QomtDatagramSendOutcome::QueueFull
    );
    assert_eq!(router.stats().sent, 1);
    assert_eq!(router.stats().dropped_send_queue_full, 1);
    router.finish(generation + 1);
    assert_eq!(router.max_payload_len(Some(100)), Some(91));
    router.finish(generation);
    assert_eq!(router.max_payload_len(Some(100)), None);
}

#[test]
fn packet_streams_queue_reliable_frames() {
    let mut stream = QomtPacketStream::new(3);
    assert_eq!(stream.association_id(), 3);
    let now = TimeSpan::from_secs(1);
    assert!(matches!(
        stream.start_send(10, QomtPacketDelivery::Reliable, Some(100), now, faster()),
        Ok(SendStep::Reliable)
    ));
    assert!(matches!(
        stream.start_send(10, QomtPacketDelivery::BestEffort, None, now, faster()),
        Ok(SendStep::ReliableFallback)
    ));
    assert!(matches!(
        stream.start_send(200, QomtPacketDelivery::BestEffort, Some(100), now, faster()),
        Ok(SendStep::ReliableFallback)
    ));
    assert_eq!(
        stream.try_reliable(vec![1, 2]),
        Ok(QomtPacketSendOutcome::ReliableQueued)
    );
    assert!(matches!(
        stream.writer_step(),
        WriterStep::Write { encoded, awaited: false } if encoded == vec![1, 2]
    ));
    assert!(stream.on_frame_written(true));
    assert!(matches!(stream.writer_step(), WriterStep::Wait));
}

#[test]
fn full_packet_queues_drop_best_effort_packets() {
    let mut stream = QomtPacketStream::new(3);
    let mut queued = 0;
    loop {
        match stream.try_reliable(vec![0]) {
            Ok(QomtPacketSendOutcome::ReliableQueued) => queued += 1,
            Ok(outcome) => {
                assert_eq!(
                    outcome,
                    QomtPacketSendOutcome::Dropped(
                        QomtPacketDropReason::ReliableFallbackQueueFull
                    )
                );
                break;
            }
            Err(error) => panic!("{error:?}"),
        }
    }
    assert!(queued > 0);
    assert_eq!(stream.stats().reliable_queued, queued);
    assert_eq!(stream.stats().dropped_reliable_queue_full, 1);
}

#[test]
fn closing_waits_for_queued_frames() {
    let mut stream = QomtPacketStream::new(3);
    assert_eq!(
        stream.try_reliable(vec![7]),
        Ok(QomtPacketSendOutcome::ReliableQueued)
    );
    assert!(matches!(stream.poll_close(), CloseStep::Pending));
    assert!(matches!(stream.writer_step(), WriterStep::Write { .. }));
    assert!(stream.on_frame_written(true));
    assert!(matches!(stream.writer_step(), WriterStep::ShutDown));
    stream.on_shut_down(Ok(()));
    assert!(matches!(stream.poll_close(), CloseStep::Done));
    assert_eq!(
        stream.try_reliable(vec![8]),
        Err(UdpPacketStreamError::Closed)
    );
}

#[test]
fn packets_of_both_lanes_are_read_in_turn() {
    let mut stream = QomtPacketStream::new(3);
    assert_eq!(stream.on_reliable_read(FrameRead::Packet(vec![1])), Some(true));
    stream.on_datagram(vec![2]);
    match stream.poll_step(0) {
        PollStep::Decode(packet) => {
            assert_eq!(packet.lane, IncomingLane::Reliable);
            assert_eq!(packet.encoded, vec![1]);
        }
        _ => panic!("a packet waits"),
    }
    assert!(matches!(
        stream.on_decoded(IncomingLane::Reliable, true),
        DecodeStep::Yield
    ));
    match stream.poll_step(0) {
        PollStep::Decode(packet) => assert_eq!(packet.lane, IncomingLane::Datagram),
        _ => panic!("a packet waits"),
    }
    assert!(matches!(
        stream.on_decoded(IncomingLane::Datagram, false),
        DecodeStep::Skip
    ));
    assert_eq!(stream.stats().dropped_malformed_datagram, 1);
    assert!(matches!(stream.poll_step(0), PollStep::Pending));
}

#[test]
fn streams_begin_with_the_ready_mark() {
    let ready = ready_bytes();
    assert_eq!(check_ready(&ready), Ok(()));
    assert_eq!(check_ready(b"nope"), Err(UdpPacketStreamError::InvalidReady));
    assert_eq!(check_frame(0), Ok(()));
    assert_eq!(
        check_frame(usize::MAX),
        Err(UdpPacketStreamError::FrameTooLarge(usize::MAX))
    );
}

#[test]
fn reconnecting_backs_off_up_to_a_maximum() {
    let policy = QomtUdpReconnectPolicy::default();
    let maximum = policy.reconnect_max_delay.nanos;
    let mut supervisor = UdpSupervisor::new(QomtUdpReconnectPolicy::default());
    assert_eq!(supervisor.udp_state(State::Initial), QomtUdpState::Connecting);
    supervisor.begin_attempt();
    supervisor.attempt_failed();
    let mut last = 0;
    for _ in 0..12 {
        let delay = supervisor.next_delay().nanos;
        assert!(delay > 0);
        assert!(delay <= maximum);
        last = delay;
    }
    assert!(last * 5 >= maximum * 4);
    supervisor.begin_attempt();
    supervisor.established();
    assert_eq!(
        supervisor.udp_state(State::Established),
        QomtUdpState::Established
    );
    supervisor.close();
    assert_eq!(
        supervisor.udp_state(State::Established),
        QomtUdpState::Closed
    );
}

#[test]
fn jitter_is_at_most_a_fifth() {
    let delay = TimeSpan::from_millis(1_000);
    let maximum = TimeSpan::from_secs(60);
    for _ in 0..100 {
        let nanos = reconnect_delay_with_jitter(delay, maximum).nanos;
        assert!(nanos >= 800_000_000);
        assert!(nanos <= 1_200_000_000);
    }
}

#[test]
fn generations_end_with_their_connection() {
    let mut generation = UdpGeneration::new(true);
    assert_eq!(
        generation.step(GenerationEvent::KeepaliveTick),
        GenerationStep::SendAckEliciting
    );
    assert_eq!(
        generation.step(GenerationEvent::Closed),
        GenerationStep::AwaitRouterAndStop
    );
}

#[test]
fn only_initial_packets_open_connections() {
    let mut filter = InitialFilter::new(TimeSpan::from_secs(10));
    let now = TimeSpan::from_secs(1);
    assert!(matches!(filter.on_packet(None, now), InitialStep::Next));
    let header = InitialHeader {
        is_initial: true,
        version_supported: true,
        dcid: vec![5; 20],
    };
    assert!(matches!(
        filter.on_packet(Some(header), now),
        InitialStep::Accept(dcid) if dcid == vec![5; 20]
    ));
    let mut late = InitialFilter::new(TimeSpan::from_secs(10));
    assert!(matches!(
        late.on_packet(None, TimeSpan::from_secs(11)),
        InitialStep::DeadlineElapsed
    ));
}

#[test]
fn connection_ids_have_a_fixed_length() {
    assert_eq!(accept_connection_id(vec![1; 20]), Ok(vec![1; 20]));
    assert_eq!(accept_connection_id(vec![1; 8]), Err(8));
}

#[test]
fn diagnostics_name_both_paths() {
    let supervisor = UdpSupervisor::disabled();
    let text = format_qomt_diagnostics(
        "main=1",
        &supervisor,
        "udp=2",
        &QomtDatagramStats::default(),
    );
    assert_eq!(
        text,
        "main=1 udp=disabled qomt_dgram=[sent=0 recv=0 send_full=0 unknown=0 recv_full=0 \
         malformed=0]"
    );
}

#[test]
fn disabled_bypass_is_never_established() {
    let supervisor = UdpSupervisor::disabled();
    assert_eq!(supervisor.generation(), 0);
    assert_eq!(
        supervisor.udp_state(State::Established),
        QomtUdpState::Disabled
    );
}

#[test]
fn started_packets_are_taken_after_the_reader_has_ended() {
    let mut stream = QomtPacketStream::new(3);
    assert_eq!(stream.on_reliable_read(FrameRead::End), Some(false));
    assert!(stream.is_send_closed());
    assert_eq!(
        stream.start_send(
            10,
            QomtPacketDelivery::BestEffort,
            None,
            TimeSpan::from_secs(1),
            faster()
        ),
        Err(UdpPacketStreamError::Closed)
    );
    assert_eq!(
        stream.try_reliable(vec![1]),
        Ok(QomtPacketSendOutcome::ReliableQueued)
    );
    assert!(matches!(stream.writer_step(), WriterStep::Stop));
    assert_eq!(
        stream.try_reliable(vec![2]),
        Err(UdpPacketStreamError::Closed)
    );
}
