use plug2proxy::primitives::ConnectionSide;
use plug2proxy::qomt_tunnel::qomt_connection::{
    on_receive, on_send, PumpStep, QomtConnection,
};
use plug2proxy::quic_connection::config::{create_quiche_config, create_udp_quiche_config};
use plug2proxy::quic_connection::connection::{
    classify_datagram_send, discard_wakes_sender, DatagramRecv, ParkEnd, QuicConnection,
    ReadableAction, SendAction, SendPoll, TransmitResult,
};
use plug2proxy::quic_connection::diagnostics::{
    format_connection_diagnostics, format_connection_id, generate_connection_id, PathReport,
    TransportReport,
};
use plug2proxy::quic_connection::stream_tasks::{
    capacity_says_gone, next_recv_action, normalize_stream_send_result, on_recv_result,
    StreamRecvAction, StreamSend, StreamSendAction,
};
use plug2proxy::quic_connection::underlay::{
    select_path, LossDelayGuard, PathStats, QuicPathMetrics, UnderlaySnapshot,
};
use plug2proxy::quic_connection::{
    ConnectionError, QuicConnectionError, QuicDatagramSendError, State, StateUpdater,
    TransportError, TransportPhase,
};
use plug2proxy::quic_tunnel::quic_connection::{
    on_stream_recv, on_stream_send, DeliverStep, QuicConnection as TunnelConnection,
    QuicConnectionSide, ReadableStep, ReceiveStep, SendStep,
};
use plug2proxy::time::TimeSpan;

fn phase(established: bool, draining: bool, closed: bool) -> TransportPhase {
    TransportPhase {
        established,
        draining,
        closed,
    }
}

#[test]
fn empty_fin_done_is_accepted() {
    assert_eq!(
        normalize_stream_send_result(Err(TransportError::Done), true).unwrap(),
        Some(0),
    );
}

#[test]
fn data_done_remains_blocked() {
    assert_eq!(
        normalize_stream_send_result(Err(TransportError::Done), false).unwrap(),
        None,
    );
}

#[test]
fn send_results_pass_through() {
    assert_eq!(normalize_stream_send_result(Ok(5), false), Ok(Some(5)));
    assert_eq!(
        normalize_stream_send_result(Err(TransportError::InvalidState), true),
        Err(TransportError::InvalidState)
    );
}

#[test]
fn states_never_go_back() {
    let mut updater = StateUpdater::new();
    assert_eq!(updater.state(), State::Initial);
    assert_eq!(updater.update(phase(true, false, false)), State::Established);
    assert_eq!(updater.update(phase(false, false, false)), State::Established);
    assert_eq!(updater.update(phase(true, true, false)), State::Draining);
    assert_eq!(updater.update(phase(true, false, true)), State::Closed);
    assert_eq!(updater.set(State::Established), State::Closed);
    assert!(State::Closed.has_reached(State::Established));
    assert!(!State::Initial.has_reached(State::Established));
}

#[test]
fn stream_ids_tell_the_sides_apart() {
    let mut client = QuicConnection::new(ConnectionSide::Client);
    let mut server = QuicConnection::new(ConnectionSide::Server);
    let ids: Vec<u64> = (0..3).map(|_| client.open_stream()).collect();
    assert_eq!(ids, vec![0, 4, 8]);
    let ids: Vec<u64> = (0..3).map(|_| server.open_stream()).collect();
    assert_eq!(ids, vec![1, 5, 9]);
}

#[test]
fn streams_live_until_both_tasks_end() {
    let mut connection = QuicConnection::new(ConnectionSide::Client);
    let id = connection.open_stream();
    assert_eq!(connection.stream_count(), 1);
    assert_eq!(connection.uncreated_stream_count(), 1);
    connection.stream_created(id);
    assert_eq!(connection.created_stream_ids(), vec![id]);
    connection.stream_dropped(id);
    assert_eq!(connection.dropped_stream_count(), 1);
    connection.stream_task_finished(id);
    assert_eq!(connection.stream_count(), 1);
    connection.stream_task_finished(id);
    assert_eq!(connection.stream_count(), 0);
    assert!(connection.stream(id).is_none());
    assert!(matches!(
        connection.on_readable(id),
        ReadableAction::DiscardTornDown
    ));
}

#[test]
fn peer_streams_are_accepted_once() {
    let mut connection = QuicConnection::new(ConnectionSide::Client);
    assert!(matches!(connection.on_readable(1), ReadableAction::Accept));
    assert!(matches!(
        connection.on_readable(1),
        ReadableAction::WakeReceiver
    ));
    assert_eq!(connection.known_streams(&[0, 1, 2]), vec![1]);
}

#[test]
fn send_loop_transmits_parks_and_stops() {
    let mut connection = QuicConnection::new(ConnectionSide::Client);
    let now = TimeSpan::from_secs(10);
    let open = phase(true, false, false);
    assert_eq!(
        connection.on_send_poll(open, SendPoll::Packet { length: 99 }, now, None),
        SendAction::Transmit { length: 99 }
    );
    connection.transmit_started();
    assert!(connection.send_pending());
    assert!(connection.transmit_finished(TransmitResult::Sent, 7));
    assert!(!connection.send_pending());
    assert_eq!(connection.last_send_progress_millis(), 7);
    assert_eq!(
        connection.on_send_poll(open, SendPoll::Done, now, None),
        SendAction::Park {
            deadline: TimeSpan::from_secs(11)
        }
    );
    assert_eq!(
        connection.on_send_poll(
            open,
            SendPoll::Done,
            now,
            Some(TimeSpan::from_millis(10_500))
        ),
        SendAction::Park {
            deadline: TimeSpan::from_millis(10_500)
        }
    );
    assert!(connection.on_park_ended(ParkEnd::Notified));
    assert_eq!(
        connection.on_send_poll(open, SendPoll::Failed, now, None),
        SendAction::Stop
    );
    assert!(connection.driver_failed());
    assert!(!connection.is_available());
}

#[test]
fn received_datagrams_wait_in_order() {
    let mut connection = QuicConnection::new(ConnectionSide::Server);
    assert!(matches!(
        connection.datagram_recv_step(),
        DatagramRecv::AwaitEstablished
    ));
    connection.update_state(phase(true, false, false));
    assert!(matches!(
        connection.datagram_recv_step(),
        DatagramRecv::AwaitDatagram
    ));
    assert!(connection.on_datagram(vec![1]));
    assert!(connection.on_datagram(vec![2]));
    assert!(matches!(
        connection.datagram_recv_step(),
        DatagramRecv::Datagram(datagram) if datagram == vec![1]
    ));
    assert!(matches!(
        connection.datagram_recv_step(),
        DatagramRecv::Datagram(datagram) if datagram == vec![2]
    ));
    connection.mark_transport_closed();
    assert!(matches!(
        connection.datagram_recv_step(),
        DatagramRecv::Ended
    ));
}

#[test]
fn datagram_send_errors_are_told_apart() {
    assert_eq!(classify_datagram_send(Ok(()), 10, Some(100)), Ok(()));
    assert_eq!(
        classify_datagram_send(Err(TransportError::Done), 10, Some(100)),
        Err(QuicDatagramSendError::QueueFull)
    );
    assert_eq!(
        classify_datagram_send(Err(TransportError::BufferTooShort), 10, Some(5)),
        Err(QuicDatagramSendError::TooLarge {
            length: 10,
            maximum: Some(5)
        })
    );
    assert_eq!(
        classify_datagram_send(Err(TransportError::InvalidState), 10, Some(100)),
        Err(QuicDatagramSendError::Unavailable)
    );
    assert_eq!(
        classify_datagram_send(Err(TransportError::Other(3)), 10, Some(100)),
        Err(QuicDatagramSendError::Quiche(TransportError::Other(3)))
    );
    assert!(discard_wakes_sender(Ok(())));
}

#[test]
fn datagrams_are_sent_only_while_established() {
    let mut connection = QuicConnection::new(ConnectionSide::Client);
    let open = phase(true, false, false);
    assert_eq!(
        connection.check_datagram_send(phase(false, false, false)),
        Err(QuicDatagramSendError::Unavailable)
    );
    connection.update_state(open);
    assert_eq!(connection.check_datagram_send(open), Ok(()));
    assert_eq!(connection.max_writable_len(open, Some(1200)), Some(1200));
    connection.mark_transport_closed();
    assert_eq!(
        connection.check_datagram_send(open),
        Err(QuicDatagramSendError::Unavailable)
    );
    assert_eq!(connection.max_writable_len(open, Some(1200)), None);
}

#[test]
fn failures_become_the_result_of_the_connection() {
    let error = ConnectionError {
        is_app: false,
        error_code: 7,
        reason: b"why".to_vec(),
    };
    let mut connection = QuicConnection::new(ConnectionSide::Client);
    assert_eq!(connection.build_connection_result(5, None, None), Ok(5));
    assert_eq!(
        connection.build_connection_result(5, None, Some(error.clone())),
        Err(QuicConnectionError::QuicheConnectionPeer(error.clone()))
    );
    assert_eq!(
        connection.build_connection_result(5, Some(error.clone()), None),
        Err(QuicConnectionError::QuicheConnectionLocal(error))
    );
    connection.mark_transport_closed();
    assert_eq!(
        connection.build_connection_result(5, None, None),
        Err(QuicConnectionError::UnderlyingTransportClosed)
    );
    let mut connection = QuicConnection::new(ConnectionSide::Client);
    connection.mark_driver_failed();
    assert_eq!(
        connection.build_connection_result(5, None, None),
        Err(QuicConnectionError::DriverFailed)
    );
}

#[test]
fn stream_sends_go_on_from_where_they_stopped() {
    let mut send = StreamSend::new(10);
    assert_eq!(send.on_result(Ok(4), false), StreamSendAction::Send);
    assert_eq!(send.offset(), 4);
    assert_eq!(
        send.on_result(Err(TransportError::Done), false),
        StreamSendAction::AwaitRoom
    );
    assert_eq!(send.on_result(Ok(6), false), StreamSendAction::ReadNext);
    let mut fin = StreamSend::new(0);
    assert!(fin.is_fin());
    assert_eq!(
        fin.on_result(Err(TransportError::Done), false),
        StreamSendAction::Finished
    );
    let mut gone = StreamSend::new(10);
    assert_eq!(
        gone.on_result(Err(TransportError::StreamStopped(0)), false),
        StreamSendAction::Abandon
    );
    assert!(capacity_says_gone(Err(TransportError::StreamStopped(0))));
    assert!(!capacity_says_gone(Ok(1)));
}

#[test]
fn stream_receives_wait_for_the_stream() {
    let mut connection = QuicConnection::new(ConnectionSide::Client);
    let id = connection.open_stream();
    let signals = connection.stream(id).unwrap();
    assert_eq!(next_recv_action(signals), StreamRecvAction::AwaitCreated);
    connection.stream_created(id);
    let signals = connection.stream(id).unwrap();
    assert_eq!(next_recv_action(signals), StreamRecvAction::Receive);
    connection.stream_dropped(id);
    let signals = connection.stream(id).unwrap();
    assert_eq!(next_recv_action(signals), StreamRecvAction::StopPeer);
    assert_eq!(
        on_recv_result(Ok((3, false)), false),
        StreamRecvAction::Deliver { length: 3 }
    );
    assert_eq!(
        on_recv_result(Ok((3, true)), false),
        StreamRecvAction::DeliverLast { length: 3 }
    );
    assert_eq!(
        on_recv_result(Err(TransportError::Done), false),
        StreamRecvAction::AwaitReadable
    );
    assert_eq!(
        on_recv_result(Err(TransportError::Done), true),
        StreamRecvAction::End
    );
}

fn metrics(rtt_millis: u64) -> QuicPathMetrics {
    QuicPathMetrics {
        rtt: TimeSpan::from_millis(rtt_millis),
        min_rtt: None,
        rttvar: TimeSpan::from_millis(0),
        dgram_sent: 0,
        dgram_recv: 0,
        dgram_lost: 0,
    }
}

#[test]
fn the_active_path_is_selected() {
    assert_eq!(select_path(&[]), None);
    let idle = PathStats {
        active: false,
        metrics: metrics(1),
    };
    let active = PathStats {
        active: true,
        metrics: metrics(2),
    };
    assert_eq!(select_path(&[idle, active]), Some(metrics(2)));
    assert_eq!(select_path(&[idle]), Some(metrics(1)));
}

#[test]
fn loss_delay_is_rounded_up() {
    let mut guard = LossDelayGuard::new();
    let snapshot = UnderlaySnapshot {
        paths: 1,
        loss_delay_floor: TimeSpan::from_micros(12_345),
        quorum_ack_stall: TimeSpan::from_millis(0),
    };
    let update = guard.tick(snapshot, None, TimeSpan::from_secs(0));
    assert_eq!(update.floor_micros, 20_000);
    assert!(update.changed);
    assert!(!update.log);
    let update = guard.tick(snapshot, None, TimeSpan::from_secs(1));
    assert!(!update.changed);
    let several = UnderlaySnapshot {
        paths: 2,
        quorum_ack_stall: TimeSpan::from_millis(250),
        ..snapshot
    };
    let rtt = Some(TimeSpan::from_millis(10));
    let update = guard.tick(several, rtt, TimeSpan::from_secs(2));
    assert_eq!(update.floor_micros, 5_000_000);
    assert!(update.log);
    assert!(!guard.tick(several, rtt, TimeSpan::from_secs(6)).log);
    assert!(guard.tick(several, rtt, TimeSpan::from_secs(7)).log);
}

#[test]
fn connection_ids_are_random_and_printed_in_hex() {
    let id = generate_connection_id();
    assert_eq!(id.len(), 20);
    assert_ne!(id, generate_connection_id());
    assert_eq!(format_connection_id(&[0, 0x1f, 0xa0]), "001fa0");
}

#[test]
fn diagnostics_are_one_line() {
    let connection = QuicConnection::new(ConnectionSide::Client);
    let report = TransportReport {
        sent: 1,
        recv: 2,
        sent_bytes: 3,
        recv_bytes: 4,
        acked_bytes: 5,
        lost: 6,
        spurious_lost: 7,
        lost_bytes: 8,
        retrans: 9,
        stream_retrans_bytes: 10,
        data_blocked_sent: 11,
        data_blocked_recv: 12,
        stream_data_blocked_sent: 13,
        stream_data_blocked_recv: 14,
        streams_blocked_bidi_recv: 15,
        reset_local: 16,
        reset_remote: 17,
        stopped_local: 18,
        stopped_remote: 19,
        tx_buffered: "Consistent".to_owned(),
        path: Some(PathReport {
            rtt_ms: 20,
            rttvar_ms: 21,
            cwnd: 22,
            pto: 23,
            delivery_rate: 24,
            lost: 25,
            retrans: 26,
        }),
    };
    let text = format_connection_diagnostics(&connection, "abcd", 42, &report);
    assert!(text.contains("abcd"));
    assert!(text.contains("sent=1"));
    assert!(!text.contains('\n'));
}

#[test]
fn only_the_bypass_negotiates_datagrams() {
    let main = create_quiche_config("/tmp/node.pem");
    assert_eq!(main.pem_path, "/tmp/node.pem");
    assert_eq!(main.datagram_queues, None);
    assert!(main.verify_peer);
    let udp = create_udp_quiche_config("/tmp/node.pem");
    assert!(udp.datagram_queues.is_some());
    assert!(udp.max_udp_payload_size < main.max_udp_payload_size);
}

#[test]
fn tunnel_connections_number_their_streams() {
    let mut client = TunnelConnection::create(vec![1; 20], QuicConnectionSide::Client);
    assert_eq!(client.id(), &vec![1; 20]);
    assert!(!client.is_established());
    assert_eq!(client.open_stream(), 0);
    assert_eq!(client.open_stream(), 4);
    assert!(matches!(client.on_readable(1), ReadableStep::AcceptAndReceive));
    assert!(matches!(client.on_readable(1), ReadableStep::Skip));
    client.receive_task_finished(1);
    assert!(matches!(client.on_readable(1), ReadableStep::Receive));
    let (step, established) = client.on_receive(true, Ok(10));
    assert!(matches!(step, ReceiveStep::Dispatch));
    assert!(established);
    assert!(client.is_established());
    assert_eq!(TunnelConnection::generate_connection_id().len(), 20);
}

#[test]
fn tunnel_streams_send_everything() {
    assert!(matches!(
        on_stream_send(10, 0, Ok(4)),
        (SendStep::Send, 4)
    ));
    assert!(matches!(
        on_stream_send(10, 4, Ok(6)),
        (SendStep::ReadNext, 10)
    ));
    assert!(matches!(
        on_stream_send(10, 4, Err(TransportError::Done)),
        (SendStep::Await, 4)
    ));
    assert!(matches!(
        on_stream_recv(Ok((5, false))),
        DeliverStep::Deliver { length: 5 }
    ));
    assert!(matches!(
        on_stream_recv(Ok((5, true))),
        DeliverStep::DeliverAndClose { length: 5 }
    ));
    assert!(matches!(
        on_stream_recv(Err(TransportError::Done)),
        DeliverStep::Stop
    ));
}

#[test]
fn tunnel_pump_stops_on_errors() {
    let mut connection = QomtConnection::new();
    assert!(matches!(
        connection.on_readable(0),
        ReadableStep::AcceptAndReceive
    ));
    connection.receive_task_finished(0);
    assert!(matches!(on_receive(Ok(3)), ReceiveStep::Dispatch));
    assert!(matches!(
        on_send(Ok(3)),
        PumpStep::Transmit { length: 3 }
    ));
    assert!(matches!(
        on_send(Err(TransportError::Done)),
        PumpStep::AwaitStream
    ));
    assert!(matches!(
        on_send(Err(TransportError::InvalidState)),
        PumpStep::Stop
    ));
}
