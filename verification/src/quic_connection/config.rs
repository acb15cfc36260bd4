//! The transport settings of the main connection and of its UDP bypass.

use vstd::prelude::*;

verus! {

/// The largest packet on the main connection: what a two-byte length of the transport holds.
pub const MAX_DATAGRAM_SIZE: usize = 16_383;

/// The largest packet on the UDP bypass: an IPv6 packet of 1452 bytes less the routing header.
pub const MAX_UDP_DATAGRAM_SIZE: usize = 1_436;

/// The silence after which the UDP bypass is given up.
pub const QOMT_UDP_IDLE_TIMEOUT_MILLIS: u64 = 15_000;

/// The silence after which the main connection is given up.
pub const MAIN_IDLE_TIMEOUT_MILLIS: u64 = 3_600_000;

pub const MAX_DATA_BUFFER_SIZE_PER_STREAM: u64 = 67_108_864;

pub const MAX_DATA_BUFFER_SIZE: u64 = 536_870_912;

pub const MAX_STREAMS: u64 = 65_536;

/// The application protocol that both ends must speak.
pub open spec fn application_protocol() -> Seq<u8> {
    seq![112u8, 50u8, 112u8]
}

/// What the transport of a connection is set to.
pub struct QuicSettings {
    pub pem_path: String,
    pub application_proto: Vec<u8>,
    pub verify_peer: bool,
    pub max_idle_timeout_millis: u64,
    pub initial_max_data: u64,
    pub initial_max_stream_data: u64,
    pub initial_max_streams: u64,
    pub disable_active_migration: bool,
    pub max_udp_payload_size: usize,
    pub pacing: bool,
    /// The lengths of the datagram queues (received, to send), where datagrams are in use.
    pub datagram_queues: Option<(usize, usize)>,
}

impl QuicSettings {
    /// What the two kinds of connections have in common.
    pub open spec fn common(&self, pem_path: Seq<char>) -> bool {
        &&& self.pem_path@ == pem_path
        &&& self.application_proto@ == application_protocol()
        &&& self.verify_peer
        &&& self.initial_max_data == MAX_DATA_BUFFER_SIZE
        &&& self.initial_max_stream_data == MAX_DATA_BUFFER_SIZE_PER_STREAM
        &&& self.initial_max_streams == MAX_STREAMS
        &&& self.disable_active_migration
    }
}

fn create_common_quiche_config(pem_path: &str) -> (settings: QuicSettings)
    ensures
        settings.common(pem_path@),
        settings.max_idle_timeout_millis == MAIN_IDLE_TIMEOUT_MILLIS,
        settings.max_udp_payload_size == MAX_DATAGRAM_SIZE,
        !settings.pacing,
        settings.datagram_queues is None,
{
    let application_proto: Vec<u8> = vec![112, 50, 112];
    assert(application_proto@ =~= application_protocol());
    QuicSettings {
        pem_path: pem_path.to_owned(),
        application_proto,
        verify_peer: true,
        max_idle_timeout_millis: MAIN_IDLE_TIMEOUT_MILLIS,
        initial_max_data: MAX_DATA_BUFFER_SIZE,
        initial_max_stream_data: MAX_DATA_BUFFER_SIZE_PER_STREAM,
        initial_max_streams: MAX_STREAMS,
        disable_active_migration: true,
        max_udp_payload_size: MAX_DATAGRAM_SIZE,
        pacing: false,
        datagram_queues: None,
    }
}

/// The settings of the main connection. It runs over TCP, which already paces.
pub fn create_quiche_config(pem_path: &str) -> (settings: QuicSettings)
    ensures
        settings.common(pem_path@),
        settings.max_idle_timeout_millis == MAIN_IDLE_TIMEOUT_MILLIS,
        settings.max_udp_payload_size == MAX_DATAGRAM_SIZE,
        !settings.pacing,
        settings.datagram_queues is None,
{
    create_common_quiche_config(pem_path)
}

/// The settings of the UDP bypass: short idle timeout, small packets, datagrams and pacing.
pub fn create_udp_quiche_config(pem_path: &str) -> (settings: QuicSettings)
    ensures
        settings.common(pem_path@),
        settings.max_idle_timeout_millis == QOMT_UDP_IDLE_TIMEOUT_MILLIS,
        settings.max_udp_payload_size == MAX_UDP_DATAGRAM_SIZE,
        settings.pacing,
        settings.datagram_queues == Some(
            (
                super::connection::QUIC_DATAGRAM_QUEUE_CAPACITY,
                super::connection::QUIC_DATAGRAM_QUEUE_CAPACITY,
            ),
        ),
{
    let mut settings = create_common_quiche_config(pem_path);
    settings.max_idle_timeout_millis = QOMT_UDP_IDLE_TIMEOUT_MILLIS;
    settings.max_udp_payload_size = MAX_UDP_DATAGRAM_SIZE;
    settings.datagram_queues = Some(
        (
            super::connection::QUIC_DATAGRAM_QUEUE_CAPACITY,
            super::connection::QUIC_DATAGRAM_QUEUE_CAPACITY,
        ),
    );
    settings.pacing = true;
    settings
}

/// Both kinds of connection verify their peer by the given file and speak `p2p`. The main one idles
/// for an hour and carries packets of up to 16383 bytes; the bypass idles for fifteen seconds,
/// carries packets of up to 1436 bytes and datagrams, and is paced.
pub proof fn law_bypasses_are_short_lived_and_small(
    pem_path: &str,
    main: QuicSettings,
    bypass: QuicSettings,
)
    requires
        call_ensures(create_quiche_config, (pem_path,), main),
        call_ensures(create_udp_quiche_config, (pem_path,), bypass),
    ensures
        main.pem_path@ == pem_path@ && bypass.pem_path@ == pem_path@,
        main.verify_peer && bypass.verify_peer,
        main.application_proto@ == seq![112u8, 50u8, 112u8],
        bypass.application_proto@ == main.application_proto@,
        main.max_idle_timeout_millis == 3_600_000,
        bypass.max_idle_timeout_millis == 15_000,
        main.max_udp_payload_size == 16_383,
        bypass.max_udp_payload_size == 1_436,
        main.datagram_queues is None && !main.pacing,
        bypass.datagram_queues == Some((64usize, 64usize)) && bypass.pacing,
        main.disable_active_migration && bypass.disable_active_migration,
{
}

/// A connection takes in half a gibibyte, 64 MiB of it on one stream, and up to 65,536 streams.
pub proof fn law_connections_are_limited(
    pem_path: &str,
    main: QuicSettings,
    bypass: QuicSettings,
)
    requires
        call_ensures(create_quiche_config, (pem_path,), main),
        call_ensures(create_udp_quiche_config, (pem_path,), bypass),
    ensures
        main.initial_max_data == 512 * 1_024 * 1_024,
        main.initial_max_stream_data == 64 * 1_024 * 1_024,
        main.initial_max_streams == 65_536,
        bypass.initial_max_data == main.initial_max_data,
        bypass.initial_max_stream_data == main.initial_max_stream_data,
        bypass.initial_max_streams == main.initial_max_streams,
{
}

} // verus!
